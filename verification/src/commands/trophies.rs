//! `/trophies` list helpers: value cosmetics, who sees unused trophies,
//! the display name of a listed user, and the guild list filter.

use vstd::prelude::*;

use crate::messages::{args_view, message_view, ArgView, Message, MessageArg};
use crate::text::{chars_to_string, decimal, push_decimal, push_signed_decimal, push_str, signed_decimal};

verus! {

/// Rows per page, both subcommands.
pub const PER_PAGE: usize = 10;

/// Value cosmetics: positive → ` **+N**`, negative → ` **-N**`, zero →
/// nothing (the leading space lets rows compose cleanly).
pub open spec fn value_markup_spec(value: i32) -> Seq<char> {
    if value == 0 {
        Seq::empty()
    } else if value > 0 {
        " **+"@ + decimal(value as nat) + "**"@
    } else {
        " **"@ + signed_decimal(value as int) + "**"@
    }
}

/// Value cosmetics for a trophy row.
pub fn value_markup(value: i32) -> (s: String)
    ensures
        s@ == value_markup_spec(value),
{
    let mut v: Vec<char> = Vec::new();
    if value > 0 {
        push_str(&mut v, " **+");
        push_decimal(value as u64, &mut v);
        push_str(&mut v, "**");
    } else if value < 0 {
        push_str(&mut v, " **");
        push_signed_decimal(value as i64, &mut v);
        push_str(&mut v, "**");
    }
    assert(v@ =~= value_markup_spec(value));
    chars_to_string(&v)
}

/// Whether unused trophies are shown to this viewer: managers always see
/// them; everyone else follows the setting (0 = hide, anything else = show).
pub fn shows_unused(hide_unused_setting: i16, viewer_is_manager: bool) -> (show: bool)
    ensures
        show == (viewer_is_manager || hide_unused_setting != 0),
{
    viewer_is_manager || hide_unused_setting != 0
}

/// Display name straight from resolved interaction data: the global display
/// name when set, else the username. Never fails.
pub fn display_name<'a>(global_name: Option<&'a str>, username: &'a str) -> (name: &'a str)
    ensures
        name@ == match global_name {
            Some(g) => g@,
            None => username@,
        },
{
    match global_name {
        Some(g) => g,
        None => username,
    }
}

/// One `/trophies guild` row; `used` = at least one award references it.
#[derive(Debug, Clone, PartialEq, Eq)]
pub struct GuildTrophyRow {
    pub emoji: String,
    pub name: String,
    pub value: i32,
    pub used: bool,
}

/// Positions of the rows a viewer sees, in list order.
pub open spec fn visible_spec(rows: Seq<GuildTrophyRow>, show_unused: bool) -> Seq<usize>
    decreases rows.len(),
{
    if rows.len() == 0 {
        Seq::empty()
    } else {
        let before = visible_spec(rows.drop_last(), show_unused);
        if show_unused || rows.last().used {
            before.push((rows.len() - 1) as usize)
        } else {
            before
        }
    }
}

/// The guild list as a viewer sees it: the positions of the shown rows, in
/// order, and how many rows the unused filter hides.
pub fn visible_rows(rows: &[GuildTrophyRow], show_unused: bool) -> (r: (Vec<usize>, usize))
    ensures
        r.0@ == visible_spec(rows@, show_unused),
        r.1 == rows@.len() - r.0@.len(),
{
    let mut shown: Vec<usize> = Vec::new();
    let mut i: usize = 0;
    while i < rows.len()
        invariant
            i <= rows.len(),
            shown@ == visible_spec(rows@.take(i as int), show_unused),
            shown@.len() <= i,
        decreases rows.len() - i,
    {
        assert(rows@.take(i + 1).drop_last() =~= rows@.take(i as int));
        if show_unused || rows[i].used {
            shown.push(i);
        }
        i = i + 1;
    }
    assert(rows@.take(rows@.len() as int) =~= rows@);
    let hidden = rows.len() - shown.len();
    (shown, hidden)
}

/// Every shown position points at a row the viewer may see; showing unused
/// trophies shows every row.
pub proof fn lemma_visible_rows(rows: Seq<GuildTrophyRow>, show_unused: bool)
    requires
        rows.len() <= usize::MAX,
    ensures
        visible_spec(rows, show_unused).len() <= rows.len(),
        forall|k: int|
            0 <= k < visible_spec(rows, show_unused).len() ==> {
                let p = #[trigger] visible_spec(rows, show_unused)[k];
                &&& p < rows.len()
                &&& show_unused || rows[p as int].used
            },
        show_unused ==> visible_spec(rows, show_unused).len() == rows.len(),
    decreases rows.len(),
{
    if rows.len() > 0 {
        let p = rows.drop_last();
        lemma_visible_rows(p, show_unused);
        let before = visible_spec(p, show_unused);
        let now = visible_spec(rows, show_unused);
        assert forall|k: int| 0 <= k < now.len() implies {
            let q = #[trigger] now[k];
            &&& q < rows.len()
            &&& show_unused || rows[q as int].used
        } by {
            if k < before.len() {
                assert(now[k] == before[k]);
                assert(p[before[k] as int] == rows[before[k] as int]);
            } else {
                assert(now[k] == (rows.len() - 1) as usize);
            }
        }
    }
}

/// The page footer of both lists.
pub fn page_footer(page: usize, last: usize) -> (m: Message)
    ensures
        message_view(m) == (
            "trophies-footer-page"@,
            seq![("page"@, ArgView::Count(page as u64)), ("last"@, ArgView::Count(last as u64))],
        ),
{
    let m = Message::plain("trophies-footer-page").arg("page", MessageArg::Count(page as u64)).arg(
        "last",
        MessageArg::Count(last as u64),
    );
    assert(args_view(m.args@) =~= seq![
        ("page"@, ArgView::Count(page as u64)),
        ("last"@, ArgView::Count(last as u64)),
    ]);
    m
}

} // verus!
