//! Leaderboard view: page clamping before rank math, medals, display names
//! that never depend on a successful member fetch, and filtering of users
//! who left the guild.

use std::collections::HashMap;

use vstd::prelude::*;

use crate::text::{chars_to_string, str_chars};
use crate::util::{clamp_spec, last_page, mention, mention_spec, page_bounds};

verus! {

/// Users per leaderboard page.
pub const PER_PAGE: usize = 10;

/// Resolved membership of a leaderboard user in the guild.
#[derive(Debug, Clone, PartialEq, Eq)]
pub enum Membership {
    /// Confirmed member, with the fields the display formats need.
    Present { username: String, nickname: Option<String>, tag: String },
    /// Confirmed NOT a member (Discord answered 404 / unknown member).
    Absent,
    /// Lookup failed for another reason; treated as present for filtering
    /// and rendered as a mention.
    Unknown,
}

/// The `leaderboard_format` setting as a type.
#[derive(Debug, Clone, Copy, PartialEq, Eq, Structural)]
pub enum LeaderboardFormat {
    /// 0 — `<@id>`, no member data needed.
    Mention,
    /// 1 — username.
    Username,
    /// 2 — guild nickname, falling back to username.
    Nickname,
    /// 3 — username and tag.
    UsernameTag,
}

impl LeaderboardFormat {
    /// 1, 2, 3 select their format; any other value falls back to Mention.
    pub fn from_setting(value: i16) -> (f: Self)
        ensures
            f == (if value == 1 {
                LeaderboardFormat::Username
            } else if value == 2 {
                LeaderboardFormat::Nickname
            } else if value == 3 {
                LeaderboardFormat::UsernameTag
            } else {
                LeaderboardFormat::Mention
            }),
    {
        match value {
            1 => LeaderboardFormat::Username,
            2 => LeaderboardFormat::Nickname,
            3 => LeaderboardFormat::UsernameTag,
            _ => LeaderboardFormat::Mention,
        }
    }
}

/// Clamped pagination bounds: `page` is always within `[1, last]`.
#[derive(Debug, Clone, Copy, PartialEq, Eq, Structural)]
pub struct PageBounds {
    pub page: usize,
    pub last: usize,
}

/// Clamps a requested page (raw input: may be 0, negative or past the end)
/// into valid bounds for a list of `len` entries.
pub fn clamp_page(requested: i64, len: usize) -> (b: PageBounds)
    ensures
        b.last == last_page(len as int, PER_PAGE as int),
        b.page == clamp_spec(requested as int, b.last as int),
{
    let (page, last) = page_bounds(len, PER_PAGE, requested);
    PageBounds { page, last }
}

/// Medal for a global rank.
pub open spec fn medal_spec(rank: int) -> Seq<char> {
    if rank == 1 {
        seq!['🥇']
    } else if rank == 2 {
        seq!['🥈']
    } else if rank == 3 {
        seq!['🥉']
    } else {
        seq![':', 'm', 'e', 'd', 'a', 'l', ':']
    }
}

/// 🥇🥈🥉 for ranks 1-3, the generic `:medal:` otherwise.
pub fn medal(rank: usize) -> (m: &'static str)
    ensures
        m@ == medal_spec(rank as int),
{
    let m = if rank == 1 {
        "🥇"
    } else if rank == 2 {
        "🥈"
    } else if rank == 3 {
        "🥉"
    } else {
        ":medal:"
    };
    proof {
        reveal_strlit("🥇");
        reveal_strlit("🥈");
        reveal_strlit("🥉");
        reveal_strlit(":medal:");
    }
    m
}

/// The name shown for a user.
pub open spec fn display_name_spec(format: LeaderboardFormat, user_id: int, membership: Membership) -> Seq<
    char,
> {
    match membership {
        Membership::Present { username, nickname, tag } => match format {
            LeaderboardFormat::Mention => mention_spec(user_id),
            LeaderboardFormat::Username => username@,
            LeaderboardFormat::Nickname => match nickname {
                Some(n) => n@,
                None => username@,
            },
            LeaderboardFormat::UsernameTag => tag@,
        },
        _ => mention_spec(user_id),
    }
}

/// Renders one user's display name for the configured format. Formats that
/// need member data fall back to a mention when the member is absent or
/// unresolved, so rendering never fails.
pub fn display_name(format: LeaderboardFormat, user_id: i64, membership: &Membership) -> (s: String)
    ensures
        s@ == display_name_spec(format, user_id as int, *membership),
{
    match membership {
        Membership::Present { username, nickname, tag } => match format {
            LeaderboardFormat::Mention => mention(user_id),
            LeaderboardFormat::Username => username.clone(),
            LeaderboardFormat::Nickname => match nickname {
                Some(n) => n.clone(),
                None => username.clone(),
            },
            LeaderboardFormat::UsernameTag => tag.clone(),
        },
        _ => mention(user_id),
    }
}

/// One formatted leaderboard row.
#[derive(Debug, Clone, PartialEq, Eq)]
pub struct BoardRow {
    pub medal: String,
    /// Global rank (1-based position in the visible list).
    pub rank: usize,
    pub name: String,
    pub score: i64,
}

/// A fully computed leaderboard page.
#[derive(Debug, Clone, PartialEq, Eq)]
pub struct BoardView {
    /// Real whole-server score: the sum over ALL users with awards,
    /// independent of the visibility filter.
    pub total_score: i64,
    /// Rows of the (clamped) current page.
    pub rows: Vec<BoardRow>,
    /// Clamped current page (1-based).
    pub page: usize,
    /// Last page (at least 1).
    pub last: usize,
}

/// Sum of the scores of a board.
pub open spec fn total_spec(board: Seq<(i64, i64)>) -> int
    decreases board.len(),
{
    if board.len() == 0 {
        0
    } else {
        total_spec(board.drop_last()) + board.last().1
    }
}

/// Every running total of the board fits in `i64` (the sum never overflows).
pub open spec fn sums_fit(board: Seq<(i64, i64)>) -> bool {
    forall|k: int| 0 <= k <= board.len() ==> i64::MIN <= #[trigger] total_spec(board.take(k)) <= i64::MAX
}

/// Membership as seen by the view: users missing from the map are Unknown.
pub open spec fn membership_of(m: Map<i64, Membership>, user_id: i64) -> Membership {
    if m.contains_key(user_id) {
        m[user_id]
    } else {
        Membership::Unknown
    }
}

/// The board entry is shown: quit users are hidden only when the setting asks for it.
pub open spec fn is_visible(m: Map<i64, Membership>, hide_quit_users: bool, user_id: i64) -> bool {
    !hide_quit_users || !(membership_of(m, user_id) is Absent)
}

/// The visible entries of the board, in board order.
pub open spec fn visible_spec(board: Seq<(i64, i64)>, m: Map<i64, Membership>, hide_quit_users: bool) -> Seq<
    (i64, i64),
>
    decreases board.len(),
{
    if board.len() == 0 {
        Seq::empty()
    } else if is_visible(m, hide_quit_users, board.last().0) {
        visible_spec(board.drop_last(), m, hide_quit_users).push(board.last())
    } else {
        visible_spec(board.drop_last(), m, hide_quit_users)
    }
}

/// The row for visible entry `index` (0-based position in the visible list).
pub open spec fn row_spec(
    visible: Seq<(i64, i64)>,
    index: int,
    m: Map<i64, Membership>,
    format: LeaderboardFormat,
) -> (Seq<char>, int, Seq<char>, i64) {
    (
        medal_spec(index + 1),
        index + 1,
        display_name_spec(format, visible[index].0 as int, membership_of(m, visible[index].0)),
        visible[index].1,
    )
}

/// The view of a row.
pub open spec fn row_view(r: BoardRow) -> (Seq<char>, int, Seq<char>, i64) {
    (r.medal@, r.rank as int, r.name@, r.score)
}

/// Pure view builder: filters, paginates (clamping first), ranks and
/// formats. `board` is the full `(user_id, score)` list, already sorted by
/// score descending. Users missing from `membership` are treated as
/// [`Membership::Unknown`].
pub fn build_view(
    board: &[(i64, i64)],
    membership: &HashMap<i64, Membership>,
    hide_quit_users: bool,
    format: LeaderboardFormat,
    requested_page: i64,
) -> (v: BoardView)
    requires
        sums_fit(board@),
    ensures
        v.total_score == total_spec(board@),
        v.last == last_page(visible_spec(board@, membership@, hide_quit_users).len() as int, PER_PAGE as int),
        v.page == clamp_spec(requested_page as int, v.last as int),
        ({
            let visible = visible_spec(board@, membership@, hide_quit_users);
            let start = (v.page - 1) * PER_PAGE;
            &&& v.rows@.len() == (if visible.len() - start < PER_PAGE {
                visible.len() - start
            } else {
                PER_PAGE as int
            })
            &&& forall|k: int|
                0 <= k < v.rows@.len() ==> row_view(#[trigger] v.rows@[k]) == row_spec(
                    visible,
                    start + k,
                    membership@,
                    format,
                )
        }),
{
    broadcast use vstd::std_specs::hash::group_hash_axioms;

    let ghost m = membership@;
    // Whole-server total (independent of any filter).
    let mut total: i64 = 0;
    let mut i: usize = 0;
    while i < board.len()
        invariant
            i <= board.len(),
            sums_fit(board@),
            total == total_spec(board@.take(i as int)),
        decreases board.len() - i,
    {
        assert(board@.take(i + 1).drop_last() =~= board@.take(i as int));
        assert(i64::MIN <= total_spec(board@.take(i + 1)) <= i64::MAX);
        total = total + board[i].1;
        i = i + 1;
    }
    assert(board@.take(board@.len() as int) =~= board@);

    // Visible entries.
    let mut visible: Vec<(i64, i64)> = Vec::new();
    let mut i: usize = 0;
    while i < board.len()
        invariant
            i <= board.len(),
            m == membership@,
            visible@ == visible_spec(board@.take(i as int), m, hide_quit_users),
        decreases board.len() - i,
    {
        let (user_id, score) = board[i];
        assert(board@.take(i + 1).drop_last() =~= board@.take(i as int));
        assert(board@.take(i + 1).last() == board@[i as int]);
        let shown = if !hide_quit_users {
            true
        } else {
            match membership.get(&user_id) {
                Some(Membership::Absent) => false,
                _ => true,
            }
        };
        if shown {
            visible.push((user_id, score));
        }
        i = i + 1;
    }
    assert(board@.take(board@.len() as int) =~= board@);
    let ghost vis = visible@;

    let bounds = clamp_page(requested_page, visible.len());
    let start = (bounds.page - 1) * PER_PAGE;
    let end = if visible.len() - start < PER_PAGE {
        visible.len()
    } else {
        start + PER_PAGE
    };
    let mut rows: Vec<BoardRow> = Vec::new();
    let mut k: usize = start;
    while k < end
        invariant
            start <= k <= end <= visible.len(),
            vis == visible@,
            m == membership@,
            rows@.len() == k - start,
            forall|j: int|
                0 <= j < rows@.len() ==> row_view(#[trigger] rows@[j]) == row_spec(
                    vis,
                    start + j,
                    m,
                    format,
                ),
        decreases end - k,
    {
        let (user_id, score) = visible[k];
        let rank = k + 1;
        let name = match membership.get(&user_id) {
            Some(found) => {
                assert(m.contains_key(user_id) && m[user_id] == *found);
                display_name(format, user_id, found)
            },
            None => {
                assert(!m.contains_key(user_id));
                display_name(format, user_id, &Membership::Unknown)
            },
        };
        let medal_text = str_chars(medal(rank));
        let row = BoardRow { medal: chars_to_string(&medal_text), rank, name, score };
        rows.push(row);
        k = k + 1;
    }
    BoardView { total_score: total, rows, page: bounds.page, last: bounds.last }
}

/// The users whose membership a view needs: every user when quit users are
/// hidden, only the users of the shown page when a name format needs member
/// data, nobody otherwise.
pub open spec fn members_needed(board: Seq<(i64, i64)>, hide_quit_users: bool, format: LeaderboardFormat, requested_page: i64) -> Seq<i64> {
    let ids = board.map_values(|e: (i64, i64)| e.0);
    if hide_quit_users {
        ids
    } else if format != LeaderboardFormat::Mention {
        let last = last_page(board.len() as int, PER_PAGE as int);
        let page = clamp_spec(requested_page as int, last);
        let start = (page - 1) * PER_PAGE;
        let end = if board.len() - start < PER_PAGE {
            board.len() as int
        } else {
            start + PER_PAGE
        };
        ids.subrange(start, end)
    } else {
        Seq::empty()
    }
}

/// Which users to look up before building a view (lookups cost HTTP calls
/// on cache misses, so only the needed ones are made).
pub fn members_to_resolve(board: &[(i64, i64)], hide_quit_users: bool, format: LeaderboardFormat, requested_page: i64) -> (ids: Vec<i64>)
    ensures
        ids@ == members_needed(board@, hide_quit_users, format, requested_page),
        hide_quit_users ==> ids@.len() == board@.len() && forall|i: int|
            0 <= i < board@.len() ==> #[trigger] ids@[i] == board@[i].0,
        !hide_quit_users && format == LeaderboardFormat::Mention ==> ids@.len() == 0,
        ids@.len() <= board@.len(),
        !hide_quit_users ==> ids@.len() <= PER_PAGE,
        !hide_quit_users && format != LeaderboardFormat::Mention ==> ({
            let start = (clamp_spec(requested_page as int, last_page(board@.len() as int, 10)) - 1) * 10;
            &&& ids@.len() == if board@.len() - start < 10 { board@.len() - start } else { 10 }
            &&& forall|i: int| 0 <= i < ids@.len() ==> #[trigger] ids@[i] == board@[start + i].0
            &&& board@.len() > 0 ==> ids@.len() > 0
        }),
{
    let ghost all = board@.map_values(|e: (i64, i64)| e.0);
    let (from, to): (usize, usize) = if hide_quit_users {
        (0, board.len())
    } else if format != LeaderboardFormat::Mention {
        let bounds = clamp_page(requested_page, board.len());
        let start = (bounds.page - 1) * PER_PAGE;
        let end = if board.len() - start < PER_PAGE {
            board.len()
        } else {
            start + PER_PAGE
        };
        (start, end)
    } else {
        (0, 0)
    };
    let mut ids: Vec<i64> = Vec::new();
    let mut i: usize = from;
    while i < to
        invariant
            from <= i <= to <= board.len(),
            all == board@.map_values(|e: (i64, i64)| e.0),
            ids@ == all.subrange(from as int, i as int),
        decreases to - i,
    {
        ids.push(board[i].0);
        assert(ids@ =~= all.subrange(from as int, i + 1));
        i = i + 1;
    }
    assert(all.subrange(0, board@.len() as int) =~= all);
    assert(all.subrange(0, 0) =~= Seq::<i64>::empty());
    proof {
        lemma_members_to_resolve_cover(board@, format, requested_page);
    }
    ids
}

/// The membership a failed lookup means: a 404 answer ("unknown member")
/// is a confirmed absence; any other failure keeps the user visible.
pub fn lookup_failure(status: Option<u16>) -> (m: Membership)
    ensures
        m == (if status == Some(404u16) {
            Membership::Absent
        } else {
            Membership::Unknown
        }),
{
    match status {
        Some(code) => {
            if code == 404 {
                Membership::Absent
            } else {
                Membership::Unknown
            }
        },
        None => Membership::Unknown,
    }
}

/// Showing quit users lists the whole board; hiding them drops exactly the
/// users confirmed absent and keeps unknown and unresolved ones.
pub proof fn lemma_visible_filter(board: Seq<(i64, i64)>, m: Map<i64, Membership>, hide: bool)
    ensures
        !hide ==> visible_spec(board, m, hide) == board,
        forall|e: (i64, i64)|
            #![trigger visible_spec(board, m, hide).contains(e)]
            visible_spec(board, m, hide).contains(e) <==> (board.contains(e) && is_visible(
                m,
                hide,
                e.0,
            )),
    decreases board.len(),
{
    if board.len() > 0 {
        let p = board.drop_last();
        let vp = visible_spec(p, m, hide);
        let vs = visible_spec(board, m, hide);
        lemma_visible_filter(p, m, hide);
        assert forall|e: (i64, i64)| vs.contains(e) <==> (board.contains(e) && is_visible(m, hide, e.0)) by {
            assert(vp.contains(e) <==> (p.contains(e) && is_visible(m, hide, e.0)));
            if board.contains(e) && is_visible(m, hide, e.0) {
                let k = choose|k: int| 0 <= k < board.len() && board[k] == e;
                if k < board.len() - 1 {
                    assert(p[k] == e);
                    assert(p.contains(e));
                    let j = choose|j: int| 0 <= j < vp.len() && vp[j] == e;
                    if is_visible(m, hide, board.last().0) {
                        assert(vs[j] == e);
                    } else {
                        assert(vs[j] == e);
                    }
                } else {
                    assert(vs[vs.len() - 1] == e);
                }
            }
            if vs.contains(e) {
                let k = choose|k: int| 0 <= k < vs.len() && vs[k] == e;
                if is_visible(m, hide, board.last().0) && k == vs.len() - 1 {
                    assert(board[board.len() - 1] == e);
                } else {
                    assert(vp[k] == e);
                    assert(vp.contains(e));
                    let j = choose|j: int| 0 <= j < p.len() && p[j] == e;
                    assert(board[j] == e);
                }
            }
        }
        if !hide {
            assert(visible_spec(board, m, hide) =~= board);
        }
    }
}


/// When quit users are hidden every board user is looked up, in board
/// order, whatever the name format and page; when they are shown and names
/// are mentions nobody is; otherwise exactly the users of the clamped page
/// are, in board order: at most one page, and at least one user whenever
/// the board has any.
pub proof fn lemma_members_to_resolve_cover(board: Seq<(i64, i64)>, format: LeaderboardFormat, requested_page: i64)
    ensures
        format != LeaderboardFormat::Mention ==> ({
            let ids = members_needed(board, false, format, requested_page);
            let start = (clamp_spec(requested_page as int, last_page(board.len() as int, 10)) - 1) * 10;
            &&& 0 <= start <= board.len()
            &&& ids.len() == if board.len() - start < 10 { board.len() - start } else { 10 }
            &&& forall|i: int| 0 <= i < ids.len() ==> #[trigger] ids[i] == board[start + i].0
            &&& board.len() > 0 ==> ids.len() > 0
        }),
        members_needed(board, true, format, requested_page).len() == board.len(),
        forall|i: int|
            0 <= i < board.len() ==> #[trigger] members_needed(board, true, format, requested_page)[i]
                == board[i].0,
        members_needed(board, false, LeaderboardFormat::Mention, requested_page).len() == 0,
        members_needed(board, false, format, requested_page).len() <= PER_PAGE,
{
    if format != LeaderboardFormat::Mention {
        let last = last_page(board.len() as int, PER_PAGE as int);
        let page = clamp_spec(requested_page as int, last);
        let start = (page - 1) * PER_PAGE;
        assert(1 <= page <= last);
        assert(last == if board.len() == 0 { 1 } else { (board.len() + PER_PAGE - 1) / PER_PAGE as int });
        assert(0 <= start <= board.len()) by (nonlinear_arith)
            requires
                1 <= page <= last,
                last == if board.len() == 0 { 1 } else { (board.len() + 10 - 1) / 10 },
                start == (page - 1) * 10,
        ;
    }
}

} // verus!
