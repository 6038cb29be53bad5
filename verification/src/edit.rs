//! `/edit` planning: merge the provided fields over the stored trophy and
//! report only REAL changes (providing a field's current value is no
//! change; the same dedicated user is no change even when the stored name
//! snapshot drifted; a new attachment always is).

use vstd::prelude::*;

use crate::messages::{arg_view, args_view, message_view, owned, ArgView, Message, MessageArg};
use crate::normalize::{normalize_name, normalize_spec};
use crate::text::{chars_eq, chars_to_string, push_str, str_chars, trim, trim_spec};
use crate::util::{mention, mention_spec};

verus! {

/// The editable fields of a stored trophy.
#[derive(Debug, Clone, PartialEq, Eq)]
pub struct TrophyFields {
    pub name: String,
    pub description: String,
    pub emoji: String,
    pub dedication_user_id: Option<i64>,
    pub dedication_text: Option<String>,
    pub details: String,
    pub image: Option<String>,
}

/// The caller-provided edits, already parsed and resolved.
#[derive(Debug, Clone, Default)]
pub struct EditRequest {
    pub name: Option<String>,
    pub description: Option<String>,
    pub emoji: Option<String>,
    /// `None` = option not provided; `Some((None, None))` = cleared;
    /// otherwise the resolved `(dedication_user_id, dedication_text)` pair.
    pub dedication: Option<(Option<i64>, Option<String>)>,
    pub details: Option<String>,
    /// New stored image filename when an attachment was provided.
    pub image: Option<String>,
}

/// One entry of the change report.
#[derive(Debug, Clone, PartialEq, Eq)]
pub enum Change {
    Name { old: String, new: String },
    Description { old: String, new: String },
    Emoji { old: String, new: String },
    /// Display-ready sides; `None` renders as the localized "(none)".
    Dedication { old: Option<String>, new: Option<String> },
    Details { old: String, new: String },
    Image,
}

/// The merged post-edit field values plus the change report.
#[derive(Debug, Clone, PartialEq, Eq)]
pub struct EditPlan {
    pub name: String,
    pub normalized_name: String,
    pub description: String,
    pub emoji: String,
    pub dedication_user_id: Option<i64>,
    pub dedication_text: Option<String>,
    pub details: String,
    pub image: Option<String>,
    pub changes: Vec<Change>,
}

/// An optional string by value.
pub open spec fn opt_text(o: Option<String>) -> Option<Seq<char>> {
    match o {
        Some(s) => Some(s@),
        None => None,
    }
}

/// A change by value.
pub enum ChangeView {
    Name(Seq<char>, Seq<char>),
    Description(Seq<char>, Seq<char>),
    Emoji(Seq<char>, Seq<char>),
    Dedication(Option<Seq<char>>, Option<Seq<char>>),
    Details(Seq<char>, Seq<char>),
    Image,
}

/// The value of a change.
pub open spec fn change_view(c: Change) -> ChangeView {
    match c {
        Change::Name { old, new } => ChangeView::Name(old@, new@),
        Change::Description { old, new } => ChangeView::Description(old@, new@),
        Change::Emoji { old, new } => ChangeView::Emoji(old@, new@),
        Change::Dedication { old, new } => ChangeView::Dedication(opt_text(old), opt_text(new)),
        Change::Details { old, new } => ChangeView::Details(old@, new@),
        Change::Image => ChangeView::Image,
    }
}

/// The change report by value.
pub open spec fn changes_view(cs: Seq<Change>) -> Seq<ChangeView> {
    cs.map_values(|c: Change| change_view(c))
}

/// A text field after the edit: the provided value, else the stored one.
pub open spec fn merged(old: String, new: Option<String>) -> Seq<char> {
    match new {
        Some(n) => n@,
        None => old@,
    }
}

/// `(old, new)` when a provided text differs from the stored one.
pub open spec fn text_change(old: String, new: Option<String>) -> Option<(Seq<char>, Seq<char>)> {
    match new {
        Some(n) => if n@ != old@ {
            Some((old@, n@))
        } else {
            None
        },
        None => None,
    }
}

/// Display form of a stored dedication: a mention for a user dedication,
/// the text otherwise, nothing when there is no dedication.
pub open spec fn dedication_display_spec(user_id: Option<i64>, text: Option<Seq<char>>) -> Option<
    Seq<char>,
> {
    match user_id {
        Some(id) => Some(mention_spec(id as int)),
        None => text,
    }
}

/// A provided dedication denotes the stored one: same user (whatever the
/// name snapshot), or both text-only with the same text.
pub open spec fn same_dedication(
    new_user: Option<i64>,
    new_text: Option<Seq<char>>,
    old_user: Option<i64>,
    old_text: Option<Seq<char>>,
) -> bool {
    match (new_user, old_user) {
        (Some(a), Some(b)) => a == b,
        (None, None) => new_text == old_text,
        _ => false,
    }
}

/// The dedication change, if the request makes one.
pub open spec fn dedication_change(current: TrophyFields, dedication: Option<(Option<i64>, Option<String>)>) -> Option<ChangeView> {
    match dedication {
        Some((u, t)) => if same_dedication(u, opt_text(t), current.dedication_user_id, opt_text(current.dedication_text)) {
            None
        } else {
            Some(
                ChangeView::Dedication(
                    dedication_display_spec(current.dedication_user_id, opt_text(current.dedication_text)),
                    dedication_display_spec(u, opt_text(t)),
                ),
            )
        },
        None => None,
    }
}

/// An optional entry as a sequence of zero or one.
pub open spec fn opt_seq(o: Option<ChangeView>) -> Seq<ChangeView> {
    match o {
        Some(c) => seq![c],
        None => Seq::empty(),
    }
}

/// The change report: name, description, emoji, dedication, details and
/// image, in that order, each only when it really changes.
pub open spec fn changes_spec(current: TrophyFields, request: EditRequest) -> Seq<ChangeView> {
    opt_seq(
        match text_change(current.name, request.name) {
            Some((o, n)) => Some(ChangeView::Name(o, n)),
            None => None,
        },
    ) + opt_seq(
        match text_change(current.description, request.description) {
            Some((o, n)) => Some(ChangeView::Description(o, n)),
            None => None,
        },
    ) + opt_seq(
        match text_change(current.emoji, request.emoji) {
            Some((o, n)) => Some(ChangeView::Emoji(o, n)),
            None => None,
        },
    ) + opt_seq(dedication_change(current, request.dedication)) + opt_seq(
        match text_change(current.details, request.details) {
            Some((o, n)) => Some(ChangeView::Details(o, n)),
            None => None,
        },
    ) + opt_seq(
        match request.image {
            Some(_) => Some(ChangeView::Image),
            None => None,
        },
    )
}

/// Display form of a stored dedication.
pub fn dedication_display(user_id: Option<i64>, text: Option<&str>) -> (r: Option<String>)
    ensures
        opt_text(r) == dedication_display_spec(
            user_id,
            match text {
                Some(t) => Some(t@),
                None => None,
            },
        ),
{
    match user_id {
        Some(id) => Some(mention(id)),
        None => match text {
            Some(t) => Some(owned(t)),
            None => None,
        },
    }
}

/// Copy of an optional string.
fn copy_opt(o: &Option<String>) -> (r: Option<String>)
    ensures
        opt_text(r) == opt_text(*o),
{
    match o {
        Some(s) => Some(s.clone()),
        None => None,
    }
}

/// Equality of optional strings by value.
fn same_opt(a: &Option<String>, b: &Option<String>) -> (r: bool)
    ensures
        r == (opt_text(*a) == opt_text(*b)),
{
    match a {
        Some(x) => match b {
            Some(y) => *x == *y,
            None => false,
        },
        None => b.is_none(),
    }
}

/// Merges one text field and records its change.
fn merge_text(old: &String, new: Option<String>) -> (r: (String, Option<(String, String)>))
    ensures
        r.0@ == merged(*old, new),
        match text_change(*old, new) {
            Some((o, n)) => r.1 matches Some((a, b)) && a@ == o && b@ == n,
            None => r.1 is None,
        },
{
    match new {
        Some(n) => {
            if n == *old {
                (old.clone(), None)
            } else {
                let shown = n.clone();
                (n, Some((old.clone(), shown)))
            }
        },
        None => (old.clone(), None),
    }
}

/// The change a value stands for, if any.
pub open spec fn opt_change(c: Option<Change>) -> Option<ChangeView> {
    match c {
        Some(x) => Some(change_view(x)),
        None => None,
    }
}

/// Appends an optional change to the report.
fn push_change(changes: &mut Vec<Change>, c: Option<Change>)
    ensures
        changes_view(final(changes)@) == changes_view(old(changes)@) + opt_seq(opt_change(c)),
{
    let ghost before = changes@;
    match c {
        Some(x) => {
            changes.push(x);
            assert(changes_view(changes@) =~= changes_view(before) + opt_seq(opt_change(c)));
        },
        None => {
            assert(changes_view(changes@) =~= changes_view(before) + opt_seq(opt_change(c)));
        },
    }
}

/// Merges the dedication: a provided dedication denoting the stored one
/// keeps the stored pair; any other replaces it and is reported.
fn merge_dedication(current: &TrophyFields, dedication: Option<(Option<i64>, Option<String>)>) -> (r: (
    Option<i64>,
    Option<String>,
    Option<Change>,
))
    ensures
        match dedication {
            Some((u, t)) => if same_dedication(u, opt_text(t), current.dedication_user_id, opt_text(current.dedication_text)) {
                r.0 == current.dedication_user_id && opt_text(r.1) == opt_text(current.dedication_text)
            } else {
                r.0 == u && opt_text(r.1) == opt_text(t)
            },
            None => r.0 == current.dedication_user_id && opt_text(r.1) == opt_text(current.dedication_text),
        },
        opt_change(r.2) == dedication_change(*current, dedication),
{
    match dedication {
        Some((new_user, new_text)) => {
            let same = match (new_user, current.dedication_user_id) {
                (Some(a), Some(b)) => a == b,
                (None, None) => same_opt(&new_text, &current.dedication_text),
                _ => false,
            };
            if same {
                (current.dedication_user_id, copy_opt(&current.dedication_text), None)
            } else {
                let old_shown = match &current.dedication_text {
                    Some(t) => dedication_display(current.dedication_user_id, Some(t.as_str())),
                    None => dedication_display(current.dedication_user_id, None),
                };
                let new_shown = match &new_text {
                    Some(t) => dedication_display(new_user, Some(t.as_str())),
                    None => dedication_display(new_user, None),
                };
                (new_user, new_text, Some(Change::Dedication { old: old_shown, new: new_shown }))
            }
        },
        None => (current.dedication_user_id, copy_opt(&current.dedication_text), None),
    }
}

/// A text change as a report entry, built by `make`.
fn text_entry(c: Option<(String, String)>, kind: u8) -> (r: Option<Change>)
    requires
        kind < 4,
    ensures
        match c {
            Some((o, n)) => r matches Some(x) && change_view(x) == (if kind == 0 {
                ChangeView::Name(o@, n@)
            } else if kind == 1 {
                ChangeView::Description(o@, n@)
            } else if kind == 2 {
                ChangeView::Emoji(o@, n@)
            } else {
                ChangeView::Details(o@, n@)
            }),
            None => r is None,
        },
{
    match c {
        Some((old, new)) => Some(
            if kind == 0 {
                Change::Name { old, new }
            } else if kind == 1 {
                Change::Description { old, new }
            } else if kind == 2 {
                Change::Emoji { old, new }
            } else {
                Change::Details { old, new }
            },
        ),
        None => None,
    }
}

/// Merges the request over the current trophy and builds the change report.
/// A provided value identical to the stored one is NOT a change; a provided
/// attachment always is (same filename, new bytes).
pub fn plan_edit(current: &TrophyFields, request: EditRequest) -> (plan: EditPlan)
    ensures
        plan.name@ == merged(current.name, request.name),
        plan.normalized_name@ == normalize_spec(plan.name@),
        plan.description@ == merged(current.description, request.description),
        plan.emoji@ == merged(current.emoji, request.emoji),
        plan.details@ == merged(current.details, request.details),
        opt_text(plan.image) == match request.image {
            Some(i) => Some(i@),
            None => opt_text(current.image),
        },
        match request.dedication {
            Some((u, t)) => if same_dedication(u, opt_text(t), current.dedication_user_id, opt_text(current.dedication_text)) {
                plan.dedication_user_id == current.dedication_user_id && opt_text(plan.dedication_text)
                    == opt_text(current.dedication_text)
            } else {
                plan.dedication_user_id == u && opt_text(plan.dedication_text) == opt_text(t)
            },
            None => plan.dedication_user_id == current.dedication_user_id && opt_text(plan.dedication_text)
                == opt_text(current.dedication_text),
        },
        changes_view(plan.changes@) == changes_spec(*current, request),
        match (request.dedication, current.dedication_user_id) {
            (Some((Some(u), t)), Some(c)) => if u != c {
                &&& plan.dedication_user_id == Some(u)
                &&& opt_text(plan.dedication_text) == opt_text(t)
                &&& changes_view(plan.changes@).contains(
                    ChangeView::Dedication(Some(mention_spec(c as int)), Some(mention_spec(u as int))),
                )
            } else {
                &&& plan.dedication_user_id == Some(c)
                &&& opt_text(plan.dedication_text) == opt_text(current.dedication_text)
            },
            _ => true,
        },
{
    let ghost req = request;
    let EditRequest { name, description, emoji, dedication, details, image } = request;
    let (name, c1) = merge_text(&current.name, name);
    let (description, c2) = merge_text(&current.description, description);
    let (emoji, c3) = merge_text(&current.emoji, emoji);
    let (dedication_user_id, dedication_text, c4) = merge_dedication(current, dedication);
    let (details, c5) = merge_text(&current.details, details);
    let (image, c6) = match image {
        Some(new) => (Some(new), Some(Change::Image)),
        None => (copy_opt(&current.image), None),
    };
    let mut changes: Vec<Change> = Vec::new();
    let ghost empty = changes@;
    push_change(&mut changes, text_entry(c1, 0));
    push_change(&mut changes, text_entry(c2, 1));
    push_change(&mut changes, text_entry(c3, 2));
    push_change(&mut changes, c4);
    push_change(&mut changes, text_entry(c5, 3));
    push_change(&mut changes, c6);
    proof {
        assert(changes_view(empty) =~= Seq::<ChangeView>::empty());
        assert(changes_view(changes@) =~= changes_spec(*current, req));
        if let (Some((Some(u), t)), Some(c)) = (req.dedication, current.dedication_user_id) {
            lemma_user_dedication_change(*current, u, t);
            if u != c {
                let cs = changes_spec(*current, req);
                let d = ChangeView::Dedication(Some(mention_spec(c as int)), Some(mention_spec(u as int)));
                let front = opt_seq(
                    match text_change(current.name, req.name) {
                        Some((o, n)) => Some(ChangeView::Name(o, n)),
                        None => None,
                    },
                ) + opt_seq(
                    match text_change(current.description, req.description) {
                        Some((o, n)) => Some(ChangeView::Description(o, n)),
                        None => None,
                    },
                ) + opt_seq(
                    match text_change(current.emoji, req.emoji) {
                        Some((o, n)) => Some(ChangeView::Emoji(o, n)),
                        None => None,
                    },
                );
                assert(cs[front.len() as int] == d);
            }
        }
    }
    let normalized_name = normalize_name(name.as_str());
    EditPlan {
        name,
        normalized_name,
        description,
        emoji,
        dedication_user_id,
        dedication_text,
        details,
        image,
        changes,
    }
}

/// The dedication option clears the dedication when it is `-` (surrounding
/// whitespace ignored).
pub fn is_clear_dedication(raw: &str) -> (clear: bool)
    ensures
        clear == (trim_spec(raw@) == "-"@),
{
    let t = trim(&str_chars(raw));
    let dash = str_chars("-");
    chars_eq(&t, &dash)
}

/// A rename needs the uniqueness check only when the normalized name
/// actually changes (cosmetic renames keep their own name).
pub fn rename_needs_check(new_normalized: Option<&str>, current_normalized: &str) -> (check: bool)
    ensures
        check == match new_normalized {
            Some(n) => n@ != current_normalized@,
            None => false,
        },
{
    match new_normalized {
        Some(n) => !chars_eq(&str_chars(n), &str_chars(current_normalized)),
        None => false,
    }
}

/// Temp name a replacement image is downloaded under before the database
/// update: the final filename with `.tmp` appended.
pub fn temp_filename(filename: &str) -> (t: String)
    ensures
        t@ == filename@ + ".tmp"@,
{
    let mut v = str_chars(filename);
    push_str(&mut v, ".tmp");
    chars_to_string(&v)
}

/// One report line: the catalog key with the old and new values.
pub fn line(key: &str, old: MessageArg, new: MessageArg) -> (m: Message)
    ensures
        message_view(m) == (key@, seq![("old"@, arg_view(old)), ("new"@, arg_view(new))]),
{
    let m = Message::plain(key).arg("old", old).arg("new", new);
    assert(args_view(m.args@) =~= seq![("old"@, arg_view(old)), ("new"@, arg_view(new))]);
    m
}

/// A dedication side as a message argument: its text, or the localized
/// "(none)".
pub open spec fn side_arg(side: Option<Seq<char>>) -> ArgView {
    match side {
        Some(t) => ArgView::Text(t),
        None => ArgView::Key("edit-dedication-none"@),
    }
}

/// The report line a change renders as.
pub open spec fn change_line(c: ChangeView) -> (Seq<char>, Seq<(Seq<char>, ArgView)>) {
    match c {
        ChangeView::Name(o, n) => ("edit-change-name"@, seq![("old"@, ArgView::Text(o)), ("new"@, ArgView::Text(n))]),
        ChangeView::Description(o, n) => (
            "edit-change-description"@,
            seq![("old"@, ArgView::Text(o)), ("new"@, ArgView::Text(n))],
        ),
        ChangeView::Emoji(o, n) => ("edit-change-emoji"@, seq![("old"@, ArgView::Text(o)), ("new"@, ArgView::Text(n))]),
        ChangeView::Details(o, n) => (
            "edit-change-details"@,
            seq![("old"@, ArgView::Text(o)), ("new"@, ArgView::Text(n))],
        ),
        ChangeView::Dedication(o, n) => ("edit-change-dedication"@, seq![("old"@, side_arg(o)), ("new"@, side_arg(n))]),
        ChangeView::Image => ("edit-change-image"@, Seq::empty()),
    }
}

/// A dedication side as an argument.
fn side(o: &Option<String>) -> (a: MessageArg)
    ensures
        arg_view(a) == side_arg(opt_text(*o)),
{
    match o {
        Some(t) => MessageArg::Text(t.clone()),
        None => MessageArg::Key(owned("edit-dedication-none")),
    }
}

/// The change report as one catalog line per change, in report order; the
/// front end renders each and joins them with newlines.
pub fn render_changes(changes: &[Change]) -> (lines: Vec<Message>)
    ensures
        lines@.len() == changes@.len(),
        forall|i: int| 0 <= i < lines@.len() ==> message_view(#[trigger] lines@[i]) == change_line(change_view(changes@[i])),
{
    let mut lines: Vec<Message> = Vec::new();
    let mut i: usize = 0;
    while i < changes.len()
        invariant
            i <= changes.len(),
            lines@.len() == i,
            forall|j: int| 0 <= j < i ==> message_view(#[trigger] lines@[j]) == change_line(change_view(changes@[j])),
        decreases changes.len() - i,
    {
        let m = match &changes[i] {
            Change::Name { old, new } => line("edit-change-name", MessageArg::Text(old.clone()), MessageArg::Text(new.clone())),
            Change::Description { old, new } => line(
                "edit-change-description",
                MessageArg::Text(old.clone()),
                MessageArg::Text(new.clone()),
            ),
            Change::Emoji { old, new } => line("edit-change-emoji", MessageArg::Text(old.clone()), MessageArg::Text(new.clone())),
            Change::Details { old, new } => line(
                "edit-change-details",
                MessageArg::Text(old.clone()),
                MessageArg::Text(new.clone()),
            ),
            Change::Dedication { old, new } => line("edit-change-dedication", side(old), side(new)),
            Change::Image => Message::plain("edit-change-image"),
        };
        lines.push(m);
        i = i + 1;
    }
    lines
}

/// Editing every field to its stored value (and attaching no image)
/// reports no change and leaves every field as it was.
pub proof fn lemma_same_values_change_nothing(current: TrophyFields, request: EditRequest)
    requires
        opt_text(request.name) is Some ==> opt_text(request.name) == Some(current.name@),
        opt_text(request.description) is Some ==> opt_text(request.description) == Some(current.description@),
        opt_text(request.emoji) is Some ==> opt_text(request.emoji) == Some(current.emoji@),
        opt_text(request.details) is Some ==> opt_text(request.details) == Some(current.details@),
        request.dedication matches Some((u, t)) ==> same_dedication(
            u,
            opt_text(t),
            current.dedication_user_id,
            opt_text(current.dedication_text),
        ),
        request.image is None,
    ensures
        changes_spec(current, request).len() == 0,
        merged(current.name, request.name) == current.name@,
        merged(current.description, request.description) == current.description@,
        merged(current.emoji, request.emoji) == current.emoji@,
        merged(current.details, request.details) == current.details@,
{
}


/// A user dedication is the stored one only when it names the same user:
/// another user replaces the stored dedication (whatever the texts) and is
/// reported as a change from the old mention to the new one; the same user
/// is no change, whatever name snapshot either side carries.
pub proof fn lemma_user_dedication_change(current: TrophyFields, u: i64, t: Option<String>)
    requires
        current.dedication_user_id is Some,
    ensures
        ({
            let c = current.dedication_user_id->0;
            &&& u != c ==> !same_dedication(Some(u), opt_text(t), current.dedication_user_id, opt_text(current.dedication_text))
            &&& u != c ==> dedication_change(current, Some((Some(u), t))) == Some(
                ChangeView::Dedication(Some(mention_spec(c as int)), Some(mention_spec(u as int))),
            )
            &&& u == c ==> dedication_change(current, Some((Some(u), t))) is None
        }),
{
}

/// A text dedication replacing a user dedication, or a user dedication
/// replacing a text one, is always a change; two text dedications are the
/// same exactly when their texts are.
pub proof fn lemma_dedication_kinds(current: TrophyFields, u: Option<i64>, t: Option<String>)
    ensures
        (u is Some) != (current.dedication_user_id is Some) ==> dedication_change(current, Some((u, t))) is Some,
        u is None && current.dedication_user_id is None ==> (dedication_change(current, Some((u, t))) is None
            <==> opt_text(t) == opt_text(current.dedication_text)),
        dedication_change(current, None) is None,
{
}

} // verus!
