//! Stateless button ids and press decisions for the `/forgetme` and
//! `/delete` confirmations and the `/show` holders toggle. Everything a
//! press needs travels in the button's custom id:
//! `forgetme:{action}:{issued_at}`,
//! `trophy-delete:{action}:{issued_at}:{invoker}:{trophy}` and
//! `trophy-show-holders:{trophy}:{show|hide}:{invoker}`, so a restart needs
//! no in-memory state. Confirmations expire [`CONFIRM_TIMEOUT_SECS`] after
//! issuance.

use vstd::prelude::*;

use crate::text::{
    chars_eq, chars_to_string, decimal, lemma_decimal_bounds, lemma_parse_i64_signed_decimal,
    lemma_parse_u64_decimal, lemma_split_once_concat, parse_i64, parse_i64_spec, parse_u64,
    parse_u64_spec, push_decimal, push_signed_decimal, push_str, signed_decimal, split_once,
    split_once_spec, str_chars, strip_prefix, strip_prefix_spec,
};
use crate::uuid_text::{hyphenated, lemma_hyphenated_shape, parse_uuid, uuid_parse, uuid_to_string};

verus! {

/// How long the /forgetme and /delete confirmation buttons stay valid.
pub const CONFIRM_TIMEOUT_SECS: i64 = 60;

/// The two buttons of the /forgetme confirmation.
#[derive(Debug, Clone, Copy, PartialEq, Eq, Structural)]
pub enum ForgetmeButton {
    Confirm,
    Cancel,
}

/// The two buttons of the /delete confirmation.
#[derive(Debug, Clone, Copy, PartialEq, Eq, Structural)]
pub enum DeleteButton {
    Confirm,
    Cancel,
}

/// Whether the /show holders button shows or hides the holders section.
#[derive(Debug, Clone, Copy, PartialEq, Eq, Structural)]
pub enum ShowHoldersAction {
    Show,
    Hide,
}

impl ShowHoldersAction {
    /// The action the toggle button offers next: show after hide, hide
    /// after show.
    pub fn toggled(self) -> (next: ShowHoldersAction)
        ensures
            next != self,
            next == (if self == ShowHoldersAction::Show {
                ShowHoldersAction::Hide
            } else {
                ShowHoldersAction::Show
            }),
    {
        match self {
            ShowHoldersAction::Show => ShowHoldersAction::Hide,
            ShowHoldersAction::Hide => ShowHoldersAction::Show,
        }
    }
}

/// The word a confirmation button carries in its id.
pub open spec fn confirm_word(confirm: bool) -> Seq<char> {
    if confirm {
        "confirm"@
    } else {
        "cancel"@
    }
}

/// The word for a /show holders action.
pub open spec fn show_word(action: ShowHoldersAction) -> Seq<char> {
    match action {
        ShowHoldersAction::Show => "show"@,
        ShowHoldersAction::Hide => "hide"@,
    }
}

/// `forgetme:{confirm|cancel}:{issued_at}`.
pub open spec fn forgetme_id(button: ForgetmeButton, issued_at: i64) -> Seq<char> {
    "forgetme:"@ + confirm_word(button == ForgetmeButton::Confirm) + seq![':'] + signed_decimal(
        issued_at as int,
    )
}

/// `trophy-show-holders:{trophy}:{show|hide}:{invoker_id}`.
pub open spec fn show_holders_id(trophy_id: u128, action: ShowHoldersAction, invoker_id: u64) -> Seq<
    char,
> {
    "trophy-show-holders:"@ + hyphenated(trophy_id) + seq![':'] + show_word(action) + seq![':']
        + decimal(invoker_id as nat)
}

/// `trophy-delete:{confirm|cancel}:{issued_at}:{invoker_id}:{trophy}`.
pub open spec fn delete_id(button: DeleteButton, issued_at: i64, invoker_id: u64, trophy_id: u128) -> Seq<
    char,
> {
    "trophy-delete:"@ + confirm_word(button == DeleteButton::Confirm) + seq![':'] + signed_decimal(
        issued_at as int,
    ) + seq![':'] + decimal(invoker_id as nat) + seq![':'] + hyphenated(trophy_id)
}

/// The /forgetme button a word names.
pub open spec fn forgetme_button_of(word: Seq<char>) -> Option<ForgetmeButton> {
    if word == "confirm"@ {
        Some(ForgetmeButton::Confirm)
    } else if word == "cancel"@ {
        Some(ForgetmeButton::Cancel)
    } else {
        None
    }
}

/// The /delete button a word names.
pub open spec fn delete_button_of(word: Seq<char>) -> Option<DeleteButton> {
    if word == "confirm"@ {
        Some(DeleteButton::Confirm)
    } else if word == "cancel"@ {
        Some(DeleteButton::Cancel)
    } else {
        None
    }
}

/// The /show holders action a word names.
pub open spec fn show_action_of(word: Seq<char>) -> Option<ShowHoldersAction> {
    if word == "show"@ {
        Some(ShowHoldersAction::Show)
    } else if word == "hide"@ {
        Some(ShowHoldersAction::Hide)
    } else {
        None
    }
}

/// What a component id means as a /forgetme button, if it is one.
pub open spec fn parse_forgetme_spec(id: Seq<char>) -> Option<(ForgetmeButton, i64)> {
    match strip_prefix_spec(id, "forgetme:"@) {
        None => None,
        Some(rest) => match split_once_spec(rest, ':') {
            None => None,
            Some((word, issued)) => match (forgetme_button_of(word), parse_i64_spec(issued)) {
                (Some(button), Some(issued_at)) => Some((button, issued_at)),
                _ => None,
            },
        },
    }
}

/// What a component id means as a /show holders button, if it is one.
pub open spec fn parse_show_holders_spec(id: Seq<char>) -> Option<(u128, ShowHoldersAction, u64)> {
    match strip_prefix_spec(id, "trophy-show-holders:"@) {
        None => None,
        Some(rest) => match split_once_spec(rest, ':') {
            None => None,
            Some((trophy, rest2)) => match split_once_spec(rest2, ':') {
                None => None,
                Some((word, invoker)) => match (
                    show_action_of(word),
                    uuid_parse(trophy),
                    parse_u64_spec(invoker),
                ) {
                    (Some(action), Some(trophy_id), Some(invoker_id)) => Some(
                        (trophy_id, action, invoker_id),
                    ),
                    _ => None,
                },
            },
        },
    }
}

/// What a component id means as a /delete button, if it is one.
pub open spec fn parse_delete_spec(id: Seq<char>) -> Option<(DeleteButton, i64, u64, u128)> {
    match strip_prefix_spec(id, "trophy-delete:"@) {
        None => None,
        Some(rest) => match split_once_spec(rest, ':') {
            None => None,
            Some((word, rest2)) => match split_once_spec(rest2, ':') {
                None => None,
                Some((issued, rest3)) => match split_once_spec(rest3, ':') {
                    None => None,
                    Some((invoker, trophy)) => match (
                        delete_button_of(word),
                        parse_i64_spec(issued),
                        parse_u64_spec(invoker),
                        uuid_parse(trophy),
                    ) {
                        (Some(button), Some(issued_at), Some(invoker_id), Some(trophy_id)) => Some(
                            (button, issued_at, invoker_id, trophy_id),
                        ),
                        _ => None,
                    },
                },
            },
        },
    }
}

/// Builds the custom id for a /forgetme button issued at `issued_at`
/// (unix seconds): `forgetme:{confirm|cancel}:{issued_at}`.
pub fn custom_id(button: ForgetmeButton, issued_at: i64) -> (id: String)
    ensures
        id@ == forgetme_id(button, issued_at),
{
    let mut v: Vec<char> = Vec::new();
    push_str(&mut v, "forgetme:");
    match button {
        ForgetmeButton::Confirm => push_str(&mut v, "confirm"),
        ForgetmeButton::Cancel => push_str(&mut v, "cancel"),
    }
    v.push(':');
    push_signed_decimal(issued_at, &mut v);
    assert(v@ =~= forgetme_id(button, issued_at));
    chars_to_string(&v)
}

/// `word` as characters equals the literal `lit`.
fn is_word(word: &[char], lit: &str) -> (r: bool)
    ensures
        r == (word@ == lit@),
{
    let l = str_chars(lit);
    chars_eq(word, &l)
}

/// Parses a component custom id back into a /forgetme button. `None` for
/// anything that is not exactly ours (other flows just fall through).
pub fn parse_custom_id(id: &str) -> (r: Option<(ForgetmeButton, i64)>)
    ensures
        r == parse_forgetme_spec(id@),
{
    let s = str_chars(id);
    let prefix = str_chars("forgetme:");
    let rest = match strip_prefix(&s, &prefix) {
        Some(rest) => rest,
        None => return None,
    };
    let (word, issued) = match split_once(&rest, ':') {
        Some(parts) => parts,
        None => return None,
    };
    let button = if is_word(&word, "confirm") {
        ForgetmeButton::Confirm
    } else if is_word(&word, "cancel") {
        ForgetmeButton::Cancel
    } else {
        return None;
    };
    match parse_i64(&issued) {
        Some(issued_at) => Some((button, issued_at)),
        None => None,
    }
}

/// Whether a confirmation issued at `issued_at` is stale at `now` (both
/// unix seconds): more than [`CONFIRM_TIMEOUT_SECS`] have passed.
pub fn is_expired(issued_at: i64, now: i64) -> (expired: bool)
    ensures
        expired == (now - issued_at > CONFIRM_TIMEOUT_SECS),
{
    (now as i128) - (issued_at as i128) > (CONFIRM_TIMEOUT_SECS as i128)
}

/// What a /forgetme button press must result in.
#[derive(Debug, Clone, Copy, PartialEq, Eq, Structural)]
pub enum PressOutcome {
    /// Presser is not the guild owner: ephemeral rejection, message untouched.
    RejectNotOwner,
    /// Confirmation is stale: disarm the message with an "expired" notice.
    Expired,
    /// Cancel pressed in time: replace the warning with a cancelled notice.
    Cancelled,
    /// Confirm pressed in time: purge everything and leave.
    Purge,
}

/// Pure decision for a /forgetme button press. Gate order matters: the
/// owner gate wins over expiry (non-owners never learn the message state),
/// and the expiry gate wins over both buttons.
pub fn press_outcome(button: ForgetmeButton, is_owner: bool, issued_at: i64, now: i64) -> (o: PressOutcome)
    ensures
        o == (if !is_owner {
            PressOutcome::RejectNotOwner
        } else if now - issued_at > CONFIRM_TIMEOUT_SECS {
            PressOutcome::Expired
        } else if button == ForgetmeButton::Cancel {
            PressOutcome::Cancelled
        } else {
            PressOutcome::Purge
        }),
{
    if !is_owner {
        return PressOutcome::RejectNotOwner;
    }
    if is_expired(issued_at, now) {
        return PressOutcome::Expired;
    }
    match button {
        ForgetmeButton::Cancel => PressOutcome::Cancelled,
        ForgetmeButton::Confirm => PressOutcome::Purge,
    }
}

/// Builds the custom id for a /show holders button:
/// `trophy-show-holders:{trophy}:{show|hide}:{invoker_id}`.
pub fn show_holders_custom_id(trophy_id: u128, action: ShowHoldersAction, invoker_id: u64) -> (id: String)
    ensures
        id@ == show_holders_id(trophy_id, action, invoker_id),
{
    let mut v: Vec<char> = Vec::new();
    push_str(&mut v, "trophy-show-holders:");
    let trophy = uuid_to_string(trophy_id);
    push_str(&mut v, trophy.as_str());
    v.push(':');
    match action {
        ShowHoldersAction::Show => push_str(&mut v, "show"),
        ShowHoldersAction::Hide => push_str(&mut v, "hide"),
    }
    v.push(':');
    push_decimal(invoker_id, &mut v);
    assert(v@ =~= show_holders_id(trophy_id, action, invoker_id));
    chars_to_string(&v)
}

/// Parses a component custom id back into the trophy id, action and
/// original invoker of a /show holders button. An id this module built
/// always parses back to what it was built from.
pub fn parse_show_holders_custom_id(id: &str) -> (r: Option<(u128, ShowHoldersAction, u64)>)
    ensures
        r == parse_show_holders_spec(id@),
        forall|t: u128, a: ShowHoldersAction, u: u64|
            id@ == #[trigger] show_holders_id(t, a, u) ==> r == Some((t, a, u)),
{
    proof {
        assert forall|t: u128, a: ShowHoldersAction, u: u64| id@ == #[trigger] show_holders_id(t, a, u) implies {
            let rest = hyphenated(t) + seq![':'] + show_word(a) + seq![':'] + decimal(u as nat);
            let rest2 = show_word(a) + seq![':'] + decimal(u as nat);
            &&& strip_prefix_spec(id@, "trophy-show-holders:"@) == Some(rest)
            &&& split_once_spec(rest, ':') == Some((hyphenated(t), rest2))
            &&& split_once_spec(rest2, ':') == Some((show_word(a), decimal(u as nat)))
            &&& show_action_of(show_word(a)) == Some(a)
            &&& parse_u64_spec(decimal(u as nat)) == Some(u)
        } by {
            lemma_show_holders_parts(t, a, u);
        }
    }
    let s = str_chars(id);
    let prefix = str_chars("trophy-show-holders:");
    let rest = match strip_prefix(&s, &prefix) {
        Some(rest) => rest,
        None => return None,
    };
    let (trophy, rest2) = match split_once(&rest, ':') {
        Some(parts) => parts,
        None => return None,
    };
    let (word, invoker) = match split_once(&rest2, ':') {
        Some(parts) => parts,
        None => return None,
    };
    let action = if is_word(&word, "show") {
        ShowHoldersAction::Show
    } else if is_word(&word, "hide") {
        ShowHoldersAction::Hide
    } else {
        return None;
    };
    let trophy_text = chars_to_string(&trophy);
    let trophy_id = match parse_uuid(trophy_text.as_str()) {
        Some(t) => t,
        None => return None,
    };
    match parse_u64(&invoker) {
        Some(invoker_id) => Some((trophy_id, action, invoker_id)),
        None => None,
    }
}

/// Builds the custom id for a /delete button:
/// `trophy-delete:{confirm|cancel}:{issued_at}:{invoker_id}:{trophy}`.
/// Everything a press needs is in the id; at 100 characters worst case it
/// stays within Discord's custom-id cap.
pub fn delete_custom_id(button: DeleteButton, issued_at: i64, invoker_id: u64, trophy_id: u128) -> (id: String)
    ensures
        id@ == delete_id(button, issued_at, invoker_id, trophy_id),
        id@.len() <= 100,
{
    let mut v: Vec<char> = Vec::new();
    push_str(&mut v, "trophy-delete:");
    match button {
        DeleteButton::Confirm => push_str(&mut v, "confirm"),
        DeleteButton::Cancel => push_str(&mut v, "cancel"),
    }
    v.push(':');
    push_signed_decimal(issued_at, &mut v);
    v.push(':');
    push_decimal(invoker_id, &mut v);
    v.push(':');
    let trophy = uuid_to_string(trophy_id);
    push_str(&mut v, trophy.as_str());
    proof {
        reveal_strlit("trophy-delete:");
        reveal_strlit("confirm");
        reveal_strlit("cancel");
        lemma_decimal_bounds(issued_at, invoker_id);
        lemma_hyphenated_shape(trophy_id);
    }
    assert(v@ =~= delete_id(button, issued_at, invoker_id, trophy_id));
    chars_to_string(&v)
}

/// Parses a component custom id back into a /delete button press. `None`
/// for anything that is not exactly ours. An id this module built always
/// parses back to what it was built from.
pub fn parse_delete_custom_id(id: &str) -> (r: Option<(DeleteButton, i64, u64, u128)>)
    ensures
        r == parse_delete_spec(id@),
        forall|b: DeleteButton, t: i64, u: u64, x: u128|
            id@ == #[trigger] delete_id(b, t, u, x) ==> r == Some((b, t, u, x)),
{
    proof {
        assert forall|b: DeleteButton, t: i64, u: u64, x: u128| id@ == #[trigger] delete_id(b, t, u, x) implies {
            let w = confirm_word(b == DeleteButton::Confirm);
            let rest3 = decimal(u as nat) + seq![':'] + hyphenated(x);
            let rest2 = signed_decimal(t as int) + seq![':'] + rest3;
            let rest = w + seq![':'] + rest2;
            &&& strip_prefix_spec(id@, "trophy-delete:"@) == Some(rest)
            &&& split_once_spec(rest, ':') == Some((w, rest2))
            &&& split_once_spec(rest2, ':') == Some((signed_decimal(t as int), rest3))
            &&& split_once_spec(rest3, ':') == Some((decimal(u as nat), hyphenated(x)))
            &&& delete_button_of(w) == Some(b)
            &&& parse_i64_spec(signed_decimal(t as int)) == Some(t)
            &&& parse_u64_spec(decimal(u as nat)) == Some(u)
        } by {
            lemma_delete_parts(b, t, u, x);
        }
    }
    let s = str_chars(id);
    let prefix = str_chars("trophy-delete:");
    let rest = match strip_prefix(&s, &prefix) {
        Some(rest) => rest,
        None => return None,
    };
    let (word, rest2) = match split_once(&rest, ':') {
        Some(parts) => parts,
        None => return None,
    };
    let button = if is_word(&word, "confirm") {
        DeleteButton::Confirm
    } else if is_word(&word, "cancel") {
        DeleteButton::Cancel
    } else {
        return None;
    };
    let (issued, rest3) = match split_once(&rest2, ':') {
        Some(parts) => parts,
        None => return None,
    };
    let (invoker, trophy) = match split_once(&rest3, ':') {
        Some(parts) => parts,
        None => return None,
    };
    let issued_at = match parse_i64(&issued) {
        Some(v) => v,
        None => return None,
    };
    let invoker_id = match parse_u64(&invoker) {
        Some(v) => v,
        None => return None,
    };
    let trophy_text = chars_to_string(&trophy);
    match parse_uuid(trophy_text.as_str()) {
        Some(trophy_id) => Some((button, issued_at, invoker_id, trophy_id)),
        None => None,
    }
}

/// What a press of the /show holders toggle must result in.
#[derive(Debug, Clone, Copy, PartialEq, Eq, Structural)]
pub enum HoldersPressOutcome {
    /// Presser is not the /show invoker: ephemeral rejection, message kept.
    RejectNotInvoker,
    /// Re-render the trophy, with the holders section when `with_holders`,
    /// and a toggle that offers `next`.
    Render { with_holders: bool, next: ShowHoldersAction },
}

/// Pure decision for a holders toggle press: only the invoker may toggle;
/// the pressed action decides whether the holders are shown, and the new
/// toggle offers the opposite action.
pub fn holders_press_outcome(action: ShowHoldersAction, presser_id: u64, invoker_id: u64) -> (o:
    HoldersPressOutcome)
    ensures
        o == (if presser_id != invoker_id {
            HoldersPressOutcome::RejectNotInvoker
        } else {
            HoldersPressOutcome::Render {
                with_holders: action == ShowHoldersAction::Show,
                next: if action == ShowHoldersAction::Show {
                    ShowHoldersAction::Hide
                } else {
                    ShowHoldersAction::Show
                },
            }
        }),
{
    if presser_id != invoker_id {
        return HoldersPressOutcome::RejectNotInvoker;
    }
    HoldersPressOutcome::Render { with_holders: action == ShowHoldersAction::Show, next: action.toggled() }
}

/// The message key of the toggle's label for the action it offers.
pub fn holders_toggle_label(next: ShowHoldersAction) -> (key: &'static str)
    ensures
        key@ == (if next == ShowHoldersAction::Show {
            "show-button-holders"@
        } else {
            "show-button-hide-holders"@
        }),
{
    match next {
        ShowHoldersAction::Show => "show-button-holders",
        ShowHoldersAction::Hide => "show-button-hide-holders",
    }
}

/// What a /delete button press must result in.
#[derive(Debug, Clone, Copy, PartialEq, Eq, Structural)]
pub enum DeletePressOutcome {
    /// Presser is not the /delete invoker: ephemeral rejection, message kept.
    RejectNotInvoker,
    /// Confirmation is stale: disarm the message with an "expired" notice.
    Expired,
    /// Cancel pressed in time: replace the warning with a cancelled notice.
    Cancelled,
    /// Confirm pressed in time: hard-delete the trophy.
    Delete,
}

/// Pure decision for a /delete button press. Mirrors the /forgetme gate
/// order: the invoker gate wins over expiry, and the expiry gate wins over
/// both buttons.
pub fn delete_press_outcome(button: DeleteButton, is_invoker: bool, issued_at: i64, now: i64) -> (o:
    DeletePressOutcome)
    ensures
        o == (if !is_invoker {
            DeletePressOutcome::RejectNotInvoker
        } else if now - issued_at > CONFIRM_TIMEOUT_SECS {
            DeletePressOutcome::Expired
        } else if button == DeleteButton::Cancel {
            DeletePressOutcome::Cancelled
        } else {
            DeletePressOutcome::Delete
        }),
{
    if !is_invoker {
        return DeletePressOutcome::RejectNotInvoker;
    }
    if is_expired(issued_at, now) {
        return DeletePressOutcome::Expired;
    }
    match button {
        DeleteButton::Cancel => DeletePressOutcome::Cancelled,
        DeleteButton::Confirm => DeletePressOutcome::Delete,
    }
}

/// Stripping a literal prefix from a text that starts with it.
proof fn lemma_strip_literal(p: Seq<char>, rest: Seq<char>)
    ensures
        strip_prefix_spec(p + rest, p) == Some(rest),
{
    assert((p + rest).take(p.len() as int) =~= p);
    assert((p + rest).skip(p.len() as int) =~= rest);
}

/// The parts a /show holders id splits into.
proof fn lemma_show_holders_parts(t: u128, a: ShowHoldersAction, u: u64)
    ensures
        ({
            let rest = hyphenated(t) + seq![':'] + show_word(a) + seq![':'] + decimal(u as nat);
            let rest2 = show_word(a) + seq![':'] + decimal(u as nat);
            &&& strip_prefix_spec(show_holders_id(t, a, u), "trophy-show-holders:"@) == Some(rest)
            &&& split_once_spec(rest, ':') == Some((hyphenated(t), rest2))
            &&& split_once_spec(rest2, ':') == Some((show_word(a), decimal(u as nat)))
            &&& show_action_of(show_word(a)) == Some(a)
            &&& parse_u64_spec(decimal(u as nat)) == Some(u)
        }),
{
    reveal_strlit("show");
    reveal_strlit("hide");
    let rest = hyphenated(t) + seq![':'] + show_word(a) + seq![':'] + decimal(u as nat);
    let rest2 = show_word(a) + seq![':'] + decimal(u as nat);
    assert(show_holders_id(t, a, u) =~= "trophy-show-holders:"@ + rest);
    lemma_strip_literal("trophy-show-holders:"@, rest);
    lemma_hyphenated_shape(t);
    assert(rest =~= hyphenated(t) + seq![':'] + rest2);
    lemma_split_once_concat(hyphenated(t), ':', rest2);
    assert(!show_word(a).contains(':')) by {
        if show_word(a).contains(':') {
            let i = choose|i: int| 0 <= i < show_word(a).len() && show_word(a)[i] == ':';
        }
    }
    lemma_split_once_concat(show_word(a), ':', decimal(u as nat));
    lemma_parse_u64_decimal(u);
}

/// The parts a /delete id splits into.
proof fn lemma_delete_parts(b: DeleteButton, t: i64, u: u64, x: u128)
    ensures
        ({
            let w = confirm_word(b == DeleteButton::Confirm);
            let rest3 = decimal(u as nat) + seq![':'] + hyphenated(x);
            let rest2 = signed_decimal(t as int) + seq![':'] + rest3;
            let rest = w + seq![':'] + rest2;
            &&& strip_prefix_spec(delete_id(b, t, u, x), "trophy-delete:"@) == Some(rest)
            &&& split_once_spec(rest, ':') == Some((w, rest2))
            &&& split_once_spec(rest2, ':') == Some((signed_decimal(t as int), rest3))
            &&& split_once_spec(rest3, ':') == Some((decimal(u as nat), hyphenated(x)))
            &&& delete_button_of(w) == Some(b)
            &&& parse_i64_spec(signed_decimal(t as int)) == Some(t)
            &&& parse_u64_spec(decimal(u as nat)) == Some(u)
        }),
{
    reveal_strlit("confirm");
    reveal_strlit("cancel");
    let w = confirm_word(b == DeleteButton::Confirm);
    let rest3 = decimal(u as nat) + seq![':'] + hyphenated(x);
    let rest2 = signed_decimal(t as int) + seq![':'] + rest3;
    let rest = w + seq![':'] + rest2;
    assert(delete_id(b, t, u, x) =~= "trophy-delete:"@ + rest);
    lemma_strip_literal("trophy-delete:"@, rest);
    assert(!w.contains(':')) by {
        if w.contains(':') {
            let i = choose|i: int| 0 <= i < w.len() && w[i] == ':';
        }
    }
    lemma_split_once_concat(w, ':', rest2);
    lemma_decimal_bounds(t, u);
    lemma_split_once_concat(signed_decimal(t as int), ':', rest3);
    lemma_split_once_concat(decimal(u as nat), ':', hyphenated(x));
    lemma_parse_i64_signed_decimal(t);
    lemma_parse_u64_decimal(u);
}

/// Round trip: a /forgetme id parses back into the button and issue time
/// it was built from.
pub proof fn lemma_forgetme_id_round_trip(button: ForgetmeButton, issued_at: i64)
    ensures
        parse_forgetme_spec(forgetme_id(button, issued_at)) == Some((button, issued_at)),
{
    reveal_strlit("confirm");
    reveal_strlit("cancel");
    let w = confirm_word(button == ForgetmeButton::Confirm);
    let rest = w + seq![':'] + signed_decimal(issued_at as int);
    assert(forgetme_id(button, issued_at) =~= "forgetme:"@ + rest);
    lemma_strip_literal("forgetme:"@, rest);
    assert(!w.contains(':')) by {
        if w.contains(':') {
            let i = choose|i: int| 0 <= i < w.len() && w[i] == ':';
        }
    }
    lemma_split_once_concat(w, ':', signed_decimal(issued_at as int));
    lemma_parse_i64_signed_decimal(issued_at);
}

/// The three id families never read each other's ids: a /delete id is not
/// a /forgetme id and a /forgetme id is not a /delete id.
pub proof fn lemma_flows_do_not_cross(b: DeleteButton, t: i64, u: u64, x: u128, f: ForgetmeButton, s: i64)
    ensures
        parse_forgetme_spec(delete_id(b, t, u, x)) is None,
        parse_delete_spec(forgetme_id(f, s)) is None,
{
    reveal_strlit("forgetme:");
    reveal_strlit("trophy-delete:");
    let d = delete_id(b, t, u, x);
    let g = forgetme_id(f, s);
    assert(d[0] == 't');
    assert(d.take(9)[0] != "forgetme:"@[0]);
    assert(g[0] == 'f');
    assert(g.len() >= 14) by {
        reveal_strlit("confirm");
        reveal_strlit("cancel");
        lemma_decimal_bounds(s, 0);
        crate::text::lemma_decimal(0);
        if s < 0 {
            assert(signed_decimal(s as int).len() >= 1);
        } else {
            crate::text::lemma_decimal(s as nat);
        }
    }
    assert(g.take(14)[0] != "trophy-delete:"@[0]);
}

} // verus!
