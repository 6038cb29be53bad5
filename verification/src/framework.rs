//! Framework-level decisions: which message answers a failed command, the
//! startup command-listing line, and the name run counters are kept under.

use vstd::prelude::*;

use crate::messages::{args_view, message_view, owned, ArgView, Message, MessageArg};
use crate::text::{chars_to_string, decimal, push_decimal, push_str};

verus! {

/// How a command invocation failed, as far as the reply is concerned.
#[derive(Debug, Clone, PartialEq, Eq)]
pub enum FailureKind {
    /// The command returned an error.
    Command,
    /// The command panicked.
    CommandPanic,
    /// The user is on cooldown for this many more whole seconds.
    CooldownHit { remaining_secs: u64 },
    /// The invoking user lacks permissions.
    MissingUserPermissions,
    /// The bot lacks the listed permissions.
    MissingBotPermissions { permissions: String },
    /// A guild-only command was used outside a guild.
    GuildOnly,
    /// An owner-only command was used by someone else.
    NotAnOwner,
    /// The arguments could not be parsed.
    ArgumentParse,
    /// Any other framework failure.
    Other,
}

/// The friendly reply for a failure. Cooldowns always announce at least one
/// second.
pub open spec fn failure_message(kind: FailureKind) -> (Seq<char>, Seq<(Seq<char>, ArgView)>) {
    match kind {
        FailureKind::CooldownHit { remaining_secs } => (
            "common-error-cooldown"@,
            seq![("seconds"@, ArgView::Count(if remaining_secs > 1 { remaining_secs } else { 1 }))],
        ),
        FailureKind::MissingUserPermissions => ("common-error-missing-user-permissions"@, Seq::empty()),
        FailureKind::MissingBotPermissions { permissions } => (
            "common-error-missing-bot-permissions"@,
            seq![("permissions"@, ArgView::Text(permissions@))],
        ),
        FailureKind::GuildOnly => ("common-error-guild-only"@, Seq::empty()),
        FailureKind::NotAnOwner => ("common-error-not-owner"@, Seq::empty()),
        FailureKind::ArgumentParse => ("common-error-invalid-input"@, Seq::empty()),
        _ => ("common-error-generic"@, Seq::empty()),
    }
}

/// The localized error reply for a failed invocation.
pub fn error_message(kind: &FailureKind) -> (m: Message)
    ensures
        message_view(m) == failure_message(*kind),
{
    match kind {
        FailureKind::CooldownHit { remaining_secs } => {
            let seconds = if *remaining_secs > 1 {
                *remaining_secs
            } else {
                1
            };
            let m = Message::plain("common-error-cooldown").arg("seconds", MessageArg::Count(seconds));
            assert(args_view(m.args@) =~= seq![("seconds"@, ArgView::Count(seconds))]);
            m
        },
        FailureKind::MissingUserPermissions => Message::plain("common-error-missing-user-permissions"),
        FailureKind::MissingBotPermissions { permissions } => {
            let m = Message::plain("common-error-missing-bot-permissions").arg(
                "permissions",
                MessageArg::Text(permissions.clone()),
            );
            assert(args_view(m.args@) =~= seq![("permissions"@, ArgView::Text(permissions@))]);
            m
        },
        FailureKind::GuildOnly => Message::plain("common-error-guild-only"),
        FailureKind::NotAnOwner => Message::plain("common-error-not-owner"),
        FailureKind::ArgumentParse => Message::plain("common-error-invalid-input"),
        _ => Message::plain("common-error-generic"),
    }
}

/// Names joined with `, `.
pub open spec fn joined(names: Seq<Seq<char>>) -> Seq<char>
    decreases names.len(),
{
    if names.len() == 0 {
        Seq::empty()
    } else if names.len() == 1 {
        names[0]
    } else {
        joined(names.drop_last()) + ", "@ + names.last()
    }
}

/// The startup diagnostic: `N (a, b, c)`, or `none`.
pub open spec fn listing_spec(names: Seq<Seq<char>>) -> Seq<char> {
    if names.len() == 0 {
        "none"@
    } else {
        decimal(names.len()) + " ("@ + joined(names) + ")"@
    }
}

/// Renders the startup command-listing diagnostic: `N (a, b, c)` or `none`.
pub fn format_command_listing(names: &[String]) -> (s: String)
    ensures
        s@ == listing_spec(names@.map_values(|n: String| n@)),
{
    let ghost views = names@.map_values(|n: String| n@);
    if names.len() == 0 {
        return owned("none");
    }
    let mut body: Vec<char> = Vec::new();
    let mut i: usize = 0;
    while i < names.len()
        invariant
            i <= names.len(),
            views == names@.map_values(|n: String| n@),
            body@ == joined(views.take(i as int)),
        decreases names.len() - i,
    {
        assert(views.take(i + 1).drop_last() =~= views.take(i as int));
        assert(views.take(i + 1).last() == names@[i as int]@);
        if i > 0 {
            push_str(&mut body, ", ");
        }
        push_str(&mut body, names[i].as_str());
        proof {
            if i == 0 {
                assert(views.take(1)[0] == names@[0]@);
                assert(body@ =~= joined(views.take(1)));
            }
        }
        i = i + 1;
    }
    assert(views.take(names.len() as int) =~= views);
    let mut v: Vec<char> = Vec::new();
    push_decimal(names.len() as u64, &mut v);
    push_str(&mut v, " (");
    v.append(&mut body);
    push_str(&mut v, ")");
    assert(v@ =~= listing_spec(views));
    chars_to_string(&v)
}

/// Run counters are keyed by the TOP-LEVEL command name, so subcommand
/// runs like `/rewards add` count under `rewards`.
pub fn root_command_name<'a>(parent_names: &[&'a str], invoked: &'a str) -> (name: &'a str)
    ensures
        name@ == (if parent_names@.len() > 0 {
            parent_names@[0]@
        } else {
            invoked@
        }),
{
    if parent_names.len() > 0 {
        parent_names[0]
    } else {
        invoked
    }
}

} // verus!
