//! `/create` rules: field limits and value range checked in a fixed order,
//! dedication parsing (mentions and bare snowflakes become a user), the
//! stored dedication columns, and the capacity/uniqueness prechecks.

use vstd::prelude::*;

use crate::messages::{message_view, ArgView, Message, MessageArg};
use crate::text::{
    all_ascii_digits, chars_to_string, decimal, is_ascii_digit, lemma_decimal, lemma_decimal_len,
    lemma_decimal_len_lower, lemma_parse_u64_decimal, lemma_trim_empty, lemma_trim_fixed, parse_u64, parse_u64_spec,
    pow10, spec_is_whitespace, str_chars, strip_prefix, strip_prefix_spec, strip_suffix, strip_suffix_spec, trim, trim_spec,
};

verus! {

/// Per-guild trophy cap.
pub const MAX_TROPHIES_PER_GUILD: u64 = 150;

/// Longest trophy name, in characters.
pub const MAX_NAME_CHARS: usize = 32;

/// Longest description, in characters.
pub const MAX_DESCRIPTION_CHARS: usize = 128;

/// Longest emoji text, in characters.
pub const MAX_EMOJI_CHARS: usize = 64;

/// Longest dedication, in characters.
pub const MAX_DEDICATION_CHARS: usize = 32;

/// Longest details text, in characters.
pub const MAX_DETAILS_CHARS: usize = 300;

/// Largest trophy value (the range is symmetric).
pub const MAX_VALUE: i32 = 999_999;

/// Default trophy value.
pub const DEFAULT_VALUE: i32 = 10;

/// Everything that can make `/create` refuse.
#[derive(Debug, Clone, PartialEq, Eq)]
pub enum CreateError {
    /// Name is empty or whitespace-only.
    EmptyName,
    /// `field` is name/details/description/emoji/dedication.
    FieldTooLong { field: &'static str, max: usize },
    ValueOutOfRange,
    GuildFull,
    DuplicateName { name: String },
}

/// The first rule a set of fields breaks, by value.
pub enum FieldCheck {
    Valid,
    EmptyName,
    TooLong(Seq<char>, usize),
    ValueOutOfRange,
}

/// Text longer than `max` characters (absent text never is).
pub open spec fn too_long(text: Option<Seq<char>>, max: usize) -> bool {
    match text {
        Some(t) => t.len() > max,
        None => false,
    }
}

/// An optional string slice by value.
pub open spec fn opt_view(text: Option<&str>) -> Option<Seq<char>> {
    match text {
        Some(t) => Some(t@),
        None => None,
    }
}

/// The fixed check order: name (blank, then length) → details →
/// description → emoji → value → dedication.
pub open spec fn field_check(
    name: Seq<char>,
    description: Option<Seq<char>>,
    emoji: Option<Seq<char>>,
    value: i32,
    dedication: Option<Seq<char>>,
    details: Option<Seq<char>>,
) -> FieldCheck {
    if trim_spec(name).len() == 0 {
        FieldCheck::EmptyName
    } else if name.len() > MAX_NAME_CHARS {
        FieldCheck::TooLong("name"@, MAX_NAME_CHARS)
    } else if too_long(details, MAX_DETAILS_CHARS) {
        FieldCheck::TooLong("details"@, MAX_DETAILS_CHARS)
    } else if too_long(description, MAX_DESCRIPTION_CHARS) {
        FieldCheck::TooLong("description"@, MAX_DESCRIPTION_CHARS)
    } else if too_long(emoji, MAX_EMOJI_CHARS) {
        FieldCheck::TooLong("emoji"@, MAX_EMOJI_CHARS)
    } else if !(-MAX_VALUE <= value <= MAX_VALUE) {
        FieldCheck::ValueOutOfRange
    } else if too_long(dedication, MAX_DEDICATION_CHARS) {
        FieldCheck::TooLong("dedication"@, MAX_DEDICATION_CHARS)
    } else {
        FieldCheck::Valid
    }
}

/// A name is rejected as blank exactly when every character of it is
/// whitespace (the empty name included); such a name fails before any other
/// rule is looked at.
pub proof fn lemma_blank_name_rejected(
    name: Seq<char>,
    description: Option<Seq<char>>,
    emoji: Option<Seq<char>>,
    value: i32,
    dedication: Option<Seq<char>>,
    details: Option<Seq<char>>,
)
    ensures
        (field_check(name, description, emoji, value, dedication, details) == FieldCheck::EmptyName) <==> (forall|
            i: int,
        | 0 <= i < name.len() ==> spec_is_whitespace(#[trigger] name[i])),
{
    lemma_trim_empty(name);
}

/// The result a check outcome stands for.
pub open spec fn check_result(r: Result<(), CreateError>, c: FieldCheck) -> bool {
    match c {
        FieldCheck::Valid => r is Ok,
        FieldCheck::EmptyName => r == Err::<(), CreateError>(CreateError::EmptyName),
        FieldCheck::TooLong(f, m) => r matches Err(CreateError::FieldTooLong { field, max }) && field@ == f
            && max == m,
        FieldCheck::ValueOutOfRange => r == Err::<(), CreateError>(CreateError::ValueOutOfRange),
    }
}

/// The rejection of a field over its character limit.
pub open spec fn too_long_error(r: Result<(), CreateError>, field: Seq<char>, max: usize) -> bool {
    r matches Err(CreateError::FieldTooLong { field: f, max: m }) && f@ == field && m == max
}

/// Character count of an optional text, compared with a limit.
fn exceeds(text: Option<&str>, max: usize) -> (r: bool)
    ensures
        r == too_long(opt_view(text), max),
{
    match text {
        Some(t) => str_chars(t).len() > max,
        None => false,
    }
}

/// Validates all text fields and the value, in a fixed order:
/// name → details → description → emoji → value → dedication. Limits count
/// characters, not bytes.
pub fn validate_fields(
    name: &str,
    description: Option<&str>,
    emoji: Option<&str>,
    value: i32,
    dedication: Option<&str>,
    details: Option<&str>,
) -> (r: Result<(), CreateError>)
    ensures
        check_result(
            r,
            field_check(
                name@,
                opt_view(description),
                opt_view(emoji),
                value,
                opt_view(dedication),
                opt_view(details),
            ),
        ),
        ({
            let blank = forall|i: int| 0 <= i < name@.len() ==> spec_is_whitespace(#[trigger] name@[i]);
            let name_ok = !blank && name@.len() <= 32;
            let details_ok = within(opt_view(details), 300);
            let description_ok = within(opt_view(description), 128);
            let emoji_ok = within(opt_view(emoji), 64);
            let value_ok = -999_999 <= value <= 999_999;
            &&& blank ==> r == Err::<(), CreateError>(CreateError::EmptyName)
            &&& !blank && name@.len() > 32 ==> too_long_error(r, "name"@, 32)
            &&& name_ok && !details_ok ==> too_long_error(r, "details"@, 300)
            &&& name_ok && details_ok && !description_ok ==> too_long_error(r, "description"@, 128)
            &&& name_ok && details_ok && description_ok && !emoji_ok ==> too_long_error(r, "emoji"@, 64)
            &&& name_ok && details_ok && description_ok && emoji_ok && !value_ok ==> r == Err::<(), CreateError>(
                CreateError::ValueOutOfRange,
            )
            &&& name_ok && details_ok && description_ok && emoji_ok && value_ok && !within(opt_view(dedication), 32)
                ==> too_long_error(r, "dedication"@, 32)
            &&& r is Ok <==> (name_ok && details_ok && description_ok && emoji_ok && value_ok && within(
                opt_view(dedication),
                32,
            ))
        }),
{
    proof {
        lemma_blank_name_rejected(
            name@,
            opt_view(description),
            opt_view(emoji),
            value,
            opt_view(dedication),
            opt_view(details),
        );
        if exists|i: int| 0 <= i < name@.len() && !spec_is_whitespace(#[trigger] name@[i]) {
            lemma_field_rules(
                name@,
                opt_view(description),
                opt_view(emoji),
                value,
                opt_view(dedication),
                opt_view(details),
            );
        }
    }
    let name_chars = str_chars(name);
    if trim(&name_chars).len() == 0 {
        return Err(CreateError::EmptyName);
    }
    if name_chars.len() > MAX_NAME_CHARS {
        return Err(CreateError::FieldTooLong { field: "name", max: MAX_NAME_CHARS });
    }
    if exceeds(details, MAX_DETAILS_CHARS) {
        return Err(CreateError::FieldTooLong { field: "details", max: MAX_DETAILS_CHARS });
    }
    if exceeds(description, MAX_DESCRIPTION_CHARS) {
        return Err(CreateError::FieldTooLong { field: "description", max: MAX_DESCRIPTION_CHARS });
    }
    if exceeds(emoji, MAX_EMOJI_CHARS) {
        return Err(CreateError::FieldTooLong { field: "emoji", max: MAX_EMOJI_CHARS });
    }
    if !(-MAX_VALUE <= value && value <= MAX_VALUE) {
        return Err(CreateError::ValueOutOfRange);
    }
    if exceeds(dedication, MAX_DEDICATION_CHARS) {
        return Err(CreateError::FieldTooLong { field: "dedication", max: MAX_DEDICATION_CHARS });
    }
    Ok(())
}

impl CreateError {
    /// The catalog message for this rejection and its arguments.
    pub fn message(&self) -> (m: Message)
        ensures
            message_view(m) == match *self {
                CreateError::EmptyName => ("create-error-name-empty"@, Seq::empty()),
                CreateError::FieldTooLong { field, max } => (
                    "create-error-"@ + field@ + "-too-long"@,
                    seq![("max"@, ArgView::Count(max as u64))],
                ),
                CreateError::ValueOutOfRange => (
                    "create-error-value-out-of-range"@,
                    seq![
                        ("min"@, ArgView::Int(-MAX_VALUE as i64)),
                        ("max"@, ArgView::Int(MAX_VALUE as i64)),
                    ],
                ),
                CreateError::GuildFull => (
                    "create-error-guild-full"@,
                    seq![("max"@, ArgView::Int(MAX_TROPHIES_PER_GUILD as i64))],
                ),
                CreateError::DuplicateName { name } => (
                    "create-error-duplicate-name"@,
                    seq![("name"@, ArgView::Text(name@))],
                ),
            },
    {
        match self {
            CreateError::EmptyName => Message::plain("create-error-name-empty"),
            CreateError::FieldTooLong { field, max } => {
                let mut key = str_chars("create-error-");
                let mut middle = str_chars(field);
                let mut tail = str_chars("-too-long");
                key.append(&mut middle);
                key.append(&mut tail);
                let text = chars_to_string(&key);
                Message::plain(text.as_str()).arg("max", MessageArg::Count(*max as u64))
            },
            CreateError::ValueOutOfRange => Message::plain("create-error-value-out-of-range").arg(
                "min",
                MessageArg::Int(-999_999),
            ).arg("max", MessageArg::Int(999_999)),
            CreateError::GuildFull => Message::plain("create-error-guild-full").arg(
                "max",
                MessageArg::Int(150),
            ),
            CreateError::DuplicateName { name } => Message::plain("create-error-duplicate-name").arg(
                "name",
                MessageArg::Text(name.clone()),
            ),
        }
    }
}

/// Parsed dedication: a mention or raw snowflake becomes a user
/// dedication, anything else is plain text.
#[derive(Debug, Clone, PartialEq, Eq)]
pub enum Dedication {
    User(u64),
    Text(String),
}

/// The part of a dedication that may name a user: the trimmed input, or
/// the inside of a `<@id>` / `<@!id>` mention.
pub open spec fn dedication_candidate(raw: Seq<char>) -> Seq<char> {
    let trimmed = trim_spec(raw);
    match strip_prefix_spec(trimmed, "<@"@) {
        Some(after) => match strip_suffix_spec(after, ">"@) {
            Some(inner) => match strip_prefix_spec(inner, "!"@) {
                Some(id) => id,
                None => inner,
            },
            None => trimmed,
        },
        None => trimmed,
    }
}

/// A snowflake: 15 to 20 ASCII digits denoting a non-zero `u64`.
pub open spec fn snowflake_spec(s: Seq<char>) -> Option<u64> {
    if 15 <= s.len() <= 20 && all_ascii_digits(s) {
        match parse_u64_spec(s) {
            Some(id) => if id > 0 {
                Some(id)
            } else {
                None
            },
            None => None,
        }
    } else {
        None
    }
}

/// 15 to 20 characters, all ASCII digits.
pub(crate) fn snowflake_shaped(s: &[char]) -> (r: bool)
    ensures
        r == (15 <= s@.len() <= 20 && all_ascii_digits(s@)),
{
    if s.len() < 15 || s.len() > 20 {
        return false;
    }
    let mut i: usize = 0;
    while i < s.len()
        invariant
            i <= s.len(),
            forall|j: int| 0 <= j < i ==> is_ascii_digit(#[trigger] s@[j]),
        decreases s.len() - i,
    {
        if !('0' <= s[i] && s[i] <= '9') {
            return false;
        }
        i = i + 1;
    }
    true
}

/// Parses the raw `dedication` option: `<@id>` / `<@!id>` mentions and bare
/// snowflakes (15-20 ASCII digits) resolve to [`Dedication::User`];
/// everything else is kept verbatim as [`Dedication::Text`].
pub fn parse_dedication(raw: &str) -> (d: Dedication)
    ensures
        match d {
            Dedication::User(id) => snowflake_spec(dedication_candidate(raw@)) == Some(id),
            Dedication::Text(t) => snowflake_spec(dedication_candidate(raw@)) is None && t@ == raw@,
        },
{
    let chars = str_chars(raw);
    let trimmed = trim(&chars);
    let open = str_chars("<@");
    let close = str_chars(">");
    let bang = str_chars("!");
    let candidate = match strip_prefix(&trimmed, &open) {
        Some(after) => match strip_suffix(&after, &close) {
            Some(inner) => match strip_prefix(&inner, &bang) {
                Some(id) => id,
                None => inner,
            },
            None => trimmed,
        },
        None => trimmed,
    };
    if snowflake_shaped(&candidate) {
        match parse_u64(&candidate) {
            Some(id) => {
                if id > 0 {
                    return Dedication::User(id);
                }
            },
            None => {},
        }
    }
    Dedication::Text(crate::messages::owned(raw))
}

/// Every user id of 15 or more digits is read back as that user, from its
/// bare digits and from its `<@id>` and `<@!id>` mentions.
pub proof fn lemma_user_id_round_trip(id: u64)
    requires
        id >= 100_000_000_000_000,
    ensures
        snowflake_spec(dedication_candidate(decimal(id as nat))) == Some(id),
        snowflake_spec(dedication_candidate("<@"@ + decimal(id as nat) + ">"@)) == Some(id),
        snowflake_spec(dedication_candidate("<@!"@ + decimal(id as nat) + ">"@)) == Some(id),
{
    let d = decimal(id as nat);
    lemma_decimal(id as nat);
    lemma_parse_u64_decimal(id);
    reveal_with_fuel(pow10, 21);
    assert(pow10(14) == 100_000_000_000_000nat);
    assert(pow10(20) == 100_000_000_000_000_000_000nat);
    lemma_decimal_len_lower(id as nat, 15);
    lemma_decimal_len(id as nat, 20);
    assert(is_ascii_digit(d[0]) && is_ascii_digit(d.last()));
    lemma_trim_fixed(d);
    reveal_strlit("<@");
    reveal_strlit("<@!");
    reveal_strlit(">");
    reveal_strlit("!");
    assert(strip_prefix_spec(d, "<@"@) is None) by {
        if d.len() >= 2 {
            assert(d.take(2)[0] == d[0]);
        }
    }
    let m = "<@"@ + d + ">"@;
    let mb = "<@!"@ + d + ">"@;
    assert(m[0] == '<' && m.last() == '>');
    assert(mb[0] == '<' && mb.last() == '>');
    lemma_trim_fixed(m);
    lemma_trim_fixed(mb);
    assert(m.take(2) =~= "<@"@);
    assert(m.skip(2) =~= d + ">"@);
    assert((d + ">"@).skip((d + ">"@).len() - 1) =~= ">"@);
    assert((d + ">"@).take((d + ">"@).len() - 1) =~= d);
    assert(strip_prefix_spec(d, "!"@) is None) by {
        assert(d.take(1)[0] == d[0]);
    }
    assert(mb.take(2) =~= "<@"@);
    assert(mb.skip(2) =~= "!"@ + d + ">"@);
    let rest = "!"@ + d + ">"@;
    assert(rest.skip(rest.len() - 1) =~= ">"@);
    assert(rest.take(rest.len() - 1) =~= "!"@ + d);
    assert(("!"@ + d).take(1) =~= "!"@);
    assert(("!"@ + d).skip(1) =~= d);
}

/// The stored `(dedication_user_id, dedication_text)` columns: a user
/// dedication keeps the fetched name as its snapshot; a user that could not
/// be fetched falls back to a TEXT dedication holding the raw input.
pub fn dedication_columns(raw: &str, parsed: Dedication, fetched_name: Option<String>) -> (c: (
    Option<i64>,
    Option<String>,
))
    ensures
        match parsed {
            Dedication::Text(text) => c.0 is None && (c.1 matches Some(t) && t@ == text@),
            Dedication::User(id) => match fetched_name {
                Some(name) => c.0 == Some(id as i64) && (c.1 matches Some(t) && t@ == name@),
                None => c.0 is None && (c.1 matches Some(t) && t@ == raw@),
            },
        },
{
    match parsed {
        Dedication::Text(text) => (None, Some(text)),
        Dedication::User(id) => match fetched_name {
            Some(name) => (Some(id as i64), Some(name)),
            None => (None, Some(crate::messages::owned(raw))),
        },
    }
}

/// The database prechecks, given the guild's trophy count and how many of
/// its trophies share the new name's normalized form: capacity first, then
/// uniqueness.
pub fn precheck_outcome(trophy_count: u64, same_name_count: u64, name: &str) -> (r: Option<CreateError>)
    ensures
        trophy_count >= MAX_TROPHIES_PER_GUILD ==> r == Some(CreateError::GuildFull),
        trophy_count < MAX_TROPHIES_PER_GUILD && same_name_count > 0 ==> (r matches Some(
            CreateError::DuplicateName { name: n },
        ) && n@ == name@),
        trophy_count < MAX_TROPHIES_PER_GUILD && same_name_count == 0 ==> r is None,
{
    if trophy_count >= MAX_TROPHIES_PER_GUILD {
        return Some(CreateError::GuildFull);
    }
    if same_name_count > 0 {
        return Some(CreateError::DuplicateName { name: crate::messages::owned(name) });
    }
    None
}

/// The optional `/create` fields with their stored defaults filled in.
#[derive(Debug, Clone, PartialEq, Eq)]
pub struct FilledFields {
    pub description: String,
    pub emoji: String,
    pub value: i32,
    pub details: String,
    pub signed: bool,
}

/// Fills absent options with the stored defaults: "No description
/// provided", 🏆, value 10, "No details provided." and unsigned.
pub fn fill_defaults(
    description: Option<String>,
    emoji: Option<String>,
    value: Option<i32>,
    details: Option<String>,
    signed: Option<bool>,
) -> (f: FilledFields)
    ensures
        f.description@ == match description {
            Some(d) => d@,
            None => "No description provided"@,
        },
        f.emoji@ == match emoji {
            Some(e) => e@,
            None => "🏆"@,
        },
        f.value == match value {
            Some(v) => v,
            None => DEFAULT_VALUE,
        },
        f.details@ == match details {
            Some(d) => d@,
            None => "No details provided."@,
        },
        f.signed == match signed {
            Some(s) => s,
            None => false,
        },
{
    FilledFields {
        description: match description {
            Some(d) => d,
            None => crate::messages::owned("No description provided"),
        },
        emoji: match emoji {
            Some(e) => e,
            None => crate::messages::owned("🏆"),
        },
        value: match value {
            Some(v) => v,
            None => DEFAULT_VALUE,
        },
        details: match details {
            Some(d) => d,
            None => crate::messages::owned("No details provided."),
        },
        signed: match signed {
            Some(s) => s,
            None => false,
        },
    }
}


/// Within its limit: absent, or at most `max` characters.
pub open spec fn within(text: Option<Seq<char>>, max: nat) -> bool {
    match text {
        Some(t) => t.len() <= max,
        None => true,
    }
}

/// The field rules apply in a fixed order, each independent of the fields
/// checked after it: once the name is non-blank and at most 32 characters,
/// details over 300 characters are rejected; once the details also fit, a
/// description over 128; then an emoji over 64; then a value outside
/// ±999,999; then a dedication over 32; and fields within every limit pass.
pub proof fn lemma_field_rules(
    name: Seq<char>,
    description: Option<Seq<char>>,
    emoji: Option<Seq<char>>,
    value: i32,
    dedication: Option<Seq<char>>,
    details: Option<Seq<char>>,
)
    requires
        exists|i: int| 0 <= i < name.len() && !spec_is_whitespace(#[trigger] name[i]),
    ensures
        ({
            let c = field_check(name, description, emoji, value, dedication, details);
            &&& name.len() > 32 ==> c == FieldCheck::TooLong("name"@, 32)
            &&& name.len() <= 32 && !within(details, 300) ==> c == FieldCheck::TooLong("details"@, 300)
            &&& name.len() <= 32 && within(details, 300) && !within(description, 128) ==> c
                == FieldCheck::TooLong("description"@, 128)
            &&& name.len() <= 32 && within(details, 300) && within(description, 128) && !within(emoji, 64)
                ==> c == FieldCheck::TooLong("emoji"@, 64)
            &&& name.len() <= 32 && within(details, 300) && within(description, 128) && within(emoji, 64) && (
            value < -999_999 || value > 999_999) ==> c == FieldCheck::ValueOutOfRange
            &&& name.len() <= 32 && within(details, 300) && within(description, 128) && within(emoji, 64) && -999_999
                <= value <= 999_999 && !within(dedication, 32) ==> c == FieldCheck::TooLong("dedication"@, 32)
            &&& name.len() <= 32 && within(details, 300) && within(description, 128) && within(emoji, 64) && -999_999
                <= value <= 999_999 && within(dedication, 32) ==> c == FieldCheck::Valid
        }),
{
    lemma_trim_empty(name);
}

} // verus!
