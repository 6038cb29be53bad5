//! Trophy ids as text: the hyphenated lowercase form the `uuid` crate writes
//! and the parser it offers. Ids travel through the library as their 128-bit
//! value (`Uuid::as_u128` / `Uuid::from_u128`).

use vstd::prelude::*;

verus! {

/// Lowercase hexadecimal digit for `0 <= n < 16`.
pub open spec fn hex_digit(n: int) -> char {
    if n < 10 {
        (('0' as int) + n) as char
    } else {
        (('a' as int) + n - 10) as char
    }
}

/// The `n` low hexadecimal digits of `v`, most significant first.
pub open spec fn hex_fixed(v: nat, n: nat) -> Seq<char>
    decreases n,
{
    if n == 0 {
        Seq::empty()
    } else {
        hex_fixed(v / 16, (n - 1) as nat).push(hex_digit((v % 16) as int))
    }
}

/// The hyphenated form: 32 lowercase hex digits of the value, grouped
/// 8-4-4-4-12 by hyphens.
pub open spec fn hyphenated(v: u128) -> Seq<char> {
    let h = hex_fixed(v as nat, 32);
    h.subrange(0, 8) + seq!['-'] + h.subrange(8, 12) + seq!['-'] + h.subrange(12, 16) + seq!['-']
        + h.subrange(16, 20) + seq!['-'] + h.subrange(20, 32)
}

/// What `Uuid::parse_str` yields for a text, as the id's 128-bit value.
pub uninterp spec fn uuid_parse(s: Seq<char>) -> Option<u128>;

/// `uuid::Uuid::from_u128(v).to_string()`. The uuid crate documents that
/// `Display` writes the hyphenated lowercase form and that `from_u128`
/// takes the value's bytes most significant first, so the text is exactly
/// [`hyphenated`].
#[verifier::external_body]
pub(crate) fn uuid_to_string(v: u128) -> (s: String)
    ensures
        s@ == hyphenated(v),
{
    uuid::Uuid::from_u128(v).to_string()
}

/// `uuid::Uuid::parse_str(s)`, with the id taken as its 128-bit value. The
/// result is named [`uuid_parse`]; the crate documents that every format it
/// writes parses back, so the hyphenated text of a value gives that value.
/// Which other texts are accepted is left unsaid.
#[verifier::external_body]
pub(crate) fn parse_uuid(s: &str) -> (r: Option<u128>)
    ensures
        r == uuid_parse(s@),
        forall|v: u128| s@ == #[trigger] hyphenated(v) ==> r == Some(v),
{
    match uuid::Uuid::parse_str(s) {
        Ok(id) => Some(id.as_u128()),
        Err(_) => None,
    }
}

/// The hyphenated form is 36 characters long and holds no `:`.
pub proof fn lemma_hyphenated_shape(v: u128)
    ensures
        hyphenated(v).len() == 36,
        !hyphenated(v).contains(':'),
{
    lemma_hex_fixed(v as nat, 32);
    let h = hex_fixed(v as nat, 32);
    let s = hyphenated(v);
    assert forall|i: int| 0 <= i < s.len() implies s[i] != ':' by {
        if i < 8 {
            assert(s[i] == h[i]);
        } else if 8 < i < 13 {
            assert(s[i] == h[i - 1]);
        } else if 13 < i < 18 {
            assert(s[i] == h[i - 2]);
        } else if 18 < i < 23 {
            assert(s[i] == h[i - 3]);
        } else if 23 < i {
            assert(s[i] == h[i - 4]);
        }
    }
}

/// `hex_fixed` has `n` characters, each a lowercase hex digit.
pub proof fn lemma_hex_fixed(v: nat, n: nat)
    ensures
        hex_fixed(v, n).len() == n,
        forall|i: int|
            0 <= i < n ==> {
                let c = #[trigger] hex_fixed(v, n)[i];
                ('0' <= c && c <= '9') || ('a' <= c && c <= 'f')
            },
    decreases n,
{
    if n > 0 {
        lemma_hex_fixed(v / 16, (n - 1) as nat);
        let d = (v % 16) as int;
        assert(0 <= d < 16);
    }
}

} // verus!
