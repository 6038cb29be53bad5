//! Shared helpers for command implementations: embed colors, pagination
//! and user mentions.

use vstd::prelude::*;

use crate::text::{chars_to_string, push_signed_decimal, push_str, signed_decimal, str_chars};

verus! {

/// Main brand color (`#0096FF`).
pub const COLOR_MAIN: u32 = 0x0096FF;

/// Error color (`#E02D44`).
pub const COLOR_ERROR: u32 = 0xE02D44;

/// Success color (award/create/edit/delete confirmations).
pub const COLOR_SUCCESS: u32 = 0x2ECC71;

/// Number of pages for `len` items, `per_page` per page: `ceil(len /
/// per_page)`, and at least 1.
pub open spec fn last_page(len: int, per_page: int) -> int {
    if len == 0 {
        1
    } else {
        (len + per_page - 1) / per_page
    }
}

/// A requested page clamped into `[1, last]`.
pub open spec fn clamp_spec(requested: int, last: int) -> int {
    if requested < 1 {
        1
    } else if requested > last {
        last
    } else {
        requested
    }
}

/// Computes `(page, last)` for a list of `len` items.
pub fn page_bounds(len: usize, per_page: usize, requested: i64) -> (r: (usize, usize))
    requires
        per_page > 0,
    ensures
        r.1 == last_page(len as int, per_page as int),
        r.0 == clamp_spec(requested as int, r.1 as int),
        1 <= r.0 <= r.1,
        (r.0 - 1) * per_page < len || len == 0,
{
    let q = len / per_page;
    let rem = len % per_page;
    assert(rem != 0 ==> q < usize::MAX) by (nonlinear_arith)
        requires
            per_page > 0,
            q == len / per_page,
            rem == len % per_page,
            len <= usize::MAX,
    {
        if rem != 0 {
            assert(per_page >= 2);
            assert(q * per_page <= len);
            assert(q * 2 <= q * per_page);
        }
    }
    let last: usize = if len == 0 {
        1
    } else {
        q + if rem != 0 {
            1
        } else {
            0
        }
    };
    assert(last == last_page(len as int, per_page as int)) by (nonlinear_arith)
        requires
            per_page > 0,
            last == (if len == 0 {
                1
            } else {
                len / per_page + if len % per_page != 0 {
                    1int
                } else {
                    0int
                }
            }),
    {
        if len > 0 {
            assert(len == (len / per_page) * per_page + len % per_page);
        }
    }
    let page: usize = if requested < 1 {
        1
    } else if requested as i128 > last as i128 {
        last
    } else {
        requested as usize
    };
    assert(last >= 1) by (nonlinear_arith)
        requires
            per_page > 0,
            last == last_page(len as int, per_page as int),
    {}
    assert((page - 1) * per_page < len || len == 0) by (nonlinear_arith)
        requires
            per_page > 0,
            1 <= page <= last,
            last == last_page(len as int, per_page as int),
    {
        if len > 0 {
            assert((page - 1) * per_page <= (last - 1) * per_page);
        }
    }
    (page, last)
}

/// Pagination shared by every paginated list:
/// `last = ceil(len / per_page)` floored at 1, the requested page clamped
/// to `[1, last]`; returns the page's slice, the clamped page and `last`.
/// An empty list yields `([], 1, 1)`.
pub fn paginate<T>(items: &[T], per_page: usize, requested: i64) -> (r: (&[T], usize, usize))
    requires
        per_page > 0,
    ensures
        r.2 == last_page(items@.len() as int, per_page as int),
        r.1 == clamp_spec(requested as int, r.2 as int),
        r.0@ == items@.subrange(
            ((r.1 - 1) * per_page) as int,
            if (r.1 * per_page) as int <= items@.len() {
                (r.1 * per_page) as int
            } else {
                items@.len() as int
            },
        ),
{
    let (page, last) = page_bounds(items.len(), per_page, requested);
    let start: usize = if items.len() == 0 {
        0
    } else {
        (page - 1) * per_page
    };
    assert(start == (page - 1) * per_page) by (nonlinear_arith)
        requires
            items.len() == 0 ==> page == 1,
            start == (if items.len() == 0 {
                0
            } else {
                (page - 1) * per_page
            }),
    {}
    let end: usize = if items.len() - start <= per_page {
        items.len()
    } else {
        start + per_page
    };
    assert(end as int == (if (page * per_page) as int <= items@.len() {
        (page * per_page) as int
    } else {
        items@.len() as int
    })) by (nonlinear_arith)
        requires
            start == (page - 1) * per_page,
            start <= items.len(),
            end == (if items.len() - start <= per_page {
                items.len() as int
            } else {
                start + per_page
            }),
    {}
    let slice = vstd::slice::slice_subrange(items, start, end);
    (slice, page, last)
}

/// `<@{id}>`: a Discord user mention.
pub open spec fn mention_spec(id: int) -> Seq<char> {
    seq!['<', '@'] + signed_decimal(id) + seq!['>']
}

/// Renders a user mention.
pub fn mention(id: i64) -> (s: String)
    ensures
        s@ == mention_spec(id as int),
{
    let mut v: Vec<char> = Vec::new();
    v.push('<');
    v.push('@');
    push_signed_decimal(id, &mut v);
    v.push('>');
    assert(v@ =~= mention_spec(id as int));
    chars_to_string(&v)
}

/// One line of a trophy's holders list: the holder's mention, an em dash
/// and the already formatted award time.
pub fn holder_line(user_id: i64, when: &str) -> (s: String)
    ensures
        s@ == mention_spec(user_id as int) + seq![' ', '\u{2014}', ' '] + when@,
{
    let m = mention(user_id);
    let mut v = str_chars(m.as_str());
    v.push(' ');
    v.push('\u{2014}');
    v.push(' ');
    push_str(&mut v, when);
    chars_to_string(&v)
}

} // verus!
