//! Trophy name normalization and the importer's dedupe rename plan.
//!
//! A name normalizes to the lowercase of its alphanumeric characters (any
//! script); a name with no alphanumeric character at all falls back to its
//! trimmed, lowercased whole text, so distinct emoji names stay distinct
//! while exact emoji duplicates still collide.

use vstd::prelude::*;

use crate::text::{
    ascii_lower, char_is_alphanumeric, char_to_lowercase, chars_eq, chars_to_string, spec_char_lowercase,
    spec_is_alphanumeric, spec_str_lowercase, str_chars, str_to_lowercase, sub_chars, trim, trim_end, trim_end_spec, trim_spec,
};
use vstd::relations::injective_on;
use vstd::seq_lib::seq_to_set_is_finite;
use vstd::set_lib::{lemma_int_range, lemma_len_subset, lemma_map_size, set_int_range};

verus! {

/// Maximum trophy name length in characters.
pub const MAX_NAME_CHARS: usize = 32;

/// Lowercase mapping of the alphanumeric characters of `s`, in order.
pub open spec fn lower_alnum(s: Seq<char>) -> Seq<char>
    decreases s.len(),
{
    if s.len() == 0 {
        Seq::empty()
    } else if spec_is_alphanumeric(s.last()) {
        lower_alnum(s.drop_last()) + spec_char_lowercase(s.last())
    } else {
        lower_alnum(s.drop_last())
    }
}

/// The normalized key of a trophy name.
pub open spec fn normalize_spec(s: Seq<char>) -> Seq<char> {
    if lower_alnum(s).len() > 0 {
        lower_alnum(s)
    } else {
        spec_str_lowercase(trim_spec(s))
    }
}

/// Normalizes a name given as characters.
pub fn normalize_chars(name: &[char]) -> (r: Vec<char>)
    ensures
        r@ == normalize_spec(name@),
{
    let mut out: Vec<char> = Vec::new();
    let mut i: usize = 0;
    while i < name.len()
        invariant
            i <= name.len(),
            out@ == lower_alnum(name@.take(i as int)),
        decreases name.len() - i,
    {
        let c = name[i];
        assert(name@.take(i + 1).drop_last() =~= name@.take(i as int));
        if char_is_alphanumeric(c) {
            let lower = char_to_lowercase(c);
            let mut k: usize = 0;
            let ghost before = out@;
            while k < lower.len()
                invariant
                    k <= lower.len(),
                    out@ == before + lower@.take(k as int),
                decreases lower.len() - k,
            {
                out.push(lower[k]);
                assert(lower@.take(k + 1) =~= lower@.take(k as int).push(lower@[k as int]));
                k = k + 1;
            }
            assert(lower@.take(lower@.len() as int) =~= lower@);
        }
        i = i + 1;
    }
    assert(name@.take(name@.len() as int) =~= name@);
    if out.len() == 0 {
        let trimmed = trim(name);
        str_to_lowercase(&trimmed)
    } else {
        out
    }
}

/// Normalizes a trophy name: lowercased alphanumeric characters of any
/// script, or the trimmed lowercased name when nothing alphanumeric remains.
pub fn normalize_name(name: &str) -> (r: String)
    ensures
        r@ == normalize_spec(name@),
{
    let chars = str_chars(name);
    let n = normalize_chars(&chars);
    chars_to_string(&n)
}

/// `lower_alnum` distributes over concatenation.
pub proof fn lemma_lower_alnum_concat(a: Seq<char>, b: Seq<char>)
    ensures
        lower_alnum(a + b) == lower_alnum(a) + lower_alnum(b),
    decreases b.len(),
{
    if b.len() == 0 {
        assert(a + b =~= a);
        assert(lower_alnum(a) + lower_alnum(b) =~= lower_alnum(a));
    } else {
        lemma_lower_alnum_concat(a, b.drop_last());
        assert((a + b).drop_last() =~= a + b.drop_last());
        assert((a + b).last() == b.last());
        if spec_is_alphanumeric(b.last()) {
            assert(lower_alnum(a) + lower_alnum(b.drop_last()) + spec_char_lowercase(b.last())
                =~= lower_alnum(a) + (lower_alnum(b.drop_last()) + spec_char_lowercase(b.last())));
        }
    }
}

/// Normalization ignores every non-alphanumeric character (punctuation,
/// spaces, symbols) of a name that has at least one alphanumeric character:
/// removing one such character anywhere leaves the key unchanged.
pub proof fn lemma_normalize_ignores_non_alphanumeric(a: Seq<char>, c: char, b: Seq<char>)
    requires
        !spec_is_alphanumeric(c),
        lower_alnum(a + b).len() > 0,
    ensures
        normalize_spec(a + seq![c] + b) == normalize_spec(a + b),
{
    lemma_lower_alnum_concat(a, b);
    lemma_lower_alnum_concat(a + seq![c], b);
    lemma_lower_alnum_concat(a, seq![c]);
    assert(seq![c].drop_last() =~= Seq::<char>::empty());
    assert(seq![c].last() == c);
    assert(lower_alnum(Seq::<char>::empty()) =~= Seq::<char>::empty());
    assert(lower_alnum(seq![c]) =~= Seq::<char>::empty());
    assert(lower_alnum(a + seq![c]) =~= lower_alnum(a));
}

// ---------------------------------------------------------------------------
// Dedupe rename plan
// ---------------------------------------------------------------------------

/// A planned rename of one imported trophy, recorded in the import report.
#[derive(Debug, Clone, PartialEq, Eq)]
pub struct Rename {
    pub legacy_id: String,
    pub old_name: String,
    pub new_name: String,
}

impl View for Rename {
    type V = (Seq<char>, Seq<char>, Seq<char>);

    open spec fn view(&self) -> (Seq<char>, Seq<char>, Seq<char>) {
        (self.legacy_id@, self.old_name@, self.new_name@)
    }
}

/// Characters of a base name kept by [`append_id`]: enough to leave room
/// for a space and the id within [`MAX_NAME_CHARS`].
pub open spec fn id_room(id: Seq<char>) -> nat {
    if id.len() + 1 <= MAX_NAME_CHARS {
        (MAX_NAME_CHARS - (id.len() + 1)) as nat
    } else {
        0
    }
}

/// `"{base} {id}"` with `base` cut to [`id_room`] characters and its
/// trailing whitespace removed.
pub open spec fn append_id_spec(base: Seq<char>, id: Seq<char>) -> Seq<char> {
    let kept = if base.len() <= id_room(id) {
        base
    } else {
        base.take(id_room(id) as int)
    };
    trim_end_spec(kept) + seq![' '] + id
}

/// Appends `" {id}"` to `base`, truncating `base` (in characters) so the
/// result fits within [`MAX_NAME_CHARS`].
pub fn append_id(base: &[char], id: &[char]) -> (r: Vec<char>)
    ensures
        r@ == append_id_spec(base@, id@),
{
    let room: usize = if id.len() < MAX_NAME_CHARS {
        MAX_NAME_CHARS - (id.len() + 1)
    } else {
        0
    };
    let kept_len = if base.len() <= room {
        base.len()
    } else {
        room
    };
    let kept = sub_chars(base, 0, kept_len);
    proof {
        if base@.len() <= room {
            assert(kept@ =~= base@);
        }
    }
    let mut r = trim_end(&kept);
    r.push(' ');
    let mut k: usize = 0;
    let ghost before = r@;
    while k < id.len()
        invariant
            k <= id.len(),
            r@ == before + id@.take(k as int),
        decreases id.len() - k,
    {
        r.push(id[k]);
        assert(id@.take(k + 1) =~= id@.take(k as int).push(id@[k as int]));
        k = k + 1;
    }
    assert(id@.take(id@.len() as int) =~= id@);
    r
}

/// Occurrences of `k` in `keys`.
pub open spec fn key_count(keys: Seq<Seq<char>>, k: Seq<char>) -> nat
    decreases keys.len(),
{
    if keys.len() == 0 {
        0
    } else {
        key_count(keys.drop_last(), k) + if keys.last() == k {
            1nat
        } else {
            0nat
        }
    }
}

/// `(legacy_id, name)` pairs as character sequences.
pub open spec fn pairs_view(t: Seq<(String, String)>) -> Seq<(Seq<char>, Seq<char>)> {
    t.map_values(|p: (String, String)| (p.0@, p.1@))
}

/// Normalized key of every trophy, in input order.
pub open spec fn trophy_keys(t: Seq<(Seq<char>, Seq<char>)>) -> Seq<Seq<char>> {
    t.map_values(|p: (Seq<char>, Seq<char>)| normalize_spec(p.1))
}

/// Trophy `i` shares its normalized key with at least one other trophy.
pub open spec fn is_duplicate(t: Seq<(Seq<char>, Seq<char>)>, i: int) -> bool {
    key_count(trophy_keys(t), trophy_keys(t)[i]) > 1
}

/// Keys already final before any rename: those of trophies that are NOT renamed.
pub open spec fn initial_taken(t: Seq<(Seq<char>, Seq<char>)>) -> Set<Seq<char>> {
    Set::new(
        |k: Seq<char>|
            exists|i: int| 0 <= i < t.len() && trophy_keys(t)[i] == k && !is_duplicate(t, i),
    )
}

/// The first candidate from `name` on (appending `id` again each time) whose
/// key is not taken, trying at most `fuel` more appends.
pub open spec fn settle(name: Seq<char>, id: Seq<char>, taken: Set<Seq<char>>, fuel: nat) -> Option<
    Seq<char>,
>
    decreases fuel,
{
    if !taken.contains(normalize_spec(name)) {
        Some(name)
    } else if fuel == 0 {
        None
    } else {
        settle(append_id_spec(name, id), id, taken, (fuel - 1) as nat)
    }
}

/// Most extra appends of the id tried on one trophy before the tag
/// fallback. Appending again changes a candidate only while its kept base
/// still grows within the room the id leaves, so a candidate still taken
/// after this many appends never becomes free by appending.
pub const MAX_APPENDS: usize = 32;

/// The character of a base-36 digit `0..36`: `0`..`9`, then `a`..`z`.
pub open spec fn b36_char(d: nat) -> char {
    if d < 10 {
        (d + 48) as char
    } else {
        (d + 87) as char
    }
}

/// `k` in base 36 with the digits `0`..`9`, `a`..`z` (`"0"` for zero).
pub open spec fn base36(k: nat) -> Seq<char>
    decreases k,
{
    if k < 36 {
        seq![b36_char(k)]
    } else {
        base36(k / 36).push(b36_char(k % 36))
    }
}

/// The fallback name `"{tag} {id}"`, the tag being `k` in base 36.
pub open spec fn tag_name(k: nat, id: Seq<char>) -> Seq<char> {
    base36(k) + seq![' '] + id
}

/// The tag of `k` fits in the room the id leaves within
/// [`MAX_NAME_CHARS`], so that its tag name fits too.
pub open spec fn tag_fits(k: nat, id: Seq<char>) -> bool {
    base36(k).len() <= id_room(id)
}

/// The normalized key of the tag name of `k` is not taken.
pub open spec fn tag_free(k: nat, id: Seq<char>, taken: Set<Seq<char>>) -> bool {
    !taken.contains(normalize_spec(tag_name(k, id)))
}

/// The first fitting, free tag from `k` on, looking at most `left` tags
/// further; `None` once the tags no longer fit.
pub open spec fn first_free_tag(id: Seq<char>, taken: Set<Seq<char>>, k: nat, left: nat) -> Option<nat>
    decreases left,
{
    if left == 0 || !tag_fits(k, id) {
        None
    } else if tag_free(k, id, taken) {
        Some(k)
    } else {
        first_free_tag(id, taken, k + 1, (left - 1) as nat)
    }
}

/// The smallest tag whose name fits and is free, if any (one is always
/// found among the first `taken.len() + 1` when they fit).
pub open spec fn fallback_tag(id: Seq<char>, taken: Set<Seq<char>>) -> Option<nat> {
    first_free_tag(id, taken, 0, taken.len() + 1)
}

/// The final name of a duplicate: `"{name} {id}"`, the id appended again
/// while the normalized key is taken (at most [`MAX_APPENDS`] more times);
/// if that does not free it, `"{tag} {id}"` with the smallest base-36 tag
/// whose name fits and is free; `None` when no such tag exists.
pub open spec fn rename_target(name: Seq<char>, id: Seq<char>, taken: Set<Seq<char>>) -> Option<
    Seq<char>,
> {
    match settle(append_id_spec(name, id), id, taken, MAX_APPENDS as nat) {
        Some(n) => Some(n),
        None => match fallback_tag(id, taken) {
            Some(k) => Some(tag_name(k, id)),
            None => None,
        },
    }
}

/// Taken keys, renames and unresolved duplicates after processing the
/// first `n` trophies in input order.
pub open spec fn plan_prefix(t: Seq<(Seq<char>, Seq<char>)>, n: nat) -> (
    Set<Seq<char>>,
    Seq<(Seq<char>, Seq<char>, Seq<char>)>,
    Seq<(Seq<char>, Seq<char>)>,
)
    decreases n,
{
    if n == 0 {
        (initial_taken(t), Seq::empty(), Seq::empty())
    } else {
        let state = plan_prefix(t, (n - 1) as nat);
        let id = t[n - 1].0;
        let name = t[n - 1].1;
        if !is_duplicate(t, n - 1) {
            state
        } else {
            match rename_target(name, id, state.0) {
                Some(new_name) => (
                    state.0.insert(normalize_spec(new_name)),
                    state.1.push((id, name, new_name)),
                    state.2,
                ),
                None => (state.0, state.1, state.2.push((id, name))),
            }
        }
    }
}

/// Every character is an ASCII digit or lowercase letter.
pub open spec fn lower_ascii_alnum(s: Seq<char>) -> bool {
    forall|i: int| 0 <= i < s.len() ==> ('0' <= #[trigger] s[i] <= '9' || 'a' <= s[i] <= 'z')
}

proof fn lemma_base36(k: nat)
    ensures
        base36(k).len() >= 1,
        k >= 36 ==> base36(k).len() >= 2,
        lower_ascii_alnum(base36(k)),
    decreases k,
{
    if k >= 36 {
        lemma_base36(k / 36);
        let p = base36(k / 36);
        assert forall|i: int| 0 <= i < base36(k).len() implies ('0' <= #[trigger] base36(k)[i] <= '9' || 'a'
            <= base36(k)[i] <= 'z') by {
            if i < p.len() {
                assert(base36(k)[i] == p[i]);
            }
        }
    }
}

proof fn lemma_base36_injective(a: nat, b: nat)
    requires
        base36(a) == base36(b),
    ensures
        a == b,
    decreases a,
{
    lemma_base36(a);
    lemma_base36(b);
    if a < 36 && b < 36 {
        assert(base36(a)[0] == b36_char(a));
        assert(base36(b)[0] == b36_char(b));
        assert(b36_char(a) == b36_char(b));
    } else if a < 36 || b < 36 {
        assert(base36(a).len() != base36(b).len());
    } else if a >= 36 && b >= 36 {
        assert(base36(a).drop_last() =~= base36(a / 36));
        assert(base36(b).drop_last() =~= base36(b / 36));
        lemma_base36_injective(a / 36, b / 36);
        assert(base36(a)[base36(a).len() - 1] == b36_char(a % 36));
        assert(base36(b)[base36(b).len() - 1] == b36_char(b % 36));
        assert(b36_char(a % 36) == b36_char(b % 36));
        assert(a % 36 == b % 36);
        assert(a == 36 * (a / 36) + a % 36) by (nonlinear_arith);
        assert(b == 36 * (b / 36) + b % 36) by (nonlinear_arith);
    }
}

proof fn lemma_base36_len_mono(a: nat, b: nat)
    requires
        a <= b,
    ensures
        base36(a).len() <= base36(b).len(),
    decreases b,
{
    lemma_base36(a);
    lemma_base36(b);
    if a >= 36 {
        assert(a / 36 <= b / 36) by (nonlinear_arith)
            requires
                a <= b,
        ;
        lemma_base36_len_mono(a / 36, b / 36);
    }
}

proof fn lemma_lower_alnum_tag(s: Seq<char>)
    requires
        lower_ascii_alnum(s),
    ensures
        lower_alnum(s) == s,
    decreases s.len(),
{
    if s.len() > 0 {
        let p = s.drop_last();
        assert(lower_ascii_alnum(p)) by {
            assert forall|i: int| 0 <= i < p.len() implies ('0' <= #[trigger] p[i] <= '9' || 'a' <= p[i]
                <= 'z') by {
                assert(p[i] == s[i]);
            }
        }
        lemma_lower_alnum_tag(p);
        assert('0' <= s[s.len() - 1] <= '9' || 'a' <= s[s.len() - 1] <= 'z');
        assert(p + seq![ascii_lower(s.last())] =~= s);
    }
}

/// The key of a tag name: the tag, then the key characters of the id.
proof fn lemma_tag_key(k: nat, id: Seq<char>)
    ensures
        normalize_spec(tag_name(k, id)) == base36(k) + lower_alnum(id),
{
    lemma_base36(k);
    lemma_lower_alnum_tag(base36(k));
    lemma_lower_alnum_concat(base36(k) + seq![' '], id);
    lemma_lower_alnum_concat(base36(k), seq![' ']);
    assert(seq![' '].drop_last() =~= Seq::<char>::empty());
    assert(lower_alnum(Seq::<char>::empty()) =~= Seq::<char>::empty());
    assert(lower_alnum(seq![' ']) =~= Seq::<char>::empty());
    assert(base36(k) + Seq::<char>::empty() =~= base36(k));
}

proof fn lemma_tag_key_injective(k1: nat, k2: nat, id: Seq<char>)
    requires
        normalize_spec(tag_name(k1, id)) == normalize_spec(tag_name(k2, id)),
    ensures
        k1 == k2,
{
    lemma_tag_key(k1, id);
    lemma_tag_key(k2, id);
    let a = base36(k1);
    let b = base36(k2);
    let l = lower_alnum(id);
    assert((a + l).take(a.len() as int) =~= a);
    assert((b + l).take(b.len() as int) =~= b);
    lemma_base36_injective(k1, k2);
}

/// Among the first `taken.len() + 1` tags one has a free name.
proof fn lemma_free_tag_exists(id: Seq<char>, taken: Set<Seq<char>>)
    requires
        taken.finite(),
    ensures
        exists|j: nat| j <= taken.len() && #[trigger] tag_free(j, id, taken),
{
    let l = taken.len();
    if forall|j: nat| j <= l ==> !#[trigger] tag_free(j, id, taken) {
        let r = set_int_range(0, (l + 1) as int);
        lemma_int_range(0, (l + 1) as int);
        let f = |j: int| normalize_spec(tag_name(j as nat, id));
        assert(injective_on(f, r)) by {
            assert forall|x: int, y: int| r.contains(x) && r.contains(y) && #[trigger] f(x) == #[trigger] f(
                y,
            ) implies x == y by {
                lemma_tag_key_injective(x as nat, y as nat, id);
            }
        }
        let img = r.map(f);
        lemma_map_size(r, img, f);
        assert(img.subset_of(taken)) by {
            assert forall|s: Seq<char>| img.contains(s) implies taken.contains(s) by {
                let x = choose|x: int| r.contains(x) && f(x) == s;
                assert(!tag_free(x as nat, id, taken));
            }
        }
        lemma_len_subset(img, taken);
    }
}

/// Every tag below `k` fits and its name is taken.
pub open spec fn tags_taken_below(id: Seq<char>, taken: Set<Seq<char>>, k: nat) -> bool {
    forall|j: nat| j < k ==> #[trigger] tag_fits(j, id) && !tag_free(j, id, taken)
}

proof fn lemma_tags_taken_extend(id: Seq<char>, taken: Set<Seq<char>>, k: nat)
    requires
        tags_taken_below(id, taken, k),
        tag_fits(k, id),
        !tag_free(k, id, taken),
    ensures
        tags_taken_below(id, taken, k + 1),
{
    assert forall|j: nat| j < k + 1 implies #[trigger] tag_fits(j, id) && !tag_free(j, id, taken) by {
        if j < k {
            assert(tag_fits(j, id));
        }
    }
}

/// The search from `k` on, all earlier tags fitting and taken, finds a
/// fitting free tag, or `None` exactly when every fitting tag is taken.
proof fn lemma_first_free_tag(id: Seq<char>, taken: Set<Seq<char>>, k: nat, left: nat)
    requires
        taken.finite(),
        k + left == taken.len() + 1,
        tags_taken_below(id, taken, k),
    ensures
        match first_free_tag(id, taken, k, left) {
            Some(m) => tag_fits(m, id) && tag_free(m, id, taken),
            None => forall|j: nat| tag_fits(j, id) ==> !#[trigger] tag_free(j, id, taken),
        },
    decreases left,
{
    if left == 0 {
        lemma_free_tag_exists(id, taken);
        let j = choose|j: nat| j <= taken.len() && #[trigger] tag_free(j, id, taken);
        assert(tag_fits(j, id));
    } else if !tag_fits(k, id) {
        assert forall|j: nat| tag_fits(j, id) implies !#[trigger] tag_free(j, id, taken) by {
            if j >= k {
                lemma_base36_len_mono(k, j);
            }
        }
    } else if !tag_free(k, id, taken) {
        lemma_tags_taken_extend(id, taken, k);
        lemma_first_free_tag(id, taken, k + 1, (left - 1) as nat);
    }
}

proof fn lemma_tag_name_ends_with_id(k: nat, id: Seq<char>)
    ensures
        ends_with_id(tag_name(k, id), id),
{
    let s = tag_name(k, id);
    assert(s.skip(s.len() - id.len() - 1) =~= seq![' '] + id);
}

/// Every taken-key set along the plan is finite.
proof fn lemma_plan_prefix_finite(t: Seq<(Seq<char>, Seq<char>)>, n: nat)
    ensures
        plan_prefix(t, n).0.finite(),
    decreases n,
{
    if n == 0 {
        let all = trophy_keys(t).to_set();
        seq_to_set_is_finite(trophy_keys(t));
        assert(initial_taken(t).subset_of(all)) by {
            assert forall|k: Seq<char>| initial_taken(t).contains(k) implies all.contains(k) by {
                let i = choose|i: int| 0 <= i < t.len() && trophy_keys(t)[i] == k && !is_duplicate(t, i);
                assert(trophy_keys(t).contains(k));
            }
        }
        lemma_len_subset(initial_taken(t), all);
    } else {
        lemma_plan_prefix_finite(t, (n - 1) as nat);
    }
}

fn count_key(keys: &Vec<Vec<char>>, k: &[char]) -> (c: usize)
    ensures
        c == key_count(keys@.map_values(|v: Vec<char>| v@), k@),
{
    let ghost kv = keys@.map_values(|v: Vec<char>| v@);
    let mut c: usize = 0;
    let mut i: usize = 0;
    while i < keys.len()
        invariant
            i <= keys.len(),
            kv == keys@.map_values(|v: Vec<char>| v@),
            c == key_count(kv.take(i as int), k@),
            c <= i,
        decreases keys.len() - i,
    {
        assert(kv.take(i + 1).drop_last() =~= kv.take(i as int));
        if chars_eq(&keys[i], k) {
            c = c + 1;
        }
        i = i + 1;
    }
    assert(kv.take(keys.len() as int) =~= kv);
    c
}

/// The set of keys held by a vector of character vectors.
pub open spec fn key_set(v: Seq<Vec<char>>) -> Set<Seq<char>> {
    Set::new(|k: Seq<char>| exists|j: int| 0 <= j < v.len() && (#[trigger] v[j])@ == k)
}

fn contains_key(v: &Vec<Vec<char>>, k: &[char]) -> (r: bool)
    ensures
        r == key_set(v@).contains(k@),
{
    let mut i: usize = 0;
    while i < v.len()
        invariant
            i <= v.len(),
            forall|j: int| 0 <= j < i ==> (#[trigger] v@[j])@ != k@,
        decreases v.len() - i,
    {
        if chars_eq(&v[i], k) {
            assert(v@[i as int]@ == k@);
            return true;
        }
        i = i + 1;
    }
    false
}

/// Number of `true` entries.
spec fn true_count(s: Seq<bool>) -> nat
    decreases s.len(),
{
    if s.len() == 0 {
        0
    } else {
        true_count(s.drop_last()) + if s.last() {
            1nat
        } else {
            0nat
        }
    }
}

proof fn lemma_true_count_mono(s: Seq<bool>, i: int, j: int)
    requires
        0 <= i <= j <= s.len(),
    ensures
        true_count(s.take(i)) <= true_count(s.take(j)),
    decreases j - i,
{
    if i < j {
        lemma_true_count_mono(s, i, j - 1);
        assert(s.take(j).drop_last() =~= s.take(j - 1));
    }
}

proof fn lemma_key_set_finite(v: Seq<Vec<char>>)
    ensures
        key_set(v).finite(),
        key_set(v).len() <= v.len(),
{
    let m = v.map_values(|x: Vec<char>| x@);
    assert(key_set(v) =~= m.to_set()) by {
        assert forall|k: Seq<char>| key_set(v).contains(k) implies m.to_set().contains(k) by {
            let j = choose|j: int| 0 <= j < v.len() && (#[trigger] v[j])@ == k;
            assert(m[j] == k);
        }
        assert forall|k: Seq<char>| m.to_set().contains(k) implies key_set(v).contains(k) by {
            let j = choose|j: int| 0 <= j < m.len() && m[j] == k;
            assert(v[j]@ == k);
        }
    }
    seq_to_set_is_finite(m);
    m.lemma_cardinality_of_set();
}

/// The character of a base-36 digit.
fn b36_char_exec(d: u64) -> (c: char)
    requires
        d < 36,
    ensures
        c == b36_char(d as nat),
{
    if d < 10 {
        ((d as u8) + 48) as char
    } else {
        ((d as u8) + 87) as char
    }
}

/// Appends `k` in base 36.
fn push_base36(k: u64, out: &mut Vec<char>)
    ensures
        final(out)@ == old(out)@ + base36(k as nat),
    decreases k,
{
    if k >= 36 {
        push_base36(k / 36, out);
        out.push(b36_char_exec(k % 36));
        assert(out@ =~= old(out)@ + base36((k / 36) as nat).push(b36_char((k % 36) as nat)));
    } else {
        out.push(b36_char_exec(k));
        assert(out@ =~= old(out)@ + base36(k as nat));
    }
}

/// The characters of the tag name `"{tag} {id}"` and of the tag alone.
fn tag_chars(k: u64, id: &[char]) -> (r: (Vec<char>, Vec<char>))
    ensures
        r.0@ == tag_name(k as nat, id@),
        r.1@ == base36(k as nat),
{
    let mut tag: Vec<char> = Vec::new();
    push_base36(k, &mut tag);
    assert(Seq::<char>::empty() + base36(k as nat) =~= base36(k as nat));
    let mut v: Vec<char> = tag.clone();
    assert(v@ == tag@);
    v.push(' ');
    let ghost before = v@;
    let mut j: usize = 0;
    while j < id.len()
        invariant
            j <= id.len(),
            v@ == before + id@.take(j as int),
        decreases id.len() - j,
    {
        v.push(id[j]);
        assert(id@.take(j + 1) =~= id@.take(j as int).push(id@[j as int]));
        j = j + 1;
    }
    assert(id@.take(id@.len() as int) =~= id@);
    (v, tag)
}

/// A dedupe plan: the renames, and the duplicates for which no free name
/// fits (as `(legacy_id, name)`), both in input order.
pub struct RenamePlan {
    pub renames: Vec<Rename>,
    pub unresolved: Vec<(String, String)>,
}

/// Plans the dedupe renames of one guild's trophies; see [`plan_dedupe`].
/// Duplicates for which no free name fits are left out here (they are
/// listed by [`plan_dedupe`]).
pub fn plan_renames(trophies: &[(String, String)]) -> (renames: Vec<Rename>)
    ensures
        renames@.map_values(|r: Rename| r@) == plan_prefix(pairs_view(trophies@), trophies@.len()).1,
{
    plan_dedupe(trophies).renames
}

/// Plans the dedupe renames for one guild's trophies, given as
/// `(legacy_id, name)` pairs.
///
/// Trophies whose normalized name is shared by more than one trophy are
/// renamed to `"{name} {legacy_id}"`, the base name cut so the result fits
/// [`MAX_NAME_CHARS`] characters. A candidate whose normalized name is
/// already a final name in the guild gets the legacy id appended again
/// until unique; when appending [`MAX_APPENDS`] more times does not free
/// it, the name becomes `"{tag} {legacy_id}"` with the smallest base-36
/// tag (`0`, `1`, .., `9`, `a`, .., `z`, `10`, ..) whose name still fits
/// and is free. A duplicate for which no such name exists (the id leaves
/// no room, or every fitting tag is taken) is reported as unresolved and
/// keeps its name. Processing follows input order; trophies in size-one
/// groups are untouched.
pub fn plan_dedupe(trophies: &[(String, String)]) -> (plan: RenamePlan)
    ensures
        plan.renames@.map_values(|r: Rename| r@) == plan_prefix(pairs_view(trophies@), trophies@.len()).1,
        plan.unresolved@.map_values(|u: (String, String)| (u.0@, u.1@)) == plan_prefix(
            pairs_view(trophies@),
            trophies@.len(),
        ).2,
{
    let ghost t = pairs_view(trophies@);
    let n = trophies.len();

    // Characters and normalized key of every trophy.
    let mut ids: Vec<Vec<char>> = Vec::new();
    let mut names: Vec<Vec<char>> = Vec::new();
    let mut keys: Vec<Vec<char>> = Vec::new();
    let mut i: usize = 0;
    while i < n
        invariant
            n == trophies@.len(),
            t == pairs_view(trophies@),
            i <= n,
            ids@.len() == i,
            names@.len() == i,
            keys@.len() == i,
            forall|j: int| 0 <= j < i ==> (#[trigger] ids@[j])@ == t[j].0,
            forall|j: int| 0 <= j < i ==> (#[trigger] names@[j])@ == t[j].1,
            forall|j: int| 0 <= j < i ==> (#[trigger] keys@[j])@ == normalize_spec(t[j].1),
        decreases n - i,
    {
        let id = str_chars(trophies[i].0.as_str());
        let name = str_chars(trophies[i].1.as_str());
        let key = normalize_chars(&name);
        ids.push(id);
        names.push(name);
        keys.push(key);
        i = i + 1;
    }
    let ghost kv = keys@.map_values(|v: Vec<char>| v@);
    assert(kv =~= trophy_keys(t));

    // Which trophies belong to a duplicate group.
    let mut dup: Vec<bool> = Vec::new();
    let mut i: usize = 0;
    while i < n
        invariant
            n == trophies@.len(),
            keys@.len() == n,
            kv == keys@.map_values(|v: Vec<char>| v@),
            kv == trophy_keys(t),
            t.len() == n,
            i <= n,
            dup@.len() == i,
            forall|j: int| 0 <= j < i ==> dup@[j] == is_duplicate(t, j),
        decreases n - i,
    {
        let c = count_key(&keys, &keys[i]);
        dup.push(c > 1);
        i = i + 1;
    }

    // Final names already taken: every trophy that is NOT renamed.
    let mut taken: Vec<Vec<char>> = Vec::new();
    let mut i: usize = 0;
    while i < n
        invariant
            n == trophies@.len(),
            t.len() == n,
            keys@.len() == n,
            dup@.len() == n,
            kv == keys@.map_values(|v: Vec<char>| v@),
            kv == trophy_keys(t),
            forall|j: int| 0 <= j < n ==> dup@[j] == is_duplicate(t, j),
            i <= n,
            key_set(taken@) == Set::new(
                |k: Seq<char>|
                    exists|j: int| 0 <= j < i && trophy_keys(t)[j] == k && !is_duplicate(t, j),
            ),
            taken@.len() + true_count(dup@.take(i as int)) == i,
        decreases n - i,
    {
        let ghost before = taken@;
        assert(dup@.take(i + 1).drop_last() =~= dup@.take(i as int));
        if !dup[i] {
            taken.push(keys[i].clone());
        }
        assert(key_set(taken@) =~= Set::new(
            |k: Seq<char>|
                exists|j: int| 0 <= j < i + 1 && trophy_keys(t)[j] == k && !is_duplicate(t, j),
        )) by {
            assert forall|k: Seq<char>| #[trigger] key_set(taken@).contains(k) implies exists|
                j: int,
            | 0 <= j < i + 1 && trophy_keys(t)[j] == k && !is_duplicate(t, j) by {
                let w = choose|w: int| 0 <= w < taken@.len() && (#[trigger] taken@[w])@ == k;
                if w < before.len() {
                    assert(before[w] == taken@[w]);
                    assert(key_set(before).contains(k));
                    let j = choose|j: int|
                        0 <= j < i && trophy_keys(t)[j] == k && !is_duplicate(t, j);
                    assert(0 <= j < i + 1 && trophy_keys(t)[j] == k && !is_duplicate(t, j));
                } else {
                    assert(kv[i as int] == keys@[i as int]@);
                    assert(taken@[w]@ == keys@[i as int]@);
                    assert(0 <= i < i + 1 && trophy_keys(t)[i as int] == k && !is_duplicate(
                        t,
                        i as int,
                    ));
                }
            }
            assert forall|k: Seq<char>|
                (exists|j: int|
                    0 <= j < i + 1 && trophy_keys(t)[j] == k && !is_duplicate(t, j)) implies #[trigger] key_set(taken@).contains(k) by {
                let j = choose|j: int|
                    0 <= j < i + 1 && trophy_keys(t)[j] == k && !is_duplicate(t, j);
                if j < i {
                    assert(key_set(before).contains(k));
                    let w = choose|w: int| 0 <= w < before.len() && (#[trigger] before[w])@ == k;
                    assert(taken@[w] == before[w]);
                } else {
                    assert(kv[i as int] == keys@[i as int]@);
                    assert(taken@[before.len() as int]@ == k);
                }
            }
        }
        i = i + 1;
    }
    assert(key_set(taken@) =~= initial_taken(t));
    assert(dup@.take(n as int) =~= dup@);

    // Rename duplicate-group members in input order.
    let mut renames: Vec<Rename> = Vec::new();
    let mut unresolved: Vec<(String, String)> = Vec::new();
    let mut i: usize = 0;
    while i < n
        invariant
            n == trophies@.len(),
            t == pairs_view(trophies@),
            t.len() == n,
            ids@.len() == n,
            names@.len() == n,
            dup@.len() == n,
            forall|j: int| 0 <= j < n ==> (#[trigger] ids@[j])@ == t[j].0,
            forall|j: int| 0 <= j < n ==> (#[trigger] names@[j])@ == t[j].1,
            forall|j: int| 0 <= j < n ==> dup@[j] == is_duplicate(t, j),
            i <= n,
            key_set(taken@) == plan_prefix(t, i as nat).0,
            renames@.map_values(|r: Rename| r@) == plan_prefix(t, i as nat).1,
            unresolved@.map_values(|u: (String, String)| (u.0@, u.1@)) == plan_prefix(t, i as nat).2,
            taken@.len() + true_count(dup@) - true_count(dup@.take(i as int)) <= n,
        decreases n - i,
    {
        let ghost state = plan_prefix(t, i as nat);
        proof {
            assert(dup@.take(i + 1).drop_last() =~= dup@.take(i as int));
            lemma_true_count_mono(dup@, i + 1, n as int);
            assert(dup@.take(n as int) =~= dup@);
        }
        if dup[i] {
            let id = &ids[i];
            let mut candidate = append_id(&names[i], id);
            let ghost first = candidate@;
            let ghost target = rename_target(t[i as int].1, t[i as int].0, state.0);
            let mut key = normalize_chars(&candidate);
            let mut tries: usize = 0;
            while tries < MAX_APPENDS && contains_key(&taken, &key)
                invariant
                    tries <= MAX_APPENDS,
                    key_set(taken@) == state.0,
                    key@ == normalize_spec(candidate@),
                    settle(candidate@, id@, state.0, (MAX_APPENDS - tries) as nat) == settle(
                        first,
                        id@,
                        state.0,
                        MAX_APPENDS as nat,
                    ),
                decreases MAX_APPENDS - tries,
            {
                candidate = append_id(&candidate, id);
                key = normalize_chars(&candidate);
                tries = tries + 1;
            }
            let mut resolved = true;
            if contains_key(&taken, &key) {
                // Appending did not free the name: the smallest fitting free tag.
                assert(settle(first, id@, state.0, MAX_APPENDS as nat) is None);
                proof {
                    lemma_key_set_finite(taken@);
                }
                let taken_len = taken.len();
                assert(taken_len < n);
                let room: usize = if id.len() < MAX_NAME_CHARS {
                    MAX_NAME_CHARS - (id.len() + 1)
                } else {
                    0
                };
                let ghost target_tag = fallback_tag(id@, state.0);
                let ghost mut left: nat = state.0.len() + 1;
                let mut k: u64 = 0;
                let (c0, tag0) = tag_chars(k, id);
                candidate = c0;
                let mut tag = tag0;
                key = normalize_chars(&candidate);
                while tag.len() <= room && contains_key(&taken, &key)
                    invariant
                        key_set(taken@) == state.0,
                        state.0.finite(),
                        state.0.len() <= taken_len,
                        taken_len < n,
                        room == id_room(id@),
                        tag@ == base36(k as nat),
                        candidate@ == tag_name(k as nat, id@),
                        key@ == normalize_spec(candidate@),
                        first_free_tag(id@, state.0, k as nat, left) == target_tag,
                        k + left == state.0.len() + 1,
                        tags_taken_below(id@, state.0, k as nat),
                    decreases left,
                {
                    proof {
                        if left == 0 {
                            lemma_free_tag_exists(id@, state.0);
                            let j = choose|j: nat| j <= state.0.len() && #[trigger] tag_free(j, id@, state.0);
                            assert(tag_fits(j, id@));
                        }
                        assert(!tag_free(k as nat, id@, state.0));
                        assert(tag_fits(k as nat, id@));
                        lemma_tags_taken_extend(id@, state.0, k as nat);
                    }
                    k = k + 1;
                    let (c1, tag1) = tag_chars(k, id);
                    candidate = c1;
                    tag = tag1;
                    key = normalize_chars(&candidate);
                    proof {
                        left = (left - 1) as nat;
                    }
                }
                proof {
                    if tag.len() <= room && left == 0 {
                        lemma_free_tag_exists(id@, state.0);
                        let j = choose|j: nat| j <= state.0.len() && #[trigger] tag_free(j, id@, state.0);
                        assert(tag_fits(j, id@));
                    }
                }
                if tag.len() <= room {
                    assert(target == Some(candidate@));
                } else {
                    resolved = false;
                    assert(target is None);
                }
            } else {
                assert(target == Some(candidate@));
            }
            if resolved {
                let ghost new_name = candidate@;
                let ghost before = taken@;
                taken.push(key);
                assert(key_set(taken@) =~= state.0.insert(normalize_spec(new_name))) by {
                    assert forall|k: Seq<char>| #[trigger] key_set(taken@).contains(k) implies state.0.insert(
                        normalize_spec(new_name),
                    ).contains(k) by {
                        let w = choose|w: int| 0 <= w < taken@.len() && (#[trigger] taken@[w])@ == k;
                        if w < before.len() {
                            assert(before[w] == taken@[w]);
                            assert(key_set(before).contains(k));
                        }
                    }
                    assert forall|k: Seq<char>| state.0.insert(normalize_spec(new_name)).contains(
                        k,
                    ) implies #[trigger] key_set(taken@).contains(k) by {
                        if k == normalize_spec(new_name) {
                            assert(taken@[before.len() as int]@ == k);
                        } else {
                            assert(key_set(before).contains(k));
                            let w = choose|w: int| 0 <= w < before.len() && (#[trigger] before[w])@ == k;
                            assert(taken@[w] == before[w]);
                        }
                    }
                }
                let legacy_id = chars_to_string(id);
                let old_name = trophies[i].1.clone();
                let new_name_string = chars_to_string(&candidate);
                let ghost before_renames = renames@;
                renames.push(Rename { legacy_id, old_name, new_name: new_name_string });
                assert(renames@.map_values(|r: Rename| r@) =~= before_renames.map_values(
                    |r: Rename| r@,
                ).push((t[i as int].0, t[i as int].1, new_name)));
            } else {
                let legacy_id = chars_to_string(id);
                let name = trophies[i].1.clone();
                let ghost before_unresolved = unresolved@;
                unresolved.push((legacy_id, name));
                assert(unresolved@.map_values(|u: (String, String)| (u.0@, u.1@)) =~= before_unresolved.map_values(
                    |u: (String, String)| (u.0@, u.1@),
                ).push((t[i as int].0, t[i as int].1)));
            }
        }
        i = i + 1;
    }
    RenamePlan { renames, unresolved }
}

/// `(legacy_id, name)` of the duplicate-group members among the first `n`
/// trophies, in input order.
pub open spec fn duplicate_members(t: Seq<(Seq<char>, Seq<char>)>, n: nat) -> Seq<
    (Seq<char>, Seq<char>),
>
    decreases n,
{
    if n == 0 {
        Seq::empty()
    } else if is_duplicate(t, n - 1) {
        duplicate_members(t, (n - 1) as nat).push(t[n - 1])
    } else {
        duplicate_members(t, (n - 1) as nat)
    }
}

/// `s` ends with a space followed by `id`.
pub open spec fn ends_with_id(s: Seq<char>, id: Seq<char>) -> bool {
    s.len() >= id.len() + 1 && s.skip(s.len() - id.len() - 1) == seq![' '] + id
}

proof fn lemma_trim_end_len(s: Seq<char>)
    ensures
        trim_end_spec(s).len() <= s.len(),
    decreases s.len(),
{
    if s.len() > 0 {
        lemma_trim_end_len(s.drop_last());
    }
}

proof fn lemma_append_id_shape(base: Seq<char>, id: Seq<char>)
    ensures
        ends_with_id(append_id_spec(base, id), id),
        id.len() + 1 <= MAX_NAME_CHARS ==> append_id_spec(base, id).len() <= MAX_NAME_CHARS,
{
    let kept = if base.len() <= id_room(id) {
        base
    } else {
        base.take(id_room(id) as int)
    };
    lemma_trim_end_len(kept);
    let r = append_id_spec(base, id);
    let tk = trim_end_spec(kept);
    assert(r.skip(r.len() - id.len() - 1) =~= seq![' '] + id) by {
        assert forall|j: int| 0 <= j < id.len() + 1 implies r.skip(r.len() - id.len() - 1)[j] == (
        seq![' '] + id)[j] by {
            assert(r[tk.len() + j] == (seq![' '] + id)[j]);
        }
    }
}

proof fn lemma_settle(name: Seq<char>, id: Seq<char>, taken: Set<Seq<char>>, fuel: nat)
    requires
        settle(name, id, taken, fuel) is Some,
        ends_with_id(name, id),
        id.len() + 1 <= MAX_NAME_CHARS ==> name.len() <= MAX_NAME_CHARS,
    ensures
        !taken.contains(normalize_spec(settle(name, id, taken, fuel)->0)),
        ends_with_id(settle(name, id, taken, fuel)->0, id),
        id.len() + 1 <= MAX_NAME_CHARS ==> settle(name, id, taken, fuel)->0.len() <= MAX_NAME_CHARS,
    decreases fuel,
{
    if taken.contains(normalize_spec(name)) {
        lemma_append_id_shape(name, id);
        lemma_settle(append_id_spec(name, id), id, taken, (fuel - 1) as nat);
    }
}

proof fn lemma_rename_target(name: Seq<char>, id: Seq<char>, taken: Set<Seq<char>>)
    requires
        taken.finite(),
    ensures
        match rename_target(name, id, taken) {
            Some(new_name) => {
                &&& !taken.contains(normalize_spec(new_name))
                &&& ends_with_id(new_name, id)
                &&& id.len() + 1 <= MAX_NAME_CHARS ==> new_name.len() <= MAX_NAME_CHARS
            },
            None => forall|k: nat| tag_fits(k, id) ==> taken.contains(#[trigger] normalize_spec(tag_name(k, id))),
        },
{
    lemma_append_id_shape(name, id);
    let first = append_id_spec(name, id);
    if settle(first, id, taken, MAX_APPENDS as nat) is Some {
        lemma_settle(first, id, taken, MAX_APPENDS as nat);
    } else {
        lemma_first_free_tag(id, taken, 0, taken.len() + 1);
        match fallback_tag(id, taken) {
            Some(k) => {
                lemma_tag_name_ends_with_id(k, id);
            },
            None => {
                assert forall|k: nat| tag_fits(k, id) implies taken.contains(
                    #[trigger] normalize_spec(tag_name(k, id)),
                ) by {
                    assert(!tag_free(k, id, taken));
                }
            },
        }
    }
}

/// What the rename plan guarantees, for every input:
/// - every duplicate-group member is either renamed or reported as
///   unresolved, each once and in input order; with nothing unresolved the
///   renamed trophies are exactly the duplicate-group members;
/// - every new name ends with `" {legacy_id}"` and, when the id has at most
///   `MAX_NAME_CHARS - 1` characters, fits in [`MAX_NAME_CHARS`];
/// - a duplicate is unresolved only when every `"{tag} {legacy_id}"` name
///   that would fit is already taken;
/// - the new names' normalized keys are pairwise distinct and distinct from
///   the key of every untouched trophy, so all final names are unique.
pub proof fn lemma_plan_renames_guarantees(t: Seq<(Seq<char>, Seq<char>)>, n: nat)
    requires
        n <= t.len(),
    ensures
        ({
            let state = plan_prefix(t, n);
            let rs = state.1;
            let us = state.2;
            &&& rs.len() + us.len() == duplicate_members(t, n).len()
            &&& us.len() == 0 ==> rs.map_values(|r: (Seq<char>, Seq<char>, Seq<char>)| (r.0, r.1))
                == duplicate_members(t, n)
            &&& forall|k: int|
                0 <= k < rs.len() ==> duplicate_members(t, n).contains((#[trigger] rs[k].0, rs[k].1))
            &&& forall|k: int| 0 <= k < us.len() ==> duplicate_members(t, n).contains(#[trigger] us[k])
            &&& forall|k: int| 0 <= k < rs.len() ==> ends_with_id(#[trigger] rs[k].2, rs[k].0)
            &&& forall|k: int|
                0 <= k < rs.len() && rs[k].0.len() + 1 <= MAX_NAME_CHARS ==> (#[trigger] rs[k].2).len()
                    <= MAX_NAME_CHARS
            &&& forall|k: int, j: nat|
                0 <= k < us.len() && tag_fits(j, us[k].0) ==> state.0.contains(
                    #[trigger] normalize_spec(tag_name(j, #[trigger] us[k].0)),
                )
            &&& forall|k1: int, k2: int|
                0 <= k1 < k2 < rs.len() ==> normalize_spec(#[trigger] rs[k1].2) != normalize_spec(
                    #[trigger] rs[k2].2,
                )
            &&& forall|k: int|
                0 <= k < rs.len() ==> !initial_taken(t).contains(normalize_spec(#[trigger] rs[k].2))
            &&& forall|key: Seq<char>|
                #[trigger] state.0.contains(key) <==> (initial_taken(t).contains(key) || exists|j: int|
                    0 <= j < rs.len() && normalize_spec(#[trigger] rs[j].2) == key)
        }),
    decreases n,
{
    if n == 0 {
        let state = plan_prefix(t, n);
        let rs = state.1;
        assert(rs.map_values(|r: (Seq<char>, Seq<char>, Seq<char>)| (r.0, r.1)) =~= duplicate_members(
            t,
            n,
        ));
    } else {
        lemma_plan_renames_guarantees(t, (n - 1) as nat);
        lemma_plan_prefix_finite(t, (n - 1) as nat);
        let prev = plan_prefix(t, (n - 1) as nat);
        let state = plan_prefix(t, n);
        let id = t[n - 1].0;
        let name = t[n - 1].1;
        let dm = duplicate_members(t, n);
        let pdm = duplicate_members(t, (n - 1) as nat);
        if is_duplicate(t, n - 1) {
            assert(dm == pdm.push((id, name)));
            assert forall|p: (Seq<char>, Seq<char>)| pdm.contains(p) implies dm.contains(p) by {
                let w = choose|w: int| 0 <= w < pdm.len() && pdm[w] == p;
                assert(dm[w] == p);
            }
            assert(dm[dm.len() - 1] == (id, name));
            lemma_rename_target(name, id, prev.0);
            match rename_target(name, id, prev.0) {
                Some(new_name) => {
                    let rs = state.1;
                    let us = state.2;
                    assert(rs == prev.1.push((id, name, new_name)));
                    assert(us == prev.2);
                    if us.len() == 0 {
                        assert(rs.map_values(|r: (Seq<char>, Seq<char>, Seq<char>)| (r.0, r.1)) =~= prev.1.map_values(
                            |r: (Seq<char>, Seq<char>, Seq<char>)| (r.0, r.1),
                        ).push((id, name)));
                    }
                    assert forall|k: int| 0 <= k < rs.len() implies dm.contains((#[trigger] rs[k].0, rs[k].1)) by {
                        if k < rs.len() - 1 {
                            assert(rs[k] == prev.1[k]);
                            assert(pdm.contains((prev.1[k].0, prev.1[k].1)));
                        }
                    }
                    assert forall|k: int| 0 <= k < us.len() implies dm.contains(#[trigger] us[k]) by {
                        assert(pdm.contains(prev.2[k]));
                    }
                    assert forall|k: int, j: nat|
                        0 <= k < us.len() && tag_fits(j, us[k].0) implies state.0.contains(
                        #[trigger] normalize_spec(tag_name(j, #[trigger] us[k].0)),
                    ) by {
                        assert(prev.0.contains(normalize_spec(tag_name(j, prev.2[k].0))));
                    }
                    assert forall|k1: int, k2: int|
                        0 <= k1 < k2 < rs.len() implies normalize_spec(#[trigger] rs[k1].2) != normalize_spec(
                        #[trigger] rs[k2].2,
                    ) by {
                        if k2 == rs.len() - 1 {
                            assert(rs[k1] == prev.1[k1]);
                            assert(prev.0.contains(normalize_spec(prev.1[k1].2)));
                        } else {
                            assert(rs[k1] == prev.1[k1]);
                            assert(rs[k2] == prev.1[k2]);
                        }
                    }
                    assert forall|k: int| 0 <= k < rs.len() implies !initial_taken(t).contains(
                        normalize_spec(#[trigger] rs[k].2),
                    ) by {
                        if k < rs.len() - 1 {
                            assert(rs[k] == prev.1[k]);
                        } else {
                            if initial_taken(t).contains(normalize_spec(rs[k].2)) {
                                assert(prev.0.contains(normalize_spec(rs[k].2)));
                            }
                        }
                    }
                    assert forall|k: int| 0 <= k < rs.len() implies ends_with_id(#[trigger] rs[k].2, rs[k].0)
                        && (rs[k].0.len() + 1 <= MAX_NAME_CHARS ==> rs[k].2.len() <= MAX_NAME_CHARS) by {
                        if k < rs.len() - 1 {
                            assert(rs[k] == prev.1[k]);
                        }
                    }
                    assert forall|key: Seq<char>| #[trigger] state.0.contains(key) <==> (initial_taken(
                        t,
                    ).contains(key) || exists|j: int|
                        0 <= j < rs.len() && normalize_spec(#[trigger] rs[j].2) == key) by {
                        if state.0.contains(key) && !initial_taken(t).contains(key) {
                            if key == normalize_spec(new_name) {
                                assert(normalize_spec(rs[rs.len() - 1].2) == key);
                            } else {
                                assert(prev.0.contains(key));
                                let j = choose|j: int|
                                    0 <= j < prev.1.len() && normalize_spec(#[trigger] prev.1[j].2) == key;
                                assert(rs[j] == prev.1[j]);
                            }
                        }
                        if exists|j: int| 0 <= j < rs.len() && normalize_spec(#[trigger] rs[j].2) == key {
                            let j = choose|j: int| 0 <= j < rs.len() && normalize_spec(#[trigger] rs[j].2) == key;
                            if j < rs.len() - 1 {
                                assert(rs[j] == prev.1[j]);
                                assert(prev.0.contains(key));
                            }
                        }
                    }
                },
                None => {
                    let rs = state.1;
                    let us = state.2;
                    assert(rs == prev.1);
                    assert(us == prev.2.push((id, name)));
                    assert(state.0 == prev.0);
                    assert forall|k: int| 0 <= k < rs.len() implies dm.contains((#[trigger] rs[k].0, rs[k].1)) by {
                        assert(pdm.contains((prev.1[k].0, prev.1[k].1)));
                    }
                    assert forall|k: int| 0 <= k < us.len() implies dm.contains(#[trigger] us[k]) by {
                        if k < us.len() - 1 {
                            assert(us[k] == prev.2[k]);
                            assert(pdm.contains(prev.2[k]));
                        }
                    }
                    assert forall|k: int, j: nat|
                        0 <= k < us.len() && tag_fits(j, us[k].0) implies state.0.contains(
                        #[trigger] normalize_spec(tag_name(j, #[trigger] us[k].0)),
                    ) by {
                        if k < us.len() - 1 {
                            assert(us[k] == prev.2[k]);
                        }
                    }
                },
            }
        } else {
            assert(state == prev);
            assert(dm == pdm);
        }
    }
}

} // verus!

