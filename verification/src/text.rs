//! String primitives shared by the entity model and the search engine:
//! character-exact equality, membership of a string in a list, and
//! lower-casing (the one operation delegated to the standard library).

use vstd::prelude::*;

verus! {

/// Character-by-character equality of two string slices.
pub fn str_eq(a: &str, b: &str) -> (r: bool)
    ensures
        r == (a@ == b@),
{
    let n = a.unicode_len();
    if n != b.unicode_len() {
        return false;
    }
    let mut i: usize = 0;
    while i < n
        invariant
            a@.len() == n,
            b@.len() == n,
            i <= n,
            forall|j: int| 0 <= j < i ==> a@[j] == b@[j],
        decreases n - i,
    {
        if a.get_char(i) != b.get_char(i) {
            return false;
        }
        i = i + 1;
    }
    proof {
        assert(a@ =~= b@);
    }
    true
}

/// Whether some entry of `items` reads exactly `t`.
pub open spec fn contains_str(items: Seq<String>, t: Seq<char>) -> bool {
    exists|j: int| 0 <= j < items.len() && items[j]@ == t
}

/// The position of the first entry reading `t`, if any.
pub fn find_str(items: &Vec<String>, t: &str) -> (r: Option<usize>)
    ensures
        match r {
            Some(i) => 0 <= i < items@.len() && items@[i as int]@ == t@
                && (forall|j: int| 0 <= j < i ==> items@[j]@ != t@),
            None => !contains_str(items@, t@),
        },
{
    let n = items.len();
    let mut i: usize = 0;
    while i < n
        invariant
            n == items@.len(),
            i <= n,
            forall|j: int| 0 <= j < i ==> items@[j]@ != t@,
        decreases n - i,
    {
        if str_eq(items[i].as_str(), t) {
            return Some(i);
        }
        i = i + 1;
    }
    None
}

/// Whether some entry of `items` reads exactly `t`.
pub fn has_str(items: &Vec<String>, t: &str) -> (r: bool)
    ensures
        r == contains_str(items@, t@),
{
    find_str(items, t).is_some()
}

/// Whether `ids` holds `x`.
pub open spec fn contains_id(ids: Seq<u128>, x: u128) -> bool {
    exists|j: int| 0 <= j < ids.len() && ids[j] == x
}

/// The position of the first occurrence of `x`, if any.
pub fn find_id(ids: &Vec<u128>, x: u128) -> (r: Option<usize>)
    ensures
        match r {
            Some(i) => 0 <= i < ids@.len() && ids@[i as int] == x
                && (forall|j: int| 0 <= j < i ==> ids@[j] != x),
            None => !contains_id(ids@, x),
        },
{
    let n = ids.len();
    let mut i: usize = 0;
    while i < n
        invariant
            n == ids@.len(),
            i <= n,
            forall|j: int| 0 <= j < i ==> ids@[j] != x,
        decreases n - i,
    {
        if ids[i] == x {
            return Some(i);
        }
        i = i + 1;
    }
    None
}

/// Whether `p` occurs in `t` starting at position `i`.
pub open spec fn is_at(t: Seq<char>, p: Seq<char>, i: int) -> bool {
    0 <= i && i + p.len() <= t.len() && t.subrange(i, i + p.len()) == p
}

/// Whether `p` occurs anywhere in `t`.
pub open spec fn contains_sub(t: Seq<char>, p: Seq<char>) -> bool {
    exists|i: int| is_at(t, p, i)
}

/// Whether `t` begins with `p`.
pub open spec fn starts_with(t: Seq<char>, p: Seq<char>) -> bool {
    p.len() <= t.len() && t.subrange(0, p.len() as int) == p
}

/// Whether `p` occurs in `t` at position `i`, by characters.
pub fn match_at(t: &str, p: &str, i: usize) -> (r: bool)
    ensures
        r == is_at(t@, p@, i as int),
{
    let tn = t.unicode_len();
    let pn = p.unicode_len();
    if i > tn || pn > tn - i {
        return false;
    }
    let mut j: usize = 0;
    while j < pn
        invariant
            t@.len() == tn,
            p@.len() == pn,
            i + pn <= tn,
            j <= pn,
            forall|k: int| 0 <= k < j ==> t@[i + k] == p@[k],
        decreases pn - j,
    {
        if t.get_char(i + j) != p.get_char(j) {
            proof {
                assert(t@.subrange(i as int, i + p@.len())[j as int] == t@[i + j]);
            }
            return false;
        }
        j = j + 1;
    }
    proof {
        assert(t@.subrange(i as int, i + p@.len()) =~= p@);
    }
    true
}

/// The position of the first occurrence of `p` in `t`, or -1 when `p` does
/// not occur.
pub open spec fn first_at(t: Seq<char>, p: Seq<char>) -> int
    decreases t.len(),
{
    if p.len() > t.len() {
        -1
    } else if starts_with(t, p) {
        0
    } else if t.len() == 0 {
        -1
    } else {
        let r = first_at(t.drop_first(), p);
        if r < 0 {
            -1
        } else {
            r + 1
        }
    }
}

/// An occurrence one step into `t` is an occurrence of the tail, and the
/// other way round.
proof fn lemma_is_at_shift(t: Seq<char>, p: Seq<char>, j: int)
    requires
        t.len() > 0,
        0 <= j,
    ensures
        is_at(t, p, j + 1) <==> is_at(t.drop_first(), p, j),
{
    if 0 <= j && j + p.len() <= t.drop_first().len() {
        assert(t.drop_first().subrange(j, j + p.len() as int)
            =~= t.subrange(j + 1, j + 1 + p.len() as int));
    }
}

/// `first_at` names the least occurrence position, and is negative exactly
/// when there is none.
pub proof fn lemma_first_at(t: Seq<char>, p: Seq<char>)
    ensures
        first_at(t, p) >= 0 ==> is_at(t, p, first_at(t, p))
            && (forall|j: int| 0 <= j < first_at(t, p) ==> !is_at(t, p, j)),
        first_at(t, p) < 0 ==> !contains_sub(t, p),
    decreases t.len(),
{
    if p.len() > t.len() {
        assert(forall|j: int| !is_at(t, p, j));
    } else if starts_with(t, p) {
        assert(is_at(t, p, 0));
    } else if t.len() == 0 {
        assert(forall|j: int| !is_at(t, p, j));
    } else {
        lemma_first_at(t.drop_first(), p);
        let r = first_at(t.drop_first(), p);
        assert(forall|j: int| 0 <= j ==> (is_at(t, p, j + 1) <==> is_at(t.drop_first(), p, j)))
            by {
            assert forall|j: int| 0 <= j implies
                (is_at(t, p, j + 1) <==> is_at(t.drop_first(), p, j)) by {
                lemma_is_at_shift(t, p, j);
            }
        }
        assert(!is_at(t, p, 0));
        if r < 0 {
            assert forall|j: int| !is_at(t, p, j) by {
                if j >= 1 {
                    lemma_is_at_shift(t, p, j - 1);
                }
            }
        } else {
            lemma_is_at_shift(t, p, r);
            assert(is_at(t, p, r + 1));
            assert forall|j: int| 0 <= j < r + 1 implies !is_at(t, p, j) by {
                if j >= 1 {
                    lemma_is_at_shift(t, p, j - 1);
                }
            }
        }
    }
}

/// The first position at which `p` occurs in `t`, if any.
pub fn find_sub(t: &str, p: &str) -> (r: Option<usize>)
    ensures
        match r {
            Some(i) => is_at(t@, p@, i as int)
                && (forall|j: int| 0 <= j < i ==> !is_at(t@, p@, j))
                && i == first_at(t@, p@),
            None => !contains_sub(t@, p@) && first_at(t@, p@) < 0,
        },
{
    let r = find_sub_inner(t, p);
    proof {
        lemma_first_at(t@, p@);
        match r {
            Some(i) => {
                let f = first_at(t@, p@);
                if f < 0 {
                    assert(contains_sub(t@, p@));
                    assert(false);
                }
                if f < i as int {
                    assert(is_at(t@, p@, f));
                    assert(false);
                }
                if (i as int) < f {
                    assert(is_at(t@, p@, i as int));
                    assert(false);
                }
            },
            None => {
                if first_at(t@, p@) >= 0 {
                    assert(is_at(t@, p@, first_at(t@, p@)));
                    assert(false);
                }
            },
        }
    }
    r
}

fn find_sub_inner(t: &str, p: &str) -> (r: Option<usize>)
    ensures
        match r {
            Some(i) => is_at(t@, p@, i as int)
                && (forall|j: int| 0 <= j < i ==> !is_at(t@, p@, j)),
            None => !contains_sub(t@, p@),
        },
{
    let tn = t.unicode_len();
    let pn = p.unicode_len();
    if pn > tn {
        proof {
            assert(forall|i: int| !is_at(t@, p@, i));
        }
        return None;
    }
    if pn == 0 {
        proof {
            assert(t@.subrange(0, 0) =~= p@);
        }
        return Some(0);
    }
    let mut i: usize = 0;
    while i <= tn - pn
        invariant
            t@.len() == tn,
            p@.len() == pn,
            0 < pn <= tn,
            i <= tn - pn + 1,
            forall|j: int| 0 <= j < i ==> !is_at(t@, p@, j),
        decreases tn - i,
    {
        if match_at(t, p, i) {
            return Some(i);
        }
        i = i + 1;
    }
    proof {
        assert(forall|j: int| is_at(t@, p@, j) ==> 0 <= j <= tn - pn);
    }
    None
}

/// Whether `p` occurs anywhere in `t`, by characters.
pub fn has_sub(t: &str, p: &str) -> (r: bool)
    ensures
        r == contains_sub(t@, p@),
{
    find_sub(t, p).is_some()
}

/// Whether `t` begins with `p`, by characters.
pub fn is_prefix(t: &str, p: &str) -> (r: bool)
    ensures
        r == starts_with(t@, p@),
{
    match_at(t, p, 0)
}

/// `i` clipped to the range 0..=n.
pub open spec fn clip(i: int, n: int) -> int {
    if i < 0 {
        0
    } else if i > n {
        n
    } else {
        i
    }
}

/// The excerpt shown for a match of a query of length `qlen` at position
/// `pos`: a window of up to 50 characters each side of the match, clipped
/// to the text, preceded by an ellipsis when the window does not start at
/// the text's start.
pub open spec fn snippet_window(text: Seq<char>, qlen: int, pos: int) -> Seq<char> {
    let n = text.len() as int;
    let lo = clip(pos - 50, n);
    let hi = clip(pos + qlen + 50, n);
    if lo > 0 {
        "..."@ + text.subrange(lo, hi)
    } else {
        text.subrange(lo, hi)
    }
}

/// The snippet for `text` against an already lower-cased query: the window
/// around the first case-insensitive occurrence, or the whole text when the
/// query does not occur (a defensive fallback).
pub open spec fn snippet_of(text: Seq<char>, q: Seq<char>) -> Seq<char> {
    let pos = first_at(lower_of(text), q);
    if pos < 0 {
        text
    } else {
        snippet_window(text, q.len() as int, pos)
    }
}

/// Relies on String::push: appends the given character to the end.
#[verifier::external_body]
pub fn string_push(s: &mut String, c: char)
    ensures
        final(s)@ == old(s)@.push(c),
{
    s.push(c);
}

/// ASCII lower-casing of one character: 'A'..'Z' map to 'a'..'z', all other
/// characters stay as they are.
pub open spec fn lower_char(c: char) -> char {
    if 'A' <= c && c <= 'Z' {
        ((c as int) + 32) as char
    } else {
        c
    }
}

/// ASCII lower-casing of a character sequence.
pub open spec fn lower_ascii(s: Seq<char>) -> Seq<char> {
    s.map_values(|c: char| lower_char(c))
}

/// ASCII lower-casing, character by character.
pub fn ascii_lower(s: &str) -> (r: String)
    ensures
        r@ == lower_ascii(s@),
{
    let n = s.unicode_len();
    let mut out = String::new();
    let mut i: usize = 0;
    while i < n
        invariant
            s@.len() == n,
            i <= n,
            out@.len() == i,
            forall|j: int| 0 <= j < i ==> out@[j] == lower_char(s@[j]),
        decreases n - i,
    {
        let c = s.get_char(i);
        let cv = c as u32;
        let lc: char = if cv >= 65 && cv <= 90 {
            ((cv + 32) as u8) as char
        } else {
            c
        };
        proof {
            assert(lc == lower_char(s@[i as int]));
        }
        string_push(&mut out, lc);
        i = i + 1;
    }
    proof {
        assert(out@ =~= lower_ascii(s@));
    }
    out
}

/// What str::to_lowercase returns: a function of the characters alone.
pub uninterp spec fn lower_of(s: Seq<char>) -> Seq<char>;

/// Relies on str::to_lowercase: the lower-case equivalent of the slice,
/// a function of its characters alone. An empty slice stays empty.
#[verifier::external_body]
pub fn lowercase(s: &str) -> (r: String)
    ensures
        r@ == lower_of(s@),
        s@.len() == 0 ==> r@.len() == 0,
{
    s.to_lowercase()
}

} // verus!
