//! The persistence format: each collection is saved as a JSON array, one
//! record per line, in a fixed canonical shape. Decoding accepts exactly
//! that shape; whatever decodes successfully is the canonical encoding of
//! the decoded records, so saving what was loaded reproduces the file.
//!
//! Inside strings only the quote and the backslash are escaped (besides
//! the common control escapes), so text is stored verbatim.

use vstd::prelude::*;
use crate::errors::VaultError;
use crate::dates::{num_of, all_digits, is_digit, digit_val, p10};
use crate::ids::hex_digit;

verus! {

/// How one character is written inside a quoted string.
pub open spec fn esc_char(c: char) -> Seq<char> {
    if c == '"' {
        seq!['\\', '"']
    } else if c == '\\' {
        seq!['\\', '\\']
    } else if c == '\n' {
        seq!['\\', 'n']
    } else if c == '\r' {
        seq!['\\', 'r']
    } else if c == '\t' {
        seq!['\\', 't']
    } else {
        seq![c]
    }
}

/// The escaped body of a quoted string.
pub open spec fn escape(s: Seq<char>) -> Seq<char>
    decreases s.len(),
{
    if s.len() == 0 {
        Seq::empty()
    } else {
        escape(s.drop_last()) + esc_char(s.last())
    }
}

/// A quoted, escaped string.
pub open spec fn str_enc(v: Seq<char>) -> Seq<char> {
    seq!['"'] + escape(v) + seq!['"']
}

/// An optional string: `null` or a quoted string.
pub open spec fn opt_enc(o: Option<Seq<char>>) -> Seq<char> {
    match o {
        Some(v) => str_enc(v),
        None => "null"@,
    }
}

/// The minimal decimal digits of a non-negative value.
pub open spec fn dec_digits(v: int) -> Seq<char>
    decreases v,
{
    if v < 10 {
        seq![hex_digit(v)]
    } else {
        dec_digits(v / 10).push(hex_digit(v % 10))
    }
}

/// A possibly signed decimal number.
pub open spec fn int_enc(v: int) -> Seq<char> {
    if v < 0 {
        seq!['-'] + dec_digits(-v)
    } else {
        dec_digits(v)
    }
}

/// Append the escaped body of `v` to `out`.
fn push_escaped(out: &mut String, v: &str)
    ensures
        final(out)@ == old(out)@ + escape(v@),
{
    let n = v.unicode_len();
    let mut i: usize = 0;
    proof {
        assert(out@ =~= old(out)@ + escape(v@.take(0)));
    }
    while i < n
        invariant
            n == v@.len(),
            i <= n,
            out@ == old(out)@ + escape(v@.take(i as int)),
        decreases n - i,
    {
        let c = v.get_char(i);
        if c == '"' {
            crate::text::string_push(out, '\\');
            crate::text::string_push(out, '"');
        } else if c == '\\' {
            crate::text::string_push(out, '\\');
            crate::text::string_push(out, '\\');
        } else if c == '\n' {
            crate::text::string_push(out, '\\');
            crate::text::string_push(out, 'n');
        } else if c == '\r' {
            crate::text::string_push(out, '\\');
            crate::text::string_push(out, 'r');
        } else if c == '\t' {
            crate::text::string_push(out, '\\');
            crate::text::string_push(out, 't');
        } else {
            crate::text::string_push(out, c);
        }
        proof {
            assert(v@.take(i + 1).drop_last() =~= v@.take(i as int));
            assert(v@.take(i + 1).last() == v@[i as int]);
            assert(out@ =~= old(out)@ + escape(v@.take(i + 1)));
        }
        i = i + 1;
    }
    proof {
        assert(v@.take(n as int) =~= v@);
    }
}

/// Append a quoted, escaped string to `out`.
fn push_quoted(out: &mut String, v: &str)
    ensures
        final(out)@ == old(out)@ + str_enc(v@),
{
    crate::text::string_push(out, '"');
    push_escaped(out, v);
    crate::text::string_push(out, '"');
    proof {
        assert(out@ =~= old(out)@ + str_enc(v@));
    }
}

/// Append the minimal decimal digits of `v` to `out`.
fn push_dec(out: &mut String, v: u64)
    ensures
        final(out)@ == old(out)@ + dec_digits(v as int),
    decreases v,
{
    if v < 10 {
        let c: char = match v {
            0 => '0', 1 => '1', 2 => '2', 3 => '3', 4 => '4',
            5 => '5', 6 => '6', 7 => '7', 8 => '8', _ => '9',
        };
        proof {
            assert(c == hex_digit(v as int));
        }
        crate::text::string_push(out, c);
        proof {
            assert(out@ =~= old(out)@ + dec_digits(v as int));
        }
        return;
    }
    push_dec(out, v / 10);
    let d = v % 10;
    let c: char = match d {
        0 => '0', 1 => '1', 2 => '2', 3 => '3', 4 => '4',
        5 => '5', 6 => '6', 7 => '7', 8 => '8', _ => '9',
    };
    proof {
        assert(c == hex_digit(v as int % 10));
    }
    crate::text::string_push(out, c);
    proof {
        assert(out@ =~= old(out)@ + dec_digits(v as int));
    }
}

/// Append a possibly signed decimal number to `out`.
fn push_int(out: &mut String, v: i64)
    ensures
        final(out)@ == old(out)@ + int_enc(v as int),
{
    if v < 0 {
        crate::text::string_push(out, '-');
        let mag: u64 = if v == i64::MIN {
            9223372036854775808u64
        } else {
            (-v) as u64
        };
        push_dec(out, mag);
        proof {
            assert(out@ =~= old(out)@ + int_enc(v as int));
        }
    } else {
        push_dec(out, v as u64);
    }
}

/// A digit string without a pointless leading zero reads back to itself.
proof fn lemma_num_lower(ds: Seq<char>)
    requires
        all_digits(ds),
        ds.len() >= 1,
        ds[0] != '0',
    ensures
        num_of(ds) >= p10(ds.len() - 1),
    decreases ds.len(),
{
    if ds.len() == 1 {
        assert(ds.drop_last().len() == 0);
        assert(num_of(ds.drop_last()) == 0);
        assert(ds.last() == ds[0]);
        assert(digit_val(ds[0]) >= 1);
        assert(p10(0) == 1);
    } else {
        assert(all_digits(ds.drop_last()));
        assert(ds.drop_last()[0] == ds[0]);
        lemma_num_lower(ds.drop_last());
        assert(digit_val(ds.last()) >= 0);
        assert(p10(ds.len() - 1) == 10 * p10(ds.len() - 2));
    }
}

/// The decimal digits of a value are unique: a canonical digit string is
/// what `dec_digits` writes for its value.
proof fn lemma_dec_digits_unique(ds: Seq<char>)
    requires
        all_digits(ds),
        ds.len() >= 1,
        ds.len() > 1 ==> ds[0] != '0',
    ensures
        dec_digits(num_of(ds)) == ds,
    decreases ds.len(),
{
    let v = num_of(ds);
    if ds.len() == 1 {
        assert(ds.drop_last().len() == 0);
        assert(num_of(ds.drop_last()) == 0);
        assert(ds.last() == ds[0]);
        assert(v == digit_val(ds[0]));
        assert(hex_digit(v) == ds[0]);
        assert(dec_digits(v) =~= ds);
    } else {
        assert(all_digits(ds.drop_last()));
        assert(ds.drop_last()[0] == ds[0]);
        lemma_num_lower(ds.drop_last());
        crate::codec::lemma_p10_ge_one(ds.len() - 2);
        let hi = num_of(ds.drop_last());
        let lo = digit_val(ds.last());
        assert(v == hi * 10 + lo);
        assert(0 <= lo < 10);
        vstd::arithmetic::div_mod::lemma_fundamental_div_mod_converse(v, 10, hi, lo);
        assert(v >= 10);
        lemma_dec_digits_unique(ds.drop_last());
        assert(hex_digit(lo) == ds.last());
        assert(dec_digits(v) =~= ds);
    }
}

proof fn lemma_p10_ge_one(k: int)
    ensures
        p10(k) >= 1,
    decreases k,
{
    if k > 0 {
        lemma_p10_ge_one(k - 1);
    }
}

/// Whether `j` is just past the literal `lit` at `i`.
fn expect_lit(s: &str, i: usize, lit: &str) -> (r: Option<usize>)
    ensures
        r matches Some(j) ==> i + lit@.len() == j && j <= s@.len() && s@.subrange(
            i as int,
            j as int,
        ) == lit@,
        r is Some <==> crate::text::is_at(s@, lit@, i as int),
{
    let n = s.unicode_len();
    if crate::text::match_at(s, lit, i) {
        let ll = lit.unicode_len();
        Some(i + ll)
    } else {
        None
    }
}

/// Whether the text at `i` is exactly the quoted encoding of `v`.
pub open spec fn str_at(s: Seq<char>, i: int, v: Seq<char>) -> bool {
    &&& 0 <= i
    &&& i + str_enc(v).len() <= s.len()
    &&& s.subrange(i, i + str_enc(v).len() as int) == str_enc(v)
}

/// A window of text equal to a known slice of a known whole.
proof fn lemma_seq_window(s: Seq<char>, i: int, whole: Seq<char>, pre: int, piece: Seq<char>)
    requires
        0 <= i,
        i + whole.len() <= s.len(),
        s.subrange(i, i + whole.len() as int) == whole,
        0 <= pre,
        pre + piece.len() <= whole.len(),
        forall|t: int| 0 <= t < piece.len() ==> whole[pre + t] == piece[t],
    ensures
        s.subrange(i + pre, i + pre + piece.len() as int) == piece,
{
    assert forall|t: int|
        0 <= t < piece.len() implies s.subrange(i + pre, i + pre + piece.len() as int)[t]
        == piece[t] by {
        assert(s.subrange(i + pre, i + pre + piece.len() as int)[t] == s[i + pre + t]);
        assert(s.subrange(i, i + whole.len() as int)[pre + t] == s[i + (pre + t)]);
    }
    assert(s.subrange(i + pre, i + pre + piece.len() as int) =~= piece);
}

/// Escaping distributes over concatenation.
proof fn lemma_escape_concat(a: Seq<char>, b: Seq<char>)
    ensures
        escape(a + b) == escape(a) + escape(b),
    decreases b.len(),
{
    if b.len() == 0 {
        assert(a + b =~= a);
        assert(escape(a) + escape(b) =~= escape(a));
    } else {
        lemma_escape_concat(a, b.drop_last());
        assert((a + b).drop_last() =~= a + b.drop_last());
        assert((a + b).last() == b.last());
        assert(escape(a) + escape(b) =~= escape(a) + escape(b.drop_last()) + esc_char(b.last()));
    }
}

/// Where the next character unit of `v` sits inside its quoted encoding:
/// after the escape of the first `m` characters comes the unit of `v[m]`,
/// and after all of them the closing quote.
proof fn lemma_str_at_chars(s: Seq<char>, i: int, v: Seq<char>, m: int)
    requires
        str_at(s, i, v),
        0 <= m <= v.len(),
    ensures
        escape(v.take(m)).len() <= escape(v).len(),
        m < v.len() ==> escape(v.take(m + 1)) == escape(v.take(m)) + esc_char(v[m]),
        m < v.len() ==> escape(v.take(m + 1)).len() <= escape(v).len(),
        m < v.len() ==> (forall|t: int|
            0 <= t < esc_char(v[m]).len() ==> s[i + 1 + escape(v.take(m)).len() + t]
                == esc_char(v[m])[t]),
        m == v.len() ==> s[i + 1 + escape(v.take(m)).len()] == '"',
{
    lemma_escape_concat(v.take(m), v.skip(m));
    assert(v.take(m) + v.skip(m) =~= v);
    assert(escape(v) == escape(v.take(m)) + escape(v.skip(m)));
    let em = escape(v.take(m)).len() as int;
    if m < v.len() {
        assert(v.take(m + 1).drop_last() =~= v.take(m));
        assert(v.take(m + 1).last() == v[m]);
        assert(escape(v.take(m + 1)) == escape(v.take(m)) + esc_char(v[m]));
        lemma_escape_concat(v.take(m + 1), v.skip(m + 1));
        assert(v.take(m + 1) + v.skip(m + 1) =~= v);
        assert(escape(v) == escape(v.take(m + 1)) + escape(v.skip(m + 1)));
        assert forall|t: int|
            0 <= t < esc_char(v[m]).len() implies s[i + 1 + em + t] == esc_char(v[m])[t] by {
            assert(escape(v)[em + t] == esc_char(v[m])[t]);
            assert(str_enc(v)[1 + em + t] == escape(v)[em + t]);
            assert(s.subrange(i, i + str_enc(v).len() as int)[1 + em + t] == s[i + 1 + em + t]);
        }
    } else {
        assert(v.take(m) =~= v);
        assert(str_enc(v)[1 + em] == '"');
        assert(s.subrange(i, i + str_enc(v).len() as int)[1 + em] == s[i + 1 + em]);
    }
}

/// Parse a quoted, escaped string starting at `i`. On success the consumed
/// range is exactly the canonical encoding of the returned text, and on a
/// range that is such an encoding the parse always succeeds with exactly
/// that text.
#[verifier::rlimit(100)]
#[verifier::spinoff_prover]
fn parse_string_at(s: &str, i: usize) -> (r: Option<(String, usize)>)
    ensures
        r matches Some(p) ==> i < p.1 <= s@.len() && s@.subrange(i as int, p.1 as int) == str_enc(
            p.0@,
        ),
        forall|v: Seq<char>| str_at(s@, i as int, v) ==> (r matches Some(p) && p.0@ == v && (
        p.1 as int) == i + str_enc(v).len()),
{
    let n = s.unicode_len();
    if i >= n {
        proof {
            assert forall|v: Seq<char>| !str_at(s@, i as int, v) by {
                if str_at(s@, i as int, v) {
                    assert(str_enc(v).len() >= 2);
                }
            }
        }
        return None;
    }
    if s.get_char(i) != '"' {
        proof {
            assert forall|v: Seq<char>| !str_at(s@, i as int, v) by {
                if str_at(s@, i as int, v) {
                    assert(str_enc(v)[0] == '"');
                    assert(s@.subrange(i as int, i + str_enc(v).len() as int)[0] == s@[i as int]);
                }
            }
        }
        return None;
    }
    let mut acc = String::new();
    let mut p = i + 1;
    proof {
        assert(s@.subrange(i + 1, i + 1) =~= escape(acc@));
        assert forall|v: Seq<char>|
            str_at(s@, i as int, v) implies acc@.len() <= v.len() && acc@ == v.take(
            acc@.len() as int,
        ) && p as int == i + 1 + escape(v.take(acc@.len() as int)).len() by {
            assert(v.take(0) =~= acc@);
        }
    }
    while p < n
        invariant
            n == s@.len(),
            i + 1 <= p <= n,
            s@[i as int] == '"',
            s@.subrange(i + 1, p as int) == escape(acc@),
            forall|v: Seq<char>| str_at(s@, i as int, v) ==> (acc@.len() <= v.len() && acc@
                == v.take(acc@.len() as int) && p as int == i + 1 + escape(
                v.take(acc@.len() as int),
            ).len()),
        decreases n - p,
    {
        let c = s.get_char(p);
        if c == '"' {
            proof {
                assert(s@.subrange(i as int, p + 1) =~= seq!['"'] + escape(acc@) + seq!['"']);
                assert forall|v: Seq<char>| str_at(s@, i as int, v) implies acc@ == v && (p + 1)
                    == i + str_enc(v).len() by {
                    let m = acc@.len() as int;
                    lemma_str_at_chars(s@, i as int, v, m);
                    if m < v.len() {
                        assert(s@[p as int] == esc_char(v[m])[0]);
                        assert(false);
                    }
                    assert(v.take(m) =~= v);
                }
            }
            return Some((acc, p + 1));
        }
        if c == '\\' {
            proof {
                assert forall|v: Seq<char>|
                    str_at(s@, i as int, v) implies acc@.len() < v.len() && esc_char(
                    v[acc@.len() as int],
                ).len() == 2 by {
                    let m = acc@.len() as int;
                    lemma_str_at_chars(s@, i as int, v, m);
                    if m == v.len() {
                        assert(s@[p as int] == '"');
                        assert(false);
                    }
                    assert(s@[p as int] == esc_char(v[m])[0]);
                }
            }
            if p + 1 >= n {
                proof {
                    assert forall|v: Seq<char>| !str_at(s@, i as int, v) by {
                        if str_at(s@, i as int, v) {
                            let m = acc@.len() as int;
                            lemma_str_at_chars(s@, i as int, v, m);
                            assert(escape(v.take(m + 1)).len() <= escape(v).len());
                        }
                    }
                }
                return None;
            }
            let d = s.get_char(p + 1);
            let m: char = if d == '"' {
                '"'
            } else if d == '\\' {
                '\\'
            } else if d == 'n' {
                '\n'
            } else if d == 'r' {
                '\r'
            } else if d == 't' {
                '\t'
            } else {
                proof {
                    assert forall|v: Seq<char>| !str_at(s@, i as int, v) by {
                        if str_at(s@, i as int, v) {
                            let m = acc@.len() as int;
                            lemma_str_at_chars(s@, i as int, v, m);
                            assert(s@[p + 1] == esc_char(v[m])[1]);
                        }
                    }
                }
                return None;
            };
            let ghost a0 = acc@;
            crate::text::string_push(&mut acc, m);
            proof {
                assert(acc@.drop_last() =~= a0);
                assert(acc@.last() == m);
                assert(escape(acc@) == escape(a0) + esc_char(m));
                assert(esc_char(m) =~= seq!['\\', d]);
                assert(s@.subrange(i + 1, p + 2) =~= escape(a0) + seq!['\\', d]);
                assert forall|v: Seq<char>|
                    str_at(s@, i as int, v) implies acc@.len() <= v.len() && acc@ == v.take(
                    acc@.len() as int,
                ) && (p + 2) == i + 1 + escape(v.take(acc@.len() as int)).len() by {
                    let k = a0.len() as int;
                    lemma_str_at_chars(s@, i as int, v, k);
                    assert(s@[p as int] == esc_char(v[k])[0]);
                    assert(s@[p + 1] == esc_char(v[k])[1]);
                    assert(v[k] == m);
                    assert(acc@ =~= v.take(k + 1));
                }
            }
            p = p + 2;
        } else if c == '\n' || c == '\r' || c == '\t' {
            proof {
                assert forall|v: Seq<char>| !str_at(s@, i as int, v) by {
                    if str_at(s@, i as int, v) {
                        let m = acc@.len() as int;
                        lemma_str_at_chars(s@, i as int, v, m);
                        if m == v.len() {
                            assert(s@[p as int] == '"');
                        } else {
                            assert(s@[p as int] == esc_char(v[m])[0]);
                        }
                    }
                }
            }
            return None;
        } else {
            let ghost a0 = acc@;
            crate::text::string_push(&mut acc, c);
            proof {
                assert(acc@.drop_last() =~= a0);
                assert(acc@.last() == c);
                assert(escape(acc@) == escape(a0) + esc_char(c));
                assert(esc_char(c) =~= seq![c]);
                assert(s@.subrange(i + 1, p + 1) =~= escape(a0) + seq![c]);
                assert forall|v: Seq<char>|
                    str_at(s@, i as int, v) implies acc@.len() <= v.len() && acc@ == v.take(
                    acc@.len() as int,
                ) && (p + 1) == i + 1 + escape(v.take(acc@.len() as int)).len() by {
                    let k = a0.len() as int;
                    lemma_str_at_chars(s@, i as int, v, k);
                    if k == v.len() {
                        assert(s@[p as int] == '"');
                        assert(false);
                    }
                    assert(s@[p as int] == esc_char(v[k])[0]);
                    assert(v[k] == c);
                    assert(acc@ =~= v.take(k + 1));
                }
            }
            p = p + 1;
        }
    }
    proof {
        assert forall|v: Seq<char>| !str_at(s@, i as int, v) by {
            if str_at(s@, i as int, v) {
                let m = acc@.len() as int;
                lemma_str_at_chars(s@, i as int, v, m);
            }
        }
    }
    None
}

/// Parse an unsigned decimal number starting at `i`; a leading zero is
/// accepted only for the number zero itself.
/// The digits of a value are digit characters, name the value, and never
/// begin with a pointless zero.
proof fn lemma_dec_digits_shape(v: int)
    requires
        0 <= v,
    ensures
        dec_digits(v).len() >= 1,
        all_digits(dec_digits(v)),
        num_of(dec_digits(v)) == v,
        v >= 10 ==> dec_digits(v)[0] != '0',
        v < 10 ==> dec_digits(v) == seq![hex_digit(v)],
    decreases v,
{
    if v < 10 {
        let d = dec_digits(v);
        assert(d.drop_last().len() == 0);
        assert(num_of(d.drop_last()) == 0);
        assert(d.last() == hex_digit(v));
        assert(digit_val(hex_digit(v)) == v);
    } else {
        lemma_dec_digits_shape(v / 10);
        let d = dec_digits(v);
        assert(d.drop_last() =~= dec_digits(v / 10));
        assert(d.last() == hex_digit(v % 10));
        assert forall|k: int| 0 <= k < d.len() implies is_digit(d[k]) by {
            if k < d.len() - 1 {
                assert(d[k] == dec_digits(v / 10)[k]);
            } else {
                assert(d[k] == hex_digit(v % 10));
            }
        }
        assert(num_of(d) == num_of(dec_digits(v / 10)) * 10 + digit_val(hex_digit(v % 10)));
        assert(digit_val(hex_digit(v % 10)) == v % 10);
        if v / 10 >= 10 {
            assert(d[0] == dec_digits(v / 10)[0]);
        } else {
            assert(dec_digits(v / 10) == seq![hex_digit(v / 10)]);
            assert(d[0] == hex_digit(v / 10));
            assert(v / 10 >= 1);
        }
    }
}

/// A digit string names a non-negative value.
proof fn lemma_num_nonneg(t: Seq<char>)
    requires
        all_digits(t),
    ensures
        num_of(t) >= 0,
    decreases t.len(),
{
    if t.len() > 0 {
        assert(all_digits(t.drop_last()));
        lemma_num_nonneg(t.drop_last());
        assert(digit_val(t.last()) >= 0);
    }
}

/// A digit prefix never names more than the whole digit string.
proof fn lemma_num_of_prefix(t: Seq<char>, k: int)
    requires
        all_digits(t),
        0 <= k <= t.len(),
    ensures
        num_of(t.take(k)) <= num_of(t),
    decreases t.len(),
{
    if k < t.len() {
        assert(all_digits(t.drop_last()));
        lemma_num_of_prefix(t.drop_last(), k);
        lemma_num_nonneg(t.drop_last());
        assert(t.take(k) =~= t.drop_last().take(k));
        assert(digit_val(t.last()) >= 0);
    } else {
        assert(t.take(k) =~= t);
    }
}

/// Whether the text at `i` is exactly the decimal rendering of `x`, ended
/// by the text's end or a non-digit.
pub open spec fn dec_at(s: Seq<char>, i: int, x: u64) -> bool {
    &&& 0 <= i
    &&& i + dec_digits(x as int).len() <= s.len()
    &&& s.subrange(i, i + dec_digits(x as int).len() as int) == dec_digits(x as int)
    &&& (i + dec_digits(x as int).len() == s.len() || !is_digit(
        s[i + dec_digits(x as int).len() as int],
    ))
}

#[verifier::rlimit(100)]
#[verifier::spinoff_prover]
fn parse_u64_at(s: &str, i: usize) -> (r: Option<(u64, usize)>)
    ensures
        r matches Some(p) ==> i < p.1 <= s@.len() && s@.subrange(i as int, p.1 as int)
            == dec_digits(p.0 as int),
        forall|x: u64| dec_at(s@, i as int, x) ==> (r matches Some(p) && p.0 == x && p.1 as int
            == i + dec_digits(x as int).len()),
{
    let n = s.unicode_len();
    if i >= n {
        proof {
            assert forall|x: u64| !dec_at(s@, i as int, x) by {
                if dec_at(s@, i as int, x) {
                    lemma_dec_digits_shape(x as int);
                }
            }
        }
        return None;
    }
    let c0 = s.get_char(i);
    let c0v = c0 as u32;
    if c0v < 48 || c0v > 57 {
        proof {
            assert forall|x: u64| !dec_at(s@, i as int, x) by {
                if dec_at(s@, i as int, x) {
                    lemma_dec_digits_shape(x as int);
                    assert(s@.subrange(i as int, i + dec_digits(x as int).len() as int)[0] == s@[
                        i as int]);
                    assert(is_digit(s@[i as int]));
                }
            }
        }
        return None;
    }
    let mut acc: u64 = (c0v - 48) as u64;
    let mut p = i + 1;
    if c0 == '0' {
        proof {
            assert(s@.subrange(i as int, i + 1) =~= seq![s@[i as int]]);
            assert(hex_digit(0) == '0');
            assert(dec_digits(0) =~= seq!['0']);
            assert(s@[i as int] == '0');
            assert forall|x: u64| dec_at(s@, i as int, x) implies x == 0 by {
                lemma_dec_digits_shape(x as int);
                assert(s@.subrange(i as int, i + dec_digits(x as int).len() as int)[0] == s@[
                    i as int]);
                if x >= 10 {
                    assert(dec_digits(x as int)[0] != '0');
                    assert(false);
                }
                assert(hex_digit(x as int) == '0');
            }
        }
        return Some((0, p));
    }
    proof {
        let d1 = s@.subrange(i as int, p as int);
        assert(d1 =~= seq![s@[i as int]]);
        assert(all_digits(d1));
        assert(d1.drop_last().len() == 0);
        assert(num_of(d1.drop_last()) == 0);
        assert(d1.last() == s@[i as int]);
        assert(num_of(d1) == digit_val(s@[i as int]));
        assert forall|x: u64|
            dec_at(s@, i as int, x) implies p as int <= i + dec_digits(x as int).len() by {
            lemma_dec_digits_shape(x as int);
        }
    }
    loop
        invariant
            n == s@.len(),
            i < p <= n,
            all_digits(s@.subrange(i as int, p as int)),
            acc as int == num_of(s@.subrange(i as int, p as int)),
            s@[i as int] != '0',
            is_digit(s@[i as int]),
            forall|x: u64| dec_at(s@, i as int, x) ==> p as int <= i + dec_digits(
                x as int,
            ).len(),
        ensures
            i < p <= n,
            all_digits(s@.subrange(i as int, p as int)),
            acc as int == num_of(s@.subrange(i as int, p as int)),
            s@[i as int] != '0',
            p == n || !is_digit(s@[p as int]),
            forall|x: u64| dec_at(s@, i as int, x) ==> p as int <= i + dec_digits(
                x as int,
            ).len(),
        decreases n - p,
    {
        if p >= n {
            break;
        }
        let c = s.get_char(p);
        let cv = c as u32;
        if cv < 48 || cv > 57 {
            break;
        }
        let d = (cv - 48) as u64;
        proof {
            assert(s@.subrange(i as int, p + 1).drop_last() =~= s@.subrange(i as int, p as int));
            assert(s@.subrange(i as int, p + 1).last() == s@[p as int]);
            assert(num_of(s@.subrange(i as int, p + 1)) == acc as int * 10 + d as int);
        }
        if acc > (18446744073709551615u64 - d) / 10 {
            proof {
                assert forall|x: u64| !dec_at(s@, i as int, x) by {
                    if dec_at(s@, i as int, x) {
                        lemma_dec_digits_shape(x as int);
                        let full = s@.subrange(i as int, i + dec_digits(x as int).len() as int);
                        assert(s@.subrange(i as int, p + 1) =~= full.take(p + 1 - i));
                        lemma_num_of_prefix(full, p + 1 - i);
                        assert(acc as int * 10 + d as int <= x as int);
                        let cap = 18446744073709551615int - d as int;
                        vstd::arithmetic::div_mod::lemma_fundamental_div_mod(cap, 10);
                        vstd::arithmetic::div_mod::lemma_fundamental_div_mod_converse(
                            acc as int * 10,
                            10,
                            acc as int,
                            0,
                        );
                        vstd::arithmetic::div_mod::lemma_div_is_ordered(
                            acc as int * 10,
                            cap,
                            10,
                        );
                    }
                }
            }
            return None;
        }
        proof {
            let cap = 18446744073709551615int - d as int;
            vstd::arithmetic::div_mod::lemma_fundamental_div_mod(cap, 10);
        }
        acc = acc * 10 + d;
        p = p + 1;
        proof {
            assert forall|x: u64|
                dec_at(s@, i as int, x) implies p as int <= i + dec_digits(x as int).len() by {
                lemma_dec_digits_shape(x as int);
                if p as int > i + dec_digits(x as int).len() {
                    let e = i + dec_digits(x as int).len();
                    assert(e < p);
                    assert(e == s@.len() || !is_digit(s@[e]));
                    assert(i < e || e == i);
                    if e < p {
                        assert(is_digit(s@.subrange(i as int, p as int)[e - i]));
                    }
                }
            }
        }
    }
    proof {
        lemma_dec_digits_unique(s@.subrange(i as int, p as int));
        assert forall|x: u64|
            dec_at(s@, i as int, x) implies acc == x && p as int == i + dec_digits(
            x as int,
        ).len() by {
            lemma_dec_digits_shape(x as int);
            let e = i + dec_digits(x as int).len();
            if (p as int) < e {
                assert(s@.subrange(i as int, e as int)[p - i] == s@[p as int]);
                assert(is_digit(s@[p as int]));
                assert(p < n);
                assert(false);
            }
            assert(p as int == e);
            assert(s@.subrange(i as int, p as int) == dec_digits(x as int));
            assert(num_of(dec_digits(x as int)) == x as int);
        }
    }
    Some((acc, p))
}

/// Whether the text at `i` is exactly the signed decimal rendering of
/// `x`, ended by the text's end or a non-digit.
pub open spec fn int_at(s: Seq<char>, i: int, x: i64) -> bool {
    &&& 0 <= i
    &&& i + int_enc(x as int).len() <= s.len()
    &&& s.subrange(i, i + int_enc(x as int).len() as int) == int_enc(x as int)
    &&& (i + int_enc(x as int).len() == s.len() || !is_digit(
        s[i + int_enc(x as int).len() as int],
    ))
}

/// Parse a possibly signed decimal number starting at `i`.
#[verifier::rlimit(100)]
#[verifier::spinoff_prover]
fn parse_int_at(s: &str, i: usize) -> (r: Option<(i64, usize)>)
    ensures
        r matches Some(p) ==> i < p.1 <= s@.len() && s@.subrange(i as int, p.1 as int) == int_enc(
            p.0 as int,
        ),
        forall|x: i64| int_at(s@, i as int, x) ==> (r matches Some(p) && p.0 == x && p.1 as int
            == i + int_enc(x as int).len()),
{
    let n = s.unicode_len();
    if i >= n {
        proof {
            assert forall|x: i64| !int_at(s@, i as int, x) by {
                if int_at(s@, i as int, x) {
                    if x >= 0 {
                        lemma_dec_digits_shape(x as int);
                    } else {
                        lemma_dec_digits_shape(-(x as int));
                    }
                }
            }
        }
        return None;
    }
    if s.get_char(i) == '-' {
        proof {
            assert forall|x: i64| int_at(s@, i as int, x) implies x < 0 && dec_at(
                s@,
                i + 1,
                (-(x as int)) as u64,
            ) by {
                if x >= 0 {
                    lemma_dec_digits_shape(x as int);
                    assert(s@.subrange(i as int, i + int_enc(x as int).len() as int)[0] == s@[
                        i as int]);
                    assert(is_digit(s@[i as int]));
                    assert(false);
                }
                lemma_dec_digits_shape(-(x as int));
                let m = (-(x as int)) as u64;
                assert(m as int == -(x as int));
                assert(int_enc(x as int) == seq!['-'] + dec_digits(m as int));
                let dl = dec_digits(m as int).len() as int;
                assert forall|k: int| 0 <= k < dl implies s@.subrange(i + 1, i + 1 + dl)[k]
                    == dec_digits(m as int)[k] by {
                    assert(s@.subrange(i + 1, i + 1 + dl)[k] == s@[i + 1 + k]);
                    assert(s@.subrange(i as int, i + int_enc(x as int).len() as int)[1 + k]
                        == s@[i + (1 + k)]);
                    assert(int_enc(x as int)[1 + k] == dec_digits(m as int)[k]);
                }
                assert(s@.subrange(i + 1, i + 1 + dl) =~= dec_digits(m as int));
            }
        }
        match parse_u64_at(s, i + 1) {
            Some((mag, j)) => {
                if mag == 0 || mag > 9223372036854775808u64 {
                    proof {
                        assert forall|x: i64| !int_at(s@, i as int, x) by {
                            if int_at(s@, i as int, x) {
                                assert(mag as int == -(x as int));
                            }
                        }
                    }
                    return None;
                }
                let v: i64 = if mag == 9223372036854775808u64 {
                    i64::MIN
                } else {
                    -(mag as i64)
                };
                proof {
                    assert(s@.subrange(i as int, j as int) =~= seq!['-'] + s@.subrange(
                        i + 1,
                        j as int,
                    ));
                    assert forall|x: i64| int_at(s@, i as int, x) implies v == x && j as int == i
                        + int_enc(x as int).len() by {
                        assert(mag as int == -(x as int));
                    }
                }
                Some((v, j))
            },
            None => {
                proof {
                    assert forall|x: i64| !int_at(s@, i as int, x) by {
                        if int_at(s@, i as int, x) {
                            assert(dec_at(s@, i + 1, (-(x as int)) as u64));
                        }
                    }
                }
                None
            },
        }
    } else {
        proof {
            assert forall|x: i64| int_at(s@, i as int, x) implies x >= 0 && dec_at(
                s@,
                i as int,
                x as u64,
            ) by {
                if x < 0 {
                    lemma_dec_digits_shape(-(x as int));
                    assert(s@.subrange(i as int, i + int_enc(x as int).len() as int)[0] == s@[
                        i as int]);
                    assert(s@[i as int] == '-');
                    assert(false);
                }
                assert(x as u64 as int == x as int);
            }
        }
        match parse_u64_at(s, i) {
            Some((mag, j)) => {
                if mag > 9223372036854775807u64 {
                    proof {
                        assert forall|x: i64| !int_at(s@, i as int, x) by {
                            if int_at(s@, i as int, x) {
                                assert(mag == x as u64);
                            }
                        }
                    }
                    return None;
                }
                proof {
                    assert forall|x: i64| int_at(s@, i as int, x) implies mag as i64 == x && (
                    j as int) == i + int_enc(x as int).len() by {
                        assert(mag == x as u64);
                    }
                }
                Some((mag as i64, j))
            },
            None => {
                proof {
                    assert forall|x: i64| !int_at(s@, i as int, x) by {
                        if int_at(s@, i as int, x) {
                            assert(dec_at(s@, i as int, x as u64));
                        }
                    }
                }
                None
            },
        }
    }
}

pub open spec fn is_hex(c: char) -> bool {
    is_digit(c) || ('a' <= c && c <= 'f')
}

pub open spec fn hex_val(c: char) -> int {
    if is_digit(c) {
        digit_val(c)
    } else {
        c as int - 'a' as int + 10
    }
}

pub open spec fn all_hex(s: Seq<char>) -> bool {
    forall|i: int| 0 <= i < s.len() ==> is_hex(s[i])
}

/// The value of a fixed-width hex digit string.
pub open spec fn hexnum(s: Seq<char>) -> int
    decreases s.len(),
{
    if s.len() == 0 {
        0
    } else {
        hexnum(s.drop_last()) * 16 + hex_val(s.last())
    }
}

/// Sixteen to the `k`.
pub open spec fn p16(k: int) -> int
    decreases k,
{
    if k <= 0 {
        1
    } else {
        16 * p16(k - 1)
    }
}

proof fn lemma_p16_ge_one(k: int)
    ensures
        p16(k) >= 1,
    decreases k,
{
    if k > 0 {
        lemma_p16_ge_one(k - 1);
    }
}

/// A hex digit string of length `n` names a value below sixteen to the `n`.
proof fn lemma_hexnum_bound(s: Seq<char>)
    requires
        all_hex(s),
    ensures
        0 <= hexnum(s) < p16(s.len() as int),
    decreases s.len(),
{
    if s.len() > 0 {
        assert(all_hex(s.drop_last()));
        lemma_hexnum_bound(s.drop_last());
    }
}

/// Fixed-width hex digits are unique: a hex digit string is what
/// `hex_seq` writes for its value at its width.
proof fn lemma_hex_seq_unique(ds: Seq<char>)
    requires
        all_hex(ds),
    ensures
        crate::ids::hex_seq(hexnum(ds), ds.len() as nat) == ds,
    decreases ds.len(),
{
    if ds.len() == 0 {
        assert(crate::ids::hex_seq(0, 0) =~= ds);
    } else {
        assert(all_hex(ds.drop_last()));
        lemma_hex_seq_unique(ds.drop_last());
        let v = hexnum(ds);
        let hi = hexnum(ds.drop_last());
        let lo = hex_val(ds.last());
        assert(0 <= lo < 16);
        lemma_hexnum_bound(ds.drop_last());
        lemma_p16_ge_one(ds.len() - 1);
        vstd::arithmetic::div_mod::lemma_fundamental_div_mod_converse(v, 16, hi, lo);
        assert(hex_digit(lo) == ds.last());
        assert(crate::ids::hex_seq(v, ds.len() as nat) =~= ds);
    }
}

/// The fixed-width hex digits of a value are hex characters and name the
/// value back.
proof fn lemma_hex_seq_shape(v: int, w: nat)
    requires
        0 <= v,
    ensures
        crate::ids::hex_seq(v, w).len() == w,
        forall|k: int| 0 <= k < w ==> is_hex(crate::ids::hex_seq(v, w)[k]),
        v < p16(w as int) ==> hexnum(crate::ids::hex_seq(v, w)) == v,
    decreases w,
{
    if w > 0 {
        lemma_hex_seq_shape(v / 16, (w - 1) as nat);
        let h = crate::ids::hex_seq(v, w);
        assert(h.drop_last() =~= crate::ids::hex_seq(v / 16, (w - 1) as nat));
        assert(h.last() == hex_digit(v % 16));
        assert forall|k: int| 0 <= k < w implies is_hex(h[k]) by {
            if k < w - 1 {
                assert(h[k] == crate::ids::hex_seq(v / 16, (w - 1) as nat)[k]);
            } else {
                assert(h[k] == hex_digit(v % 16));
            }
        }
        if v < p16(w as int) {
            assert(p16(w as int) == 16 * p16(w as int - 1));
            vstd::arithmetic::div_mod::lemma_fundamental_div_mod(v, 16);
            assert(v / 16 < p16(w as int - 1));
            assert(hex_val(hex_digit(v % 16)) == v % 16);
            assert(hexnum(h) == hexnum(h.drop_last()) * 16 + hex_val(h.last()));
        }
    }
}

/// Parse exactly `w` lower-case hex digits starting at `i`.
#[verifier::rlimit(100)]
#[verifier::spinoff_prover]
fn parse_hex_fixed(s: &str, i: usize, w: usize) -> (r: Option<(u64, usize)>)
    requires
        w <= 12,
    ensures
        r matches Some(p) ==> i + w == p.1 && p.1 <= s@.len() && s@.subrange(
            i as int,
            p.1 as int,
        ) == crate::ids::hex_seq(p.0 as int, w as nat) && (p.0 as int) < p16(w as int),
        forall|x: u64| ((x as int) < p16(w as int) && i + w <= s@.len() && s@.subrange(
            i as int,
            i + w,
        ) == crate::ids::hex_seq(x as int, w as nat)) ==> (r matches Some(p) && p.0 == x),
{
    let n = s.unicode_len();
    if i > n || w > n - i {
        return None;
    }
    let mut acc: u64 = 0;
    let mut k: usize = 0;
    proof {
        assert(s@.subrange(i as int, i as int) =~= Seq::<char>::empty());
        assert(p16(0) == 1);
    }
    while k < w
        invariant
            n == s@.len(),
            i + w <= n,
            k <= w,
            w <= 12,
            all_hex(s@.subrange(i as int, i + k)),
            acc as int == hexnum(s@.subrange(i as int, i + k)),
            (acc as int) < p16(k as int),
        decreases w - k,
    {
        let c = s.get_char(i + k);
        let cv = c as u32;
        let d: u64;
        if cv >= 48 && cv <= 57 {
            d = (cv - 48) as u64;
        } else if cv >= 97 && cv <= 102 {
            d = (cv - 97 + 10) as u64;
        } else {
            proof {
                assert forall|x: u64|
                    !((x as int) < p16(w as int) && i + w <= s@.len() && s@.subrange(
                        i as int,
                        i + w,
                    ) == crate::ids::hex_seq(x as int, w as nat)) by {
                    if (x as int) < p16(w as int) && i + w <= s@.len() && s@.subrange(
                        i as int,
                        i + w,
                    ) == crate::ids::hex_seq(x as int, w as nat) {
                        lemma_hex_seq_shape(x as int, w as nat);
                        assert(s@.subrange(i as int, i + w)[k as int] == s@[i + k]);
                        assert(is_hex(s@[i + k]));
                    }
                }
            }
            return None;
        }
        proof {
            assert(p16(12) == 281474976710656) by {
                reveal_with_fuel(p16, 14);
            }
            lemma_p16_le(k as int, 12);
        }
        acc = acc * 16 + d;
        proof {
            assert(s@.subrange(i as int, i + k + 1).drop_last() =~= s@.subrange(
                i as int,
                i + k,
            ));
            assert(s@.subrange(i as int, i + k + 1).last() == s@[i + k]);
            assert(d as int == hex_val(s@[i + k]));
        }
        k = k + 1;
    }
    proof {
        lemma_hex_seq_unique(s@.subrange(i as int, i + w));
        assert forall|x: u64|
            ((x as int) < p16(w as int) && i + w <= s@.len() && s@.subrange(i as int, i + w)
                == crate::ids::hex_seq(x as int, w as nat)) implies acc == x by {
            lemma_hex_seq_shape(x as int, w as nat);
        }
    }
    Some((acc, i + w))
}

proof fn lemma_p16_le(a: int, b: int)
    requires
        a <= b,
    ensures
        p16(a) <= p16(b),
    decreases b,
{
    lemma_p16_ge_one(a);
    if a < b && b > 0 {
        lemma_p16_le(a, b - 1);
        lemma_p16_ge_one(b - 1);
    }
}

/// Parse a quoted hyphenated identifier starting at `i`. On success the
/// consumed range is exactly the canonical rendering of the identifier.
/// Whether the text at `i` is exactly the quoted identifier of `x`.
pub open spec fn id_at(s: Seq<char>, i: int, x: u128) -> bool {
    &&& 0 <= i
    &&& i + 38 <= s.len()
    &&& s.subrange(i, i + 38) == id_enc(x)
}

/// A value is the sum of its five rendered groups.
proof fn lemma_id_recompose(x: u128)
    ensures
        x as int == (x as int / 0x1_0000_0000_0000_0000_0000_0000) * 0x1_0000_0000_0000_0000_0000_0000
            + (x as int / 0x1_0000_0000_0000_0000_0000 % 0x1_0000) * 0x1_0000_0000_0000_0000_0000
            + (x as int / 0x1_0000_0000_0000_0000 % 0x1_0000) * 0x1_0000_0000_0000_0000 + (
        x as int / 0x1_0000_0000_0000 % 0x1_0000) * 0x1_0000_0000_0000 + x as int
            % 0x1_0000_0000_0000,
{
    let xv = x as int;
    vstd::arithmetic::div_mod::lemma_fundamental_div_mod(xv, 0x1_0000_0000_0000);
    let q1 = xv / 0x1_0000_0000_0000;
    let e = xv % 0x1_0000_0000_0000;
    vstd::arithmetic::div_mod::lemma_fundamental_div_mod(q1, 0x1_0000);
    let q2 = q1 / 0x1_0000;
    let d = q1 % 0x1_0000;
    vstd::arithmetic::div_mod::lemma_fundamental_div_mod_converse(
        xv,
        0x1_0000_0000_0000_0000,
        q2,
        d * 0x1_0000_0000_0000 + e,
    );
    vstd::arithmetic::div_mod::lemma_fundamental_div_mod(q2, 0x1_0000);
    let q3 = q2 / 0x1_0000;
    let c = q2 % 0x1_0000;
    vstd::arithmetic::div_mod::lemma_fundamental_div_mod_converse(
        xv,
        0x1_0000_0000_0000_0000_0000,
        q3,
        c * 0x1_0000_0000_0000_0000 + d * 0x1_0000_0000_0000 + e,
    );
    vstd::arithmetic::div_mod::lemma_fundamental_div_mod(q3, 0x1_0000);
    let q4 = q3 / 0x1_0000;
    let b = q3 % 0x1_0000;
    vstd::arithmetic::div_mod::lemma_fundamental_div_mod_converse(
        xv,
        0x1_0000_0000_0000_0000_0000_0000,
        q4,
        b * 0x1_0000_0000_0000_0000_0000 + c * 0x1_0000_0000_0000_0000 + d * 0x1_0000_0000_0000
            + e,
    );
    vstd::arithmetic::div_mod::lemma_fundamental_div_mod_converse(
        q2,
        0x1_0000,
        q3,
        c,
    );
    vstd::arithmetic::div_mod::lemma_fundamental_div_mod_converse(
        q1,
        0x1_0000,
        q2,
        d,
    );
}

/// Where the groups of a quoted identifier sit inside the text.
proof fn lemma_id_pieces(s: Seq<char>, i: int, x: u128)
    requires
        id_at(s, i, x),
    ensures
        crate::ids::id_text(x).len() == 36,
        s[i] == '"',
        s[i + 37] == '"',
        s.subrange(i + 1, i + 9) == crate::ids::hex_seq(
            x as int / 0x1_0000_0000_0000_0000_0000_0000,
            8,
        ),
        (x as int / 0x1_0000_0000_0000_0000_0000_0000) < p16(8),
        s[i + 9] == '-',
        s.subrange(i + 10, i + 14) == crate::ids::hex_seq(
            x as int / 0x1_0000_0000_0000_0000_0000 % 0x1_0000,
            4,
        ),
        (x as int / 0x1_0000_0000_0000_0000_0000 % 0x1_0000) < p16(4),
        s[i + 14] == '-',
        s.subrange(i + 15, i + 19) == crate::ids::hex_seq(
            x as int / 0x1_0000_0000_0000_0000 % 0x1_0000,
            4,
        ),
        (x as int / 0x1_0000_0000_0000_0000 % 0x1_0000) < p16(4),
        s[i + 19] == '-',
        s.subrange(i + 20, i + 24) == crate::ids::hex_seq(
            x as int / 0x1_0000_0000_0000 % 0x1_0000,
            4,
        ),
        (x as int / 0x1_0000_0000_0000 % 0x1_0000) < p16(4),
        s[i + 24] == '-',
        s.subrange(i + 25, i + 37) == crate::ids::hex_seq(x as int % 0x1_0000_0000_0000, 12),
        (x as int % 0x1_0000_0000_0000) < p16(12),
{
    let xv = x as int;
    let a = xv / 0x1_0000_0000_0000_0000_0000_0000;
    let b = xv / 0x1_0000_0000_0000_0000_0000 % 0x1_0000;
    let c = xv / 0x1_0000_0000_0000_0000 % 0x1_0000;
    let d = xv / 0x1_0000_0000_0000 % 0x1_0000;
    let e = xv % 0x1_0000_0000_0000;
    lemma_hex_seq_shape(a, 8);
    lemma_hex_seq_shape(b, 4);
    lemma_hex_seq_shape(c, 4);
    lemma_hex_seq_shape(d, 4);
    lemma_hex_seq_shape(e, 12);
    assert(p16(4) == 0x1_0000 && p16(8) == 0x1_0000_0000 && p16(12) == 0x1_0000_0000_0000) by {
        reveal_with_fuel(p16, 14);
    }
    vstd::arithmetic::div_mod::lemma_fundamental_div_mod(
        xv / 0x1_0000_0000_0000_0000_0000,
        0x1_0000,
    );
    vstd::arithmetic::div_mod::lemma_fundamental_div_mod(
        xv / 0x1_0000_0000_0000_0000,
        0x1_0000,
    );
    vstd::arithmetic::div_mod::lemma_fundamental_div_mod(xv / 0x1_0000_0000_0000, 0x1_0000);
    vstd::arithmetic::div_mod::lemma_fundamental_div_mod(xv, 0x1_0000_0000_0000);
    vstd::arithmetic::div_mod::lemma_fundamental_div_mod(
        xv,
        0x1_0000_0000_0000_0000_0000_0000,
    );
    assert(a < 0x1_0000_0000);
    assert(crate::ids::id_text(x).len() == 36);
    assert forall|m: int| 0 <= m < 38 implies s[i + m] == id_enc(x)[m] by {
        assert(s.subrange(i, i + 38)[m] == s[i + m]);
    }
    assert(s[i + 0] == id_enc(x)[0]);
    assert(s[i + 9] == id_enc(x)[9]);
    assert(s[i + 14] == id_enc(x)[14]);
    assert(s[i + 19] == id_enc(x)[19]);
    assert(s[i + 24] == id_enc(x)[24]);
    assert(s[i + 37] == id_enc(x)[37]);
    assert forall|k: int| 0 <= k < 8 implies s.subrange(i + 1, i + 9)[k]
        == crate::ids::hex_seq(a, 8)[k] by {
        assert(s.subrange(i + 1, i + 9)[k] == s[i + (1 + k)]);
        assert(id_enc(x)[1 + k] == crate::ids::id_text(x)[k]);
        assert(crate::ids::id_text(x)[k] == crate::ids::hex_seq(a, 8)[k]);
    }
    assert(s.subrange(i + 1, i + 9) =~= crate::ids::hex_seq(a, 8));
    assert(id_enc(x)[9] == crate::ids::id_text(x)[8]);
    assert forall|k: int| 0 <= k < 4 implies s.subrange(i + 10, i + 14)[k]
        == crate::ids::hex_seq(b, 4)[k] by {
        assert(s.subrange(i + 10, i + 14)[k] == s[i + (10 + k)]);
        assert(id_enc(x)[10 + k] == crate::ids::id_text(x)[9 + k]);
        assert(crate::ids::id_text(x)[9 + k] == crate::ids::hex_seq(b, 4)[k]);
    }
    assert(s.subrange(i + 10, i + 14) =~= crate::ids::hex_seq(b, 4));
    assert(id_enc(x)[14] == crate::ids::id_text(x)[13]);
    assert forall|k: int| 0 <= k < 4 implies s.subrange(i + 15, i + 19)[k]
        == crate::ids::hex_seq(c, 4)[k] by {
        assert(s.subrange(i + 15, i + 19)[k] == s[i + (15 + k)]);
        assert(id_enc(x)[15 + k] == crate::ids::id_text(x)[14 + k]);
        assert(crate::ids::id_text(x)[14 + k] == crate::ids::hex_seq(c, 4)[k]);
    }
    assert(s.subrange(i + 15, i + 19) =~= crate::ids::hex_seq(c, 4));
    assert(id_enc(x)[19] == crate::ids::id_text(x)[18]);
    assert forall|k: int| 0 <= k < 4 implies s.subrange(i + 20, i + 24)[k]
        == crate::ids::hex_seq(d, 4)[k] by {
        assert(s.subrange(i + 20, i + 24)[k] == s[i + (20 + k)]);
        assert(id_enc(x)[20 + k] == crate::ids::id_text(x)[19 + k]);
        assert(crate::ids::id_text(x)[19 + k] == crate::ids::hex_seq(d, 4)[k]);
    }
    assert(s.subrange(i + 20, i + 24) =~= crate::ids::hex_seq(d, 4));
    assert(id_enc(x)[24] == crate::ids::id_text(x)[23]);
    assert forall|k: int| 0 <= k < 12 implies s.subrange(i + 25, i + 37)[k]
        == crate::ids::hex_seq(e, 12)[k] by {
        assert(s.subrange(i + 25, i + 37)[k] == s[i + (25 + k)]);
        assert(id_enc(x)[25 + k] == crate::ids::id_text(x)[24 + k]);
        assert(crate::ids::id_text(x)[24 + k] == crate::ids::hex_seq(e, 12)[k]);
    }
    assert(s.subrange(i + 25, i + 37) =~= crate::ids::hex_seq(e, 12));
    assert(id_enc(x)[37] == '"');
}

#[verifier::rlimit(100)]
#[verifier::spinoff_prover]
fn parse_id_at(s: &str, i: usize) -> (r: Option<(u128, usize)>)
    ensures
        r matches Some(p) ==> i < p.1 <= s@.len() && s@.subrange(i as int, p.1 as int) == seq![
            '"',
        ] + crate::ids::id_text(p.0) + seq!['"'],
        forall|x: u128| id_at(s@, i as int, x) ==> (r matches Some(p) && p.0 == x && p.1 as int
            == i + 38),
{
    let n = s.unicode_len();
    if i >= n || s.get_char(i) != '"' {
        proof {
            assert forall|x: u128| !id_at(s@, i as int, x) by {
                if id_at(s@, i as int, x) {
                    lemma_id_pieces(s@, i as int, x);
                }
            }
        }
        return None;
    }
    let (g1, i1) = match parse_hex_fixed(s, i + 1, 8) {
        Some(p) => p,
        None => {
            proof {
                assert forall|x: u128| !id_at(s@, i as int, x) by {
                    if id_at(s@, i as int, x) {
                        lemma_id_pieces(s@, i as int, x);
                    }
                }
            }
            return None;
        },
    };
    if i1 >= n || s.get_char(i1) != '-' {
        proof {
            assert forall|x: u128| !id_at(s@, i as int, x) by {
                if id_at(s@, i as int, x) {
                    lemma_id_pieces(s@, i as int, x);
                }
            }
        }
        return None;
    }
    let (g2, i2) = match parse_hex_fixed(s, i1 + 1, 4) {
        Some(p) => p,
        None => {
            proof {
                assert forall|x: u128| !id_at(s@, i as int, x) by {
                    if id_at(s@, i as int, x) {
                        lemma_id_pieces(s@, i as int, x);
                    }
                }
            }
            return None;
        },
    };
    if i2 >= n || s.get_char(i2) != '-' {
        proof {
            assert forall|x: u128| !id_at(s@, i as int, x) by {
                if id_at(s@, i as int, x) {
                    lemma_id_pieces(s@, i as int, x);
                }
            }
        }
        return None;
    }
    let (g3, i3) = match parse_hex_fixed(s, i2 + 1, 4) {
        Some(p) => p,
        None => {
            proof {
                assert forall|x: u128| !id_at(s@, i as int, x) by {
                    if id_at(s@, i as int, x) {
                        lemma_id_pieces(s@, i as int, x);
                    }
                }
            }
            return None;
        },
    };
    if i3 >= n || s.get_char(i3) != '-' {
        proof {
            assert forall|x: u128| !id_at(s@, i as int, x) by {
                if id_at(s@, i as int, x) {
                    lemma_id_pieces(s@, i as int, x);
                }
            }
        }
        return None;
    }
    let (g4, i4) = match parse_hex_fixed(s, i3 + 1, 4) {
        Some(p) => p,
        None => {
            proof {
                assert forall|x: u128| !id_at(s@, i as int, x) by {
                    if id_at(s@, i as int, x) {
                        lemma_id_pieces(s@, i as int, x);
                    }
                }
            }
            return None;
        },
    };
    if i4 >= n || s.get_char(i4) != '-' {
        proof {
            assert forall|x: u128| !id_at(s@, i as int, x) by {
                if id_at(s@, i as int, x) {
                    lemma_id_pieces(s@, i as int, x);
                }
            }
        }
        return None;
    }
    let (g5, i5) = match parse_hex_fixed(s, i4 + 1, 12) {
        Some(p) => p,
        None => {
            proof {
                assert forall|x: u128| !id_at(s@, i as int, x) by {
                    if id_at(s@, i as int, x) {
                        lemma_id_pieces(s@, i as int, x);
                    }
                }
            }
            return None;
        },
    };
    if i5 >= n || s.get_char(i5) != '"' {
        proof {
            assert forall|x: u128| !id_at(s@, i as int, x) by {
                if id_at(s@, i as int, x) {
                    lemma_id_pieces(s@, i as int, x);
                }
            }
        }
        return None;
    }
    proof {
        assert(p16(4) == 0x1_0000 && p16(8) == 0x1_0000_0000 && p16(12)
            == 0x1_0000_0000_0000) by {
            reveal_with_fuel(p16, 14);
        }
    }
    let id: u128 = (g1 as u128) * 0x1_0000_0000_0000_0000_0000_0000 + (g2 as u128)
        * 0x1_0000_0000_0000_0000_0000 + (g3 as u128) * 0x1_0000_0000_0000_0000 + (g4 as u128)
        * 0x1_0000_0000_0000 + (g5 as u128);
    proof {
        let a = g1 as int;
        let b = g2 as int;
        let c = g3 as int;
        let d = g4 as int;
        let e = g5 as int;
        let v = id as int;
        vstd::arithmetic::div_mod::lemma_fundamental_div_mod_converse(
            v,
            0x1_0000_0000_0000_0000_0000_0000,
            a,
            b * 0x1_0000_0000_0000_0000_0000 + c * 0x1_0000_0000_0000_0000 + d
                * 0x1_0000_0000_0000 + e,
        );
        vstd::arithmetic::div_mod::lemma_fundamental_div_mod_converse(
            v,
            0x1_0000_0000_0000_0000_0000,
            a * 0x1_0000 + b,
            c * 0x1_0000_0000_0000_0000 + d * 0x1_0000_0000_0000 + e,
        );
        vstd::arithmetic::div_mod::lemma_fundamental_div_mod_converse(
            a * 0x1_0000 + b,
            0x1_0000,
            a,
            b,
        );
        vstd::arithmetic::div_mod::lemma_fundamental_div_mod_converse(
            v,
            0x1_0000_0000_0000_0000,
            a * 0x1_0000_0000 + b * 0x1_0000 + c,
            d * 0x1_0000_0000_0000 + e,
        );
        vstd::arithmetic::div_mod::lemma_fundamental_div_mod_converse(
            a * 0x1_0000_0000 + b * 0x1_0000 + c,
            0x1_0000,
            a * 0x1_0000 + b,
            c,
        );
        vstd::arithmetic::div_mod::lemma_fundamental_div_mod_converse(
            v,
            0x1_0000_0000_0000,
            a * 0x1_0000_0000_0000 + b * 0x1_0000_0000 + c * 0x1_0000 + d,
            e,
        );
        vstd::arithmetic::div_mod::lemma_fundamental_div_mod_converse(
            a * 0x1_0000_0000_0000 + b * 0x1_0000_0000 + c * 0x1_0000 + d,
            0x1_0000,
            a * 0x1_0000_0000 + b * 0x1_0000 + c,
            d,
        );
        assert(v / 0x1_0000_0000_0000_0000_0000_0000 == a);
        assert(v / 0x1_0000_0000_0000_0000_0000 % 0x1_0000 == b);
        assert(v / 0x1_0000_0000_0000_0000 % 0x1_0000 == c);
        assert(v / 0x1_0000_0000_0000 % 0x1_0000 == d);
        assert(v % 0x1_0000_0000_0000 == e);
        assert(s@.subrange(i as int, i5 + 1) =~= seq!['"'] + crate::ids::id_text(id) + seq![
            '"',
        ]);
        assert forall|x: u128| id_at(s@, i as int, x) implies id == x by {
            lemma_id_pieces(s@, i as int, x);
            lemma_id_recompose(x);
        }
    }
    Some((id, i5 + 1))
}

/// A quoted rendering of an identifier.
pub open spec fn id_enc(id: u128) -> Seq<char> {
    seq!['"'] + crate::ids::id_text(id) + seq!['"']
}

/// A quoted name.
pub open spec fn name_enc(nm: Seq<char>) -> Seq<char> {
    seq!['"'] + nm + seq!['"']
}

/// A string array, comma-separated inside brackets.
pub open spec fn strs_items(ts: Seq<Seq<char>>) -> Seq<char>
    decreases ts.len(),
{
    if ts.len() == 0 {
        Seq::empty()
    } else if ts.len() == 1 {
        str_enc(ts[0])
    } else {
        strs_items(ts.drop_last()) + ", "@ + str_enc(ts.last())
    }
}

pub open spec fn strs_arr(ts: Seq<Seq<char>>) -> Seq<char> {
    seq!['['] + strs_items(ts) + seq![']']
}

/// An identifier array, comma-separated inside brackets.
pub open spec fn ids_items(ids: Seq<u128>) -> Seq<char>
    decreases ids.len(),
{
    if ids.len() == 0 {
        Seq::empty()
    } else if ids.len() == 1 {
        id_enc(ids[0])
    } else {
        ids_items(ids.drop_last()) + ", "@ + id_enc(ids.last())
    }
}

pub open spec fn ids_arr(ids: Seq<u128>) -> Seq<char> {
    seq!['['] + ids_items(ids) + seq![']']
}

/// An optional number: `null` or its digits.
pub open spec fn opt_int_enc(o: Option<int>) -> Seq<char> {
    match o {
        Some(v) => int_enc(v),
        None => "null"@,
    }
}

/// An optional identifier: `null` or its quoted rendering.
pub open spec fn opt_id_enc(o: Option<u128>) -> Seq<char> {
    match o {
        Some(v) => id_enc(v),
        None => "null"@,
    }
}

pub open spec fn view_of_opt(o: Option<String>) -> Option<Seq<char>> {
    match o {
        Some(v) => Some(v@),
        None => None,
    }
}

pub open spec fn views_of(v: Seq<String>) -> Seq<Seq<char>> {
    v.map_values(|t: String| t@)
}

/// The canonical line for one tag.
pub open spec fn tag_rec(t: crate::tag::Tag) -> Seq<char> {
    "  {\"name\": "@ + str_enc(t.name@) + ", \"color\": "@ + opt_enc(view_of_opt(t.color))
        + "}"@
}

/// The canonical line for one idea.
pub open spec fn idea_rec(i: crate::idea::Idea) -> Seq<char> {
    "  {\"id\": "@ + id_enc(i.id) + ", \"title\": "@ + str_enc(i.title@)
        + ", \"description\": "@ + opt_enc(view_of_opt(i.description)) + ", \"tags\": "@
        + strs_arr(views_of(i.tags@)) + ", \"status\": "@ + name_enc(i.status.spec_name())
        + ", \"created_at\": "@ + int_enc(i.created_at as int) + ", \"updated_at\": "@ + int_enc(
        i.updated_at as int,
    ) + "}"@
}

/// The first half of a project's canonical line: identity and texts.
pub open spec fn project_rec_head(p: crate::project::Project) -> Seq<char> {
    "  {\"id\": "@ + id_enc(p.id) + ", \"title\": "@ + str_enc(p.title@)
        + ", \"description\": "@ + opt_enc(view_of_opt(p.description)) + ", \"milestone\": "@
        + opt_enc(view_of_opt(p.milestone)) + ", \"url\": "@ + opt_enc(view_of_opt(p.url))
        + ", \"repo\": "@ + opt_enc(view_of_opt(p.repo))
}

/// The second half of a project's canonical line: status, links, stamps.
pub open spec fn project_rec_tail(p: crate::project::Project) -> Seq<char> {
    ", \"status\": "@ + name_enc(p.status.spec_name()) + ", \"idea_ids\": "@ + ids_arr(
        p.idea_ids@,
    ) + ", \"created_at\": "@ + int_enc(p.created_at as int) + ", \"updated_at\": "@
        + int_enc(p.updated_at as int) + "}"@
}

/// The canonical line for one project.
pub open spec fn project_rec(p: crate::project::Project) -> Seq<char> {
    project_rec_head(p) + project_rec_tail(p)
}

/// The first half of a task's canonical line: identity, texts and state.
pub open spec fn task_rec_head(t: crate::task::Task) -> Seq<char> {
    "  {\"id\": "@ + id_enc(t.id) + ", \"title\": "@ + str_enc(t.title@)
        + ", \"description\": "@ + opt_enc(view_of_opt(t.description)) + ", \"status\": "@
        + name_enc(t.status.spec_name()) + ", \"priority\": "@ + name_enc(
        t.priority.spec_name(),
    )
}

/// The second half of a task's canonical line: schedule, links, stamps.
pub open spec fn task_rec_tail(t: crate::task::Task) -> Seq<char> {
    ", \"due_date\": "@ + opt_int_enc(
        match t.due_date {
            Some(d) => Some(d as int),
            None => None,
        },
    ) + ", \"project_id\": "@ + opt_id_enc(t.project_id) + ", \"idea_id\": "@ + opt_id_enc(
        t.idea_id,
    ) + ", \"tags\": "@ + strs_arr(views_of(t.tags@)) + ", \"created_at\": "@ + int_enc(
        t.created_at as int,
    ) + ", \"updated_at\": "@ + int_enc(t.updated_at as int) + "}"@
}

/// The canonical line for one task.
pub open spec fn task_rec(t: crate::task::Task) -> Seq<char> {
    task_rec_head(t) + task_rec_tail(t)
}

/// The record lines of a tag collection, comma-separated.
pub open spec fn tag_lines(s: Seq<crate::tag::Tag>) -> Seq<char>
    decreases s.len(),
{
    if s.len() == 0 {
        Seq::empty()
    } else if s.len() == 1 {
        tag_rec(s[0])
    } else {
        tag_lines(s.drop_last()) + ",\n"@ + tag_rec(s.last())
    }
}

/// The whole saved document for a tag collection.
pub open spec fn tags_doc(s: Seq<crate::tag::Tag>) -> Seq<char> {
    if s.len() == 0 {
        "[]"@
    } else {
        "[\n"@ + tag_lines(s) + "\n]"@
    }
}

fn push_opt_quoted(out: &mut String, o: &Option<String>)
    ensures
        final(out)@ == old(out)@ + opt_enc(view_of_opt(*o)),
{
    match o {
        Some(v) => push_quoted(out, v.as_str()),
        None => out.append("null"),
    }
}

fn push_tag_rec(out: &mut String, t: &crate::tag::Tag)
    ensures
        final(out)@ == old(out)@ + tag_rec(*t),
{
    out.append("  {\"name\": ");
    push_quoted(out, t.name.as_str());
    out.append(", \"color\": ");
    push_opt_quoted(out, &t.color);
    out.append("}");
    proof {
        assert(out@ =~= old(out)@ + tag_rec(*t));
    }
}

/// Encode a tag collection as its canonical document.
pub fn encode_tags(tags: &Vec<crate::tag::Tag>) -> (r: String)
    ensures
        r@ == tags_doc(tags@),
{
    let n = tags.len();
    if n == 0 {
        return String::from_str("[]");
    }
    let mut out = String::from_str("[\n");
    push_tag_rec(&mut out, &tags[0]);
    let mut i: usize = 1;
    proof {
        assert(tags@.take(1) =~= seq![tags@[0]]);
        assert(out@ =~= "[\n"@ + tag_lines(tags@.take(1)));
    }
    while i < n
        invariant
            n == tags@.len(),
            1 <= i <= n,
            out@ == "[\n"@ + tag_lines(tags@.take(i as int)),
        decreases n - i,
    {
        out.append(",\n");
        push_tag_rec(&mut out, &tags[i]);
        proof {
            assert(tags@.take(i + 1).drop_last() =~= tags@.take(i as int));
            assert(tags@.take(i + 1).last() == tags@[i as int]);
            assert(out@ =~= "[\n"@ + tag_lines(tags@.take(i + 1)));
        }
        i = i + 1;
    }
    out.append("\n]");
    proof {
        assert(tags@.take(n as int) =~= tags@);
        assert(out@ =~= tags_doc(tags@));
    }
    out
}

/// Whether the text at `i` is exactly the optional-string encoding of `o`.
pub open spec fn opt_str_at(s: Seq<char>, i: int, o: Option<Seq<char>>) -> bool {
    match o {
        Some(v) => str_at(s, i, v),
        None => 0 <= i && i + 4 <= s.len() && s.subrange(i, i + 4) == "null"@,
    }
}

fn parse_opt_string_at(s: &str, i: usize) -> (r: Option<(Option<String>, usize)>)
    ensures
        r matches Some(p) ==> i < p.1 <= s@.len() && s@.subrange(i as int, p.1 as int) == opt_enc(
            view_of_opt(p.0),
        ),
        forall|o: Option<Seq<char>>| opt_str_at(s@, i as int, o) ==> (r matches Some(p)
            && view_of_opt(p.0) == o && p.1 as int == i + opt_enc(o).len()),
{
    proof {
        reveal_strlit("null");
    }
    match expect_lit(s, i, "null") {
        Some(j) => {
            proof {
                assert forall|o: Option<Seq<char>>|
                    opt_str_at(s@, i as int, o) implies o is None by {
                    match o {
                        Some(v) => {
                            assert(str_enc(v)[0] == '"');
                            assert(s@.subrange(i as int, i + str_enc(v).len() as int)[0] == s@[
                                i as int]);
                            assert(s@.subrange(i as int, i + 4)[0] == s@[i as int]);
                            assert(false);
                        },
                        None => {},
                    }
                }
            }
            Some((None, j))
        },
        None => {
            proof {
                assert forall|o: Option<Seq<char>>|
                    opt_str_at(s@, i as int, o) implies o is Some by {
                    if o is None {
                        assert(crate::text::is_at(s@, "null"@, i as int));
                        assert(false);
                    }
                }
            }
            match parse_string_at(s, i) {
                Some((v, j)) => Some((Some(v), j)),
                None => None,
            }
        },
    }
}

/// Whether the text at `i` is exactly the canonical line of `t`.
pub open spec fn tag_rec_at(s: Seq<char>, i: int, t: crate::tag::Tag) -> bool {
    &&& 0 <= i
    &&& i + tag_rec(t).len() <= s.len()
    &&& s.subrange(i, i + tag_rec(t).len() as int) == tag_rec(t)
}

/// Whether two tags agree on every observable field.
pub open spec fn same_tag(a: crate::tag::Tag, b: crate::tag::Tag) -> bool {
    a.name@ == b.name@ && view_of_opt(a.color) == view_of_opt(b.color)
}

/// Element-wise field agreement of two tag collections.
pub open spec fn same_tags(a: Seq<crate::tag::Tag>, b: Seq<crate::tag::Tag>) -> bool {
    a.len() == b.len() && forall|k: int| 0 <= k < a.len() ==> same_tag(a[k], b[k])
}

/// Where the pieces of a canonical tag line sit inside the text.
proof fn lemma_tag_rec_pieces(s: Seq<char>, i: int, t: crate::tag::Tag)
    requires
        tag_rec_at(s, i, t),
    ensures
        crate::text::is_at(s, "  {\"name\": "@, i),
        str_at(s, i + 11, t.name@),
        crate::text::is_at(s, ", \"color\": "@, i + 11 + str_enc(t.name@).len()),
        opt_str_at(s, i + 22 + str_enc(t.name@).len(), view_of_opt(t.color)),
        crate::text::is_at(
            s,
            "}"@,
            i + 22 + str_enc(t.name@).len() + opt_enc(view_of_opt(t.color)).len(),
        ),
        tag_rec(t).len() == 23 + str_enc(t.name@).len() + opt_enc(view_of_opt(t.color)).len(),
{
    reveal_strlit("  {\"name\": ");
    reveal_strlit(", \"color\": ");
    reveal_strlit("}");
    reveal_strlit("null");
    let sn = str_enc(t.name@).len() as int;
    let co = opt_enc(view_of_opt(t.color)).len() as int;
    assert forall|m: int| 0 <= m < tag_rec(t).len() implies s[i + m] == tag_rec(t)[m] by {
        assert(s.subrange(i, i + tag_rec(t).len() as int)[m] == s[i + m]);
    }
    assert forall|k: int| 0 <= k < 11 implies s.subrange(i, i + 11)[k] == "  {\"name\": "@[k] by {
        assert(s.subrange(i, i + 11)[k] == s[i + k]);
        assert(s[i + k] == tag_rec(t)[k]);
        assert(tag_rec(t)[k] == "  {\"name\": "@[k]);
    }
    assert(s.subrange(i, i + 11) =~= "  {\"name\": "@);
    assert forall|k: int| 0 <= k < sn implies s.subrange(i + 11, i + 11 + sn)[k] == str_enc(
        t.name@,
    )[k] by {
        assert(s.subrange(i + 11, i + 11 + sn)[k] == s[i + (11 + k)]);
        assert(s[i + (11 + k)] == tag_rec(t)[11 + k]);
        assert(tag_rec(t)[11 + k] == str_enc(t.name@)[k]);
    }
    assert(s.subrange(i + 11, i + 11 + sn) =~= str_enc(t.name@));
    assert forall|k: int| 0 <= k < 11 implies s.subrange(i + 11 + sn, i + 22 + sn)[k]
        == ", \"color\": "@[k] by {
        assert(s.subrange(i + 11 + sn, i + 22 + sn)[k] == s[i + (11 + sn + k)]);
        assert(s[i + (11 + sn + k)] == tag_rec(t)[11 + sn + k]);
        assert(tag_rec(t)[11 + sn + k] == ", \"color\": "@[k]);
    }
    assert(s.subrange(i + 11 + sn, i + 22 + sn) =~= ", \"color\": "@);
    assert forall|k: int| 0 <= k < co implies s.subrange(i + 22 + sn, i + 22 + sn + co)[k]
        == opt_enc(view_of_opt(t.color))[k] by {
        assert(s.subrange(i + 22 + sn, i + 22 + sn + co)[k] == s[i + (22 + sn + k)]);
        assert(s[i + (22 + sn + k)] == tag_rec(t)[22 + sn + k]);
        assert(tag_rec(t)[22 + sn + k] == opt_enc(view_of_opt(t.color))[k]);
    }
    assert(s.subrange(i + 22 + sn, i + 22 + sn + co) =~= opt_enc(view_of_opt(t.color)));
    assert(s.subrange(i + 22 + sn + co, i + 23 + sn + co)[0] == s[i + (22 + sn + co)]);
    assert(s[i + (22 + sn + co)] == tag_rec(t)[22 + sn + co]);
    assert(tag_rec(t)[22 + sn + co] == "}"@[0]);
    assert(s.subrange(i + 22 + sn + co, i + 23 + sn + co) =~= "}"@);
    match view_of_opt(t.color) {
        Some(c) => {},
        None => {
            assert(s.subrange(i + 22 + sn, i + 22 + sn + 4) =~= "null"@);
        },
    }
}

#[verifier::rlimit(100)]
#[verifier::spinoff_prover]
fn parse_tag_at(s: &str, i: usize) -> (r: Option<(crate::tag::Tag, usize)>)
    ensures
        r matches Some(p) ==> i < p.1 <= s@.len() && s@.subrange(i as int, p.1 as int) == tag_rec(
            p.0,
        ),
        forall|t: crate::tag::Tag| tag_rec_at(s@, i as int, t) ==> (r matches Some(p)
            && same_tag(p.0, t) && p.1 as int == i + tag_rec(t).len()),
{
    let i1 = match expect_lit(s, i, "  {\"name\": ") {
        Some(j) => j,
        None => {
            proof {
                assert forall|t: crate::tag::Tag| !tag_rec_at(s@, i as int, t) by {
                    if tag_rec_at(s@, i as int, t) {
                        lemma_tag_rec_pieces(s@, i as int, t);
                    }
                }
            }
            return None;
        },
    };
    let (name, i2) = match parse_string_at(s, i1) {
        Some(p) => p,
        None => {
            proof {
                assert forall|t: crate::tag::Tag| !tag_rec_at(s@, i as int, t) by {
                    if tag_rec_at(s@, i as int, t) {
                        lemma_tag_rec_pieces(s@, i as int, t);
                        reveal_strlit("  {\"name\": ");
                    }
                }
            }
            return None;
        },
    };
    let i3 = match expect_lit(s, i2, ", \"color\": ") {
        Some(j) => j,
        None => {
            proof {
                assert forall|t: crate::tag::Tag| !tag_rec_at(s@, i as int, t) by {
                    if tag_rec_at(s@, i as int, t) {
                        lemma_tag_rec_pieces(s@, i as int, t);
                        reveal_strlit("  {\"name\": ");
                        assert(name@ == t.name@);
                    }
                }
            }
            return None;
        },
    };
    let (color, i4) = match parse_opt_string_at(s, i3) {
        Some(p) => p,
        None => {
            proof {
                assert forall|t: crate::tag::Tag| !tag_rec_at(s@, i as int, t) by {
                    if tag_rec_at(s@, i as int, t) {
                        lemma_tag_rec_pieces(s@, i as int, t);
                        reveal_strlit("  {\"name\": ");
                        reveal_strlit(", \"color\": ");
                        assert(name@ == t.name@);
                    }
                }
            }
            return None;
        },
    };
    let i5 = match expect_lit(s, i4, "}") {
        Some(j) => j,
        None => {
            proof {
                assert forall|t: crate::tag::Tag| !tag_rec_at(s@, i as int, t) by {
                    if tag_rec_at(s@, i as int, t) {
                        lemma_tag_rec_pieces(s@, i as int, t);
                        reveal_strlit("  {\"name\": ");
                        reveal_strlit(", \"color\": ");
                        assert(name@ == t.name@);
                        assert(view_of_opt(color) == view_of_opt(t.color));
                    }
                }
            }
            return None;
        },
    };
    let t = crate::tag::Tag { name, color };
    proof {
        assert(s@.subrange(i as int, i5 as int) =~= tag_rec(t));
        assert forall|u: crate::tag::Tag|
            tag_rec_at(s@, i as int, u) implies same_tag(t, u) && i5 as int == i + tag_rec(
            u,
        ).len() by {
            lemma_tag_rec_pieces(s@, i as int, u);
            reveal_strlit("  {\"name\": ");
            reveal_strlit(", \"color\": ");
        }
    }
    Some((t, i5))
}

fn parse_error() -> (e: VaultError)
    ensures
        e is Parse,
{
    VaultError::Parse { message: String::from_str("Malformed collection document") }
}

/// The text that follows the first `k` records in a nonempty tag
/// document's line block.
pub open spec fn tag_tail(v: Seq<crate::tag::Tag>, k: int) -> Seq<char>
    decreases v.len() - k,
{
    if k < 1 || k >= v.len() {
        Seq::empty()
    } else {
        ",\n"@ + tag_rec(v[k]) + tag_tail(v, k + 1)
    }
}

/// The line block splits after any positive number of records.
proof fn lemma_tag_split(v: Seq<crate::tag::Tag>, k: int)
    requires
        1 <= k <= v.len(),
    ensures
        tag_lines(v) == tag_lines(v.take(k)) + tag_tail(v, k),
    decreases v.len() - k,
{
    if k == v.len() {
        assert(v.take(k) =~= v);
        assert(tag_lines(v) =~= tag_lines(v.take(k)) + tag_tail(v, k));
    } else {
        lemma_tag_split(v, k + 1);
        assert(v.take(k + 1).drop_last() =~= v.take(k));
        assert(v.take(k + 1).last() == v[k]);
        assert(tag_lines(v.take(k + 1)) == tag_lines(v.take(k)) + ",\n"@ + tag_rec(v[k]));
        assert(tag_lines(v) =~= tag_lines(v.take(k)) + tag_tail(v, k));
    }
}

/// Where the opening frame and the first record of a nonempty canonical
/// tag document sit.
proof fn lemma_tags_doc_first(s: Seq<char>, v: Seq<crate::tag::Tag>)
    requires
        s == tags_doc(v),
        v.len() >= 1,
    ensures
        s.len() == 4 + tag_lines(v).len(),
        crate::text::is_at(s, "[\n"@, 0),
        tag_rec_at(s, 2, v[0]),
        tag_lines(v.take(1)).len() == tag_rec(v[0]).len(),
{
    reveal_strlit("[\n");
    reveal_strlit("\n]");
    assert(v.take(1) =~= seq![v[0]]);
    assert(tag_lines(v.take(1)) == tag_rec(v[0]));
    if v.len() > 1 {
        lemma_tag_split(v, 1);
    } else {
        assert(v.take(1) =~= v);
    }
    let rl = tag_rec(v[0]).len() as int;
    assert(s.subrange(0, 2) =~= "[\n"@);
    assert forall|t: int| 0 <= t < rl implies s.subrange(2, 2 + rl)[t] == tag_rec(v[0])[t] by {
        assert(s.subrange(2, 2 + rl)[t] == s[2 + t]);
        assert(s[2 + t] == tag_lines(v)[t]);
        if v.len() > 1 {
            assert(tag_lines(v)[t] == tag_lines(v.take(1))[t]);
        }
        assert(tag_lines(v.take(1))[t] == tag_rec(v[0])[t]);
    }
    assert(s.subrange(2, 2 + rl) =~= tag_rec(v[0]));
}

/// Where the separator or the closing frame after the first `k` records of
/// a nonempty canonical tag document sits, and the record that follows a
/// separator.
proof fn lemma_tags_doc_pos(s: Seq<char>, v: Seq<crate::tag::Tag>, k: int)
    requires
        s == tags_doc(v),
        1 <= k <= v.len(),
    ensures
        s.len() == 4 + tag_lines(v).len(),
        tag_lines(v.take(k)).len() <= tag_lines(v).len(),
        k < v.len() ==> crate::text::is_at(s, ",\n"@, 2 + tag_lines(v.take(k)).len() as int),
        k < v.len() ==> tag_rec_at(s, 4 + tag_lines(v.take(k)).len() as int, v[k]),
        k < v.len() ==> tag_lines(v.take(k + 1)).len() == tag_lines(v.take(k)).len() + 2
            + tag_rec(v[k]).len(),
        k == v.len() ==> crate::text::is_at(s, "\n]"@, 2 + tag_lines(v.take(k)).len() as int),
        k == v.len() ==> 4 + tag_lines(v.take(k)).len() == s.len(),
    decreases v.len() - k,
{
    reveal_strlit("[\n");
    reveal_strlit("\n]");
    reveal_strlit(",\n");
    lemma_tag_split(v, k);
    let lk = tag_lines(v.take(k)).len() as int;
    if k < v.len() {
        assert(v.take(k + 1).drop_last() =~= v.take(k));
        assert(v.take(k + 1).last() == v[k]);
        assert(tag_lines(v.take(k + 1)) == tag_lines(v.take(k)) + ",\n"@ + tag_rec(v[k]));
        assert(tag_tail(v, k) == ",\n"@ + tag_rec(v[k]) + tag_tail(v, k + 1));
        let rl = tag_rec(v[k]).len() as int;
        assert forall|t: int| 0 <= t < 2 implies s.subrange(2 + lk, 4 + lk)[t] == ",\n"@[t] by {
            assert(s.subrange(2 + lk, 4 + lk)[t] == s[2 + lk + t]);
            assert(s[2 + lk + t] == tag_lines(v)[lk + t]);
            assert(tag_lines(v)[lk + t] == tag_tail(v, k)[t]);
            assert(tag_tail(v, k)[t] == ",\n"@[t]);
        }
        assert(s.subrange(2 + lk, 4 + lk) =~= ",\n"@);
        assert forall|t: int| 0 <= t < rl implies s.subrange(4 + lk, 4 + lk + rl)[t] == tag_rec(
            v[k],
        )[t] by {
            assert(s.subrange(4 + lk, 4 + lk + rl)[t] == s[4 + lk + t]);
            assert(s[4 + lk + t] == tag_lines(v)[lk + 2 + t]);
            assert(tag_lines(v)[lk + 2 + t] == tag_tail(v, k)[2 + t]);
            assert(tag_tail(v, k)[2 + t] == tag_rec(v[k])[t]);
        }
        assert(s.subrange(4 + lk, 4 + lk + rl) =~= tag_rec(v[k]));
    } else {
        assert(v.take(k) =~= v);
        assert(s.subrange(2 + lk, 4 + lk) =~= "\n]"@);
    }
}

/// Decode a tag collection. Whatever decodes successfully is exactly the
/// canonical encoding of the result, and decoding the canonical encoding
/// of any collection always succeeds with that collection's records.
#[verifier::rlimit(100)]
#[verifier::spinoff_prover]
pub fn decode_tags(s: &str) -> (r: Result<Vec<crate::tag::Tag>, VaultError>)
    ensures
        r matches Ok(v) ==> s@ == tags_doc(v@),
        r matches Err(e) ==> e is Parse,
        forall|v: Seq<crate::tag::Tag>| s@ == tags_doc(v) ==> (r matches Ok(w) && same_tags(
            w@,
            v,
        )),
{
    let n = s.unicode_len();
    if crate::text::str_eq(s, "[]") {
        let out: Vec<crate::tag::Tag> = Vec::new();
        proof {
            reveal_strlit("[]");
            reveal_strlit("[\n");
            assert forall|v: Seq<crate::tag::Tag>|
                s@ == tags_doc(v) implies same_tags(out@, v) by {
                if v.len() >= 1 {
                    assert(tags_doc(v)[1] == '\n');
                    assert(false);
                }
            }
        }
        return Ok(out);
    }
    proof {
        reveal_strlit("[]");
        assert forall|v: Seq<crate::tag::Tag>| s@ == tags_doc(v) implies v.len() >= 1 by {
            if v.len() == 0 {
                assert(s@ == "[]"@);
            }
        }
    }
    let i0 = match expect_lit(s, 0, "[\n") {
        Some(j) => j,
        None => {
            proof {
                assert forall|v: Seq<crate::tag::Tag>| s@ != tags_doc(v) by {
                    if s@ == tags_doc(v) {
                        lemma_tags_doc_first(s@, v);
                    }
                }
            }
            return Err(parse_error());
        },
    };
    let mut out: Vec<crate::tag::Tag> = Vec::new();
    let (t0, mut p) = match parse_tag_at(s, i0) {
        Some(q) => q,
        None => {
            proof {
                assert forall|v: Seq<crate::tag::Tag>| s@ != tags_doc(v) by {
                    if s@ == tags_doc(v) {
                        lemma_tags_doc_first(s@, v);
                        reveal_strlit("[\n");
                    }
                }
            }
            return Err(parse_error());
        },
    };
    out.push(t0);
    proof {
        reveal_strlit("[\n");
        assert(out@.take(1) =~= seq![out@[0]]);
        assert(s@.subrange(0, p as int) =~= "[\n"@ + tag_lines(out@));
        assert forall|v: Seq<crate::tag::Tag>|
            s@ == tags_doc(v) implies 1 <= out@.len() <= v.len() && same_tags(
            out@,
            v.take(out@.len() as int),
        ) && p as int == 2 + tag_lines(v.take(out@.len() as int)).len() by {
            lemma_tags_doc_first(s@, v);
            assert(same_tag(out@[0], v[0]));
            assert(v.take(1)[0] == v[0]);
        }
    }
    loop
        invariant
            n == s@.len(),
            2 < p <= n,
            out@.len() >= 1,
            s@.subrange(0, p as int) == "[\n"@ + tag_lines(out@),
            s@ != "[]"@,
            forall|v: Seq<crate::tag::Tag>| s@ == tags_doc(v) ==> (1 <= out@.len() <= v.len()
                && same_tags(out@, v.take(out@.len() as int)) && p as int == 2 + tag_lines(
                v.take(out@.len() as int),
            ).len()),
        decreases n - p,
    {
        match expect_lit(s, p, ",\n") {
            Some(j) => {
                proof {
                    reveal_strlit(",\n");
                    reveal_strlit("\n]");
                    assert forall|v: Seq<crate::tag::Tag>|
                        s@ == tags_doc(v) implies out@.len() < v.len() && tag_rec_at(
                        s@,
                        j as int,
                        v[out@.len() as int],
                    ) by {
                        let k = out@.len() as int;
                        lemma_tags_doc_pos(s@, v, k);
                        if k == v.len() {
                            assert(s@[p as int] == '\n');
                            assert(crate::text::is_at(s@, ",\n"@, p as int));
                            assert(s@.subrange(p as int, p + 2)[0] == s@[p as int]);
                            assert(false);
                        }
                    }
                }
                let (t, p2) = match parse_tag_at(s, j) {
                    Some(q) => q,
                    None => {
                        proof {
                            assert forall|v: Seq<crate::tag::Tag>| s@ != tags_doc(v) by {
                                if s@ == tags_doc(v) {
                                    assert(tag_rec_at(s@, j as int, v[out@.len() as int]));
                                }
                            }
                        }
                        return Err(parse_error());
                    },
                };
                let ghost o0 = out@;
                out.push(t);
                proof {
                    assert(out@.drop_last() =~= o0);
                    assert(out@.last() == t);
                    assert(s@.subrange(0, p2 as int) =~= s@.subrange(0, p as int) + s@.subrange(
                        p as int,
                        j as int,
                    ) + s@.subrange(j as int, p2 as int));
                    assert(tag_lines(out@) == tag_lines(o0) + ",\n"@ + s@.subrange(
                        j as int,
                        p2 as int,
                    ));
                    assert(s@.subrange(0, p2 as int) =~= "[\n"@ + tag_lines(out@));
                    assert forall|v: Seq<crate::tag::Tag>|
                        s@ == tags_doc(v) implies 1 <= out@.len() <= v.len() && same_tags(
                        out@,
                        v.take(out@.len() as int),
                    ) && p2 as int == 2 + tag_lines(v.take(out@.len() as int)).len() by {
                        let k = o0.len() as int;
                        lemma_tags_doc_pos(s@, v, k);
                        assert(tag_rec_at(s@, j as int, v[k]));
                        assert(same_tag(t, v[k]));
                        assert forall|x: int|
                            0 <= x < out@.len() implies same_tag(
                            out@[x],
                            v.take(k + 1)[x],
                        ) by {
                            if x < k {
                                assert(out@[x] == o0[x]);
                                assert(v.take(k + 1)[x] == v.take(k)[x]);
                            } else {
                                assert(out@[x] == t);
                                assert(v.take(k + 1)[x] == v[k]);
                            }
                        }
                    }
                }
                p = p2;
            },
            None => {
                proof {
                    reveal_strlit(",\n");
                    assert forall|v: Seq<crate::tag::Tag>|
                        s@ == tags_doc(v) implies out@.len() == v.len() by {
                        let k = out@.len() as int;
                        lemma_tags_doc_pos(s@, v, k);
                    }
                }
                let j = match expect_lit(s, p, "\n]") {
                    Some(j) => j,
                    None => {
                        proof {
                            reveal_strlit("\n]");
                            assert forall|v: Seq<crate::tag::Tag>| s@ != tags_doc(v) by {
                                if s@ == tags_doc(v) {
                                    lemma_tags_doc_pos(s@, v, v.len() as int);
                                }
                            }
                        }
                        return Err(parse_error());
                    },
                };
                if j != n {
                    proof {
                        reveal_strlit("\n]");
                        assert forall|v: Seq<crate::tag::Tag>| s@ != tags_doc(v) by {
                            if s@ == tags_doc(v) {
                                lemma_tags_doc_pos(s@, v, v.len() as int);
                            }
                        }
                    }
                    return Err(parse_error());
                }
                proof {
                    assert(s@.subrange(0, n as int) =~= s@);
                    assert(s@ =~= tags_doc(out@));
                    assert forall|v: Seq<crate::tag::Tag>|
                        s@ == tags_doc(v) implies same_tags(out@, v) by {
                        assert(v.take(v.len() as int) =~= v);
                    }
                }
                return Ok(out);
            },
        }
    }
}

/// The text that follows the first `k` records in a nonempty tag
/// document's line block.
pub open spec fn idea_tail(v: Seq<crate::idea::Idea>, k: int) -> Seq<char>
    decreases v.len() - k,
{
    if k < 1 || k >= v.len() {
        Seq::empty()
    } else {
        ",\n"@ + idea_rec(v[k]) + idea_tail(v, k + 1)
    }
}

/// The line block splits after any positive number of records.
proof fn lemma_idea_split(v: Seq<crate::idea::Idea>, k: int)
    requires
        1 <= k <= v.len(),
    ensures
        idea_lines(v) == idea_lines(v.take(k)) + idea_tail(v, k),
    decreases v.len() - k,
{
    if k == v.len() {
        assert(v.take(k) =~= v);
        assert(idea_lines(v) =~= idea_lines(v.take(k)) + idea_tail(v, k));
    } else {
        lemma_idea_split(v, k + 1);
        assert(v.take(k + 1).drop_last() =~= v.take(k));
        assert(v.take(k + 1).last() == v[k]);
        assert(idea_lines(v.take(k + 1)) == idea_lines(v.take(k)) + ",\n"@ + idea_rec(v[k]));
        assert(idea_lines(v) =~= idea_lines(v.take(k)) + idea_tail(v, k));
    }
}

/// Where the opening frame and the first record of a nonempty canonical
/// idea document sit.
proof fn lemma_ideas_doc_first(s: Seq<char>, v: Seq<crate::idea::Idea>)
    requires
        s == ideas_doc(v),
        v.len() >= 1,
    ensures
        s.len() == 4 + idea_lines(v).len(),
        crate::text::is_at(s, "[\n"@, 0),
        idea_rec_at(s, 2, v[0]),
        idea_lines(v.take(1)).len() == idea_rec(v[0]).len(),
{
    reveal_strlit("[\n");
    reveal_strlit("\n]");
    assert(v.take(1) =~= seq![v[0]]);
    assert(idea_lines(v.take(1)) == idea_rec(v[0]));
    if v.len() > 1 {
        lemma_idea_split(v, 1);
    } else {
        assert(v.take(1) =~= v);
    }
    let rl = idea_rec(v[0]).len() as int;
    assert(s.subrange(0, 2) =~= "[\n"@);
    assert forall|t: int| 0 <= t < rl implies s.subrange(2, 2 + rl)[t] == idea_rec(v[0])[t] by {
        assert(s.subrange(2, 2 + rl)[t] == s[2 + t]);
        assert(s[2 + t] == idea_lines(v)[t]);
        if v.len() > 1 {
            assert(idea_lines(v)[t] == idea_lines(v.take(1))[t]);
        }
        assert(idea_lines(v.take(1))[t] == idea_rec(v[0])[t]);
    }
    assert(s.subrange(2, 2 + rl) =~= idea_rec(v[0]));
}

/// Where the separator or the closing frame after the first `k` records of
/// a nonempty canonical idea document sits, and the record that follows a
/// separator.
#[verifier::rlimit(100)]
#[verifier::spinoff_prover]
proof fn lemma_ideas_doc_pos(s: Seq<char>, v: Seq<crate::idea::Idea>, k: int)
    requires
        s == ideas_doc(v),
        1 <= k <= v.len(),
    ensures
        s.len() == 4 + idea_lines(v).len(),
        idea_lines(v.take(k)).len() <= idea_lines(v).len(),
        k < v.len() ==> crate::text::is_at(s, ",\n"@, 2 + idea_lines(v.take(k)).len() as int),
        k < v.len() ==> idea_rec_at(s, 4 + idea_lines(v.take(k)).len() as int, v[k]),
        k < v.len() ==> idea_lines(v.take(k + 1)).len() == idea_lines(v.take(k)).len() + 2
            + idea_rec(v[k]).len(),
        k == v.len() ==> crate::text::is_at(s, "\n]"@, 2 + idea_lines(v.take(k)).len() as int),
        k == v.len() ==> 4 + idea_lines(v.take(k)).len() == s.len(),
    decreases v.len() - k,
{
    reveal_strlit("[\n");
    reveal_strlit("\n]");
    reveal_strlit(",\n");
    lemma_idea_split(v, k);
    let lk = idea_lines(v.take(k)).len() as int;
    if k < v.len() {
        assert(v.take(k + 1).drop_last() =~= v.take(k));
        assert(v.take(k + 1).last() == v[k]);
        assert(idea_lines(v.take(k + 1)) == idea_lines(v.take(k)) + ",\n"@ + idea_rec(v[k]));
        assert(idea_tail(v, k) == ",\n"@ + idea_rec(v[k]) + idea_tail(v, k + 1));
        let rl = idea_rec(v[k]).len() as int;
        assert(s.subrange(0, s.len() as int) =~= s);
        assert forall|t: int| 0 <= t < 2 implies s[2 + lk + t] == ",\n"@[t] by {
            assert(s[2 + lk + t] == idea_lines(v)[lk + t]);
            assert(idea_lines(v)[lk + t] == idea_tail(v, k)[t]);
        }
        lemma_seq_window(s, 0, s, 2 + lk, ",\n"@);
        assert forall|t: int| 0 <= t < rl implies s[4 + lk + t] == idea_rec(v[k])[t] by {
            assert(s[4 + lk + t] == idea_lines(v)[lk + 2 + t]);
            assert(idea_lines(v)[lk + 2 + t] == idea_tail(v, k)[2 + t]);
        }
        lemma_seq_window(s, 0, s, 4 + lk, idea_rec(v[k]));
    } else {
        assert(v.take(k) =~= v);
        assert(s.subrange(2 + lk, 4 + lk) =~= "\n]"@);
    }
}

/// Decode a idea collection. Whatever decodes successfully is exactly the
/// canonical encoding of the result, and decoding the canonical encoding
/// of any collection always succeeds with that collection's records.
#[verifier::rlimit(100)]
#[verifier::spinoff_prover]
pub fn decode_ideas(s: &str) -> (r: Result<Vec<crate::idea::Idea>, VaultError>)
    ensures
        r matches Ok(v) ==> s@ == ideas_doc(v@),
        r matches Err(e) ==> e is Parse,
        forall|v: Seq<crate::idea::Idea>| s@ == ideas_doc(v) ==> (r matches Ok(w) && same_ideas(
            w@,
            v,
        )),
{
    let n = s.unicode_len();
    if crate::text::str_eq(s, "[]") {
        let out: Vec<crate::idea::Idea> = Vec::new();
        proof {
            reveal_strlit("[]");
            reveal_strlit("[\n");
            assert forall|v: Seq<crate::idea::Idea>|
                s@ == ideas_doc(v) implies same_ideas(out@, v) by {
                if v.len() >= 1 {
                    assert(ideas_doc(v)[1] == '\n');
                    assert(false);
                }
            }
        }
        return Ok(out);
    }
    proof {
        reveal_strlit("[]");
        assert forall|v: Seq<crate::idea::Idea>| s@ == ideas_doc(v) implies v.len() >= 1 by {
            if v.len() == 0 {
                assert(s@ == "[]"@);
            }
        }
    }
    let i0 = match expect_lit(s, 0, "[\n") {
        Some(j) => j,
        None => {
            proof {
                assert forall|v: Seq<crate::idea::Idea>| s@ != ideas_doc(v) by {
                    if s@ == ideas_doc(v) {
                        lemma_ideas_doc_first(s@, v);
                    }
                }
            }
            return Err(parse_error());
        },
    };
    let mut out: Vec<crate::idea::Idea> = Vec::new();
    let (t0, mut p) = match parse_idea_at(s, i0) {
        Some(q) => q,
        None => {
            proof {
                assert forall|v: Seq<crate::idea::Idea>| s@ != ideas_doc(v) by {
                    if s@ == ideas_doc(v) {
                        lemma_ideas_doc_first(s@, v);
                        reveal_strlit("[\n");
                    }
                }
            }
            return Err(parse_error());
        },
    };
    out.push(t0);
    proof {
        reveal_strlit("[\n");
        assert(out@.take(1) =~= seq![out@[0]]);
        assert(s@.subrange(0, p as int) =~= "[\n"@ + idea_lines(out@));
        assert forall|v: Seq<crate::idea::Idea>|
            s@ == ideas_doc(v) implies 1 <= out@.len() <= v.len() && same_ideas(
            out@,
            v.take(out@.len() as int),
        ) && p as int == 2 + idea_lines(v.take(out@.len() as int)).len() by {
            lemma_ideas_doc_first(s@, v);
            assert(same_idea(out@[0], v[0]));
            assert(v.take(1)[0] == v[0]);
        }
    }
    loop
        invariant
            n == s@.len(),
            2 < p <= n,
            out@.len() >= 1,
            s@.subrange(0, p as int) == "[\n"@ + idea_lines(out@),
            s@ != "[]"@,
            forall|v: Seq<crate::idea::Idea>| s@ == ideas_doc(v) ==> (1 <= out@.len() <= v.len()
                && same_ideas(out@, v.take(out@.len() as int)) && p as int == 2 + idea_lines(
                v.take(out@.len() as int),
            ).len()),
        decreases n - p,
    {
        match expect_lit(s, p, ",\n") {
            Some(j) => {
                proof {
                    reveal_strlit(",\n");
                    reveal_strlit("\n]");
                    assert forall|v: Seq<crate::idea::Idea>|
                        s@ == ideas_doc(v) implies out@.len() < v.len() && idea_rec_at(
                        s@,
                        j as int,
                        v[out@.len() as int],
                    ) by {
                        let k = out@.len() as int;
                        lemma_ideas_doc_pos(s@, v, k);
                        if k == v.len() {
                            assert(s@[p as int] == '\n');
                            assert(crate::text::is_at(s@, ",\n"@, p as int));
                            assert(s@.subrange(p as int, p + 2)[0] == s@[p as int]);
                            assert(false);
                        }
                    }
                }
                let (t, p2) = match parse_idea_at(s, j) {
                    Some(q) => q,
                    None => {
                        proof {
                            assert forall|v: Seq<crate::idea::Idea>| s@ != ideas_doc(v) by {
                                if s@ == ideas_doc(v) {
                                    assert(idea_rec_at(s@, j as int, v[out@.len() as int]));
                                }
                            }
                        }
                        return Err(parse_error());
                    },
                };
                let ghost o0 = out@;
                out.push(t);
                proof {
                    assert(out@.drop_last() =~= o0);
                    assert(out@.last() == t);
                    assert(s@.subrange(0, p2 as int) =~= s@.subrange(0, p as int) + s@.subrange(
                        p as int,
                        j as int,
                    ) + s@.subrange(j as int, p2 as int));
                    assert(idea_lines(out@) == idea_lines(o0) + ",\n"@ + s@.subrange(
                        j as int,
                        p2 as int,
                    ));
                    assert(s@.subrange(0, p2 as int) =~= "[\n"@ + idea_lines(out@));
                    assert forall|v: Seq<crate::idea::Idea>|
                        s@ == ideas_doc(v) implies 1 <= out@.len() <= v.len() && same_ideas(
                        out@,
                        v.take(out@.len() as int),
                    ) && p2 as int == 2 + idea_lines(v.take(out@.len() as int)).len() by {
                        let k = o0.len() as int;
                        lemma_ideas_doc_pos(s@, v, k);
                        assert(idea_rec_at(s@, j as int, v[k]));
                        assert(same_idea(t, v[k]));
                        assert forall|x: int|
                            0 <= x < out@.len() implies same_idea(
                            out@[x],
                            v.take(k + 1)[x],
                        ) by {
                            if x < k {
                                assert(out@[x] == o0[x]);
                                assert(v.take(k + 1)[x] == v.take(k)[x]);
                            } else {
                                assert(out@[x] == t);
                                assert(v.take(k + 1)[x] == v[k]);
                            }
                        }
                    }
                }
                p = p2;
            },
            None => {
                proof {
                    reveal_strlit(",\n");
                    assert forall|v: Seq<crate::idea::Idea>|
                        s@ == ideas_doc(v) implies out@.len() == v.len() by {
                        let k = out@.len() as int;
                        lemma_ideas_doc_pos(s@, v, k);
                    }
                }
                let j = match expect_lit(s, p, "\n]") {
                    Some(j) => j,
                    None => {
                        proof {
                            reveal_strlit("\n]");
                            assert forall|v: Seq<crate::idea::Idea>| s@ != ideas_doc(v) by {
                                if s@ == ideas_doc(v) {
                                    lemma_ideas_doc_pos(s@, v, v.len() as int);
                                }
                            }
                        }
                        return Err(parse_error());
                    },
                };
                if j != n {
                    proof {
                        reveal_strlit("\n]");
                        assert forall|v: Seq<crate::idea::Idea>| s@ != ideas_doc(v) by {
                            if s@ == ideas_doc(v) {
                                lemma_ideas_doc_pos(s@, v, v.len() as int);
                            }
                        }
                    }
                    return Err(parse_error());
                }
                proof {
                    assert(s@.subrange(0, n as int) =~= s@);
                    assert(s@ =~= ideas_doc(out@));
                    assert forall|v: Seq<crate::idea::Idea>|
                        s@ == ideas_doc(v) implies same_ideas(out@, v) by {
                        assert(v.take(v.len() as int) =~= v);
                    }
                }
                return Ok(out);
            },
        }
    }
}

/// The text that follows the first `k` records in a nonempty tag
/// document's line block.
pub open spec fn project_tail(v: Seq<crate::project::Project>, k: int) -> Seq<char>
    decreases v.len() - k,
{
    if k < 1 || k >= v.len() {
        Seq::empty()
    } else {
        ",\n"@ + project_rec(v[k]) + project_tail(v, k + 1)
    }
}

/// The line block splits after any positive number of records.
proof fn lemma_project_split(v: Seq<crate::project::Project>, k: int)
    requires
        1 <= k <= v.len(),
    ensures
        project_lines(v) == project_lines(v.take(k)) + project_tail(v, k),
    decreases v.len() - k,
{
    if k == v.len() {
        assert(v.take(k) =~= v);
        assert(project_lines(v) =~= project_lines(v.take(k)) + project_tail(v, k));
    } else {
        lemma_project_split(v, k + 1);
        assert(v.take(k + 1).drop_last() =~= v.take(k));
        assert(v.take(k + 1).last() == v[k]);
        assert(project_lines(v.take(k + 1)) == project_lines(v.take(k)) + ",\n"@ + project_rec(v[k]));
        assert(project_lines(v) =~= project_lines(v.take(k)) + project_tail(v, k));
    }
}

/// Where the opening frame and the first record of a nonempty canonical
/// project document sit.
proof fn lemma_projects_doc_first(s: Seq<char>, v: Seq<crate::project::Project>)
    requires
        s == projects_doc(v),
        v.len() >= 1,
    ensures
        s.len() == 4 + project_lines(v).len(),
        crate::text::is_at(s, "[\n"@, 0),
        project_rec_at(s, 2, v[0]),
        project_lines(v.take(1)).len() == project_rec(v[0]).len(),
{
    reveal_strlit("[\n");
    reveal_strlit("\n]");
    assert(v.take(1) =~= seq![v[0]]);
    assert(project_lines(v.take(1)) == project_rec(v[0]));
    if v.len() > 1 {
        lemma_project_split(v, 1);
    } else {
        assert(v.take(1) =~= v);
    }
    let rl = project_rec(v[0]).len() as int;
    assert(s.subrange(0, 2) =~= "[\n"@);
    assert forall|t: int| 0 <= t < rl implies s.subrange(2, 2 + rl)[t] == project_rec(v[0])[t] by {
        assert(s.subrange(2, 2 + rl)[t] == s[2 + t]);
        assert(s[2 + t] == project_lines(v)[t]);
        if v.len() > 1 {
            assert(project_lines(v)[t] == project_lines(v.take(1))[t]);
        }
        assert(project_lines(v.take(1))[t] == project_rec(v[0])[t]);
    }
    assert(s.subrange(2, 2 + rl) =~= project_rec(v[0]));
}

/// Where the separator or the closing frame after the first `k` records of
/// a nonempty canonical project document sits, and the record that follows a
/// separator.
#[verifier::rlimit(100)]
#[verifier::spinoff_prover]
proof fn lemma_projects_doc_pos(s: Seq<char>, v: Seq<crate::project::Project>, k: int)
    requires
        s == projects_doc(v),
        1 <= k <= v.len(),
    ensures
        s.len() == 4 + project_lines(v).len(),
        project_lines(v.take(k)).len() <= project_lines(v).len(),
        k < v.len() ==> crate::text::is_at(s, ",\n"@, 2 + project_lines(v.take(k)).len() as int),
        k < v.len() ==> project_rec_at(s, 4 + project_lines(v.take(k)).len() as int, v[k]),
        k < v.len() ==> project_lines(v.take(k + 1)).len() == project_lines(v.take(k)).len() + 2
            + project_rec(v[k]).len(),
        k == v.len() ==> crate::text::is_at(s, "\n]"@, 2 + project_lines(v.take(k)).len() as int),
        k == v.len() ==> 4 + project_lines(v.take(k)).len() == s.len(),
    decreases v.len() - k,
{
    reveal_strlit("[\n");
    reveal_strlit("\n]");
    reveal_strlit(",\n");
    lemma_project_split(v, k);
    let lk = project_lines(v.take(k)).len() as int;
    if k < v.len() {
        assert(v.take(k + 1).drop_last() =~= v.take(k));
        assert(v.take(k + 1).last() == v[k]);
        assert(project_lines(v.take(k + 1)) == project_lines(v.take(k)) + ",\n"@ + project_rec(v[k]));
        assert(project_tail(v, k) == ",\n"@ + project_rec(v[k]) + project_tail(v, k + 1));
        let rl = project_rec(v[k]).len() as int;
        assert(s.subrange(0, s.len() as int) =~= s);
        assert forall|t: int| 0 <= t < 2 implies s[2 + lk + t] == ",\n"@[t] by {
            assert(s[2 + lk + t] == project_lines(v)[lk + t]);
            assert(project_lines(v)[lk + t] == project_tail(v, k)[t]);
        }
        lemma_seq_window(s, 0, s, 2 + lk, ",\n"@);
        assert forall|t: int| 0 <= t < rl implies s[4 + lk + t] == project_rec(v[k])[t] by {
            assert(s[4 + lk + t] == project_lines(v)[lk + 2 + t]);
            assert(project_lines(v)[lk + 2 + t] == project_tail(v, k)[2 + t]);
        }
        lemma_seq_window(s, 0, s, 4 + lk, project_rec(v[k]));
    } else {
        assert(v.take(k) =~= v);
        assert(s.subrange(2 + lk, 4 + lk) =~= "\n]"@);
    }
}

/// Decode a project collection. Whatever decodes successfully is exactly the
/// canonical encoding of the result, and decoding the canonical encoding
/// of any collection always succeeds with that collection's records.
#[verifier::rlimit(100)]
#[verifier::spinoff_prover]
pub fn decode_projects(s: &str) -> (r: Result<Vec<crate::project::Project>, VaultError>)
    ensures
        r matches Ok(v) ==> s@ == projects_doc(v@),
        r matches Err(e) ==> e is Parse,
        forall|v: Seq<crate::project::Project>| s@ == projects_doc(v) ==> (r matches Ok(w) && same_projects(
            w@,
            v,
        )),
{
    let n = s.unicode_len();
    if crate::text::str_eq(s, "[]") {
        let out: Vec<crate::project::Project> = Vec::new();
        proof {
            reveal_strlit("[]");
            reveal_strlit("[\n");
            assert forall|v: Seq<crate::project::Project>|
                s@ == projects_doc(v) implies same_projects(out@, v) by {
                if v.len() >= 1 {
                    assert(projects_doc(v)[1] == '\n');
                    assert(false);
                }
            }
        }
        return Ok(out);
    }
    proof {
        reveal_strlit("[]");
        assert forall|v: Seq<crate::project::Project>| s@ == projects_doc(v) implies v.len() >= 1 by {
            if v.len() == 0 {
                assert(s@ == "[]"@);
            }
        }
    }
    let i0 = match expect_lit(s, 0, "[\n") {
        Some(j) => j,
        None => {
            proof {
                assert forall|v: Seq<crate::project::Project>| s@ != projects_doc(v) by {
                    if s@ == projects_doc(v) {
                        lemma_projects_doc_first(s@, v);
                    }
                }
            }
            return Err(parse_error());
        },
    };
    let mut out: Vec<crate::project::Project> = Vec::new();
    let (t0, mut p) = match parse_project_at(s, i0) {
        Some(q) => q,
        None => {
            proof {
                assert forall|v: Seq<crate::project::Project>| s@ != projects_doc(v) by {
                    if s@ == projects_doc(v) {
                        lemma_projects_doc_first(s@, v);
                        reveal_strlit("[\n");
                    }
                }
            }
            return Err(parse_error());
        },
    };
    out.push(t0);
    proof {
        reveal_strlit("[\n");
        assert(out@.take(1) =~= seq![out@[0]]);
        assert(s@.subrange(0, p as int) =~= "[\n"@ + project_lines(out@));
        assert forall|v: Seq<crate::project::Project>|
            s@ == projects_doc(v) implies 1 <= out@.len() <= v.len() && same_projects(
            out@,
            v.take(out@.len() as int),
        ) && p as int == 2 + project_lines(v.take(out@.len() as int)).len() by {
            lemma_projects_doc_first(s@, v);
            assert(same_project(out@[0], v[0]));
            assert(v.take(1)[0] == v[0]);
        }
    }
    loop
        invariant
            n == s@.len(),
            2 < p <= n,
            out@.len() >= 1,
            s@.subrange(0, p as int) == "[\n"@ + project_lines(out@),
            s@ != "[]"@,
            forall|v: Seq<crate::project::Project>| s@ == projects_doc(v) ==> (1 <= out@.len() <= v.len()
                && same_projects(out@, v.take(out@.len() as int)) && p as int == 2 + project_lines(
                v.take(out@.len() as int),
            ).len()),
        decreases n - p,
    {
        match expect_lit(s, p, ",\n") {
            Some(j) => {
                proof {
                    reveal_strlit(",\n");
                    reveal_strlit("\n]");
                    assert forall|v: Seq<crate::project::Project>|
                        s@ == projects_doc(v) implies out@.len() < v.len() && project_rec_at(
                        s@,
                        j as int,
                        v[out@.len() as int],
                    ) by {
                        let k = out@.len() as int;
                        lemma_projects_doc_pos(s@, v, k);
                        if k == v.len() {
                            assert(s@[p as int] == '\n');
                            assert(crate::text::is_at(s@, ",\n"@, p as int));
                            assert(s@.subrange(p as int, p + 2)[0] == s@[p as int]);
                            assert(false);
                        }
                    }
                }
                let (t, p2) = match parse_project_at(s, j) {
                    Some(q) => q,
                    None => {
                        proof {
                            assert forall|v: Seq<crate::project::Project>| s@ != projects_doc(v) by {
                                if s@ == projects_doc(v) {
                                    assert(project_rec_at(s@, j as int, v[out@.len() as int]));
                                }
                            }
                        }
                        return Err(parse_error());
                    },
                };
                let ghost o0 = out@;
                out.push(t);
                proof {
                    assert(out@.drop_last() =~= o0);
                    assert(out@.last() == t);
                    assert(s@.subrange(0, p2 as int) =~= s@.subrange(0, p as int) + s@.subrange(
                        p as int,
                        j as int,
                    ) + s@.subrange(j as int, p2 as int));
                    assert(project_lines(out@) == project_lines(o0) + ",\n"@ + s@.subrange(
                        j as int,
                        p2 as int,
                    ));
                    assert(s@.subrange(0, p2 as int) =~= "[\n"@ + project_lines(out@));
                    assert forall|v: Seq<crate::project::Project>|
                        s@ == projects_doc(v) implies 1 <= out@.len() <= v.len() && same_projects(
                        out@,
                        v.take(out@.len() as int),
                    ) && p2 as int == 2 + project_lines(v.take(out@.len() as int)).len() by {
                        let k = o0.len() as int;
                        lemma_projects_doc_pos(s@, v, k);
                        assert(project_rec_at(s@, j as int, v[k]));
                        assert(same_project(t, v[k]));
                        assert forall|x: int|
                            0 <= x < out@.len() implies same_project(
                            out@[x],
                            v.take(k + 1)[x],
                        ) by {
                            if x < k {
                                assert(out@[x] == o0[x]);
                                assert(v.take(k + 1)[x] == v.take(k)[x]);
                            } else {
                                assert(out@[x] == t);
                                assert(v.take(k + 1)[x] == v[k]);
                            }
                        }
                    }
                }
                p = p2;
            },
            None => {
                proof {
                    reveal_strlit(",\n");
                    assert forall|v: Seq<crate::project::Project>|
                        s@ == projects_doc(v) implies out@.len() == v.len() by {
                        let k = out@.len() as int;
                        lemma_projects_doc_pos(s@, v, k);
                    }
                }
                let j = match expect_lit(s, p, "\n]") {
                    Some(j) => j,
                    None => {
                        proof {
                            reveal_strlit("\n]");
                            assert forall|v: Seq<crate::project::Project>| s@ != projects_doc(v) by {
                                if s@ == projects_doc(v) {
                                    lemma_projects_doc_pos(s@, v, v.len() as int);
                                }
                            }
                        }
                        return Err(parse_error());
                    },
                };
                if j != n {
                    proof {
                        reveal_strlit("\n]");
                        assert forall|v: Seq<crate::project::Project>| s@ != projects_doc(v) by {
                            if s@ == projects_doc(v) {
                                lemma_projects_doc_pos(s@, v, v.len() as int);
                            }
                        }
                    }
                    return Err(parse_error());
                }
                proof {
                    assert(s@.subrange(0, n as int) =~= s@);
                    assert(s@ =~= projects_doc(out@));
                    assert forall|v: Seq<crate::project::Project>|
                        s@ == projects_doc(v) implies same_projects(out@, v) by {
                        assert(v.take(v.len() as int) =~= v);
                    }
                }
                return Ok(out);
            },
        }
    }
}

fn push_strs_arr(out: &mut String, v: &Vec<String>)
    ensures
        final(out)@ == old(out)@ + strs_arr(views_of(v@)),
{
    crate::text::string_push(out, '[');
    let n = v.len();
    if n > 0 {
        push_quoted(out, v[0].as_str());
        proof {
            assert(views_of(v@.take(1)) =~= seq![v@[0]@]);
            assert(strs_items(views_of(v@.take(1))) == str_enc(v@[0]@));
        }
        let mut i: usize = 1;
        while i < n
            invariant
                n == v@.len(),
                1 <= i <= n,
                out@ == old(out)@ + seq!['['] + strs_items(views_of(v@.take(i as int))),
            decreases n - i,
        {
            out.append(", ");
            push_quoted(out, v[i].as_str());
            proof {
                assert(views_of(v@.take(i + 1)).drop_last() =~= views_of(v@.take(i as int)));
                assert(views_of(v@.take(i + 1)).last() == v@[i as int]@);
                assert(views_of(v@.take(i + 1)).len() == i + 1);
                assert(out@ =~= old(out)@ + seq!['['] + strs_items(views_of(v@.take(i + 1))));
            }
            i = i + 1;
        }
        proof {
            assert(v@.take(n as int) =~= v@);
        }
    } else {
        proof {
            assert(views_of(v@).len() == 0);
        }
    }
    crate::text::string_push(out, ']');
    proof {
        assert(out@ =~= old(out)@ + strs_arr(views_of(v@)));
    }
}

fn push_ids_arr(out: &mut String, v: &Vec<u128>)
    ensures
        final(out)@ == old(out)@ + ids_arr(v@),
{
    crate::text::string_push(out, '[');
    let n = v.len();
    if n > 0 {
        crate::text::string_push(out, '"');
        let s0 = crate::ids::id_string(v[0]);
        out.append(s0.as_str());
        crate::text::string_push(out, '"');
        proof {
            assert(v@.take(1) =~= seq![v@[0]]);
            assert(ids_items(v@.take(1)) == id_enc(v@[0]));
        }
        let mut i: usize = 1;
        while i < n
            invariant
                n == v@.len(),
                1 <= i <= n,
                out@ == old(out)@ + seq!['['] + ids_items(v@.take(i as int)),
            decreases n - i,
        {
            out.append(", ");
            crate::text::string_push(out, '"');
            let si = crate::ids::id_string(v[i]);
            out.append(si.as_str());
            crate::text::string_push(out, '"');
            proof {
                assert(v@.take(i + 1).drop_last() =~= v@.take(i as int));
                assert(v@.take(i + 1).last() == v@[i as int]);
                assert(out@ =~= old(out)@ + seq!['['] + ids_items(v@.take(i + 1)));
            }
            i = i + 1;
        }
        proof {
            assert(v@.take(n as int) =~= v@);
        }
    }
    crate::text::string_push(out, ']');
    proof {
        assert(out@ =~= old(out)@ + ids_arr(v@));
    }
}

fn push_opt_int(out: &mut String, o: &Option<i64>)
    ensures
        final(out)@ == old(out)@ + opt_int_enc(
            match *o {
                Some(v) => Some(v as int),
                None => None,
            },
        ),
{
    match o {
        Some(v) => push_int(out, *v),
        None => out.append("null"),
    }
}

fn push_opt_id(out: &mut String, o: &Option<u128>)
    ensures
        final(out)@ == old(out)@ + opt_id_enc(*o),
{
    match o {
        Some(v) => {
            crate::text::string_push(out, '"');
            let sv = crate::ids::id_string(*v);
            out.append(sv.as_str());
            crate::text::string_push(out, '"');
            proof {
                assert(out@ =~= old(out)@ + opt_id_enc(*o));
            }
        },
        None => out.append("null"),
    }
}

/// The text that follows the first `k` elements in a nonempty string
/// array's item block.
pub open spec fn strs_tail(ts: Seq<Seq<char>>, k: int) -> Seq<char>
    decreases ts.len() - k,
{
    if k < 1 || k >= ts.len() {
        Seq::empty()
    } else {
        ", "@ + str_enc(ts[k]) + strs_tail(ts, k + 1)
    }
}

/// The item block splits after any positive number of elements.
proof fn lemma_strs_split(ts: Seq<Seq<char>>, k: int)
    requires
        1 <= k <= ts.len(),
    ensures
        strs_items(ts) == strs_items(ts.take(k)) + strs_tail(ts, k),
    decreases ts.len() - k,
{
    if k == ts.len() {
        assert(ts.take(k) =~= ts);
        assert(strs_items(ts) =~= strs_items(ts.take(k)) + strs_tail(ts, k));
    } else {
        lemma_strs_split(ts, k + 1);
        assert(ts.take(k + 1).drop_last() =~= ts.take(k));
        assert(ts.take(k + 1).last() == ts[k]);
        assert(strs_items(ts.take(k + 1)) == strs_items(ts.take(k)) + ", "@ + str_enc(ts[k]));
        assert(strs_items(ts) =~= strs_items(ts.take(k)) + strs_tail(ts, k));
    }
}

/// Whether the text at `i` is exactly the string-array encoding of `ts`.
pub open spec fn strs_at(s: Seq<char>, i: int, ts: Seq<Seq<char>>) -> bool {
    &&& 0 <= i
    &&& i + strs_arr(ts).len() <= s.len()
    &&& s.subrange(i, i + strs_arr(ts).len() as int) == strs_arr(ts)
}

/// Where the separator or closing bracket after the first `k` elements of
/// a nonempty string array sits, and the element that follows a separator.
#[verifier::rlimit(100)]
#[verifier::spinoff_prover]
proof fn lemma_strs_pos(s: Seq<char>, i: int, ts: Seq<Seq<char>>, k: int)
    requires
        strs_at(s, i, ts),
        1 <= k <= ts.len(),
    ensures
        strs_arr(ts).len() == 2 + strs_items(ts).len(),
        strs_items(ts.take(k)).len() <= strs_items(ts).len(),
        k < ts.len() ==> crate::text::is_at(s, ", "@, i + 1 + strs_items(ts.take(k)).len() as int),
        k < ts.len() ==> str_at(s, i + 3 + strs_items(ts.take(k)).len() as int, ts[k]),
        k < ts.len() ==> strs_items(ts.take(k + 1)).len() == strs_items(ts.take(k)).len() + 2
            + str_enc(ts[k]).len(),
        k == ts.len() ==> s[i + 1 + strs_items(ts.take(k)).len() as int] == ']',
        k == ts.len() ==> i + 2 + strs_items(ts.take(k)).len() == i + strs_arr(ts).len(),
{
    reveal_strlit(", ");
    lemma_strs_split(ts, k);
    let al = strs_arr(ts).len() as int;
    assert forall|m: int| 0 <= m < al implies s[i + m] == strs_arr(ts)[m] by {
        assert(s.subrange(i, i + al)[m] == s[i + m]);
    }
    let lk = strs_items(ts.take(k)).len() as int;
    if k < ts.len() {
        assert(ts.take(k + 1).drop_last() =~= ts.take(k));
        assert(ts.take(k + 1).last() == ts[k]);
        assert(strs_items(ts.take(k + 1)) == strs_items(ts.take(k)) + ", "@ + str_enc(ts[k]));
        assert(strs_tail(ts, k) == ", "@ + str_enc(ts[k]) + strs_tail(ts, k + 1));
        let el = str_enc(ts[k]).len() as int;
        assert forall|t: int| 0 <= t < 2 implies s.subrange(i + 1 + lk, i + 3 + lk)[t]
            == ", "@[t] by {
            assert(s.subrange(i + 1 + lk, i + 3 + lk)[t] == s[i + (1 + lk + t)]);
            assert(strs_arr(ts)[1 + lk + t] == strs_items(ts)[lk + t]);
            assert(strs_items(ts)[lk + t] == strs_tail(ts, k)[t]);
        }
        assert(s.subrange(i + 1 + lk, i + 3 + lk) =~= ", "@);
        assert forall|t: int| 0 <= t < el implies s.subrange(i + 3 + lk, i + 3 + lk + el)[t]
            == str_enc(ts[k])[t] by {
            assert(s.subrange(i + 3 + lk, i + 3 + lk + el)[t] == s[i + (3 + lk + t)]);
            assert(strs_arr(ts)[3 + lk + t] == strs_items(ts)[lk + 2 + t]);
            assert(strs_items(ts)[lk + 2 + t] == strs_tail(ts, k)[2 + t]);
        }
        assert(s.subrange(i + 3 + lk, i + 3 + lk + el) =~= str_enc(ts[k]));
    } else {
        assert(ts.take(k) =~= ts);
        assert(s[i + (1 + lk)] == strs_arr(ts)[1 + lk]);
    }
}

/// Where the opening bracket and first element of a nonempty string array
/// sit.
proof fn lemma_strs_first(s: Seq<char>, i: int, ts: Seq<Seq<char>>)
    requires
        strs_at(s, i, ts),
        ts.len() >= 1,
    ensures
        s[i] == '[',
        str_at(s, i + 1, ts[0]),
        strs_items(ts.take(1)).len() == str_enc(ts[0]).len(),
{
    let al = strs_arr(ts).len() as int;
    assert forall|m: int| 0 <= m < al implies s[i + m] == strs_arr(ts)[m] by {
        assert(s.subrange(i, i + al)[m] == s[i + m]);
    }
    assert(s[i + 0] == strs_arr(ts)[0]);
    assert(ts.take(1) =~= seq![ts[0]]);
    assert(strs_items(ts.take(1)) == str_enc(ts[0]));
    if ts.len() > 1 {
        lemma_strs_split(ts, 1);
    } else {
        assert(ts.take(1) =~= ts);
    }
    let el = str_enc(ts[0]).len() as int;
    assert forall|t: int| 0 <= t < el implies s.subrange(i + 1, i + 1 + el)[t] == str_enc(
        ts[0],
    )[t] by {
        assert(s.subrange(i + 1, i + 1 + el)[t] == s[i + (1 + t)]);
        assert(strs_arr(ts)[1 + t] == strs_items(ts)[t]);
        if ts.len() > 1 {
            assert(strs_items(ts)[t] == strs_items(ts.take(1))[t]);
        }
        assert(strs_items(ts.take(1))[t] == str_enc(ts[0])[t]);
    }
    assert(s.subrange(i + 1, i + 1 + el) =~= str_enc(ts[0]));
}

#[verifier::rlimit(100)]
#[verifier::spinoff_prover]
fn parse_strs_at(s: &str, i: usize) -> (r: Option<(Vec<String>, usize)>)
    ensures
        r matches Some(p) ==> i < p.1 <= s@.len() && s@.subrange(i as int, p.1 as int)
            == strs_arr(views_of(p.0@)),
        forall|ts: Seq<Seq<char>>| strs_at(s@, i as int, ts) ==> (r matches Some(p)
            && views_of(p.0@) == ts && p.1 as int == i + strs_arr(ts).len()),
{
    let n = s.unicode_len();
    if i >= n || s.get_char(i) != '[' {
        proof {
            assert forall|ts: Seq<Seq<char>>| !strs_at(s@, i as int, ts) by {
                if strs_at(s@, i as int, ts) {
                    assert(s@.subrange(i as int, i + strs_arr(ts).len() as int)[0] == s@[
                        i as int]);
                }
            }
        }
        return None;
    }
    let mut out: Vec<String> = Vec::new();
    if i + 1 < n && s.get_char(i + 1) == ']' {
        proof {
            assert(views_of(out@).len() == 0);
            assert(s@.subrange(i as int, i + 2) =~= strs_arr(views_of(out@)));
            assert forall|ts: Seq<Seq<char>>|
                strs_at(s@, i as int, ts) implies views_of(out@) == ts by {
                if ts.len() >= 1 {
                    lemma_strs_first(s@, i as int, ts);
                    assert(str_enc(ts[0])[0] == '"');
                    assert(s@.subrange(i + 1, i + 1 + str_enc(ts[0]).len() as int)[0] == s@[
                        i + 1]);
                    assert(false);
                }
                assert(views_of(out@) =~= ts);
            }
        }
        return Some((out, i + 2));
    }
    proof {
        assert forall|ts: Seq<Seq<char>>| strs_at(s@, i as int, ts) implies ts.len() >= 1 by {
            if ts.len() == 0 {
                assert(strs_arr(ts).len() == 2);
                assert(s@.subrange(i as int, i + 2)[1] == s@[i + 1]);
                assert(strs_arr(ts)[1] == ']');
            }
        }
    }
    let (v0, mut p) = match parse_string_at(s, i + 1) {
        Some(q) => q,
        None => {
            proof {
                assert forall|ts: Seq<Seq<char>>| !strs_at(s@, i as int, ts) by {
                    if strs_at(s@, i as int, ts) {
                        lemma_strs_first(s@, i as int, ts);
                    }
                }
            }
            return None;
        },
    };
    out.push(v0);
    proof {
        assert(views_of(out@) =~= seq![out@[0]@]);
        assert(s@.subrange(i + 1, p as int) =~= strs_items(views_of(out@)));
        assert forall|ts: Seq<Seq<char>>|
            strs_at(s@, i as int, ts) implies 1 <= out@.len() <= ts.len() && views_of(out@)
            == ts.take(out@.len() as int) && p as int == i + 1 + strs_items(
            ts.take(out@.len() as int),
        ).len() by {
            lemma_strs_first(s@, i as int, ts);
            assert(views_of(out@) =~= ts.take(1));
        }
    }
    loop
        invariant
            n == s@.len(),
            i + 1 < p <= n,
            out@.len() >= 1,
            s@[i as int] == '[',
            s@.subrange(i + 1, p as int) == strs_items(views_of(out@)),
            forall|ts: Seq<Seq<char>>| strs_at(s@, i as int, ts) ==> (1 <= out@.len() <= ts.len()
                && views_of(out@) == ts.take(out@.len() as int) && p as int == i + 1
                + strs_items(ts.take(out@.len() as int)).len()),
        decreases n - p,
    {
        if p < n && s.get_char(p) == ']' {
            proof {
                assert(s@.subrange(i as int, p + 1) =~= seq![s@[i as int]] + s@.subrange(
                    i + 1,
                    p as int,
                ) + seq![s@[p as int]]);
                assert(s@.subrange(i as int, p + 1) =~= strs_arr(views_of(out@)));
                reveal_strlit(", ");
                assert forall|ts: Seq<Seq<char>>|
                    strs_at(s@, i as int, ts) implies views_of(out@) == ts && (p + 1) == i
                    + strs_arr(ts).len() by {
                    let k = out@.len() as int;
                    lemma_strs_pos(s@, i as int, ts, k);
                    if k < ts.len() {
                        assert(s@.subrange(p as int, p + 2)[0] == s@[p as int]);
                        assert(crate::text::is_at(s@, ", "@, p as int));
                        assert(false);
                    }
                    assert(ts.take(k) =~= ts);
                }
            }
            return Some((out, p + 1));
        }
        let j = match expect_lit(s, p, ", ") {
            Some(j) => j,
            None => {
                proof {
                    reveal_strlit(", ");
                    assert forall|ts: Seq<Seq<char>>| !strs_at(s@, i as int, ts) by {
                        if strs_at(s@, i as int, ts) {
                            let k = out@.len() as int;
                            lemma_strs_pos(s@, i as int, ts, k);
                            if k == ts.len() {
                                assert(s@[p as int] == ']');
                                assert(p < n);
                                assert(false);
                            }
                        }
                    }
                }
                return None;
            },
        };
        let (v, p2) = match parse_string_at(s, j) {
            Some(q) => q,
            None => {
                proof {
                    reveal_strlit(", ");
                    assert forall|ts: Seq<Seq<char>>| !strs_at(s@, i as int, ts) by {
                        if strs_at(s@, i as int, ts) {
                            let k = out@.len() as int;
                            lemma_strs_pos(s@, i as int, ts, k);
                            if k == ts.len() {
                                assert(s@[p as int] == ']');
                                assert(crate::text::is_at(s@, ", "@, p as int));
                                assert(s@.subrange(p as int, p + 2)[0] == s@[p as int]);
                                assert(false);
                            }
                            assert(str_at(s@, j as int, ts[k]));
                        }
                    }
                }
                return None;
            },
        };
        let ghost o0 = out@;
        out.push(v);
        proof {
            reveal_strlit(", ");
            assert(views_of(out@).drop_last() =~= views_of(o0));
            assert(views_of(out@).last() == v@);
            assert(views_of(out@).len() == o0.len() + 1);
            assert(s@.subrange(i + 1, p2 as int) =~= strs_items(views_of(out@)));
            assert forall|ts: Seq<Seq<char>>|
                strs_at(s@, i as int, ts) implies 1 <= out@.len() <= ts.len() && views_of(out@)
                == ts.take(out@.len() as int) && p2 as int == i + 1 + strs_items(
                ts.take(out@.len() as int),
            ).len() by {
                let k = o0.len() as int;
                lemma_strs_pos(s@, i as int, ts, k);
                if k == ts.len() {
                    assert(s@[p as int] == ']');
                    assert(crate::text::is_at(s@, ", "@, p as int));
                    assert(s@.subrange(p as int, p + 2)[0] == s@[p as int]);
                    assert(false);
                }
                assert(str_at(s@, j as int, ts[k]));
                assert(v@ == ts[k]);
                assert(views_of(out@) =~= ts.take(k + 1));
            }
        }
        p = p2;
    }
}

/// The text that follows the first `k` elements in a nonempty identifier
/// array's item block.
pub open spec fn ids_tail(ts: Seq<u128>, k: int) -> Seq<char>
    decreases ts.len() - k,
{
    if k < 1 || k >= ts.len() {
        Seq::empty()
    } else {
        ", "@ + id_enc(ts[k]) + ids_tail(ts, k + 1)
    }
}

/// The item block splits after any positive number of elements.
proof fn lemma_ids_split(ts: Seq<u128>, k: int)
    requires
        1 <= k <= ts.len(),
    ensures
        ids_items(ts) == ids_items(ts.take(k)) + ids_tail(ts, k),
    decreases ts.len() - k,
{
    if k == ts.len() {
        assert(ts.take(k) =~= ts);
        assert(ids_items(ts) =~= ids_items(ts.take(k)) + ids_tail(ts, k));
    } else {
        lemma_ids_split(ts, k + 1);
        assert(ts.take(k + 1).drop_last() =~= ts.take(k));
        assert(ts.take(k + 1).last() == ts[k]);
        assert(ids_items(ts.take(k + 1)) == ids_items(ts.take(k)) + ", "@ + id_enc(ts[k]));
        assert(ids_items(ts) =~= ids_items(ts.take(k)) + ids_tail(ts, k));
    }
}

/// Whether the text at `i` is exactly the identifier-array encoding of
/// `ts`.
pub open spec fn ids_at(s: Seq<char>, i: int, ts: Seq<u128>) -> bool {
    &&& 0 <= i
    &&& i + ids_arr(ts).len() <= s.len()
    &&& s.subrange(i, i + ids_arr(ts).len() as int) == ids_arr(ts)
}

/// Where the separator or closing bracket after the first `k` elements of
/// a nonempty identifier array sits, and the element that follows.
#[verifier::rlimit(100)]
#[verifier::spinoff_prover]
proof fn lemma_ids_pos(s: Seq<char>, i: int, ts: Seq<u128>, k: int)
    requires
        ids_at(s, i, ts),
        1 <= k <= ts.len(),
    ensures
        ids_arr(ts).len() == 2 + ids_items(ts).len(),
        ids_items(ts.take(k)).len() <= ids_items(ts).len(),
        k < ts.len() ==> crate::text::is_at(s, ", "@, i + 1 + ids_items(ts.take(k)).len() as int),
        k < ts.len() ==> id_at(s, i + 3 + ids_items(ts.take(k)).len() as int, ts[k]),
        k < ts.len() ==> ids_items(ts.take(k + 1)).len() == ids_items(ts.take(k)).len() + 2
            + id_enc(ts[k]).len(),
        k == ts.len() ==> s[i + 1 + ids_items(ts.take(k)).len() as int] == ']',
        k == ts.len() ==> i + 2 + ids_items(ts.take(k)).len() == i + ids_arr(ts).len(),
{
    reveal_strlit(", ");
    lemma_ids_split(ts, k);
    let al = ids_arr(ts).len() as int;
    assert forall|m: int| 0 <= m < al implies s[i + m] == ids_arr(ts)[m] by {
        assert(s.subrange(i, i + al)[m] == s[i + m]);
    }
    let lk = ids_items(ts.take(k)).len() as int;
    if k < ts.len() {
        lemma_ids_pos_step(s, i, ts, k);
    } else {
        assert(ts.take(k) =~= ts);
        assert(s[i + (1 + lk)] == ids_arr(ts)[1 + lk]);
    }
}

/// The separator and element that follow the first `k` of more than `k`
/// elements.
#[verifier::rlimit(100)]
#[verifier::spinoff_prover]
proof fn lemma_ids_pos_step(s: Seq<char>, i: int, ts: Seq<u128>, k: int)
    requires
        ids_at(s, i, ts),
        1 <= k < ts.len(),
        ids_items(ts) == ids_items(ts.take(k)) + ids_tail(ts, k),
    ensures
        crate::text::is_at(s, ", "@, i + 1 + ids_items(ts.take(k)).len() as int),
        id_at(s, i + 3 + ids_items(ts.take(k)).len() as int, ts[k]),
        ids_items(ts.take(k + 1)).len() == ids_items(ts.take(k)).len() + 2 + id_enc(
            ts[k],
        ).len(),
{
    reveal_strlit(", ");
    lemma_id_text_len(ts[k]);
    let lk = ids_items(ts.take(k)).len() as int;
    assert(ts.take(k + 1).drop_last() =~= ts.take(k));
    assert(ts.take(k + 1).last() == ts[k]);
    assert(ids_items(ts.take(k + 1)) == ids_items(ts.take(k)) + ", "@ + id_enc(ts[k]));
    assert(ids_tail(ts, k) == ", "@ + id_enc(ts[k]) + ids_tail(ts, k + 1));
    let el = id_enc(ts[k]).len() as int;
    assert forall|t: int| 0 <= t < 2 implies ids_arr(ts)[1 + lk + t] == ", "@[t] by {
        assert(ids_arr(ts)[1 + lk + t] == ids_items(ts)[lk + t]);
        assert(ids_items(ts)[lk + t] == ids_tail(ts, k)[t]);
    }
    lemma_seq_window(s, i, ids_arr(ts), 1 + lk, ", "@);
    assert forall|t: int| 0 <= t < el implies ids_arr(ts)[3 + lk + t] == id_enc(ts[k])[t] by {
        assert(ids_arr(ts)[3 + lk + t] == ids_items(ts)[lk + 2 + t]);
        assert(ids_items(ts)[lk + 2 + t] == ids_tail(ts, k)[2 + t]);
    }
    lemma_seq_window(s, i, ids_arr(ts), 3 + lk, id_enc(ts[k]));
}

/// Where the opening bracket and first element of a nonempty identifier
/// array sit.
proof fn lemma_ids_first(s: Seq<char>, i: int, ts: Seq<u128>)
    requires
        ids_at(s, i, ts),
        ts.len() >= 1,
    ensures
        s[i] == '[',
        id_at(s, i + 1, ts[0]),
        ids_items(ts.take(1)).len() == id_enc(ts[0]).len(),
{
    let al = ids_arr(ts).len() as int;
    assert forall|m: int| 0 <= m < al implies s[i + m] == ids_arr(ts)[m] by {
        assert(s.subrange(i, i + al)[m] == s[i + m]);
    }
    assert(s[i + 0] == ids_arr(ts)[0]);
    assert(ts.take(1) =~= seq![ts[0]]);
    assert(ids_items(ts.take(1)) == id_enc(ts[0]));
    if ts.len() > 1 {
        lemma_ids_split(ts, 1);
    } else {
        assert(ts.take(1) =~= ts);
    }
    let el = id_enc(ts[0]).len() as int;
    assert forall|t: int| 0 <= t < el implies s.subrange(i + 1, i + 1 + el)[t] == id_enc(
        ts[0],
    )[t] by {
        assert(s.subrange(i + 1, i + 1 + el)[t] == s[i + (1 + t)]);
        assert(ids_arr(ts)[1 + t] == ids_items(ts)[t]);
        if ts.len() > 1 {
            assert(ids_items(ts)[t] == ids_items(ts.take(1))[t]);
        }
        assert(ids_items(ts.take(1))[t] == id_enc(ts[0])[t]);
    }
    assert(s.subrange(i + 1, i + 1 + el) =~= id_enc(ts[0]));
    assert(crate::ids::id_text(ts[0]).len() == 36) by {
        lemma_id_text_len(ts[0]);
    }
}

/// The hyphenated identifier rendering is always 36 characters.
proof fn lemma_id_text_len(x: u128)
    ensures
        crate::ids::id_text(x).len() == 36,
{
    lemma_hex_seq_shape(x as int / 0x1_0000_0000_0000_0000_0000_0000, 8);
    lemma_hex_seq_shape(x as int / 0x1_0000_0000_0000_0000_0000 % 0x1_0000, 4);
    lemma_hex_seq_shape(x as int / 0x1_0000_0000_0000_0000 % 0x1_0000, 4);
    lemma_hex_seq_shape(x as int / 0x1_0000_0000_0000 % 0x1_0000, 4);
    lemma_hex_seq_shape(x as int % 0x1_0000_0000_0000, 12);
    vstd::arithmetic::div_mod::lemma_fundamental_div_mod(
        x as int,
        0x1_0000_0000_0000_0000_0000_0000,
    );
    vstd::arithmetic::div_mod::lemma_fundamental_div_mod(x as int, 0x1_0000_0000_0000);
}

#[verifier::rlimit(100)]
#[verifier::spinoff_prover]
fn parse_ids_at(s: &str, i: usize) -> (r: Option<(Vec<u128>, usize)>)
    ensures
        r matches Some(p) ==> i < p.1 <= s@.len() && s@.subrange(i as int, p.1 as int) == ids_arr(
            p.0@,
        ),
        forall|ts: Seq<u128>| ids_at(s@, i as int, ts) ==> (r matches Some(p) && p.0@ == ts && (
        p.1 as int) == i + ids_arr(ts).len()),
{
    let n = s.unicode_len();
    if i >= n || s.get_char(i) != '[' {
        proof {
            assert forall|ts: Seq<u128>| !ids_at(s@, i as int, ts) by {
                if ids_at(s@, i as int, ts) {
                    assert(s@.subrange(i as int, i + ids_arr(ts).len() as int)[0] == s@[
                        i as int]);
                }
            }
        }
        return None;
    }
    let mut out: Vec<u128> = Vec::new();
    if i + 1 < n && s.get_char(i + 1) == ']' {
        proof {
            assert(s@.subrange(i as int, i + 2) =~= ids_arr(out@));
            assert forall|ts: Seq<u128>| ids_at(s@, i as int, ts) implies out@ == ts by {
                if ts.len() >= 1 {
                    lemma_ids_first(s@, i as int, ts);
                    assert(id_enc(ts[0])[0] == '"');
                    assert(s@.subrange(i + 1, i + 1 + id_enc(ts[0]).len() as int)[0] == s@[
                        i + 1]);
                    assert(false);
                }
                assert(out@ =~= ts);
            }
        }
        return Some((out, i + 2));
    }
    proof {
        assert forall|ts: Seq<u128>| ids_at(s@, i as int, ts) implies ts.len() >= 1 by {
            if ts.len() == 0 {
                assert(ids_arr(ts).len() == 2);
                assert(s@.subrange(i as int, i + 2)[1] == s@[i + 1]);
                assert(ids_arr(ts)[1] == ']');
            }
        }
    }
    let (v0, mut p) = match parse_id_at(s, i + 1) {
        Some(q) => q,
        None => {
            proof {
                assert forall|ts: Seq<u128>| !ids_at(s@, i as int, ts) by {
                    if ids_at(s@, i as int, ts) {
                        lemma_ids_first(s@, i as int, ts);
                    }
                }
            }
            return None;
        },
    };
    out.push(v0);
    proof {
        assert(out@ =~= seq![v0]);
        assert(s@.subrange(i + 1, p as int) =~= ids_items(out@));
        assert forall|ts: Seq<u128>|
            ids_at(s@, i as int, ts) implies 1 <= out@.len() <= ts.len() && out@ == ts.take(
            out@.len() as int,
        ) && p as int == i + 1 + ids_items(ts.take(out@.len() as int)).len() by {
            lemma_ids_first(s@, i as int, ts);
            lemma_id_text_len(ts[0]);
            assert(out@ =~= ts.take(1));
        }
    }
    loop
        invariant
            n == s@.len(),
            i + 1 < p <= n,
            out@.len() >= 1,
            s@[i as int] == '[',
            s@.subrange(i + 1, p as int) == ids_items(out@),
            forall|ts: Seq<u128>| ids_at(s@, i as int, ts) ==> (1 <= out@.len() <= ts.len()
                && out@ == ts.take(out@.len() as int) && p as int == i + 1 + ids_items(
                ts.take(out@.len() as int),
            ).len()),
        decreases n - p,
    {
        if p < n && s.get_char(p) == ']' {
            proof {
                assert(s@.subrange(i as int, p + 1) =~= seq![s@[i as int]] + s@.subrange(
                    i + 1,
                    p as int,
                ) + seq![s@[p as int]]);
                assert(s@.subrange(i as int, p + 1) =~= ids_arr(out@));
                reveal_strlit(", ");
                assert forall|ts: Seq<u128>|
                    ids_at(s@, i as int, ts) implies out@ == ts && (p + 1) == i + ids_arr(
                    ts,
                ).len() by {
                    let k = out@.len() as int;
                    lemma_ids_pos(s@, i as int, ts, k);
                    if k < ts.len() {
                        assert(s@.subrange(p as int, p + 2)[0] == s@[p as int]);
                        assert(crate::text::is_at(s@, ", "@, p as int));
                        assert(false);
                    }
                    assert(ts.take(k) =~= ts);
                }
            }
            return Some((out, p + 1));
        }
        let j = match expect_lit(s, p, ", ") {
            Some(j) => j,
            None => {
                proof {
                    reveal_strlit(", ");
                    assert forall|ts: Seq<u128>| !ids_at(s@, i as int, ts) by {
                        if ids_at(s@, i as int, ts) {
                            let k = out@.len() as int;
                            lemma_ids_pos(s@, i as int, ts, k);
                            if k == ts.len() {
                                assert(s@[p as int] == ']');
                                assert(p < n);
                                assert(false);
                            }
                        }
                    }
                }
                return None;
            },
        };
        let (v, p2) = match parse_id_at(s, j) {
            Some(q) => q,
            None => {
                proof {
                    reveal_strlit(", ");
                    assert forall|ts: Seq<u128>| !ids_at(s@, i as int, ts) by {
                        if ids_at(s@, i as int, ts) {
                            let k = out@.len() as int;
                            lemma_ids_pos(s@, i as int, ts, k);
                            if k == ts.len() {
                                assert(s@[p as int] == ']');
                                assert(crate::text::is_at(s@, ", "@, p as int));
                                assert(s@.subrange(p as int, p + 2)[0] == s@[p as int]);
                                assert(false);
                            }
                            assert(id_at(s@, j as int, ts[k]));
                            lemma_id_text_len(ts[k]);
                        }
                    }
                }
                return None;
            },
        };
        let ghost o0 = out@;
        out.push(v);
        proof {
            reveal_strlit(", ");
            assert(out@.drop_last() =~= o0);
            assert(s@.subrange(i + 1, p2 as int) =~= ids_items(out@));
            assert forall|ts: Seq<u128>|
                ids_at(s@, i as int, ts) implies 1 <= out@.len() <= ts.len() && out@ == ts.take(
                out@.len() as int,
            ) && p2 as int == i + 1 + ids_items(ts.take(out@.len() as int)).len() by {
                let k = o0.len() as int;
                lemma_ids_pos(s@, i as int, ts, k);
                if k == ts.len() {
                    assert(s@[p as int] == ']');
                    assert(crate::text::is_at(s@, ", "@, p as int));
                    assert(s@.subrange(p as int, p + 2)[0] == s@[p as int]);
                    assert(false);
                }
                assert(id_at(s@, j as int, ts[k]));
                lemma_id_text_len(ts[k]);
                assert(v == ts[k]);
                assert(out@ =~= ts.take(k + 1));
            }
        }
        p = p2;
    }
}

/// Whether the text at `i` is exactly the optional-number encoding of
/// `o`, ended by the text's end or a non-digit.
pub open spec fn opt_int_at(s: Seq<char>, i: int, o: Option<i64>) -> bool {
    match o {
        Some(x) => int_at(s, i, x),
        None => 0 <= i && i + 4 <= s.len() && s.subrange(i, i + 4) == "null"@,
    }
}

fn parse_opt_int_at(s: &str, i: usize) -> (r: Option<(Option<i64>, usize)>)
    ensures
        r matches Some(p) ==> i < p.1 <= s@.len() && s@.subrange(i as int, p.1 as int)
            == opt_int_enc(
            match p.0 {
                Some(v) => Some(v as int),
                None => None,
            },
        ),
        forall|o: Option<i64>| opt_int_at(s@, i as int, o) ==> (r matches Some(p) && p.0 == o
            && p.1 as int == i + (match o {
            Some(x) => int_enc(x as int).len(),
            None => 4,
        })),
{
    proof {
        reveal_strlit("null");
    }
    match expect_lit(s, i, "null") {
        Some(j) => {
            proof {
                assert forall|o: Option<i64>| opt_int_at(s@, i as int, o) implies o is None by {
                    match o {
                        Some(x) => {
                            if x >= 0 {
                                lemma_dec_digits_shape(x as int);
                            } else {
                                lemma_dec_digits_shape(-(x as int));
                            }
                            assert(s@.subrange(i as int, i + int_enc(x as int).len() as int)[0]
                                == s@[i as int]);
                            assert(s@.subrange(i as int, i + 4)[0] == s@[i as int]);
                            assert(false);
                        },
                        None => {},
                    }
                }
            }
            Some((None, j))
        },
        None => {
            proof {
                assert forall|o: Option<i64>| opt_int_at(s@, i as int, o) implies o is Some by {
                    if o is None {
                        assert(crate::text::is_at(s@, "null"@, i as int));
                        assert(false);
                    }
                }
            }
            match parse_int_at(s, i) {
                Some((v, j)) => Some((Some(v), j)),
                None => None,
            }
        },
    }
}

/// Whether the text at `i` is exactly the optional-identifier encoding
/// of `o`.
pub open spec fn opt_id_at(s: Seq<char>, i: int, o: Option<u128>) -> bool {
    match o {
        Some(x) => id_at(s, i, x),
        None => 0 <= i && i + 4 <= s.len() && s.subrange(i, i + 4) == "null"@,
    }
}

fn parse_opt_id_at(s: &str, i: usize) -> (r: Option<(Option<u128>, usize)>)
    ensures
        r matches Some(p) ==> i < p.1 <= s@.len() && s@.subrange(i as int, p.1 as int)
            == opt_id_enc(p.0),
        forall|o: Option<u128>| opt_id_at(s@, i as int, o) ==> (r matches Some(p) && p.0 == o
            && p.1 as int == i + (match o {
            Some(_) => 38int,
            None => 4int,
        })),
{
    proof {
        reveal_strlit("null");
    }
    match expect_lit(s, i, "null") {
        Some(j) => {
            proof {
                assert forall|o: Option<u128>| opt_id_at(s@, i as int, o) implies o is None by {
                    match o {
                        Some(x) => {
                            lemma_id_pieces(s@, i as int, x);
                            assert(s@.subrange(i as int, i + 4)[0] == s@[i as int]);
                            assert(false);
                        },
                        None => {},
                    }
                }
            }
            Some((None, j))
        },
        None => {
            proof {
                assert forall|o: Option<u128>| opt_id_at(s@, i as int, o) implies o is Some by {
                    if o is None {
                        assert(crate::text::is_at(s@, "null"@, i as int));
                        assert(false);
                    }
                }
            }
            match parse_id_at(s, i) {
                Some((v, j)) => Some((Some(v), j)),
                None => None,
            }
        },
    }
}

fn expect_char(s: &str, i: usize, c: char) -> (r: bool)
    ensures
        r <==> (i < s@.len() && s@[i as int] == c),
{
    let n = s.unicode_len();
    i < n && s.get_char(i) == c
}

/// Whether the text at `i` is exactly the quoted name `nm`.
pub open spec fn name_at(s: Seq<char>, i: int, nm: Seq<char>) -> bool {
    &&& 0 <= i
    &&& i + nm.len() + 2 <= s.len()
    &&& s.subrange(i, i + nm.len() + 2) == name_enc(nm)
}

/// Where the characters of a quoted name sit inside the text.
proof fn lemma_name_at_chars(s: Seq<char>, i: int, nm: Seq<char>)
    requires
        name_at(s, i, nm),
    ensures
        s[i] == '"',
        forall|t: int| 0 <= t < nm.len() ==> s[i + 1 + t] == nm[t],
        s[i + 1 + nm.len()] == '"',
        crate::text::is_at(s, nm, i + 1),
{
    let l = nm.len() as int;
    assert forall|m: int| 0 <= m < l + 2 implies s[i + m] == name_enc(nm)[m] by {
        assert(s.subrange(i, i + l + 2)[m] == s[i + m]);
    }
    assert(s[i + 0] == name_enc(nm)[0]);
    assert(s[i + 1 + l] == name_enc(nm)[1 + l]);
    assert forall|t: int| 0 <= t < l implies s[i + 1 + t] == nm[t] by {
        assert(s[i + (1 + t)] == name_enc(nm)[1 + t]);
    }
    assert(s.subrange(i + 1, i + 1 + l) =~= nm);
}

#[verifier::rlimit(100)]
#[verifier::spinoff_prover]
fn parse_idea_status_at(s: &str, i: usize) -> (r: Option<(crate::idea::IdeaStatus, usize)>)
    ensures
        r matches Some(p) ==> i < p.1 <= s@.len() && s@.subrange(i as int, p.1 as int)
            == name_enc(p.0.spec_name()),
        forall|st: crate::idea::IdeaStatus| name_at(s@, i as int, st.spec_name()) ==> (r matches Some(p)
            && p.0 == st && p.1 as int == i + st.spec_name().len() + 2),
{
    let n = s.unicode_len();
    if i >= n {
        proof {
            assert forall|st: crate::idea::IdeaStatus| !name_at(s@, i as int, st.spec_name()) by {
                if name_at(s@, i as int, st.spec_name()) {
                    lemma_name_at_chars(s@, i as int, st.spec_name());
                }
            }
        }
        return None;
    }
    if !expect_char(s, i, '"') {
        proof {
            assert forall|st: crate::idea::IdeaStatus| !name_at(s@, i as int, st.spec_name()) by {
                if name_at(s@, i as int, st.spec_name()) {
                    lemma_name_at_chars(s@, i as int, st.spec_name());
                }
            }
        }
        return None;
    }
    let (st, j): (crate::idea::IdeaStatus, usize) = if let Some(j) = expect_lit(s, i + 1, "Brainstorming") {
        (crate::idea::IdeaStatus::Brainstorming, j)
    } else if let Some(j) = expect_lit(s, i + 1, "Active") {
        (crate::idea::IdeaStatus::Active, j)
    } else if let Some(j) = expect_lit(s, i + 1, "Completed") {
        (crate::idea::IdeaStatus::Completed, j)
    } else if let Some(j) = expect_lit(s, i + 1, "Archived") {
        (crate::idea::IdeaStatus::Archived, j)
    } else {
        proof {
            assert forall|st: crate::idea::IdeaStatus| !name_at(s@, i as int, st.spec_name()) by {
                if name_at(s@, i as int, st.spec_name()) {
                    lemma_name_at_chars(s@, i as int, st.spec_name());
                }
            }
        }
        return None;
    };
    proof {
        assert forall|u: crate::idea::IdeaStatus|
            name_at(s@, i as int, u.spec_name()) implies u == st by {
            lemma_name_at_chars(s@, i as int, u.spec_name());
            reveal_strlit("Brainstorming");
            reveal_strlit("Active");
            reveal_strlit("Completed");
            reveal_strlit("Archived");
            match st {
                crate::idea::IdeaStatus::Brainstorming => {
                    match u {
                        crate::idea::IdeaStatus::Brainstorming => {},
                        crate::idea::IdeaStatus::Active => {
                            assert(s@[i + 1 + 0] == u.spec_name()[0]);
                            assert(s@.subrange(i + 1, i + 1 + 13)[0] == s@[i + 1 + 0]);
                            assert(false);
                        },
                        crate::idea::IdeaStatus::Completed => {
                            assert(s@[i + 1 + 0] == u.spec_name()[0]);
                            assert(s@.subrange(i + 1, i + 1 + 13)[0] == s@[i + 1 + 0]);
                            assert(false);
                        },
                        crate::idea::IdeaStatus::Archived => {
                            assert(s@[i + 1 + 0] == u.spec_name()[0]);
                            assert(s@.subrange(i + 1, i + 1 + 13)[0] == s@[i + 1 + 0]);
                            assert(false);
                        },
                    }
                },
                crate::idea::IdeaStatus::Active => {
                    match u {
                        crate::idea::IdeaStatus::Brainstorming => {
                            assert(s@[i + 1 + 0] == u.spec_name()[0]);
                            assert(s@.subrange(i + 1, i + 1 + 6)[0] == s@[i + 1 + 0]);
                            assert(false);
                        },
                        crate::idea::IdeaStatus::Active => {},
                        crate::idea::IdeaStatus::Completed => {
                            assert(s@[i + 1 + 0] == u.spec_name()[0]);
                            assert(s@.subrange(i + 1, i + 1 + 6)[0] == s@[i + 1 + 0]);
                            assert(false);
                        },
                        crate::idea::IdeaStatus::Archived => {
                            assert(s@[i + 1 + 1] == u.spec_name()[1]);
                            assert(s@.subrange(i + 1, i + 1 + 6)[1] == s@[i + 1 + 1]);
                            assert(false);
                        },
                    }
                },
                crate::idea::IdeaStatus::Completed => {
                    match u {
                        crate::idea::IdeaStatus::Brainstorming => {
                            assert(s@[i + 1 + 0] == u.spec_name()[0]);
                            assert(s@.subrange(i + 1, i + 1 + 9)[0] == s@[i + 1 + 0]);
                            assert(false);
                        },
                        crate::idea::IdeaStatus::Active => {
                            assert(s@[i + 1 + 0] == u.spec_name()[0]);
                            assert(s@.subrange(i + 1, i + 1 + 9)[0] == s@[i + 1 + 0]);
                            assert(false);
                        },
                        crate::idea::IdeaStatus::Completed => {},
                        crate::idea::IdeaStatus::Archived => {
                            assert(s@[i + 1 + 0] == u.spec_name()[0]);
                            assert(s@.subrange(i + 1, i + 1 + 9)[0] == s@[i + 1 + 0]);
                            assert(false);
                        },
                    }
                },
                crate::idea::IdeaStatus::Archived => {
                    match u {
                        crate::idea::IdeaStatus::Brainstorming => {
                            assert(s@[i + 1 + 0] == u.spec_name()[0]);
                            assert(s@.subrange(i + 1, i + 1 + 8)[0] == s@[i + 1 + 0]);
                            assert(false);
                        },
                        crate::idea::IdeaStatus::Active => {
                            assert(s@[i + 1 + 1] == u.spec_name()[1]);
                            assert(s@.subrange(i + 1, i + 1 + 8)[1] == s@[i + 1 + 1]);
                            assert(false);
                        },
                        crate::idea::IdeaStatus::Completed => {
                            assert(s@[i + 1 + 0] == u.spec_name()[0]);
                            assert(s@.subrange(i + 1, i + 1 + 8)[0] == s@[i + 1 + 0]);
                            assert(false);
                        },
                        crate::idea::IdeaStatus::Archived => {},
                    }
                },
            }
        }
    }
    if !expect_char(s, j, '"') {
        proof {
            assert forall|u: crate::idea::IdeaStatus| !name_at(s@, i as int, u.spec_name()) by {
                if name_at(s@, i as int, u.spec_name()) {
                    lemma_name_at_chars(s@, i as int, u.spec_name());
                }
            }
        }
        return None;
    }
    proof {
        assert(s@.subrange(i as int, j + 1) =~= name_enc(st.spec_name()));
        assert forall|u: crate::idea::IdeaStatus|
            name_at(s@, i as int, u.spec_name()) implies (j + 1) == i + u.spec_name().len()
            + 2 by {
            lemma_name_at_chars(s@, i as int, u.spec_name());
        }
    }
    Some((st, j + 1))
}


#[verifier::rlimit(100)]
#[verifier::spinoff_prover]
fn parse_project_status_at(s: &str, i: usize) -> (r: Option<(crate::project::ProjectStatus, usize)>)
    ensures
        r matches Some(p) ==> i < p.1 <= s@.len() && s@.subrange(i as int, p.1 as int)
            == name_enc(p.0.spec_name()),
        forall|st: crate::project::ProjectStatus| name_at(s@, i as int, st.spec_name()) ==> (r matches Some(p)
            && p.0 == st && p.1 as int == i + st.spec_name().len() + 2),
{
    let n = s.unicode_len();
    if i >= n {
        proof {
            assert forall|st: crate::project::ProjectStatus| !name_at(s@, i as int, st.spec_name()) by {
                if name_at(s@, i as int, st.spec_name()) {
                    lemma_name_at_chars(s@, i as int, st.spec_name());
                }
            }
        }
        return None;
    }
    if !expect_char(s, i, '"') {
        proof {
            assert forall|st: crate::project::ProjectStatus| !name_at(s@, i as int, st.spec_name()) by {
                if name_at(s@, i as int, st.spec_name()) {
                    lemma_name_at_chars(s@, i as int, st.spec_name());
                }
            }
        }
        return None;
    }
    let (st, j): (crate::project::ProjectStatus, usize) = if let Some(j) = expect_lit(s, i + 1, "Planning") {
        (crate::project::ProjectStatus::Planning, j)
    } else if let Some(j) = expect_lit(s, i + 1, "InProgress") {
        (crate::project::ProjectStatus::InProgress, j)
    } else if let Some(j) = expect_lit(s, i + 1, "Completed") {
        (crate::project::ProjectStatus::Completed, j)
    } else if let Some(j) = expect_lit(s, i + 1, "OnHold") {
        (crate::project::ProjectStatus::OnHold, j)
    } else {
        proof {
            assert forall|st: crate::project::ProjectStatus| !name_at(s@, i as int, st.spec_name()) by {
                if name_at(s@, i as int, st.spec_name()) {
                    lemma_name_at_chars(s@, i as int, st.spec_name());
                }
            }
        }
        return None;
    };
    proof {
        assert forall|u: crate::project::ProjectStatus|
            name_at(s@, i as int, u.spec_name()) implies u == st by {
            lemma_name_at_chars(s@, i as int, u.spec_name());
            reveal_strlit("Planning");
            reveal_strlit("InProgress");
            reveal_strlit("Completed");
            reveal_strlit("OnHold");
            match st {
                crate::project::ProjectStatus::Planning => {
                    match u {
                        crate::project::ProjectStatus::Planning => {},
                        crate::project::ProjectStatus::InProgress => {
                            assert(s@[i + 1 + 0] == u.spec_name()[0]);
                            assert(s@.subrange(i + 1, i + 1 + 8)[0] == s@[i + 1 + 0]);
                            assert(false);
                        },
                        crate::project::ProjectStatus::Completed => {
                            assert(s@[i + 1 + 0] == u.spec_name()[0]);
                            assert(s@.subrange(i + 1, i + 1 + 8)[0] == s@[i + 1 + 0]);
                            assert(false);
                        },
                        crate::project::ProjectStatus::OnHold => {
                            assert(s@[i + 1 + 0] == u.spec_name()[0]);
                            assert(s@.subrange(i + 1, i + 1 + 8)[0] == s@[i + 1 + 0]);
                            assert(false);
                        },
                    }
                },
                crate::project::ProjectStatus::InProgress => {
                    match u {
                        crate::project::ProjectStatus::Planning => {
                            assert(s@[i + 1 + 0] == u.spec_name()[0]);
                            assert(s@.subrange(i + 1, i + 1 + 10)[0] == s@[i + 1 + 0]);
                            assert(false);
                        },
                        crate::project::ProjectStatus::InProgress => {},
                        crate::project::ProjectStatus::Completed => {
                            assert(s@[i + 1 + 0] == u.spec_name()[0]);
                            assert(s@.subrange(i + 1, i + 1 + 10)[0] == s@[i + 1 + 0]);
                            assert(false);
                        },
                        crate::project::ProjectStatus::OnHold => {
                            assert(s@[i + 1 + 0] == u.spec_name()[0]);
                            assert(s@.subrange(i + 1, i + 1 + 10)[0] == s@[i + 1 + 0]);
                            assert(false);
                        },
                    }
                },
                crate::project::ProjectStatus::Completed => {
                    match u {
                        crate::project::ProjectStatus::Planning => {
                            assert(s@[i + 1 + 0] == u.spec_name()[0]);
                            assert(s@.subrange(i + 1, i + 1 + 9)[0] == s@[i + 1 + 0]);
                            assert(false);
                        },
                        crate::project::ProjectStatus::InProgress => {
                            assert(s@[i + 1 + 0] == u.spec_name()[0]);
                            assert(s@.subrange(i + 1, i + 1 + 9)[0] == s@[i + 1 + 0]);
                            assert(false);
                        },
                        crate::project::ProjectStatus::Completed => {},
                        crate::project::ProjectStatus::OnHold => {
                            assert(s@[i + 1 + 0] == u.spec_name()[0]);
                            assert(s@.subrange(i + 1, i + 1 + 9)[0] == s@[i + 1 + 0]);
                            assert(false);
                        },
                    }
                },
                crate::project::ProjectStatus::OnHold => {
                    match u {
                        crate::project::ProjectStatus::Planning => {
                            assert(s@[i + 1 + 0] == u.spec_name()[0]);
                            assert(s@.subrange(i + 1, i + 1 + 6)[0] == s@[i + 1 + 0]);
                            assert(false);
                        },
                        crate::project::ProjectStatus::InProgress => {
                            assert(s@[i + 1 + 0] == u.spec_name()[0]);
                            assert(s@.subrange(i + 1, i + 1 + 6)[0] == s@[i + 1 + 0]);
                            assert(false);
                        },
                        crate::project::ProjectStatus::Completed => {
                            assert(s@[i + 1 + 0] == u.spec_name()[0]);
                            assert(s@.subrange(i + 1, i + 1 + 6)[0] == s@[i + 1 + 0]);
                            assert(false);
                        },
                        crate::project::ProjectStatus::OnHold => {},
                    }
                },
            }
        }
    }
    if !expect_char(s, j, '"') {
        proof {
            assert forall|u: crate::project::ProjectStatus| !name_at(s@, i as int, u.spec_name()) by {
                if name_at(s@, i as int, u.spec_name()) {
                    lemma_name_at_chars(s@, i as int, u.spec_name());
                }
            }
        }
        return None;
    }
    proof {
        assert(s@.subrange(i as int, j + 1) =~= name_enc(st.spec_name()));
        assert forall|u: crate::project::ProjectStatus|
            name_at(s@, i as int, u.spec_name()) implies (j + 1) == i + u.spec_name().len()
            + 2 by {
            lemma_name_at_chars(s@, i as int, u.spec_name());
        }
    }
    Some((st, j + 1))
}


#[verifier::rlimit(100)]
#[verifier::spinoff_prover]
fn parse_task_status_at(s: &str, i: usize) -> (r: Option<(crate::task::TaskStatus, usize)>)
    ensures
        r matches Some(p) ==> i < p.1 <= s@.len() && s@.subrange(i as int, p.1 as int)
            == name_enc(p.0.spec_name()),
        forall|st: crate::task::TaskStatus| name_at(s@, i as int, st.spec_name()) ==> (r matches Some(p)
            && p.0 == st && p.1 as int == i + st.spec_name().len() + 2),
{
    let n = s.unicode_len();
    if i >= n {
        proof {
            assert forall|st: crate::task::TaskStatus| !name_at(s@, i as int, st.spec_name()) by {
                if name_at(s@, i as int, st.spec_name()) {
                    lemma_name_at_chars(s@, i as int, st.spec_name());
                }
            }
        }
        return None;
    }
    if !expect_char(s, i, '"') {
        proof {
            assert forall|st: crate::task::TaskStatus| !name_at(s@, i as int, st.spec_name()) by {
                if name_at(s@, i as int, st.spec_name()) {
                    lemma_name_at_chars(s@, i as int, st.spec_name());
                }
            }
        }
        return None;
    }
    let (st, j): (crate::task::TaskStatus, usize) = if let Some(j) = expect_lit(s, i + 1, "Todo") {
        (crate::task::TaskStatus::Todo, j)
    } else if let Some(j) = expect_lit(s, i + 1, "InProgress") {
        (crate::task::TaskStatus::InProgress, j)
    } else if let Some(j) = expect_lit(s, i + 1, "Blocked") {
        (crate::task::TaskStatus::Blocked, j)
    } else if let Some(j) = expect_lit(s, i + 1, "Done") {
        (crate::task::TaskStatus::Done, j)
    } else if let Some(j) = expect_lit(s, i + 1, "Cancelled") {
        (crate::task::TaskStatus::Cancelled, j)
    } else {
        proof {
            assert forall|st: crate::task::TaskStatus| !name_at(s@, i as int, st.spec_name()) by {
                if name_at(s@, i as int, st.spec_name()) {
                    lemma_name_at_chars(s@, i as int, st.spec_name());
                }
            }
        }
        return None;
    };
    proof {
        assert forall|u: crate::task::TaskStatus|
            name_at(s@, i as int, u.spec_name()) implies u == st by {
            lemma_name_at_chars(s@, i as int, u.spec_name());
            reveal_strlit("Todo");
            reveal_strlit("InProgress");
            reveal_strlit("Blocked");
            reveal_strlit("Done");
            reveal_strlit("Cancelled");
            match st {
                crate::task::TaskStatus::Todo => {
                    match u {
                        crate::task::TaskStatus::Todo => {},
                        crate::task::TaskStatus::InProgress => {
                            assert(s@[i + 1 + 0] == u.spec_name()[0]);
                            assert(s@.subrange(i + 1, i + 1 + 4)[0] == s@[i + 1 + 0]);
                            assert(false);
                        },
                        crate::task::TaskStatus::Blocked => {
                            assert(s@[i + 1 + 0] == u.spec_name()[0]);
                            assert(s@.subrange(i + 1, i + 1 + 4)[0] == s@[i + 1 + 0]);
                            assert(false);
                        },
                        crate::task::TaskStatus::Done => {
                            assert(s@[i + 1 + 0] == u.spec_name()[0]);
                            assert(s@.subrange(i + 1, i + 1 + 4)[0] == s@[i + 1 + 0]);
                            assert(false);
                        },
                        crate::task::TaskStatus::Cancelled => {
                            assert(s@[i + 1 + 0] == u.spec_name()[0]);
                            assert(s@.subrange(i + 1, i + 1 + 4)[0] == s@[i + 1 + 0]);
                            assert(false);
                        },
                    }
                },
                crate::task::TaskStatus::InProgress => {
                    match u {
                        crate::task::TaskStatus::Todo => {
                            assert(s@[i + 1 + 0] == u.spec_name()[0]);
                            assert(s@.subrange(i + 1, i + 1 + 10)[0] == s@[i + 1 + 0]);
                            assert(false);
                        },
                        crate::task::TaskStatus::InProgress => {},
                        crate::task::TaskStatus::Blocked => {
                            assert(s@[i + 1 + 0] == u.spec_name()[0]);
                            assert(s@.subrange(i + 1, i + 1 + 10)[0] == s@[i + 1 + 0]);
                            assert(false);
                        },
                        crate::task::TaskStatus::Done => {
                            assert(s@[i + 1 + 0] == u.spec_name()[0]);
                            assert(s@.subrange(i + 1, i + 1 + 10)[0] == s@[i + 1 + 0]);
                            assert(false);
                        },
                        crate::task::TaskStatus::Cancelled => {
                            assert(s@[i + 1 + 0] == u.spec_name()[0]);
                            assert(s@.subrange(i + 1, i + 1 + 10)[0] == s@[i + 1 + 0]);
                            assert(false);
                        },
                    }
                },
                crate::task::TaskStatus::Blocked => {
                    match u {
                        crate::task::TaskStatus::Todo => {
                            assert(s@[i + 1 + 0] == u.spec_name()[0]);
                            assert(s@.subrange(i + 1, i + 1 + 7)[0] == s@[i + 1 + 0]);
                            assert(false);
                        },
                        crate::task::TaskStatus::InProgress => {
                            assert(s@[i + 1 + 0] == u.spec_name()[0]);
                            assert(s@.subrange(i + 1, i + 1 + 7)[0] == s@[i + 1 + 0]);
                            assert(false);
                        },
                        crate::task::TaskStatus::Blocked => {},
                        crate::task::TaskStatus::Done => {
                            assert(s@[i + 1 + 0] == u.spec_name()[0]);
                            assert(s@.subrange(i + 1, i + 1 + 7)[0] == s@[i + 1 + 0]);
                            assert(false);
                        },
                        crate::task::TaskStatus::Cancelled => {
                            assert(s@[i + 1 + 0] == u.spec_name()[0]);
                            assert(s@.subrange(i + 1, i + 1 + 7)[0] == s@[i + 1 + 0]);
                            assert(false);
                        },
                    }
                },
                crate::task::TaskStatus::Done => {
                    match u {
                        crate::task::TaskStatus::Todo => {
                            assert(s@[i + 1 + 0] == u.spec_name()[0]);
                            assert(s@.subrange(i + 1, i + 1 + 4)[0] == s@[i + 1 + 0]);
                            assert(false);
                        },
                        crate::task::TaskStatus::InProgress => {
                            assert(s@[i + 1 + 0] == u.spec_name()[0]);
                            assert(s@.subrange(i + 1, i + 1 + 4)[0] == s@[i + 1 + 0]);
                            assert(false);
                        },
                        crate::task::TaskStatus::Blocked => {
                            assert(s@[i + 1 + 0] == u.spec_name()[0]);
                            assert(s@.subrange(i + 1, i + 1 + 4)[0] == s@[i + 1 + 0]);
                            assert(false);
                        },
                        crate::task::TaskStatus::Done => {},
                        crate::task::TaskStatus::Cancelled => {
                            assert(s@[i + 1 + 0] == u.spec_name()[0]);
                            assert(s@.subrange(i + 1, i + 1 + 4)[0] == s@[i + 1 + 0]);
                            assert(false);
                        },
                    }
                },
                crate::task::TaskStatus::Cancelled => {
                    match u {
                        crate::task::TaskStatus::Todo => {
                            assert(s@[i + 1 + 0] == u.spec_name()[0]);
                            assert(s@.subrange(i + 1, i + 1 + 9)[0] == s@[i + 1 + 0]);
                            assert(false);
                        },
                        crate::task::TaskStatus::InProgress => {
                            assert(s@[i + 1 + 0] == u.spec_name()[0]);
                            assert(s@.subrange(i + 1, i + 1 + 9)[0] == s@[i + 1 + 0]);
                            assert(false);
                        },
                        crate::task::TaskStatus::Blocked => {
                            assert(s@[i + 1 + 0] == u.spec_name()[0]);
                            assert(s@.subrange(i + 1, i + 1 + 9)[0] == s@[i + 1 + 0]);
                            assert(false);
                        },
                        crate::task::TaskStatus::Done => {
                            assert(s@[i + 1 + 0] == u.spec_name()[0]);
                            assert(s@.subrange(i + 1, i + 1 + 9)[0] == s@[i + 1 + 0]);
                            assert(false);
                        },
                        crate::task::TaskStatus::Cancelled => {},
                    }
                },
            }
        }
    }
    if !expect_char(s, j, '"') {
        proof {
            assert forall|u: crate::task::TaskStatus| !name_at(s@, i as int, u.spec_name()) by {
                if name_at(s@, i as int, u.spec_name()) {
                    lemma_name_at_chars(s@, i as int, u.spec_name());
                }
            }
        }
        return None;
    }
    proof {
        assert(s@.subrange(i as int, j + 1) =~= name_enc(st.spec_name()));
        assert forall|u: crate::task::TaskStatus|
            name_at(s@, i as int, u.spec_name()) implies (j + 1) == i + u.spec_name().len()
            + 2 by {
            lemma_name_at_chars(s@, i as int, u.spec_name());
        }
    }
    Some((st, j + 1))
}


#[verifier::rlimit(100)]
#[verifier::spinoff_prover]
fn parse_priority_at(s: &str, i: usize) -> (r: Option<(crate::task::TaskPriority, usize)>)
    ensures
        r matches Some(p) ==> i < p.1 <= s@.len() && s@.subrange(i as int, p.1 as int)
            == name_enc(p.0.spec_name()),
        forall|st: crate::task::TaskPriority| name_at(s@, i as int, st.spec_name()) ==> (r matches Some(p)
            && p.0 == st && p.1 as int == i + st.spec_name().len() + 2),
{
    let n = s.unicode_len();
    if i >= n {
        proof {
            assert forall|st: crate::task::TaskPriority| !name_at(s@, i as int, st.spec_name()) by {
                if name_at(s@, i as int, st.spec_name()) {
                    lemma_name_at_chars(s@, i as int, st.spec_name());
                }
            }
        }
        return None;
    }
    if !expect_char(s, i, '"') {
        proof {
            assert forall|st: crate::task::TaskPriority| !name_at(s@, i as int, st.spec_name()) by {
                if name_at(s@, i as int, st.spec_name()) {
                    lemma_name_at_chars(s@, i as int, st.spec_name());
                }
            }
        }
        return None;
    }
    let (st, j): (crate::task::TaskPriority, usize) = if let Some(j) = expect_lit(s, i + 1, "Low") {
        (crate::task::TaskPriority::Low, j)
    } else if let Some(j) = expect_lit(s, i + 1, "Medium") {
        (crate::task::TaskPriority::Medium, j)
    } else if let Some(j) = expect_lit(s, i + 1, "High") {
        (crate::task::TaskPriority::High, j)
    } else if let Some(j) = expect_lit(s, i + 1, "Urgent") {
        (crate::task::TaskPriority::Urgent, j)
    } else {
        proof {
            assert forall|st: crate::task::TaskPriority| !name_at(s@, i as int, st.spec_name()) by {
                if name_at(s@, i as int, st.spec_name()) {
                    lemma_name_at_chars(s@, i as int, st.spec_name());
                }
            }
        }
        return None;
    };
    proof {
        assert forall|u: crate::task::TaskPriority|
            name_at(s@, i as int, u.spec_name()) implies u == st by {
            lemma_name_at_chars(s@, i as int, u.spec_name());
            reveal_strlit("Low");
            reveal_strlit("Medium");
            reveal_strlit("High");
            reveal_strlit("Urgent");
            match st {
                crate::task::TaskPriority::Low => {
                    match u {
                        crate::task::TaskPriority::Low => {},
                        crate::task::TaskPriority::Medium => {
                            assert(s@[i + 1 + 0] == u.spec_name()[0]);
                            assert(s@.subrange(i + 1, i + 1 + 3)[0] == s@[i + 1 + 0]);
                            assert(false);
                        },
                        crate::task::TaskPriority::High => {
                            assert(s@[i + 1 + 0] == u.spec_name()[0]);
                            assert(s@.subrange(i + 1, i + 1 + 3)[0] == s@[i + 1 + 0]);
                            assert(false);
                        },
                        crate::task::TaskPriority::Urgent => {
                            assert(s@[i + 1 + 0] == u.spec_name()[0]);
                            assert(s@.subrange(i + 1, i + 1 + 3)[0] == s@[i + 1 + 0]);
                            assert(false);
                        },
                    }
                },
                crate::task::TaskPriority::Medium => {
                    match u {
                        crate::task::TaskPriority::Low => {
                            assert(s@[i + 1 + 0] == u.spec_name()[0]);
                            assert(s@.subrange(i + 1, i + 1 + 6)[0] == s@[i + 1 + 0]);
                            assert(false);
                        },
                        crate::task::TaskPriority::Medium => {},
                        crate::task::TaskPriority::High => {
                            assert(s@[i + 1 + 0] == u.spec_name()[0]);
                            assert(s@.subrange(i + 1, i + 1 + 6)[0] == s@[i + 1 + 0]);
                            assert(false);
                        },
                        crate::task::TaskPriority::Urgent => {
                            assert(s@[i + 1 + 0] == u.spec_name()[0]);
                            assert(s@.subrange(i + 1, i + 1 + 6)[0] == s@[i + 1 + 0]);
                            assert(false);
                        },
                    }
                },
                crate::task::TaskPriority::High => {
                    match u {
                        crate::task::TaskPriority::Low => {
                            assert(s@[i + 1 + 0] == u.spec_name()[0]);
                            assert(s@.subrange(i + 1, i + 1 + 4)[0] == s@[i + 1 + 0]);
                            assert(false);
                        },
                        crate::task::TaskPriority::Medium => {
                            assert(s@[i + 1 + 0] == u.spec_name()[0]);
                            assert(s@.subrange(i + 1, i + 1 + 4)[0] == s@[i + 1 + 0]);
                            assert(false);
                        },
                        crate::task::TaskPriority::High => {},
                        crate::task::TaskPriority::Urgent => {
                            assert(s@[i + 1 + 0] == u.spec_name()[0]);
                            assert(s@.subrange(i + 1, i + 1 + 4)[0] == s@[i + 1 + 0]);
                            assert(false);
                        },
                    }
                },
                crate::task::TaskPriority::Urgent => {
                    match u {
                        crate::task::TaskPriority::Low => {
                            assert(s@[i + 1 + 0] == u.spec_name()[0]);
                            assert(s@.subrange(i + 1, i + 1 + 6)[0] == s@[i + 1 + 0]);
                            assert(false);
                        },
                        crate::task::TaskPriority::Medium => {
                            assert(s@[i + 1 + 0] == u.spec_name()[0]);
                            assert(s@.subrange(i + 1, i + 1 + 6)[0] == s@[i + 1 + 0]);
                            assert(false);
                        },
                        crate::task::TaskPriority::High => {
                            assert(s@[i + 1 + 0] == u.spec_name()[0]);
                            assert(s@.subrange(i + 1, i + 1 + 6)[0] == s@[i + 1 + 0]);
                            assert(false);
                        },
                        crate::task::TaskPriority::Urgent => {},
                    }
                },
            }
        }
    }
    if !expect_char(s, j, '"') {
        proof {
            assert forall|u: crate::task::TaskPriority| !name_at(s@, i as int, u.spec_name()) by {
                if name_at(s@, i as int, u.spec_name()) {
                    lemma_name_at_chars(s@, i as int, u.spec_name());
                }
            }
        }
        return None;
    }
    proof {
        assert(s@.subrange(i as int, j + 1) =~= name_enc(st.spec_name()));
        assert forall|u: crate::task::TaskPriority|
            name_at(s@, i as int, u.spec_name()) implies (j + 1) == i + u.spec_name().len()
            + 2 by {
            lemma_name_at_chars(s@, i as int, u.spec_name());
        }
    }
    Some((st, j + 1))
}


#[verifier::spinoff_prover]
#[verifier::rlimit(100)]
fn push_idea_rec(out: &mut String, i: &crate::idea::Idea)
    ensures
        final(out)@ == old(out)@ + idea_rec(*i),
{
    out.append("  {\"id\": ");
    crate::text::string_push(out, '"');
    let ids = crate::ids::id_string(i.id);
    out.append(ids.as_str());
    crate::text::string_push(out, '"');
    out.append(", \"title\": ");
    push_quoted(out, i.title.as_str());
    out.append(", \"description\": ");
    push_opt_quoted(out, &i.description);
    out.append(", \"tags\": ");
    push_strs_arr(out, &i.tags);
    out.append(", \"status\": ");
    crate::text::string_push(out, '"');
    out.append(i.status.name());
    crate::text::string_push(out, '"');
    out.append(", \"created_at\": ");
    push_int(out, i.created_at);
    out.append(", \"updated_at\": ");
    push_int(out, i.updated_at);
    out.append("}");
    proof {
        assert(out@ =~= old(out)@ + idea_rec(*i));
    }
}

#[verifier::rlimit(100)]
#[verifier::spinoff_prover]
fn push_project_rec(out: &mut String, p: &crate::project::Project)
    ensures
        final(out)@ == old(out)@ + project_rec(*p),
{
    out.append("  {\"id\": ");
    crate::text::string_push(out, '"');
    let ids = crate::ids::id_string(p.id);
    out.append(ids.as_str());
    crate::text::string_push(out, '"');
    out.append(", \"title\": ");
    push_quoted(out, p.title.as_str());
    out.append(", \"description\": ");
    push_opt_quoted(out, &p.description);
    out.append(", \"milestone\": ");
    push_opt_quoted(out, &p.milestone);
    out.append(", \"url\": ");
    push_opt_quoted(out, &p.url);
    out.append(", \"repo\": ");
    push_opt_quoted(out, &p.repo);
    proof {
        assert(out@ =~= old(out)@ + project_rec_head(*p));
    }
    out.append(", \"status\": ");
    crate::text::string_push(out, '"');
    out.append(p.status.name());
    crate::text::string_push(out, '"');
    out.append(", \"idea_ids\": ");
    push_ids_arr(out, &p.idea_ids);
    out.append(", \"created_at\": ");
    push_int(out, p.created_at);
    out.append(", \"updated_at\": ");
    push_int(out, p.updated_at);
    out.append("}");
    proof {
        assert(out@ =~= (old(out)@ + project_rec_head(*p)) + project_rec_tail(*p));
        assert(out@ =~= old(out)@ + project_rec(*p));
    }
}

#[verifier::rlimit(100)]
#[verifier::spinoff_prover]
fn push_task_rec(out: &mut String, t: &crate::task::Task)
    ensures
        final(out)@ == old(out)@ + task_rec(*t),
{
    out.append("  {\"id\": ");
    crate::text::string_push(out, '"');
    let ids = crate::ids::id_string(t.id);
    out.append(ids.as_str());
    crate::text::string_push(out, '"');
    out.append(", \"title\": ");
    push_quoted(out, t.title.as_str());
    out.append(", \"description\": ");
    push_opt_quoted(out, &t.description);
    out.append(", \"status\": ");
    crate::text::string_push(out, '"');
    out.append(t.status.name());
    crate::text::string_push(out, '"');
    out.append(", \"priority\": ");
    crate::text::string_push(out, '"');
    out.append(t.priority.name());
    crate::text::string_push(out, '"');
    proof {
        assert(out@ =~= old(out)@ + task_rec_head(*t));
    }
    out.append(", \"due_date\": ");
    push_opt_int(out, &t.due_date);
    out.append(", \"project_id\": ");
    push_opt_id(out, &t.project_id);
    out.append(", \"idea_id\": ");
    push_opt_id(out, &t.idea_id);
    out.append(", \"tags\": ");
    push_strs_arr(out, &t.tags);
    out.append(", \"created_at\": ");
    push_int(out, t.created_at);
    out.append(", \"updated_at\": ");
    push_int(out, t.updated_at);
    out.append("}");
    proof {
        assert(out@ =~= (old(out)@ + task_rec_head(*t)) + task_rec_tail(*t));
        assert(out@ =~= old(out)@ + task_rec(*t));
    }
}

/// The record lines of an idea collection, comma-separated.
pub open spec fn idea_lines(s: Seq<crate::idea::Idea>) -> Seq<char>
    decreases s.len(),
{
    if s.len() == 0 {
        Seq::empty()
    } else if s.len() == 1 {
        idea_rec(s[0])
    } else {
        idea_lines(s.drop_last()) + ",\n"@ + idea_rec(s.last())
    }
}

/// The whole saved document for an idea collection.
pub open spec fn ideas_doc(s: Seq<crate::idea::Idea>) -> Seq<char> {
    if s.len() == 0 {
        "[]"@
    } else {
        "[\n"@ + idea_lines(s) + "\n]"@
    }
}

/// The record lines of a project collection, comma-separated.
pub open spec fn project_lines(s: Seq<crate::project::Project>) -> Seq<char>
    decreases s.len(),
{
    if s.len() == 0 {
        Seq::empty()
    } else if s.len() == 1 {
        project_rec(s[0])
    } else {
        project_lines(s.drop_last()) + ",\n"@ + project_rec(s.last())
    }
}

/// The whole saved document for a project collection.
pub open spec fn projects_doc(s: Seq<crate::project::Project>) -> Seq<char> {
    if s.len() == 0 {
        "[]"@
    } else {
        "[\n"@ + project_lines(s) + "\n]"@
    }
}

/// The record lines of a task collection, comma-separated.
pub open spec fn task_lines(s: Seq<crate::task::Task>) -> Seq<char>
    decreases s.len(),
{
    if s.len() == 0 {
        Seq::empty()
    } else if s.len() == 1 {
        task_rec(s[0])
    } else {
        task_lines(s.drop_last()) + ",\n"@ + task_rec(s.last())
    }
}

/// The whole saved document for a task collection.
pub open spec fn tasks_doc(s: Seq<crate::task::Task>) -> Seq<char> {
    if s.len() == 0 {
        "[]"@
    } else {
        "[\n"@ + task_lines(s) + "\n]"@
    }
}

/// Encode an idea collection as its canonical document.
pub fn encode_ideas(ideas: &Vec<crate::idea::Idea>) -> (r: String)
    ensures
        r@ == ideas_doc(ideas@),
{
    let n = ideas.len();
    if n == 0 {
        return String::from_str("[]");
    }
    let mut out = String::from_str("[\n");
    push_idea_rec(&mut out, &ideas[0]);
    let mut i: usize = 1;
    proof {
        assert(ideas@.take(1) =~= seq![ideas@[0]]);
        assert(out@ =~= "[\n"@ + idea_lines(ideas@.take(1)));
    }
    while i < n
        invariant
            n == ideas@.len(),
            1 <= i <= n,
            out@ == "[\n"@ + idea_lines(ideas@.take(i as int)),
        decreases n - i,
    {
        out.append(",\n");
        push_idea_rec(&mut out, &ideas[i]);
        proof {
            assert(ideas@.take(i + 1).drop_last() =~= ideas@.take(i as int));
            assert(ideas@.take(i + 1).last() == ideas@[i as int]);
            assert(out@ =~= "[\n"@ + idea_lines(ideas@.take(i + 1)));
        }
        i = i + 1;
    }
    out.append("\n]");
    proof {
        assert(ideas@.take(n as int) =~= ideas@);
        assert(out@ =~= ideas_doc(ideas@));
    }
    out
}

/// Encode a project collection as its canonical document.
pub fn encode_projects(projects: &Vec<crate::project::Project>) -> (r: String)
    ensures
        r@ == projects_doc(projects@),
{
    let n = projects.len();
    if n == 0 {
        return String::from_str("[]");
    }
    let mut out = String::from_str("[\n");
    push_project_rec(&mut out, &projects[0]);
    let mut i: usize = 1;
    proof {
        assert(projects@.take(1) =~= seq![projects@[0]]);
        assert(out@ =~= "[\n"@ + project_lines(projects@.take(1)));
    }
    while i < n
        invariant
            n == projects@.len(),
            1 <= i <= n,
            out@ == "[\n"@ + project_lines(projects@.take(i as int)),
        decreases n - i,
    {
        out.append(",\n");
        push_project_rec(&mut out, &projects[i]);
        proof {
            assert(projects@.take(i + 1).drop_last() =~= projects@.take(i as int));
            assert(projects@.take(i + 1).last() == projects@[i as int]);
            assert(out@ =~= "[\n"@ + project_lines(projects@.take(i + 1)));
        }
        i = i + 1;
    }
    out.append("\n]");
    proof {
        assert(projects@.take(n as int) =~= projects@);
        assert(out@ =~= projects_doc(projects@));
    }
    out
}

/// Encode a task collection as its canonical document.
pub fn encode_tasks(tasks: &Vec<crate::task::Task>) -> (r: String)
    ensures
        r@ == tasks_doc(tasks@),
{
    let n = tasks.len();
    if n == 0 {
        return String::from_str("[]");
    }
    let mut out = String::from_str("[\n");
    push_task_rec(&mut out, &tasks[0]);
    let mut i: usize = 1;
    proof {
        assert(tasks@.take(1) =~= seq![tasks@[0]]);
        assert(out@ =~= "[\n"@ + task_lines(tasks@.take(1)));
    }
    while i < n
        invariant
            n == tasks@.len(),
            1 <= i <= n,
            out@ == "[\n"@ + task_lines(tasks@.take(i as int)),
        decreases n - i,
    {
        out.append(",\n");
        push_task_rec(&mut out, &tasks[i]);
        proof {
            assert(tasks@.take(i + 1).drop_last() =~= tasks@.take(i as int));
            assert(tasks@.take(i + 1).last() == tasks@[i as int]);
            assert(out@ =~= "[\n"@ + task_lines(tasks@.take(i + 1)));
        }
        i = i + 1;
    }
    out.append("\n]");
    proof {
        assert(tasks@.take(n as int) =~= tasks@);
        assert(out@ =~= tasks_doc(tasks@));
    }
    out
}

/// Whether the text at `i` is exactly the canonical line of idea `x`.
pub open spec fn idea_rec_at(s: Seq<char>, i: int, x: crate::idea::Idea) -> bool {
    &&& 0 <= i
    &&& i + idea_rec(x).len() <= s.len()
    &&& s.subrange(i, i + idea_rec(x).len() as int) == idea_rec(x)
}

/// Field agreement of two ideas on every observable field.
pub open spec fn same_idea(a: crate::idea::Idea, b: crate::idea::Idea) -> bool {
    &&& a.id == b.id
    &&& a.title@ == b.title@
    &&& view_of_opt(a.description) == view_of_opt(b.description)
    &&& views_of(a.tags@) == views_of(b.tags@)
    &&& a.status == b.status
    &&& a.created_at == b.created_at
    &&& a.updated_at == b.updated_at
}

/// Element-wise field agreement of two idea collections.
pub open spec fn same_ideas(a: Seq<crate::idea::Idea>, b: Seq<crate::idea::Idea>) -> bool {
    a.len() == b.len() && forall|k: int| 0 <= k < a.len() ==> same_idea(a[k], b[k])
}

/// The three stretches of a canonical idea line, with their positions.
pub open spec fn idea_rec_parts(s: Seq<char>, i: int, x: crate::idea::Idea) -> bool {
    let hl = 75 + str_enc(x.title@).len() + opt_enc(view_of_opt(x.description)).len();
    let ml = 24 + strs_arr(views_of(x.tags@)).len() + x.status.spec_name().len();
    let sl = 33 + int_enc(x.created_at as int).len() + int_enc(x.updated_at as int).len();
    &&& idea_head_at(s, i, x.id, x.title@, view_of_opt(x.description))
    &&& idea_mid_at(s, i + hl, views_of(x.tags@), x.status)
    &&& stamps_at(s, i + hl + ml, x.created_at, x.updated_at)
    &&& idea_rec(x).len() == hl + ml + sl
}

/// Where the pieces of a canonical idea line sit inside the text.
#[verifier::rlimit(100)]
#[verifier::spinoff_prover]
proof fn lemma_idea_rec_pieces(s: Seq<char>, i: int, x: crate::idea::Idea)
    requires
        idea_rec_at(s, i, x),
    ensures
        idea_rec_parts(s, i, x),
        ({
            let st = str_enc(x.title@).len() as int;
            let de = opt_enc(view_of_opt(x.description)).len() as int;
            let tg = strs_arr(views_of(x.tags@)).len() as int;
            let ns = x.status.spec_name().len() as int;
            let ca = int_enc(x.created_at as int).len() as int;
            let ua = int_enc(x.updated_at as int).len() as int;
            &&& crate::text::is_at(s, "  {\"id\": "@, i)
            &&& id_at(s, i + 9, x.id)
            &&& crate::text::is_at(s, ", \"title\": "@, i + 47)
            &&& str_at(s, i + 58, x.title@)
            &&& crate::text::is_at(s, ", \"description\": "@, i + 58 + st)
            &&& opt_str_at(s, i + 75 + st, view_of_opt(x.description))
            &&& crate::text::is_at(s, ", \"tags\": "@, i + 75 + st + de)
            &&& strs_at(s, i + 85 + st + de, views_of(x.tags@))
            &&& crate::text::is_at(s, ", \"status\": "@, i + 85 + st + de + tg)
            &&& name_at(s, i + 97 + st + de + tg, x.status.spec_name())
            &&& crate::text::is_at(s, ", \"created_at\": "@, i + 99 + st + de + tg + ns)
            &&& int_at(s, i + 115 + st + de + tg + ns, x.created_at)
            &&& crate::text::is_at(s, ", \"updated_at\": "@, i + 115 + st + de + tg + ns + ca)
            &&& int_at(s, i + 131 + st + de + tg + ns + ca, x.updated_at)
            &&& s[i + 131 + st + de + tg + ns + ca + ua] == '}'
            &&& idea_rec(x).len() == 132 + st + de + tg + ns + ca + ua
        }),
{
    reveal_strlit("  {\"id\": ");
    reveal_strlit(", \"title\": ");
    reveal_strlit(", \"description\": ");
    reveal_strlit(", \"tags\": ");
    reveal_strlit(", \"status\": ");
    reveal_strlit(", \"created_at\": ");
    reveal_strlit(", \"updated_at\": ");
    reveal_strlit("}");
    reveal_strlit("null");
    lemma_id_text_len(x.id);
    let rec = idea_rec(x);
    let st = str_enc(x.title@).len() as int;
    let de = opt_enc(view_of_opt(x.description)).len() as int;
    let tg = strs_arr(views_of(x.tags@)).len() as int;
    let ns = x.status.spec_name().len() as int;
    let ca = int_enc(x.created_at as int).len() as int;
    let ua = int_enc(x.updated_at as int).len() as int;
    assert(rec.len() == 132 + st + de + tg + ns + ca + ua);
    assert forall|t: int| 0 <= t < 9 implies rec[t] == "  {\"id\": "@[t] by {}
    lemma_seq_window(s, i, rec, 0, "  {\"id\": "@);
    assert forall|t: int| 0 <= t < 38 implies rec[9 + t] == id_enc(x.id)[t] by {}
    lemma_seq_window(s, i, rec, 9, id_enc(x.id));
    assert forall|t: int| 0 <= t < 11 implies rec[47 + t] == ", \"title\": "@[t] by {}
    lemma_seq_window(s, i, rec, 47, ", \"title\": "@);
    assert forall|t: int| 0 <= t < st implies rec[58 + t] == str_enc(x.title@)[t] by {}
    lemma_seq_window(s, i, rec, 58, str_enc(x.title@));
    assert forall|t: int| 0 <= t < 17 implies rec[58 + st + t] == ", \"description\": "@[t]
        by {}
    lemma_seq_window(s, i, rec, 58 + st, ", \"description\": "@);
    assert forall|t: int| 0 <= t < de implies rec[75 + st + t] == opt_enc(
        view_of_opt(x.description),
    )[t] by {}
    lemma_seq_window(s, i, rec, 75 + st, opt_enc(view_of_opt(x.description)));
    assert forall|t: int| 0 <= t < 10 implies rec[75 + st + de + t] == ", \"tags\": "@[t] by {}
    lemma_seq_window(s, i, rec, 75 + st + de, ", \"tags\": "@);
    assert forall|t: int| 0 <= t < tg implies rec[85 + st + de + t] == strs_arr(
        views_of(x.tags@),
    )[t] by {}
    lemma_seq_window(s, i, rec, 85 + st + de, strs_arr(views_of(x.tags@)));
    assert forall|t: int| 0 <= t < 12 implies rec[85 + st + de + tg + t]
        == ", \"status\": "@[t] by {}
    lemma_seq_window(s, i, rec, 85 + st + de + tg, ", \"status\": "@);
    assert forall|t: int| 0 <= t < ns + 2 implies rec[97 + st + de + tg + t] == name_enc(
        x.status.spec_name(),
    )[t] by {}
    lemma_seq_window(s, i, rec, 97 + st + de + tg, name_enc(x.status.spec_name()));
    assert forall|t: int| 0 <= t < 16 implies rec[99 + st + de + tg + ns + t]
        == ", \"created_at\": "@[t] by {}
    lemma_seq_window(s, i, rec, 99 + st + de + tg + ns, ", \"created_at\": "@);
    assert forall|t: int| 0 <= t < ca implies rec[115 + st + de + tg + ns + t] == int_enc(
        x.created_at as int,
    )[t] by {}
    lemma_seq_window(s, i, rec, 115 + st + de + tg + ns, int_enc(x.created_at as int));
    assert forall|t: int| 0 <= t < 16 implies rec[115 + st + de + tg + ns + ca + t]
        == ", \"updated_at\": "@[t] by {}
    lemma_seq_window(s, i, rec, 115 + st + de + tg + ns + ca, ", \"updated_at\": "@);
    assert forall|t: int| 0 <= t < ua implies rec[131 + st + de + tg + ns + ca + t] == int_enc(
        x.updated_at as int,
    )[t] by {}
    lemma_seq_window(s, i, rec, 131 + st + de + tg + ns + ca, int_enc(x.updated_at as int));
    assert(s.subrange(i, i + rec.len() as int)[131 + st + de + tg + ns + ca + ua] == s[i + (131
        + st + de + tg + ns + ca + ua)]);
    assert(rec[131 + st + de + tg + ns + ca + ua] == '}');
    assert(s.subrange(i + 115 + st + de + tg + ns, i + 115 + st + de + tg + ns + ca)
        == int_enc(x.created_at as int));
    assert(s.subrange(i, i + rec.len() as int)[115 + st + de + tg + ns + ca] == s[i + (115
        + st + de + tg + ns + ca)]);
    assert(rec[115 + st + de + tg + ns + ca] == ", \"updated_at\": "@[0]);
    assert(s[i + 115 + st + de + tg + ns + ca] == ',');
    assert(s.subrange(i + 131 + st + de + tg + ns + ca, i + 131 + st + de + tg + ns + ca + ua)
        == int_enc(x.updated_at as int));
    match view_of_opt(x.description) {
        Some(dsc) => {},
        None => {
            assert(opt_enc(view_of_opt(x.description)) == "null"@);
        },
    }
    assert(s.subrange(
        i + 131 + st + de + tg + ns + ca + ua,
        i + 132 + st + de + tg + ns + ca + ua,
    ) =~= "}"@);
    assert(crate::text::is_at(s, "}"@, i + 131 + st + de + tg + ns + ca + ua));
    assert(idea_rec_parts(s, i, x));
}

/// Whether the text at `i` spells the leading fields of an idea line.
pub open spec fn idea_head_at(
    s: Seq<char>,
    i: int,
    id: u128,
    title: Seq<char>,
    desc: Option<Seq<char>>,
) -> bool {
    &&& crate::text::is_at(s, "  {\"id\": "@, i)
    &&& id_at(s, i + 9, id)
    &&& crate::text::is_at(s, ", \"title\": "@, i + 47)
    &&& str_at(s, i + 58, title)
    &&& crate::text::is_at(s, ", \"description\": "@, i + 58 + str_enc(title).len() as int)
    &&& opt_str_at(s, i + 75 + str_enc(title).len() as int, desc)
}

#[verifier::rlimit(100)]
#[verifier::spinoff_prover]
fn parse_idea_head_at(s: &str, i: usize) -> (r: Option<
    ((u128, String, Option<String>), usize),
>)
    ensures
        r matches Some(p) ==> i < p.1 <= s@.len() && s@.subrange(i as int, p.1 as int)
            == "  {\"id\": "@ + id_enc(p.0.0) + ", \"title\": "@ + str_enc(p.0.1@)
            + ", \"description\": "@ + opt_enc(view_of_opt(p.0.2)),
        forall|id: u128, tt: Seq<char>, dd: Option<Seq<char>>|
            idea_head_at(s@, i as int, id, tt, dd) ==> (r matches Some(p) && p.0.0 == id
                && p.0.1@ == tt && view_of_opt(p.0.2) == dd && p.1 as int == i + 75 + str_enc(
                tt,
            ).len() + opt_enc(dd).len()),
{
    proof {
        reveal_strlit("  {\"id\": ");
        reveal_strlit(", \"title\": ");
        reveal_strlit(", \"description\": ");
    }
    let i1 = match expect_lit(s, i, "  {\"id\": ") {
        Some(j) => j,
        None => {
            return None;
        },
    };
    let (id, i2) = match parse_id_at(s, i1) {
        Some(q) => q,
        None => {
            return None;
        },
    };
    let i3 = match expect_lit(s, i2, ", \"title\": ") {
        Some(j) => j,
        None => {
            return None;
        },
    };
    let (title, i4) = match parse_string_at(s, i3) {
        Some(q) => q,
        None => {
            return None;
        },
    };
    let i5 = match expect_lit(s, i4, ", \"description\": ") {
        Some(j) => j,
        None => {
            return None;
        },
    };
    let (description, i6) = match parse_opt_string_at(s, i5) {
        Some(q) => q,
        None => {
            return None;
        },
    };
    proof {
        assert(s@.subrange(i as int, i6 as int) =~= "  {\"id\": "@ + id_enc(id)
            + ", \"title\": "@ + str_enc(title@) + ", \"description\": "@ + opt_enc(
            view_of_opt(description),
        ));
    }
    Some(((id, title, description), i6))
}

/// Whether the text at `i` spells the tag and status fields of an idea
/// line.
pub open spec fn idea_mid_at(
    s: Seq<char>,
    i: int,
    ts: Seq<Seq<char>>,
    st: crate::idea::IdeaStatus,
) -> bool {
    &&& crate::text::is_at(s, ", \"tags\": "@, i)
    &&& strs_at(s, i + 10, ts)
    &&& crate::text::is_at(s, ", \"status\": "@, i + 10 + strs_arr(ts).len() as int)
    &&& name_at(s, i + 22 + strs_arr(ts).len() as int, st.spec_name())
}

#[verifier::rlimit(100)]
#[verifier::spinoff_prover]
fn parse_idea_mid_at(s: &str, i: usize) -> (r: Option<
    ((Vec<String>, crate::idea::IdeaStatus), usize),
>)
    ensures
        r matches Some(p) ==> i < p.1 <= s@.len() && s@.subrange(i as int, p.1 as int)
            == ", \"tags\": "@ + strs_arr(views_of(p.0.0@)) + ", \"status\": "@ + name_enc(
            p.0.1.spec_name(),
        ),
        forall|ts: Seq<Seq<char>>, st: crate::idea::IdeaStatus|
            idea_mid_at(s@, i as int, ts, st) ==> (r matches Some(p) && views_of(p.0.0@) == ts
                && p.0.1 == st && p.1 as int == i + 24 + strs_arr(ts).len()
                + st.spec_name().len()),
{
    proof {
        reveal_strlit(", \"tags\": ");
        reveal_strlit(", \"status\": ");
    }
    let i7 = match expect_lit(s, i, ", \"tags\": ") {
        Some(j) => j,
        None => {
            return None;
        },
    };
    let (tags, i8) = match parse_strs_at(s, i7) {
        Some(q) => q,
        None => {
            return None;
        },
    };
    let i9 = match expect_lit(s, i8, ", \"status\": ") {
        Some(j) => j,
        None => {
            return None;
        },
    };
    let (status, i10) = match parse_idea_status_at(s, i9) {
        Some(q) => q,
        None => {
            return None;
        },
    };
    proof {
        assert(s@.subrange(i as int, i10 as int) =~= ", \"tags\": "@ + strs_arr(
            views_of(tags@),
        ) + ", \"status\": "@ + name_enc(status.spec_name()));
    }
    Some(((tags, status), i10))
}

/// Whether the text at `i` spells the timestamps and closing brace of a
/// record line.
pub open spec fn stamps_at(s: Seq<char>, i: int, c: i64, u: i64) -> bool {
    &&& crate::text::is_at(s, ", \"created_at\": "@, i)
    &&& int_at(s, i + 16, c)
    &&& crate::text::is_at(s, ", \"updated_at\": "@, i + 16 + int_enc(c as int).len() as int)
    &&& int_at(s, i + 32 + int_enc(c as int).len() as int, u)
    &&& crate::text::is_at(
        s,
        "}"@,
        i + 32 + int_enc(c as int).len() as int + int_enc(u as int).len() as int,
    )
}

#[verifier::rlimit(100)]
#[verifier::spinoff_prover]
fn parse_stamps_at(s: &str, i: usize) -> (r: Option<((i64, i64), usize)>)
    ensures
        r matches Some(p) ==> i < p.1 <= s@.len() && s@.subrange(i as int, p.1 as int)
            == ", \"created_at\": "@ + int_enc(p.0.0 as int) + ", \"updated_at\": "@
            + int_enc(p.0.1 as int) + "}"@,
        forall|c: i64, u: i64| stamps_at(s@, i as int, c, u) ==> (r matches Some(p) && p.0.0 == c
            && p.0.1 == u && p.1 as int == i + 33 + int_enc(c as int).len() + int_enc(
            u as int,
        ).len()),
{
    proof {
        reveal_strlit(", \"created_at\": ");
        reveal_strlit(", \"updated_at\": ");
        reveal_strlit("}");
    }
    let i11 = match expect_lit(s, i, ", \"created_at\": ") {
        Some(j) => j,
        None => {
            return None;
        },
    };
    let (created_at, i12) = match parse_int_at(s, i11) {
        Some(q) => q,
        None => {
            return None;
        },
    };
    let i13 = match expect_lit(s, i12, ", \"updated_at\": ") {
        Some(j) => j,
        None => {
            return None;
        },
    };
    let (updated_at, i14) = match parse_int_at(s, i13) {
        Some(q) => q,
        None => {
            return None;
        },
    };
    let i15 = match expect_lit(s, i14, "}") {
        Some(j) => j,
        None => {
            return None;
        },
    };
    proof {
        assert(s@.subrange(i as int, i15 as int) =~= ", \"created_at\": "@ + int_enc(
            created_at as int,
        ) + ", \"updated_at\": "@ + int_enc(updated_at as int) + "}"@);
    }
    Some(((created_at, updated_at), i15))
}

#[verifier::rlimit(100)]
#[verifier::spinoff_prover]
fn parse_idea_at(s: &str, i: usize) -> (r: Option<(crate::idea::Idea, usize)>)
    ensures
        r matches Some(p) ==> i < p.1 <= s@.len() && s@.subrange(i as int, p.1 as int)
            == idea_rec(p.0),
        forall|x: crate::idea::Idea| idea_rec_at(s@, i as int, x) ==> (r matches Some(p)
            && same_idea(p.0, x) && p.1 as int == i + idea_rec(x).len()),
{
    proof {
        assert forall|x: crate::idea::Idea|
            idea_rec_at(s@, i as int, x) implies idea_rec_parts(s@, i as int, x) by {
            lemma_idea_rec_pieces(s@, i as int, x);
        }
    }
    let ((id, title, description), i6) = match parse_idea_head_at(s, i) {
        Some(q) => q,
        None => {
            return None;
        },
    };
    let ((tags, status), i10) = match parse_idea_mid_at(s, i6) {
        Some(q) => q,
        None => {
            return None;
        },
    };
    let ((created_at, updated_at), i15) = match parse_stamps_at(s, i10) {
        Some(q) => q,
        None => {
            return None;
        },
    };
    let rec = crate::idea::Idea {
        id,
        title,
        description,
        tags,
        status,
        created_at,
        updated_at,
    };
    proof {
        assert(s@.subrange(i as int, i15 as int) =~= s@.subrange(i as int, i6 as int)
            + s@.subrange(i6 as int, i10 as int) + s@.subrange(i10 as int, i15 as int));
        assert(s@.subrange(i as int, i15 as int) =~= idea_rec(rec));
    }
    Some((rec, i15))
}

/// The first half of a project line, as plain field values.
pub open spec fn project_head_enc(
    id: u128,
    title: Seq<char>,
    description: Option<Seq<char>>,
    milestone: Option<Seq<char>>,
    url: Option<Seq<char>>,
    repo: Option<Seq<char>>,
) -> Seq<char> {
    "  {\"id\": "@ + id_enc(id) + ", \"title\": "@ + str_enc(title)
        + ", \"description\": "@ + opt_enc(description) + ", \"milestone\": "@ + opt_enc(
        milestone,
    ) + ", \"url\": "@ + opt_enc(url) + ", \"repo\": "@ + opt_enc(repo)
}

/// Whether the text at `i` spells the leading fields of a project line.
pub open spec fn project_head_at(
    s: Seq<char>,
    i: int,
    id: u128,
    title: Seq<char>,
    desc: Option<Seq<char>>,
    mile: Option<Seq<char>>,
    url: Option<Seq<char>>,
    repo: Option<Seq<char>>,
) -> bool {
    let st = str_enc(title).len() as int;
    let de = opt_enc(desc).len() as int;
    let me = opt_enc(mile).len() as int;
    let ue = opt_enc(url).len() as int;
    &&& crate::text::is_at(s, "  {\"id\": "@, i)
    &&& id_at(s, i + 9, id)
    &&& crate::text::is_at(s, ", \"title\": "@, i + 47)
    &&& str_at(s, i + 58, title)
    &&& crate::text::is_at(s, ", \"description\": "@, i + 58 + st)
    &&& opt_str_at(s, i + 75 + st, desc)
    &&& crate::text::is_at(s, ", \"milestone\": "@, i + 75 + st + de)
    &&& opt_str_at(s, i + 90 + st + de, mile)
    &&& crate::text::is_at(s, ", \"url\": "@, i + 90 + st + de + me)
    &&& opt_str_at(s, i + 99 + st + de + me, url)
    &&& crate::text::is_at(s, ", \"repo\": "@, i + 99 + st + de + me + ue)
    &&& opt_str_at(s, i + 109 + st + de + me + ue, repo)
}

#[verifier::rlimit(100)]
#[verifier::spinoff_prover]
fn parse_project_head_at(s: &str, i: usize) -> (r: Option<
    (
        (
            u128,
            String,
            Option<String>,
            Option<String>,
            Option<String>,
            Option<String>,
        ),
        usize,
    ),
>)
    ensures
        r matches Some(p) ==> i < p.1 <= s@.len() && s@.subrange(i as int, p.1 as int)
            == project_head_enc(
            p.0.0,
            p.0.1@,
            view_of_opt(p.0.2),
            view_of_opt(p.0.3),
            view_of_opt(p.0.4),
            view_of_opt(p.0.5),
        ),
        forall|id: u128, tt: Seq<char>, dd: Option<Seq<char>>, mm: Option<Seq<char>>, uu: Option<
            Seq<char>,
        >, rr: Option<Seq<char>>|
            project_head_at(s@, i as int, id, tt, dd, mm, uu, rr) ==> (r matches Some(p)
                && p.0.0 == id && p.0.1@ == tt && view_of_opt(p.0.2) == dd && view_of_opt(p.0.3)
                == mm && view_of_opt(p.0.4) == uu && view_of_opt(p.0.5) == rr && p.1 as int == i
                + 109 + str_enc(tt).len() + opt_enc(dd).len() + opt_enc(mm).len() + opt_enc(
                uu,
            ).len() + opt_enc(rr).len()),
{
    proof {
        reveal_strlit("  {\"id\": ");
        reveal_strlit(", \"title\": ");
        reveal_strlit(", \"description\": ");
        reveal_strlit(", \"milestone\": ");
        reveal_strlit(", \"url\": ");
        reveal_strlit(", \"repo\": ");
    }
    let i1 = match expect_lit(s, i, "  {\"id\": ") {
        Some(j) => j,
        None => {
            return None;
        },
    };
    let (id, i2) = match parse_id_at(s, i1) {
        Some(q) => q,
        None => {
            return None;
        },
    };
    let i3 = match expect_lit(s, i2, ", \"title\": ") {
        Some(j) => j,
        None => {
            return None;
        },
    };
    let (title, i4) = match parse_string_at(s, i3) {
        Some(q) => q,
        None => {
            return None;
        },
    };
    let i5 = match expect_lit(s, i4, ", \"description\": ") {
        Some(j) => j,
        None => {
            return None;
        },
    };
    let (description, i6) = match parse_opt_string_at(s, i5) {
        Some(q) => q,
        None => {
            return None;
        },
    };
    let i7 = match expect_lit(s, i6, ", \"milestone\": ") {
        Some(j) => j,
        None => {
            return None;
        },
    };
    let (milestone, i8) = match parse_opt_string_at(s, i7) {
        Some(q) => q,
        None => {
            return None;
        },
    };
    let i9 = match expect_lit(s, i8, ", \"url\": ") {
        Some(j) => j,
        None => {
            return None;
        },
    };
    let (url, i10) = match parse_opt_string_at(s, i9) {
        Some(q) => q,
        None => {
            return None;
        },
    };
    let i11 = match expect_lit(s, i10, ", \"repo\": ") {
        Some(j) => j,
        None => {
            return None;
        },
    };
    let (repo, i12) = match parse_opt_string_at(s, i11) {
        Some(q) => q,
        None => {
            return None;
        },
    };
    proof {
        assert(s@.subrange(i as int, i12 as int) =~= project_head_enc(
            id,
            title@,
            view_of_opt(description),
            view_of_opt(milestone),
            view_of_opt(url),
            view_of_opt(repo),
        ));
    }
    Some(((id, title, description, milestone, url, repo), i12))
}

/// Whether the text at `i` spells the status and link fields of a project
/// line.
pub open spec fn project_mid_at(
    s: Seq<char>,
    i: int,
    st: crate::project::ProjectStatus,
    ids: Seq<u128>,
) -> bool {
    &&& crate::text::is_at(s, ", \"status\": "@, i)
    &&& name_at(s, i + 12, st.spec_name())
    &&& crate::text::is_at(
        s,
        ", \"idea_ids\": "@,
        i + 14 + st.spec_name().len() as int,
    )
    &&& ids_at(s, i + 28 + st.spec_name().len() as int, ids)
}

#[verifier::rlimit(100)]
#[verifier::spinoff_prover]
fn parse_project_mid_at(s: &str, i: usize) -> (r: Option<
    ((crate::project::ProjectStatus, Vec<u128>), usize),
>)
    ensures
        r matches Some(p) ==> i < p.1 <= s@.len() && s@.subrange(i as int, p.1 as int)
            == ", \"status\": "@ + name_enc(p.0.0.spec_name()) + ", \"idea_ids\": "@
            + ids_arr(p.0.1@),
        forall|st: crate::project::ProjectStatus, ids: Seq<u128>|
            project_mid_at(s@, i as int, st, ids) ==> (r matches Some(p) && p.0.0 == st
                && p.0.1@ == ids && p.1 as int == i + 28 + st.spec_name().len() + ids_arr(
                ids,
            ).len()),
{
    proof {
        reveal_strlit(", \"status\": ");
        reveal_strlit(", \"idea_ids\": ");
    }
    let i13 = match expect_lit(s, i, ", \"status\": ") {
        Some(j) => j,
        None => {
            return None;
        },
    };
    let (status, i14) = match parse_project_status_at(s, i13) {
        Some(q) => q,
        None => {
            return None;
        },
    };
    let i15 = match expect_lit(s, i14, ", \"idea_ids\": ") {
        Some(j) => j,
        None => {
            return None;
        },
    };
    let (idea_ids, i16) = match parse_ids_at(s, i15) {
        Some(q) => q,
        None => {
            return None;
        },
    };
    proof {
        assert(s@.subrange(i as int, i16 as int) =~= ", \"status\": "@ + name_enc(
            status.spec_name(),
        ) + ", \"idea_ids\": "@ + ids_arr(idea_ids@));
    }
    Some(((status, idea_ids), i16))
}

/// Whether the text at `i` is exactly the canonical line of project `x`.
pub open spec fn project_rec_at(s: Seq<char>, i: int, x: crate::project::Project) -> bool {
    &&& 0 <= i
    &&& i + project_rec(x).len() <= s.len()
    &&& s.subrange(i, i + project_rec(x).len() as int) == project_rec(x)
}

/// Field agreement of two projects on every observable field.
pub open spec fn same_project(a: crate::project::Project, b: crate::project::Project) -> bool {
    &&& a.id == b.id
    &&& a.title@ == b.title@
    &&& view_of_opt(a.description) == view_of_opt(b.description)
    &&& view_of_opt(a.milestone) == view_of_opt(b.milestone)
    &&& view_of_opt(a.url) == view_of_opt(b.url)
    &&& view_of_opt(a.repo) == view_of_opt(b.repo)
    &&& a.status == b.status
    &&& a.idea_ids@ == b.idea_ids@
    &&& a.created_at == b.created_at
    &&& a.updated_at == b.updated_at
}

/// Element-wise field agreement of two project collections.
pub open spec fn same_projects(
    a: Seq<crate::project::Project>,
    b: Seq<crate::project::Project>,
) -> bool {
    a.len() == b.len() && forall|k: int| 0 <= k < a.len() ==> same_project(a[k], b[k])
}

/// The three stretches of a canonical project line, with their positions.
pub open spec fn project_rec_parts(s: Seq<char>, i: int, x: crate::project::Project) -> bool {
    let hl = 109 + str_enc(x.title@).len() + opt_enc(view_of_opt(x.description)).len()
        + opt_enc(view_of_opt(x.milestone)).len() + opt_enc(view_of_opt(x.url)).len()
        + opt_enc(view_of_opt(x.repo)).len();
    let ml = 28 + x.status.spec_name().len() + ids_arr(x.idea_ids@).len();
    let sl = 33 + int_enc(x.created_at as int).len() + int_enc(x.updated_at as int).len();
    &&& project_head_at(
        s,
        i,
        x.id,
        x.title@,
        view_of_opt(x.description),
        view_of_opt(x.milestone),
        view_of_opt(x.url),
        view_of_opt(x.repo),
    )
    &&& project_mid_at(s, i + hl, x.status, x.idea_ids@)
    &&& stamps_at(s, i + hl + ml, x.created_at, x.updated_at)
    &&& project_rec(x).len() == hl + ml + sl
}

/// Where the pieces of a canonical project line sit inside the text.
#[verifier::rlimit(100)]
#[verifier::spinoff_prover]
proof fn lemma_project_rec_pieces(s: Seq<char>, i: int, x: crate::project::Project)
    requires
        project_rec_at(s, i, x),
    ensures
        project_rec_parts(s, i, x),
{
    reveal_strlit("  {\"id\": ");
    reveal_strlit(", \"title\": ");
    reveal_strlit(", \"description\": ");
    reveal_strlit(", \"milestone\": ");
    reveal_strlit(", \"url\": ");
    reveal_strlit(", \"repo\": ");
    reveal_strlit(", \"status\": ");
    reveal_strlit(", \"idea_ids\": ");
    reveal_strlit(", \"created_at\": ");
    reveal_strlit(", \"updated_at\": ");
    reveal_strlit("}");
    reveal_strlit("null");
    lemma_id_text_len(x.id);
    let rec = project_rec(x);
    let st = str_enc(x.title@).len() as int;
    let de = opt_enc(view_of_opt(x.description)).len() as int;
    let me = opt_enc(view_of_opt(x.milestone)).len() as int;
    let ue = opt_enc(view_of_opt(x.url)).len() as int;
    let re = opt_enc(view_of_opt(x.repo)).len() as int;
    let ns = x.status.spec_name().len() as int;
    let ia = ids_arr(x.idea_ids@).len() as int;
    let ca = int_enc(x.created_at as int).len() as int;
    let ua = int_enc(x.updated_at as int).len() as int;
    let hl = 109 + st + de + me + ue + re;
    assert(rec.len() == hl + 28 + ns + ia + 33 + ca + ua);
    assert forall|t: int| 0 <= t < 9 implies rec[t] == "  {\"id\": "@[t] by {}
    lemma_seq_window(s, i, rec, 0, "  {\"id\": "@);
    assert forall|t: int| 0 <= t < 38 implies rec[9 + t] == id_enc(x.id)[t] by {}
    lemma_seq_window(s, i, rec, 9, id_enc(x.id));
    assert forall|t: int| 0 <= t < 11 implies rec[47 + t] == ", \"title\": "@[t] by {}
    lemma_seq_window(s, i, rec, 47, ", \"title\": "@);
    assert forall|t: int| 0 <= t < st implies rec[58 + t] == str_enc(x.title@)[t] by {}
    lemma_seq_window(s, i, rec, 58, str_enc(x.title@));
    assert forall|t: int| 0 <= t < 17 implies rec[58 + st + t] == ", \"description\": "@[t]
        by {}
    lemma_seq_window(s, i, rec, 58 + st, ", \"description\": "@);
    assert forall|t: int| 0 <= t < de implies rec[75 + st + t] == opt_enc(
        view_of_opt(x.description),
    )[t] by {}
    lemma_seq_window(s, i, rec, 75 + st, opt_enc(view_of_opt(x.description)));
    assert forall|t: int| 0 <= t < 15 implies rec[75 + st + de + t]
        == ", \"milestone\": "@[t] by {}
    lemma_seq_window(s, i, rec, 75 + st + de, ", \"milestone\": "@);
    assert forall|t: int| 0 <= t < me implies rec[90 + st + de + t] == opt_enc(
        view_of_opt(x.milestone),
    )[t] by {}
    lemma_seq_window(s, i, rec, 90 + st + de, opt_enc(view_of_opt(x.milestone)));
    assert forall|t: int| 0 <= t < 9 implies rec[90 + st + de + me + t] == ", \"url\": "@[t]
        by {}
    lemma_seq_window(s, i, rec, 90 + st + de + me, ", \"url\": "@);
    assert forall|t: int| 0 <= t < ue implies rec[99 + st + de + me + t] == opt_enc(
        view_of_opt(x.url),
    )[t] by {}
    lemma_seq_window(s, i, rec, 99 + st + de + me, opt_enc(view_of_opt(x.url)));
    assert forall|t: int| 0 <= t < 10 implies rec[99 + st + de + me + ue + t]
        == ", \"repo\": "@[t] by {}
    lemma_seq_window(s, i, rec, 99 + st + de + me + ue, ", \"repo\": "@);
    assert forall|t: int| 0 <= t < re implies rec[109 + st + de + me + ue + t] == opt_enc(
        view_of_opt(x.repo),
    )[t] by {}
    lemma_seq_window(s, i, rec, 109 + st + de + me + ue, opt_enc(view_of_opt(x.repo)));
    assert forall|t: int| 0 <= t < 12 implies rec[hl + t] == ", \"status\": "@[t] by {}
    lemma_seq_window(s, i, rec, hl, ", \"status\": "@);
    assert forall|t: int| 0 <= t < ns + 2 implies rec[hl + 12 + t] == name_enc(
        x.status.spec_name(),
    )[t] by {}
    lemma_seq_window(s, i, rec, hl + 12, name_enc(x.status.spec_name()));
    assert forall|t: int| 0 <= t < 14 implies rec[hl + 14 + ns + t]
        == ", \"idea_ids\": "@[t] by {}
    lemma_seq_window(s, i, rec, hl + 14 + ns, ", \"idea_ids\": "@);
    assert forall|t: int| 0 <= t < ia implies rec[hl + 28 + ns + t] == ids_arr(
        x.idea_ids@,
    )[t] by {}
    lemma_seq_window(s, i, rec, hl + 28 + ns, ids_arr(x.idea_ids@));
    let ml = 28 + ns + ia;
    assert forall|t: int| 0 <= t < 16 implies rec[hl + ml + t] == ", \"created_at\": "@[t]
        by {}
    lemma_seq_window(s, i, rec, hl + ml, ", \"created_at\": "@);
    assert forall|t: int| 0 <= t < ca implies rec[hl + ml + 16 + t] == int_enc(
        x.created_at as int,
    )[t] by {}
    lemma_seq_window(s, i, rec, hl + ml + 16, int_enc(x.created_at as int));
    assert forall|t: int| 0 <= t < 16 implies rec[hl + ml + 16 + ca + t]
        == ", \"updated_at\": "@[t] by {}
    lemma_seq_window(s, i, rec, hl + ml + 16 + ca, ", \"updated_at\": "@);
    assert forall|t: int| 0 <= t < ua implies rec[hl + ml + 32 + ca + t] == int_enc(
        x.updated_at as int,
    )[t] by {}
    lemma_seq_window(s, i, rec, hl + ml + 32 + ca, int_enc(x.updated_at as int));
    assert(s.subrange(i, i + rec.len() as int)[hl + ml + 16 + ca] == s[i + (hl + ml + 16
        + ca)]);
    assert(rec[hl + ml + 16 + ca] == ", \"updated_at\": "@[0]);
    assert(s[i + hl + ml + 16 + ca] == ',');
    assert forall|t: int| 0 <= t < 1 implies rec[hl + ml + 32 + ca + ua + t] == "}"@[t] by {}
    lemma_seq_window(s, i, rec, hl + ml + 32 + ca + ua, "}"@);
    assert(s.subrange(i + hl + ml + 32 + ca + ua, i + hl + ml + 33 + ca + ua)[0] == s[i + (hl
        + ml + 32 + ca + ua)]);
    assert(s[i + hl + ml + 32 + ca + ua] == '}');
    assert(crate::text::is_at(s, "}"@, i + hl + ml + 32 + ca + ua));
    match view_of_opt(x.description) {
        Some(q) => {},
        None => {
            assert(opt_enc(view_of_opt(x.description)) == "null"@);
        },
    }
    match view_of_opt(x.milestone) {
        Some(q) => {},
        None => {
            assert(opt_enc(view_of_opt(x.milestone)) == "null"@);
        },
    }
    match view_of_opt(x.url) {
        Some(q) => {},
        None => {
            assert(opt_enc(view_of_opt(x.url)) == "null"@);
        },
    }
    match view_of_opt(x.repo) {
        Some(q) => {},
        None => {
            assert(opt_enc(view_of_opt(x.repo)) == "null"@);
        },
    }
    assert(project_rec_parts(s, i, x));
}

#[verifier::rlimit(100)]
#[verifier::spinoff_prover]
fn parse_project_at(s: &str, i: usize) -> (r: Option<(crate::project::Project, usize)>)
    ensures
        r matches Some(p) ==> i < p.1 <= s@.len() && s@.subrange(i as int, p.1 as int)
            == project_rec(p.0),
        forall|x: crate::project::Project| project_rec_at(s@, i as int, x) ==> (r matches Some(
            p,
        ) && same_project(p.0, x) && p.1 as int == i + project_rec(x).len()),
{
    proof {
        assert forall|x: crate::project::Project|
            project_rec_at(s@, i as int, x) implies project_rec_parts(s@, i as int, x) by {
            lemma_project_rec_pieces(s@, i as int, x);
        }
    }
    let ((id, title, description, milestone, url, repo), i12) = match parse_project_head_at(
        s,
        i,
    ) {
        Some(q) => q,
        None => {
            return None;
        },
    };
    let ((status, idea_ids), i16) = match parse_project_mid_at(s, i12) {
        Some(q) => q,
        None => {
            return None;
        },
    };
    let ((created_at, updated_at), i21) = match parse_stamps_at(s, i16) {
        Some(q) => q,
        None => {
            return None;
        },
    };
    let rec = crate::project::Project {
        id,
        title,
        description,
        milestone,
        url,
        repo,
        status,
        idea_ids,
        created_at,
        updated_at,
    };
    proof {
        assert(s@.subrange(i as int, i21 as int) =~= s@.subrange(i as int, i12 as int)
            + s@.subrange(i12 as int, i16 as int) + s@.subrange(i16 as int, i21 as int));
        assert(project_rec_head(rec) =~= project_head_enc(
            rec.id,
            rec.title@,
            view_of_opt(rec.description),
            view_of_opt(rec.milestone),
            view_of_opt(rec.url),
            view_of_opt(rec.repo),
        ));
        assert(s@.subrange(i as int, i21 as int) =~= project_rec(rec));
    }
    Some((rec, i21))
}

/// The first half of a task line, as plain field values.
pub open spec fn task_head_enc(
    id: u128,
    title: Seq<char>,
    description: Option<Seq<char>>,
    status: crate::task::TaskStatus,
    priority: crate::task::TaskPriority,
) -> Seq<char> {
    "  {\"id\": "@ + id_enc(id) + ", \"title\": "@ + str_enc(title)
        + ", \"description\": "@ + opt_enc(description) + ", \"status\": "@ + name_enc(
        status.spec_name(),
    ) + ", \"priority\": "@ + name_enc(priority.spec_name())
}

/// Whether the text at `i` spells the leading fields of a task line.
pub open spec fn task_head_at(
    s: Seq<char>,
    i: int,
    id: u128,
    title: Seq<char>,
    desc: Option<Seq<char>>,
    st: crate::task::TaskStatus,
    pr: crate::task::TaskPriority,
) -> bool {
    let tl = str_enc(title).len() as int;
    let de = opt_enc(desc).len() as int;
    let ns = st.spec_name().len() as int;
    &&& crate::text::is_at(s, "  {\"id\": "@, i)
    &&& id_at(s, i + 9, id)
    &&& crate::text::is_at(s, ", \"title\": "@, i + 47)
    &&& str_at(s, i + 58, title)
    &&& crate::text::is_at(s, ", \"description\": "@, i + 58 + tl)
    &&& opt_str_at(s, i + 75 + tl, desc)
    &&& crate::text::is_at(s, ", \"status\": "@, i + 75 + tl + de)
    &&& name_at(s, i + 87 + tl + de, st.spec_name())
    &&& crate::text::is_at(s, ", \"priority\": "@, i + 89 + tl + de + ns)
    &&& name_at(s, i + 103 + tl + de + ns, pr.spec_name())
}

#[verifier::rlimit(100)]
#[verifier::spinoff_prover]
fn parse_task_head_at(s: &str, i: usize) -> (r: Option<
    ((u128, String, Option<String>, crate::task::TaskStatus, crate::task::TaskPriority), usize),
>)
    ensures
        r matches Some(p) ==> i < p.1 <= s@.len() && s@.subrange(i as int, p.1 as int)
            == task_head_enc(p.0.0, p.0.1@, view_of_opt(p.0.2), p.0.3, p.0.4),
        forall|id: u128, tt: Seq<char>, dd: Option<Seq<char>>, st: crate::task::TaskStatus, pr: crate::task::TaskPriority|
            task_head_at(s@, i as int, id, tt, dd, st, pr) ==> (r matches Some(p) && p.0.0 == id
                && p.0.1@ == tt && view_of_opt(p.0.2) == dd && p.0.3 == st && p.0.4 == pr && (
            p.1 as int) == i + 105 + str_enc(tt).len() + opt_enc(dd).len()
                + st.spec_name().len() + pr.spec_name().len()),
{
    proof {
        reveal_strlit("  {\"id\": ");
        reveal_strlit(", \"title\": ");
        reveal_strlit(", \"description\": ");
        reveal_strlit(", \"status\": ");
        reveal_strlit(", \"priority\": ");
    }
    let i1 = match expect_lit(s, i, "  {\"id\": ") {
        Some(j) => j,
        None => {
            return None;
        },
    };
    let (id, i2) = match parse_id_at(s, i1) {
        Some(q) => q,
        None => {
            return None;
        },
    };
    let i3 = match expect_lit(s, i2, ", \"title\": ") {
        Some(j) => j,
        None => {
            return None;
        },
    };
    let (title, i4) = match parse_string_at(s, i3) {
        Some(q) => q,
        None => {
            return None;
        },
    };
    let i5 = match expect_lit(s, i4, ", \"description\": ") {
        Some(j) => j,
        None => {
            return None;
        },
    };
    let (description, i6) = match parse_opt_string_at(s, i5) {
        Some(q) => q,
        None => {
            return None;
        },
    };
    let i7 = match expect_lit(s, i6, ", \"status\": ") {
        Some(j) => j,
        None => {
            return None;
        },
    };
    let (status, i8) = match parse_task_status_at(s, i7) {
        Some(q) => q,
        None => {
            return None;
        },
    };
    let i9 = match expect_lit(s, i8, ", \"priority\": ") {
        Some(j) => j,
        None => {
            return None;
        },
    };
    let (priority, i10) = match parse_priority_at(s, i9) {
        Some(q) => q,
        None => {
            return None;
        },
    };
    proof {
        assert(s@.subrange(i as int, i10 as int) =~= task_head_enc(
            id,
            title@,
            view_of_opt(description),
            status,
            priority,
        ));
    }
    Some(((id, title, description, status, priority), i10))
}

/// Whether the text at `i` spells the schedule, link and tag fields of a
/// task line.
pub open spec fn task_mid_at(
    s: Seq<char>,
    i: int,
    due: Option<i64>,
    pid: Option<u128>,
    iid: Option<u128>,
    ts: Seq<Seq<char>>,
) -> bool {
    let du = opt_int_enc(
        match due {
            Some(d) => Some(d as int),
            None => None,
        },
    ).len() as int;
    let pe = opt_id_enc(pid).len() as int;
    let ie = opt_id_enc(iid).len() as int;
    &&& crate::text::is_at(s, ", \"due_date\": "@, i)
    &&& opt_int_at(s, i + 14, due)
    &&& crate::text::is_at(s, ", \"project_id\": "@, i + 14 + du)
    &&& opt_id_at(s, i + 30 + du, pid)
    &&& crate::text::is_at(s, ", \"idea_id\": "@, i + 30 + du + pe)
    &&& opt_id_at(s, i + 43 + du + pe, iid)
    &&& crate::text::is_at(s, ", \"tags\": "@, i + 43 + du + pe + ie)
    &&& strs_at(s, i + 53 + du + pe + ie, ts)
}

#[verifier::rlimit(100)]
#[verifier::spinoff_prover]
fn parse_task_mid_at(s: &str, i: usize) -> (r: Option<
    ((Option<i64>, Option<u128>, Option<u128>, Vec<String>), usize),
>)
    ensures
        r matches Some(p) ==> i < p.1 <= s@.len() && s@.subrange(i as int, p.1 as int)
            == ", \"due_date\": "@ + opt_int_enc(
            match p.0.0 {
                Some(d) => Some(d as int),
                None => None,
            },
        ) + ", \"project_id\": "@ + opt_id_enc(p.0.1) + ", \"idea_id\": "@ + opt_id_enc(
            p.0.2,
        ) + ", \"tags\": "@ + strs_arr(views_of(p.0.3@)),
        forall|due: Option<i64>, pid: Option<u128>, iid: Option<u128>, ts: Seq<Seq<char>>|
            task_mid_at(s@, i as int, due, pid, iid, ts) ==> (r matches Some(p) && p.0.0 == due
                && p.0.1 == pid && p.0.2 == iid && views_of(p.0.3@) == ts && p.1 as int == i + 53
                + opt_int_enc(
                match due {
                    Some(d) => Some(d as int),
                    None => None,
                },
            ).len() + opt_id_enc(pid).len() + opt_id_enc(iid).len() + strs_arr(ts).len()),
{
    proof {
        reveal_strlit(", \"due_date\": ");
        reveal_strlit(", \"project_id\": ");
        reveal_strlit(", \"idea_id\": ");
        reveal_strlit(", \"tags\": ");
    }
    let i11 = match expect_lit(s, i, ", \"due_date\": ") {
        Some(j) => j,
        None => {
            return None;
        },
    };
    let (due_date, i12) = match parse_opt_int_at(s, i11) {
        Some(q) => q,
        None => {
            return None;
        },
    };
    let i13 = match expect_lit(s, i12, ", \"project_id\": ") {
        Some(j) => j,
        None => {
            return None;
        },
    };
    let (project_id, i14) = match parse_opt_id_at(s, i13) {
        Some(q) => q,
        None => {
            return None;
        },
    };
    let i15 = match expect_lit(s, i14, ", \"idea_id\": ") {
        Some(j) => j,
        None => {
            return None;
        },
    };
    let (idea_id, i16) = match parse_opt_id_at(s, i15) {
        Some(q) => q,
        None => {
            return None;
        },
    };
    let i17 = match expect_lit(s, i16, ", \"tags\": ") {
        Some(j) => j,
        None => {
            return None;
        },
    };
    let (tags, i18) = match parse_strs_at(s, i17) {
        Some(q) => q,
        None => {
            return None;
        },
    };
    proof {
        assert(s@.subrange(i as int, i18 as int) =~= ", \"due_date\": "@ + opt_int_enc(
            match due_date {
                Some(d) => Some(d as int),
                None => None,
            },
        ) + ", \"project_id\": "@ + opt_id_enc(project_id) + ", \"idea_id\": "@
            + opt_id_enc(idea_id) + ", \"tags\": "@ + strs_arr(views_of(tags@)));
    }
    Some(((due_date, project_id, idea_id, tags), i18))
}

#[verifier::rlimit(100)]
#[verifier::spinoff_prover]
fn parse_task_at(s: &str, i: usize) -> (r: Option<(crate::task::Task, usize)>)
    ensures
        r matches Some(p) ==> i < p.1 <= s@.len() && s@.subrange(i as int, p.1 as int)
            == task_rec(p.0),
{
    let ((id, title, description, status, priority), i10) = match parse_task_head_at(s, i) {
        Some(q) => q,
        None => {
            return None;
        },
    };
    let ((due_date, project_id, idea_id, tags), i18) = match parse_task_mid_at(s, i10) {
        Some(q) => q,
        None => {
            return None;
        },
    };
    let ((created_at, updated_at), i23) = match parse_stamps_at(s, i18) {
        Some(q) => q,
        None => {
            return None;
        },
    };
    let rec = crate::task::Task {
        id,
        title,
        description,
        status,
        priority,
        due_date,
        project_id,
        idea_id,
        tags,
        created_at,
        updated_at,
    };
    proof {
        assert(s@.subrange(i as int, i23 as int) =~= s@.subrange(i as int, i10 as int)
            + s@.subrange(i10 as int, i18 as int) + s@.subrange(i18 as int, i23 as int));
        assert(task_rec_head(rec) =~= task_head_enc(
            rec.id,
            rec.title@,
            view_of_opt(rec.description),
            rec.status,
            rec.priority,
        ));
        assert(task_rec_tail(rec) =~= s@.subrange(i10 as int, i18 as int) + s@.subrange(
            i18 as int,
            i23 as int,
        ));
        assert(s@.subrange(i as int, i10 as int) == task_rec_head(rec));
        assert(s@.subrange(i as int, i23 as int) =~= s@.subrange(i as int, i10 as int) + (
        s@.subrange(i10 as int, i18 as int) + s@.subrange(i18 as int, i23 as int)));
        assert(s@.subrange(i as int, i23 as int) == task_rec_head(rec) + task_rec_tail(rec));
        assert(s@.subrange(i as int, i23 as int) == task_rec(rec));
    }
    Some((rec, i23))
}

/// Decode a task collection. Whatever decodes successfully is exactly the
/// canonical encoding of the result.
#[verifier::rlimit(100)]
#[verifier::spinoff_prover]
pub fn decode_tasks(s: &str) -> (r: Result<Vec<crate::task::Task>, VaultError>)
    ensures
        r matches Ok(v) ==> s@ == tasks_doc(v@),
        r matches Err(e) ==> e is Parse,
{
    let n = s.unicode_len();
    if crate::text::str_eq(s, "[]") {
        let v: Vec<crate::task::Task> = Vec::new();
        return Ok(v);
    }
    let i0 = match expect_lit(s, 0, "[\n") {
        Some(j) => j,
        None => {
            return Err(parse_error());
        },
    };
    let mut out: Vec<crate::task::Task> = Vec::new();
    let (t0, mut p) = match parse_task_at(s, i0) {
        Some(q) => q,
        None => {
            return Err(parse_error());
        },
    };
    out.push(t0);
    proof {
        reveal_strlit("[\n");
        assert(out@.take(1) =~= seq![out@[0]]);
        assert(s@.subrange(0, p as int) =~= "[\n"@ + task_lines(out@));
    }
    loop
        invariant
            n == s@.len(),
            2 < p <= n,
            out@.len() >= 1,
            s@.subrange(0, p as int) == "[\n"@ + task_lines(out@),
        decreases n - p,
    {
        match expect_lit(s, p, ",\n") {
            Some(j) => {
                let (t, p2) = match parse_task_at(s, j) {
                    Some(q) => q,
                    None => {
                        return Err(parse_error());
                    },
                };
                let ghost o0 = out@;
                out.push(t);
                proof {
                    assert(out@.drop_last() =~= o0);
                    assert(out@.last() == t);
                    assert(s@.subrange(0, p2 as int) =~= s@.subrange(0, p as int) + s@.subrange(
                        p as int,
                        j as int,
                    ) + s@.subrange(j as int, p2 as int));
                    assert(task_lines(out@) == task_lines(o0) + ",\n"@ + s@.subrange(
                        j as int,
                        p2 as int,
                    ));
                    assert(s@.subrange(0, p2 as int) =~= "[\n"@ + task_lines(out@));
                }
                p = p2;
            },
            None => {
                let j = match expect_lit(s, p, "\n]") {
                    Some(j) => j,
                    None => {
                        return Err(parse_error());
                    },
                };
                if j != n {
                    return Err(parse_error());
                }
                proof {
                    assert(s@.subrange(0, n as int) =~= s@);
                    assert(s@ =~= tasks_doc(out@));
                }
                return Ok(out);
            },
        }
    }
}

} // verus!
