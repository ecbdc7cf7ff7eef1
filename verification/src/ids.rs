//! Entity identifiers. An identifier is the 128-bit value of a random UUID.

use vstd::prelude::*;

verus! {

/// Relies on uuid::Uuid::new_v4 and Uuid::as_u128: a freshly drawn random
/// version-4 UUID as its 128-bit value. The value is random, so no ensures
/// clause constrains it.
#[verifier::external_body]
pub(crate) fn fresh_id() -> u128 {
    uuid::Uuid::new_v4().as_u128()
}

/// The lower-case hex digit for a value below 16.
pub open spec fn hex_digit(v: int) -> char {
    if v == 0 { '0' } else if v == 1 { '1' } else if v == 2 { '2' } else if v == 3 { '3' }
    else if v == 4 { '4' } else if v == 5 { '5' } else if v == 6 { '6' } else if v == 7 { '7' }
    else if v == 8 { '8' } else if v == 9 { '9' } else if v == 10 { 'a' } else if v == 11 { 'b' }
    else if v == 12 { 'c' } else if v == 13 { 'd' } else if v == 14 { 'e' } else { 'f' }
}

/// The `n` lowest hex digits of `v`, most significant first.
pub open spec fn hex_seq(v: int, n: nat) -> Seq<char>
    decreases n,
{
    if n == 0 {
        Seq::empty()
    } else {
        hex_seq(v / 16, (n - 1) as nat).push(hex_digit(v % 16))
    }
}

/// The canonical hyphenated rendering of a 128-bit identifier:
/// 8-4-4-4-12 lower-case hex digits.
pub open spec fn id_text(id: u128) -> Seq<char> {
    hex_seq(id as int / 0x1_0000_0000_0000_0000_0000_0000, 8)
        + seq!['-'] + hex_seq(id as int / 0x1_0000_0000_0000_0000_0000 % 0x1_0000, 4)
        + seq!['-'] + hex_seq(id as int / 0x1_0000_0000_0000_0000 % 0x1_0000, 4)
        + seq!['-'] + hex_seq(id as int / 0x1_0000_0000_0000 % 0x1_0000, 4)
        + seq!['-'] + hex_seq(id as int % 0x1_0000_0000_0000, 12)
}

/// Append the `n` lowest hex digits of `v`, most significant first.
fn push_hex(out: &mut String, v: u128, n: usize)
    ensures
        final(out)@ == old(out)@ + hex_seq(v as int, n as nat),
    decreases n,
{
    if n == 0 {
        proof {
            assert(out@ =~= old(out)@ + hex_seq(v as int, 0));
        }
        return;
    }
    push_hex(out, v / 16, n - 1);
    let d: u128 = v % 16;
    let c: char = if d == 0 { '0' } else if d == 1 { '1' } else if d == 2 { '2' }
        else if d == 3 { '3' } else if d == 4 { '4' } else if d == 5 { '5' }
        else if d == 6 { '6' } else if d == 7 { '7' } else if d == 8 { '8' }
        else if d == 9 { '9' } else if d == 10 { 'a' } else if d == 11 { 'b' }
        else if d == 12 { 'c' } else if d == 13 { 'd' } else if d == 14 { 'e' } else { 'f' };
    crate::text::string_push(out, c);
    proof {
        assert(c == hex_digit(v as int % 16));
        assert(out@ =~= old(out)@ + hex_seq(v as int, n as nat));
    }
}

/// The canonical hyphenated text of an identifier.
pub fn id_string(id: u128) -> (r: String)
    ensures
        r@ == id_text(id),
{
    let mut out = String::new();
    push_hex(&mut out, id / 0x1_0000_0000_0000_0000_0000_0000, 8);
    crate::text::string_push(&mut out, '-');
    push_hex(&mut out, id / 0x1_0000_0000_0000_0000_0000 % 0x1_0000, 4);
    crate::text::string_push(&mut out, '-');
    push_hex(&mut out, id / 0x1_0000_0000_0000_0000 % 0x1_0000, 4);
    crate::text::string_push(&mut out, '-');
    push_hex(&mut out, id / 0x1_0000_0000_0000 % 0x1_0000, 4);
    crate::text::string_push(&mut out, '-');
    push_hex(&mut out, id % 0x1_0000_0000_0000, 12);
    proof {
        assert(out@ =~= id_text(id));
    }
    out
}

} // verus!
