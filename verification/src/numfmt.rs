//! Rendering and parsing of integers as text: lower-case hexadecimal for
//! content hashes, and decimal for the numeric fields of serialized records.
use vstd::prelude::*;

verus! {

/// The character for one digit value below 16: `0`-`9` then `a`-`f`.
pub open spec fn digit_char(d: nat) -> char {
    if d < 10 {
        ((d + 48) as u8) as char
    } else {
        ((d + 87) as u8) as char
    }
}

/// Lower-case hexadecimal rendering of `v`, without leading zeros
/// (`0` renders as `"0"`), as produced by `{:x}` formatting.
pub open spec fn hex_of(v: nat) -> Seq<char>
    decreases v,
{
    if v < 16 {
        seq![digit_char(v)]
    } else {
        hex_of(v / 16).push(digit_char(v % 16))
    }
}

/// Decimal rendering of `v`, without leading zeros (`0` renders as `"0"`).
pub open spec fn dec_of(v: nat) -> Seq<char>
    decreases v,
{
    if v < 10 {
        seq![digit_char(v)]
    } else {
        dec_of(v / 10).push(digit_char(v % 10))
    }
}

/// Decimal rendering of a signed value: a leading `-` for negatives.
pub open spec fn dec_of_i64(v: int) -> Seq<char> {
    if v < 0 {
        seq!['-'] + dec_of((-v) as nat)
    } else {
        dec_of(v as nat)
    }
}

pub open spec fn is_dec_digit(c: char) -> bool {
    '0' <= c && c <= '9'
}

/// The numeric value of a sequence of decimal digits.
pub open spec fn dec_val(s: Seq<char>) -> nat
    decreases s.len(),
{
    if s.len() == 0 {
        0
    } else {
        dec_val(s.drop_last()) * 10 + (s.last() as nat - 48) as nat
    }
}

pub proof fn lemma_digit_char_is_digit(d: nat)
    requires
        d < 10,
    ensures
        is_dec_digit(digit_char(d)),
        digit_char(d) as nat == d + 48,
{
}

/// Every character of a decimal rendering is a digit, and the rendering is
/// never empty.
pub proof fn lemma_dec_of_digits(v: nat)
    ensures
        dec_of(v).len() >= 1,
        v >= 10 ==> dec_of(v).len() >= 2,
        forall|i: int| 0 <= i < dec_of(v).len() ==> is_dec_digit(#[trigger] dec_of(v)[i]),
    decreases v,
{
    if v < 10 {
        lemma_digit_char_is_digit(v);
    } else {
        lemma_dec_of_digits(v / 10);
        lemma_digit_char_is_digit(v % 10);
    }
}

/// Reading back a decimal rendering gives the value rendered.
pub proof fn lemma_dec_roundtrip(v: nat)
    ensures
        dec_val(dec_of(v)) == v,
    decreases v,
{
    if v < 10 {
        lemma_digit_char_is_digit(v);
        assert(dec_of(v) == seq![digit_char(v)]);
        assert(dec_of(v).last() == digit_char(v));
        assert(dec_of(v).drop_last() =~= Seq::<char>::empty());
        assert(dec_val(Seq::<char>::empty()) == 0);
        assert(dec_val(dec_of(v)) == dec_val(dec_of(v).drop_last()) * 10 + (dec_of(v).last() as nat
            - 48) as nat);
    } else {
        lemma_dec_roundtrip(v / 10);
        lemma_digit_char_is_digit(v % 10);
        assert(dec_of(v).last() == digit_char(v % 10));
        assert(dec_of(v).drop_last() =~= dec_of(v / 10));
        assert(dec_val(dec_of(v)) == dec_val(dec_of(v / 10)) * 10 + (digit_char(v % 10) as nat
            - 48) as nat);
        assert((v / 10) * 10 + v % 10 == v);
    }
}

/// A decimal rendering never starts with a superfluous zero.
pub proof fn lemma_dec_of_no_leading_zero(v: nat)
    ensures
        dec_of(v).len() == 1 || dec_of(v).first() != '0',
    decreases v,
{
    if v < 10 {
    } else {
        lemma_dec_of_no_leading_zero(v / 10);
        lemma_dec_of_digits(v / 10);
        assert(dec_of(v).first() == dec_of(v / 10).first());
        if v / 10 < 10 {
            assert(dec_of(v / 10) == seq![digit_char(v / 10)]);
            assert(v / 10 >= 1);
            lemma_digit_char_is_digit(v / 10);
            assert(digit_char(v / 10) as nat == v / 10 + 48);
            assert(digit_char(v / 10) != '0');
        } else {
            assert(dec_of(v / 10).len() >= 2);
        }
    }
}

/// Append the decimal rendering of `v` to `out`.
pub fn push_dec_u64(out: &mut Vec<char>, v: u64)
    ensures
        final(out)@ == old(out)@ + dec_of(v as nat),
    decreases v,
{
    if v < 10 {
        let c = ((v + 48) as u8) as char;
        out.push(c);
        proof {
            assert(final(out)@ =~= old(out)@ + dec_of(v as nat));
        }
    } else {
        push_dec_u64(out, v / 10);
        let d = v % 10;
        let c = ((d + 48) as u8) as char;
        out.push(c);
        proof {
            assert(final(out)@ =~= old(out)@ + dec_of(v as nat));
        }
    }
}

/// Append the decimal rendering of a signed value to `out`.
pub fn push_dec_i64(out: &mut Vec<char>, v: i64)
    ensures
        final(out)@ == old(out)@ + dec_of_i64(v as int),
{
    if v < 0 {
        out.push('-');
        let m = (-(v as i128)) as u64;
        push_dec_u64(out, m);
        proof {
            assert(final(out)@ =~= old(out)@ + dec_of_i64(v as int));
        }
    } else {
        push_dec_u64(out, v as u64);
    }
}

/// Append the hexadecimal rendering of `v` to `out`.
pub fn push_hex_u128(out: &mut Vec<char>, v: u128)
    ensures
        final(out)@ == old(out)@ + hex_of(v as nat),
    decreases v,
{
    if v < 16 {
        let d = v as u64;
        let c = if d < 10 {
            ((d + 48) as u8) as char
        } else {
            ((d + 87) as u8) as char
        };
        out.push(c);
        proof {
            assert(c == digit_char(v as nat));
            assert(final(out)@ =~= old(out)@ + hex_of(v as nat));
        }
    } else {
        push_hex_u128(out, v / 16);
        let d = (v % 16) as u64;
        let c = if d < 10 {
            ((d + 48) as u8) as char
        } else {
            ((d + 87) as u8) as char
        };
        out.push(c);
        proof {
            assert(c == digit_char((v as nat) % 16));
            assert(final(out)@ =~= old(out)@ + hex_of(v as nat));
        }
    }
}

/// The hexadecimal rendering of `v` as a fresh vector.
pub fn hex_u128_chars(v: u128) -> (r: Vec<char>)
    ensures
        r@ == hex_of(v as nat),
{
    let mut out: Vec<char> = Vec::new();
    push_hex_u128(&mut out, v);
    out
}

/// Two values with the same hexadecimal rendering are equal.
pub proof fn lemma_hex_injective(a: nat, b: nat)
    requires
        hex_of(a) == hex_of(b),
    ensures
        a == b,
    decreases a,
{
    lemma_hex_digits(a);
    lemma_hex_digits(b);
    if a < 16 && b < 16 {
        assert(hex_of(a)[0] == digit_char(a));
        assert(hex_of(b)[0] == digit_char(b));
    } else if a >= 16 && b >= 16 {
        assert(hex_of(a).last() == digit_char(a % 16));
        assert(hex_of(b).last() == digit_char(b % 16));
        assert(hex_of(a).drop_last() =~= hex_of(a / 16));
        assert(hex_of(b).drop_last() =~= hex_of(b / 16));
        lemma_hex_injective(a / 16, b / 16);
    } else if a < 16 {
        assert(hex_of(b).len() >= 2);
        assert(false);
    } else {
        assert(hex_of(a).len() >= 2);
        assert(false);
    }
}

/// Hexadecimal renderings are non-empty; longer values render longer.
pub proof fn lemma_hex_digits(v: nat)
    ensures
        hex_of(v).len() >= 1,
        v >= 16 ==> hex_of(v).len() >= 2,
    decreases v,
{
    if v >= 16 {
        lemma_hex_digits(v / 16);
    }
}

} // verus!
