//! Strict JSON text for the engine's records.
//!
//! The engine owns every file under its hidden directory, so records are both
//! written and read by this module: the printer emits one canonical rendering,
//! and the reader parses it back. The round-trip lemmas state that reading a
//! canonical rendering returns exactly the record printed.
use vstd::prelude::*;
use crate::numfmt::digit_char;

verus! {

/// Every `char` value lies in the Unicode scalar range. Verus carries this
/// fact on function parameters; this lemma makes it available for characters
/// taken out of sequences.
pub proof fn lemma_char_valid(c: char)
    ensures
        0 <= c as int <= 0x10FFFF,
{
}

/// The escape of one character inside a JSON string literal.
pub open spec fn esc_char(c: char) -> Seq<char> {
    if c == '"' {
        seq!['\\', '"']
    } else if c == '\\' {
        seq!['\\', '\\']
    } else if c == '\n' {
        seq!['\\', 'n']
    } else if c == '\r' {
        seq!['\\', 'r']
    } else if c == '\t' {
        seq!['\\', 't']
    } else if (c as nat) < 32 {
        seq!['\\', 'u', '0', '0', digit_char((c as nat) / 16), digit_char((c as nat) % 16)]
    } else {
        seq![c]
    }
}

/// The body of a JSON string literal holding the characters of `s`.
pub open spec fn esc(s: Seq<char>) -> Seq<char>
    decreases s.len(),
{
    if s.len() == 0 {
        Seq::<char>::empty()
    } else {
        esc_char(s.first()) + esc(s.drop_first())
    }
}

/// A complete JSON string literal for `s`, quotes included.
pub open spec fn quoted(s: Seq<char>) -> Seq<char> {
    seq!['"'] + esc(s) + seq!['"']
}

pub open spec fn is_lower_hex_digit(c: char) -> bool {
    ('0' <= c && c <= '9') || ('a' <= c && c <= 'f')
}

/// The value of one lower-case hexadecimal digit character.
pub open spec fn hex_digit_val(c: char) -> nat {
    if '0' <= c && c <= '9' {
        (c as nat - 48) as nat
    } else {
        (c as nat - 87) as nat
    }
}

/// The character a single-character escape stands for.
pub open spec fn unesc_char(e: char) -> char {
    if e == '"' {
        '"'
    } else if e == '\\' {
        '\\'
    } else if e == 'n' {
        '\n'
    } else if e == 'r' {
        '\r'
    } else {
        '\t'
    }
}

/// Read a JSON string-literal body: `s` starts right after the opening quote.
/// Returns the unescaped contents and the remainder after the closing quote.
pub open spec fn unesc(s: Seq<char>) -> Option<(Seq<char>, Seq<char>)>
    decreases s.len(),
{
    if s.len() == 0 {
        None
    } else if s.first() == '"' {
        Some((Seq::<char>::empty(), s.drop_first()))
    } else if s.first() == '\\' {
        if s.len() < 2 {
            None
        } else if s[1] == '"' || s[1] == '\\' || s[1] == 'n' || s[1] == 'r' || s[1] == 't' {
            match unesc(s.skip(2)) {
                Some(p) => Some((seq![unesc_char(s[1])] + p.0, p.1)),
                None => None,
            }
        } else if s[1] == 'u' {
            if s.len() < 6 {
                None
            } else if s[2] == '0' && s[3] == '0' && is_lower_hex_digit(s[4]) && is_lower_hex_digit(
                s[5],
            ) && hex_digit_val(s[4]) * 16 + hex_digit_val(s[5]) < 32 {
                match unesc(s.skip(6)) {
                    Some(p) => Some(
                        (
                            seq![((hex_digit_val(s[4]) * 16 + hex_digit_val(s[5])) as u8) as char]
                                + p.0,
                            p.1,
                        ),
                    ),
                    None => None,
                }
            } else {
                None
            }
        } else {
            None
        }
    } else {
        match unesc(s.drop_first()) {
            Some(p) => Some((seq![s.first()] + p.0, p.1)),
            None => None,
        }
    }
}

/// Reading a canonical string-literal body returns the printed characters and
/// leaves exactly the text after the closing quote.
pub proof fn lemma_unesc_esc(s: Seq<char>, rest: Seq<char>)
    ensures
        unesc(esc(s) + seq!['"'] + rest) == Some((s, rest)),
    decreases s.len(),
{
    if s.len() == 0 {
        let t = esc(s) + seq!['"'] + rest;
        assert(t =~= seq!['"'] + rest);
        assert(t.first() == '"');
        assert(t.drop_first() =~= rest);
        assert(s =~= Seq::<char>::empty());
    } else {
        let c = s.first();
        let s2 = s.drop_first();
        let t2 = esc(s2) + seq!['"'] + rest;
        let t = esc(s) + seq!['"'] + rest;
        assert(t =~= esc_char(c) + t2);
        lemma_unesc_esc(s2, rest);
        if c == '"' || c == '\\' {
            let e = if c == '"' {
                '"'
            } else {
                '\\'
            };
            assert(t.first() == '\\');
            assert(t[1] == e);
            assert(t.skip(2) =~= t2);
            assert(unesc_char(e) == c);
            assert(seq![c] + s2 =~= s);
        } else if c == '\n' || c == '\r' || c == '\t' {
            let e = if c == '\n' {
                'n'
            } else if c == '\r' {
                'r'
            } else {
                't'
            };
            assert(t.first() == '\\');
            assert(t[1] == e);
            assert(t.skip(2) =~= t2);
            assert(unesc_char(e) == c);
            assert(seq![c] + s2 =~= s);
        } else if (c as nat) < 32 {
            lemma_char_valid(c);
            let hi = (c as nat) / 16;
            let lo = (c as nat) % 16;
            assert(t.first() == '\\');
            assert(t[1] == 'u');
            assert(t[2] == '0');
            assert(t[3] == '0');
            assert(t[4] == digit_char(hi));
            assert(t[5] == digit_char(lo));
            assert(t.len() >= 7);
            assert(is_lower_hex_digit(digit_char(hi)) && hex_digit_val(digit_char(hi)) == hi);
            assert(is_lower_hex_digit(digit_char(lo)) && hex_digit_val(digit_char(lo)) == lo);
            assert(hi * 16 + lo == c as nat);
            assert(hi * 16 + lo < 32);
            assert(((hi * 16 + lo) as u8) as nat == hi * 16 + lo);
            assert((((hi * 16 + lo) as u8) as char) as nat == c as nat);
            assert(((hi * 16 + lo) as u8) as char == c);
            assert(t.skip(6) =~= t2);
            assert(seq![c] + s2 =~= s);
        } else {
            assert(t.first() == c);
            assert(t.first() != '"' && t.first() != '\\');
            assert(t.drop_first() =~= t2);
            assert(seq![c] + s2 =~= s);
        }
    }
}

/// Printing one more character extends the printed text by that character's
/// escape.
pub proof fn lemma_esc_snoc(s: Seq<char>, c: char)
    ensures
        esc(s.push(c)) == esc(s) + esc_char(c),
    decreases s.len(),
{
    if s.len() == 0 {
        assert(s.push(c).first() == c);
        assert(s.push(c).drop_first() =~= Seq::<char>::empty());
        assert(esc(Seq::<char>::empty()) =~= Seq::<char>::empty());
        assert(esc(s.push(c)) == esc_char(c) + esc(Seq::<char>::empty()));
        assert(esc(s) =~= Seq::<char>::empty());
        assert(esc(s.push(c)) =~= esc(s) + esc_char(c));
    } else {
        assert(s.push(c).first() == s.first());
        assert(s.push(c).drop_first() =~= s.drop_first().push(c));
        lemma_esc_snoc(s.drop_first(), c);
        assert(esc(s.push(c)) =~= esc(s) + esc_char(c));
    }
}

/// Append the escaped form of `s` to `out`.
pub fn escape_into(out: &mut Vec<char>, s: &Vec<char>)
    ensures
        final(out)@ == old(out)@ + esc(s@),
{
    let n = s.len();
    let mut i: usize = 0;
    proof {
        assert(out@ =~= old(out)@ + esc(s@.subrange(0, 0)));
    }
    while i < n
        invariant
            i <= n,
            n == s@.len(),
            out@ == old(out)@ + esc(s@.subrange(0, i as int)),
        decreases n - i,
    {
        let c = s[i];
        proof {
            lemma_char_valid(c);
        }
        if c == '"' {
            out.push('\\');
            out.push('"');
        } else if c == '\\' {
            out.push('\\');
            out.push('\\');
        } else if c == '\n' {
            out.push('\\');
            out.push('n');
        } else if c == '\r' {
            out.push('\\');
            out.push('r');
        } else if c == '\t' {
            out.push('\\');
            out.push('t');
        } else if (c as u32) < 32 {
            out.push('\\');
            out.push('u');
            out.push('0');
            out.push('0');
            let v = c as u32;
            proof {
                assert(v == c as nat);
            }
            let hi = (v / 16) as u8;
            let lo = (v % 16) as u8;
            proof {
                assert(hi as nat == (c as nat) / 16);
                assert(lo as nat == (c as nat) % 16);
            }
            let hc = if hi < 10 {
                (hi + 48) as char
            } else {
                (hi + 87) as char
            };
            let lc = if lo < 10 {
                (lo + 48) as char
            } else {
                (lo + 87) as char
            };
            out.push(hc);
            out.push(lc);
            proof {
                assert(hc == digit_char((c as nat) / 16));
                assert(lc == digit_char((c as nat) % 16));
            }
        } else {
            out.push(c);
        }
        proof {
            lemma_esc_snoc(s@.subrange(0, i as int), s@[i as int]);
            assert(s@.subrange(0, i + 1) =~= s@.subrange(0, i as int).push(s@[i as int]));
            assert(out@ =~= old(out)@ + esc(s@.subrange(0, i + 1)));
        }
        i = i + 1;
    }
    proof {
        assert(s@.subrange(0, n as int) =~= s@);
    }
}

/// Read a string-literal body out of `s`, starting at `i` (just after the
/// opening quote). On success returns the unescaped contents together with
/// the position after the closing quote.
pub fn unescape_from(s: &Vec<char>, i: usize) -> (r: Option<(Vec<char>, usize)>)
    requires
        i <= s@.len(),
    ensures
        match r {
            Some(p) => i <= p.1 <= s@.len() && unesc(s@.skip(i as int)) == Some(
                (p.0@, s@.skip(p.1 as int)),
            ),
            None => unesc(s@.skip(i as int)) is None,
        },
    decreases s@.len() - i,
{
    let ghost t = s@.skip(i as int);
    if i == s.len() {
        return None;
    }
    let c = s[i];
    proof {
        assert(t.first() == c);
    }
    if c == '"' {
        proof {
            assert(t.drop_first() =~= s@.skip(i + 1));
        }
        return Some((Vec::new(), i + 1));
    }
    if c == '\\' {
        if i + 1 == s.len() {
            proof {
                assert(t.len() < 2);
            }
            return None;
        }
        let e = s[i + 1];
        proof {
            assert(t[1] == e);
        }
        if e == '"' || e == '\\' || e == 'n' || e == 'r' || e == 't' {
            proof {
                assert(t.skip(2) =~= s@.skip(i + 2));
            }
            match unescape_from(s, i + 2) {
                Some((tail, j)) => {
                    let d = if e == '"' {
                        '"'
                    } else if e == '\\' {
                        '\\'
                    } else if e == 'n' {
                        '\n'
                    } else if e == 'r' {
                        '\r'
                    } else {
                        '\t'
                    };
                    let mut v = tail;
                    v.insert(0, d);
                    proof {
                        assert(d == unesc_char(e));
                        assert(v@ =~= seq![unesc_char(t[1])] + v@.skip(1));
                    }
                    Some((v, j))
                },
                None => None,
            }
        } else if e == 'u' {
            if s.len() - i < 6 {
                proof {
                    assert(t.len() < 6);
                }
                return None;
            }
            let z1 = s[i + 2];
            let z2 = s[i + 3];
            let h = s[i + 4];
            let l = s[i + 5];
            proof {
                assert(t[2] == z1 && t[3] == z2 && t[4] == h && t[5] == l);
                lemma_char_valid(h);
                lemma_char_valid(l);
            }
            if z1 != '0' || z2 != '0' {
                return None;
            }
            let hv: u32 = if '0' <= h && h <= '9' {
                (h as u32) - 48
            } else if 'a' <= h && h <= 'f' {
                (h as u32) - 87
            } else {
                return None;
            };
            let lv: u32 = if '0' <= l && l <= '9' {
                (l as u32) - 48
            } else if 'a' <= l && l <= 'f' {
                (l as u32) - 87
            } else {
                return None;
            };
            let val = hv * 16 + lv;
            if val >= 32 {
                return None;
            }
            proof {
                assert(is_lower_hex_digit(h) && hv == hex_digit_val(h));
                assert(is_lower_hex_digit(l) && lv == hex_digit_val(l));
                assert(t.skip(6) =~= s@.skip(i + 6));
            }
            match unescape_from(s, i + 6) {
                Some((tail, j)) => {
                    let d = (val as u8) as char;
                    let mut v = tail;
                    v.insert(0, d);
                    proof {
                        assert(v@ =~= seq![
                            ((hex_digit_val(t[4]) * 16 + hex_digit_val(t[5])) as u8) as char,
                        ] + v@.skip(1));
                    }
                    Some((v, j))
                },
                None => None,
            }
        } else {
            None
        }
    } else {
        proof {
            assert(t.drop_first() =~= s@.skip(i + 1));
        }
        match unescape_from(s, i + 1) {
            Some((tail, j)) => {
                let mut v = tail;
                v.insert(0, c);
                proof {
                    assert(v@ =~= seq![t.first()] + v@.skip(1));
                }
                Some((v, j))
            },
            None => None,
        }
    }
}

/// Does `s` begin with `p`?
pub open spec fn starts_with(s: Seq<char>, p: Seq<char>) -> bool {
    p.len() <= s.len() && s.take(p.len() as int) == p
}

/// Expect the exact text `p` at the front of `s`; on success return the rest.
pub open spec fn sp_lit(s: Seq<char>, p: Seq<char>) -> Option<Seq<char>> {
    if starts_with(s, p) {
        Some(s.skip(p.len() as int))
    } else {
        None
    }
}

pub proof fn lemma_sp_lit(p: Seq<char>, rest: Seq<char>)
    ensures
        sp_lit(p + rest, p) == Some(rest),
{
    assert((p + rest).take(p.len() as int) =~= p);
    assert((p + rest).skip(p.len() as int) =~= rest);
}

/// Split `s` at its first non-digit character.
pub open spec fn sp_digits(s: Seq<char>) -> (Seq<char>, Seq<char>)
    decreases s.len(),
{
    if s.len() == 0 || !is_dec_digit(s.first()) {
        (Seq::<char>::empty(), s)
    } else {
        let p = sp_digits(s.drop_first());
        (seq![s.first()] + p.0, p.1)
    }
}

use crate::numfmt::is_dec_digit;
use crate::numfmt::dec_val;
use crate::numfmt::dec_of;
use crate::numfmt::dec_of_i64;

/// Read an unsigned decimal number: a non-empty digit run without a leading
/// zero, whose value fits in a `u64`.
pub open spec fn sp_u64(s: Seq<char>) -> Option<(u64, Seq<char>)> {
    let p = sp_digits(s);
    if p.0.len() == 0 {
        None
    } else if p.0.len() > 1 && p.0.first() == '0' {
        None
    } else if dec_val(p.0) > u64::MAX {
        None
    } else {
        Some((dec_val(p.0) as u64, p.1))
    }
}

/// Read a signed decimal number: an optional leading minus sign, never
/// in front of a zero, with the value fitting in an `i64`.
pub open spec fn sp_i64(s: Seq<char>) -> Option<(i64, Seq<char>)> {
    if s.len() > 0 && s.first() == '-' {
        match sp_u64(s.drop_first()) {
            Some(p) => if 1 <= p.0 <= 0x8000000000000000u64 {
                Some(((-(p.0 as int)) as i64, p.1))
            } else {
                None
            },
            None => None,
        }
    } else {
        match sp_u64(s) {
            Some(p) => if p.0 <= i64::MAX as u64 {
                Some((p.0 as i64, p.1))
            } else {
                None
            },
            None => None,
        }
    }
}

/// A digit run splits exactly at the first non-digit position.
pub proof fn lemma_sp_digits_split(s: Seq<char>, k: int)
    requires
        0 <= k <= s.len(),
        forall|i: int| 0 <= i < k ==> is_dec_digit(#[trigger] s[i]),
        k == s.len() || !is_dec_digit(s[k]),
    ensures
        sp_digits(s).0 == s.take(k),
        sp_digits(s).1 == s.skip(k),
    decreases s.len(),
{
    if s.len() == 0 || !is_dec_digit(s.first()) {
        assert(k == 0);
        assert(s.take(0) =~= Seq::<char>::empty());
        assert(s.skip(0) =~= s);
    } else {
        assert(k >= 1);
        lemma_sp_digits_split(s.drop_first(), k - 1);
        assert(seq![s.first()] + s.drop_first().take(k - 1) =~= s.take(k));
        assert(s.drop_first().skip(k - 1) =~= s.skip(k));
    }
}

/// Reading a canonical unsigned rendering followed by a non-digit gives back
/// the value rendered.
pub proof fn lemma_sp_u64_of_dec(v: u64, rest: Seq<char>)
    requires
        rest.len() == 0 || !is_dec_digit(rest.first()),
    ensures
        sp_u64(dec_of(v as nat) + rest) == Some((v, rest)),
{
    let d = dec_of(v as nat);
    let s = d + rest;
    crate::numfmt::lemma_dec_of_digits(v as nat);
    assert forall|i: int| 0 <= i < d.len() implies is_dec_digit(#[trigger] s[i]) by {
        assert(s[i] == d[i]);
    }
    assert(d.len() == s.len() || !is_dec_digit(s[d.len() as int]));
    lemma_sp_digits_split(s, d.len() as int);
    assert(s.take(d.len() as int) =~= d);
    assert(s.skip(d.len() as int) =~= rest);
    crate::numfmt::lemma_dec_roundtrip(v as nat);
    crate::numfmt::lemma_dec_of_no_leading_zero(v as nat);
}

/// Reading a canonical signed rendering followed by a non-digit gives back
/// the value rendered.
pub proof fn lemma_sp_i64_of_dec(v: i64, rest: Seq<char>)
    requires
        rest.len() == 0 || !is_dec_digit(rest.first()),
    ensures
        sp_i64(dec_of_i64(v as int) + rest) == Some((v, rest)),
{
    if v < 0 {
        let m = (-(v as int)) as nat;
        let s = dec_of_i64(v as int) + rest;
        assert(s.first() == '-');
        assert(s.drop_first() =~= dec_of(m) + rest);
        assert(m <= 0x8000000000000000);
        lemma_sp_u64_of_dec(m as u64, rest);
        assert(1 <= m as u64 <= 0x8000000000000000u64);
        assert((-((m as u64) as int)) as i64 == v);
    } else {
        let s = dec_of_i64(v as int) + rest;
        crate::numfmt::lemma_dec_of_digits(v as nat);
        assert(s.first() == dec_of(v as nat).first());
        assert(is_dec_digit(s.first()));
        assert(s.first() != '-');
        lemma_sp_u64_of_dec(v as u64, rest);
        assert(dec_of(v as nat) + rest =~= s);
    }
}

/// Append a complete JSON string literal for `s` to `out`.
pub fn push_quoted(out: &mut Vec<char>, s: &Vec<char>)
    ensures
        final(out)@ == old(out)@ + quoted(s@),
{
    out.push('"');
    escape_into(out, s);
    out.push('"');
    proof {
        assert(final(out)@ =~= old(out)@ + quoted(s@));
    }
}

/// Read a complete JSON string literal, opening quote included.
pub open spec fn sp_quoted(s: Seq<char>) -> Option<(Seq<char>, Seq<char>)> {
    if s.len() > 0 && s.first() == '"' {
        unesc(s.drop_first())
    } else {
        None
    }
}

/// Reading a canonical string literal gives back the text printed.
pub proof fn lemma_sp_quoted(x: Seq<char>, rest: Seq<char>)
    ensures
        sp_quoted(quoted(x) + rest) == Some((x, rest)),
{
    let s = quoted(x) + rest;
    assert(s.first() == '"');
    assert(s.drop_first() =~= esc(x) + seq!['"'] + rest);
    lemma_unesc_esc(x, rest);
}

/// Expect the literal text `lit` at position `i`.
pub fn expect_lit(s: &Vec<char>, i: usize, lit: &str) -> (r: Option<usize>)
    requires
        i <= s@.len(),
    ensures
        match r {
            Some(j) => i <= j <= s@.len() && sp_lit(s@.skip(i as int), lit@) == Some(
                s@.skip(j as int),
            ),
            None => sp_lit(s@.skip(i as int), lit@) is None,
        },
{
    let n = lit.unicode_len();
    let slen = s.len();
    if slen - i < n {
        proof {
            assert(!starts_with(s@.skip(i as int), lit@));
        }
        return None;
    }
    let mut k: usize = 0;
    while k < n
        invariant
            k <= n,
            i + n <= slen,
            slen == s@.len(),
            n == lit@.len(),
            forall|m: int| 0 <= m < k ==> s@[i + m] == lit@[m],
        decreases n - k,
    {
        let c = s[i + k];
        let d = lit.get_char(k);
        if c != d {
            proof {
                let t = s@.skip(i as int);
                assert(t.take(n as int)[k as int] == s@[i + k]);
                assert(t.take(n as int) != lit@);
            }
            return None;
        }
        k = k + 1;
    }
    proof {
        let t = s@.skip(i as int);
        assert forall|m: int| 0 <= m < n implies t.take(n as int)[m] == lit@[m] by {
            assert(t.take(n as int)[m] == s@[i + m]);
        }
        assert(t.take(n as int) =~= lit@);
        assert(t.skip(n as int) =~= s@.skip(i + n));
    }
    Some(i + n)
}

/// Read a complete JSON string literal at position `i`.
pub fn parse_quoted(s: &Vec<char>, i: usize) -> (r: Option<(Vec<char>, usize)>)
    requires
        i <= s@.len(),
    ensures
        match r {
            Some(p) => i <= p.1 <= s@.len() && sp_quoted(s@.skip(i as int)) == Some(
                (p.0@, s@.skip(p.1 as int)),
            ),
            None => sp_quoted(s@.skip(i as int)) is None,
        },
{
    if i == s.len() {
        return None;
    }
    let c = s[i];
    if c != '"' {
        proof {
            assert(s@.skip(i as int).first() == c);
        }
        return None;
    }
    proof {
        assert(s@.skip(i as int).drop_first() =~= s@.skip(i + 1));
    }
    unescape_from(s, i + 1)
}

/// The value of one decimal digit character.
fn dec_digit_value(c: char) -> (r: u64)
    requires
        is_dec_digit(c),
    ensures
        r == c as nat - 48,
        r <= 9,
{
    ((c as u32) - 48) as u64
}

/// A digit run read from the left accumulates by the defining recurrence.
proof fn lemma_dec_val_snoc(t: Seq<char>, c: char)
    ensures
        dec_val(t.push(c)) == dec_val(t) * 10 + (c as nat - 48) as nat,
{
    assert(t.push(c).drop_last() =~= t);
    assert(t.push(c).last() == c);
}

/// A prefix of a digit run never reads as a larger value than the whole.
proof fn lemma_dec_val_prefix(t: Seq<char>, m: int)
    requires
        0 <= m <= t.len(),
    ensures
        dec_val(t.take(m)) <= dec_val(t),
    decreases t.len(),
{
    if m == t.len() {
        assert(t.take(m) =~= t);
    } else {
        assert(t.take(m) =~= t.drop_last().take(m));
        lemma_dec_val_prefix(t.drop_last(), m);
    }
}

/// Read an unsigned decimal number at position `i`.
pub fn parse_u64(s: &Vec<char>, i: usize) -> (r: Option<(u64, usize)>)
    requires
        i <= s@.len(),
    ensures
        match r {
            Some(p) => i <= p.1 <= s@.len() && sp_u64(s@.skip(i as int)) == Some(
                (p.0, s@.skip(p.1 as int)),
            ),
            None => sp_u64(s@.skip(i as int)) is None,
        },
{
    let ghost t = s@.skip(i as int);
    let n = s.len();
    let mut j: usize = i;
    while j < n && is_digit_at(s, j)
        invariant
            i <= j <= n,
            n == s@.len(),
            forall|m: int| i <= m < j ==> is_dec_digit(#[trigger] s@[m]),
        decreases n - j,
    {
        j = j + 1;
    }
    proof {
        assert forall|m: int| 0 <= m < j - i implies is_dec_digit(#[trigger] t[m]) by {
            assert(t[m] == s@[i + m]);
        }
        assert(j < n ==> t[j - i] == s@[j as int]);
        lemma_sp_digits_split(t, j - i);
        assert(sp_digits(t).0 == t.take(j - i));
        assert(t.take(j - i) =~= s@.subrange(i as int, j as int));
        assert(t.skip(j - i) =~= s@.skip(j as int));
    }
    if j == i {
        return None;
    }
    let first = s[i];
    if first == '0' && j > i + 1 {
        proof {
            assert(sp_digits(t).0 == t.take(j - i));
            assert(sp_digits(t).0.len() == j - i);
            assert(sp_digits(t).0.first() == t[0]);
            assert(t[0] == s@[i as int]);
            assert(sp_u64(t) is None);
        }
        return None;
    }
    let ghost run = s@.subrange(i as int, j as int);
    let mut acc: u64 = 0;
    let mut k: usize = i;
    proof {
        assert(s@.subrange(i as int, i as int) =~= Seq::<char>::empty());
        assert(run.len() == j - i);
        assert(run.first() == s@[i as int]);
        assert(run.len() > 1 ==> run.first() != '0');
    }
    while k < j
        invariant
            i <= k <= j <= s@.len(),
            t == s@.skip(i as int),
            run == s@.subrange(i as int, j as int),
            run.len() >= 1,
            sp_digits(t).0 == run,
            sp_digits(t).1 == s@.skip(j as int),
            !(run.len() > 1 && run.first() == '0'),
            forall|m: int| i <= m < j ==> is_dec_digit(#[trigger] s@[m]),
            acc == dec_val(s@.subrange(i as int, k as int)),
            dec_val(s@.subrange(i as int, k as int)) <= u64::MAX,
        decreases j - k,
    {
        let c = s[k];
        let d = dec_digit_value(c);
        proof {
            lemma_dec_val_snoc(s@.subrange(i as int, k as int), c);
            assert(s@.subrange(i as int, k + 1) =~= s@.subrange(i as int, k as int).push(c));
        }
        if acc > (u64::MAX - d) / 10 {
            proof {
                assert(dec_val(s@.subrange(i as int, k + 1)) > u64::MAX);
                assert(run.take(k + 1 - i) =~= s@.subrange(i as int, k + 1));
                lemma_dec_val_prefix(run, k + 1 - i);
                assert(dec_val(run) > u64::MAX);
            }
            return None;
        }
        acc = acc * 10 + d;
        k = k + 1;
    }
    proof {
        assert(s@.subrange(i as int, j as int) =~= run);
        assert(dec_val(run) <= u64::MAX);
    }
    Some((acc, j))
}

/// Is the character at `j` a decimal digit?
fn is_digit_at(s: &Vec<char>, j: usize) -> (r: bool)
    requires
        j < s@.len(),
    ensures
        r == is_dec_digit(s@[j as int]),
{
    let c = s[j];
    '0' <= c && c <= '9'
}

/// Read a signed decimal number at position `i`.
pub fn parse_i64(s: &Vec<char>, i: usize) -> (r: Option<(i64, usize)>)
    requires
        i <= s@.len(),
    ensures
        match r {
            Some(p) => i <= p.1 <= s@.len() && sp_i64(s@.skip(i as int)) == Some(
                (p.0, s@.skip(p.1 as int)),
            ),
            None => sp_i64(s@.skip(i as int)) is None,
        },
{
    let ghost t = s@.skip(i as int);
    if i < s.len() && s[i] == '-' {
        proof {
            assert(t.first() == '-');
            assert(t.drop_first() =~= s@.skip(i + 1));
        }
        match parse_u64(s, i + 1) {
            Some((v, j)) => {
                if 1 <= v && v <= 0x8000000000000000u64 {
                    let r: i64 = if v == 0x8000000000000000u64 {
                        i64::MIN
                    } else {
                        -(v as i64)
                    };
                    proof {
                        assert(r as int == -(v as int));
                    }
                    Some((r, j))
                } else {
                    None
                }
            },
            None => None,
        }
    } else {
        proof {
            assert(t.len() > 0 ==> t.first() == s@[i as int]);
        }
        match parse_u64(s, i) {
            Some((v, j)) => {
                if v <= i64::MAX as u64 {
                    Some((v as i64, j))
                } else {
                    None
                }
            },
            None => None,
        }
    }
}

} // verus!
