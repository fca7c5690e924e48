//! Parsing hexadecimal and decimal digit strings into machine integers.

use vstd::prelude::*;

use crate::text::is_dec_char;
use crate::text::is_hex_char;
use crate::text::dec_char;
use crate::text::hex_char;

verus! {

/// The numeric value of one hexadecimal digit.
pub open spec fn hex_digit_val(c: char) -> int {
    if '0' <= c && c <= '9' {
        c as int - '0' as int
    } else if 'a' <= c && c <= 'f' {
        c as int - 'a' as int + 10
    } else if 'A' <= c && c <= 'F' {
        c as int - 'A' as int + 10
    } else {
        0
    }
}

/// The numeric value of one decimal digit.
pub open spec fn dec_digit_val(c: char) -> int {
    if '0' <= c && c <= '9' {
        c as int - '0' as int
    } else {
        0
    }
}

/// The value of a string of hexadecimal digits, most significant first.
pub open spec fn hex_val(s: Seq<char>) -> int
    decreases s.len(),
{
    if s.len() == 0 {
        0
    } else {
        hex_val(s.drop_last()) * 16 + hex_digit_val(s.last())
    }
}

/// The value of a string of decimal digits, most significant first.
pub open spec fn dec_val(s: Seq<char>) -> int
    decreases s.len(),
{
    if s.len() == 0 {
        0
    } else {
        dec_val(s.drop_last()) * 10 + dec_digit_val(s.last())
    }
}

pub proof fn lemma_hex_val_nonneg(s: Seq<char>)
    ensures
        hex_val(s) >= 0,
    decreases s.len(),
{
    if s.len() > 0 {
        lemma_hex_val_nonneg(s.drop_last());
    }
}

pub proof fn lemma_dec_val_nonneg(s: Seq<char>)
    ensures
        dec_val(s) >= 0,
    decreases s.len(),
{
    if s.len() > 0 {
        lemma_dec_val_nonneg(s.drop_last());
    }
}

/// A prefix of a digit string never has a larger value than the whole.
pub proof fn lemma_hex_val_prefix(s: Seq<char>, i: int)
    requires
        0 <= i <= s.len(),
    ensures
        hex_val(s.subrange(0, i)) <= hex_val(s),
    decreases s.len() - i,
{
    if i == s.len() {
        assert(s.subrange(0, i) =~= s);
    } else {
        lemma_hex_val_prefix(s, i + 1);
        let t = s.subrange(0, i + 1);
        assert(t.drop_last() =~= s.subrange(0, i));
        lemma_hex_val_nonneg(s.subrange(0, i));
        assert(hex_val(t) == hex_val(s.subrange(0, i)) * 16 + hex_digit_val(t.last()));
        assert(hex_digit_val(t.last()) >= 0);
        assert(hex_val(s.subrange(0, i)) <= hex_val(t)) by (nonlinear_arith)
            requires
                hex_val(t) == hex_val(s.subrange(0, i)) * 16 + hex_digit_val(t.last()),
                hex_val(s.subrange(0, i)) >= 0,
                hex_digit_val(t.last()) >= 0,
        ;
    }
}

pub proof fn lemma_dec_val_prefix(s: Seq<char>, i: int)
    requires
        0 <= i <= s.len(),
    ensures
        dec_val(s.subrange(0, i)) <= dec_val(s),
    decreases s.len() - i,
{
    if i == s.len() {
        assert(s.subrange(0, i) =~= s);
    } else {
        lemma_dec_val_prefix(s, i + 1);
        let t = s.subrange(0, i + 1);
        assert(t.drop_last() =~= s.subrange(0, i));
        lemma_dec_val_nonneg(s.subrange(0, i));
        assert(dec_val(t) == dec_val(s.subrange(0, i)) * 10 + dec_digit_val(t.last()));
        assert(dec_val(s.subrange(0, i)) <= dec_val(t)) by (nonlinear_arith)
            requires
                dec_val(t) == dec_val(s.subrange(0, i)) * 10 + dec_digit_val(t.last()),
                dec_val(s.subrange(0, i)) >= 0,
                dec_digit_val(t.last()) >= 0,
        ;
    }
}

/// The numeric value of one hexadecimal digit character.
pub fn hex_digit(c: char) -> (v: u32)
    requires
        is_hex_char(c),
    ensures
        v == hex_digit_val(c),
{
    let u = c as u32;
    if 48 <= u && u <= 57 {
        u - 48
    } else if 97 <= u && u <= 102 {
        u - 97 + 10
    } else {
        u - 65 + 10
    }
}

/// Parses a non-empty string of hexadecimal digits as a 32-bit value,
/// most significant digit first. Returns `None` exactly when the value
/// does not fit in 32 bits.
pub fn parse_hex_u32(s: &str) -> (r: Option<u32>)
    requires
        s@.len() > 0,
        forall|k: int| 0 <= k < s@.len() ==> is_hex_char(#[trigger] s@[k]),
    ensures
        match r {
            Some(v) => v == hex_val(s@) && hex_val(s@) <= u32::MAX,
            None => hex_val(s@) > u32::MAX,
        },
{
    let len = s.unicode_len();
    let mut acc: u32 = 0;
    let mut i: usize = 0;
    while i < len
        invariant
            i <= len,
            acc == hex_val(s@.subrange(0, i as int)),
        decreases len - i,
    {
        let c = s.get_char(i);
        let d = hex_digit(c);
        proof {
            assert(s@.subrange(0, i + 1).drop_last() =~= s@.subrange(0, i as int));
            lemma_hex_val_nonneg(s@.subrange(0, i as int));
        }
        if acc > (u32::MAX - d) / 16 {
            proof {
                assert(hex_val(s@.subrange(0, i + 1)) == acc * 16 + d);
                assert(acc * 16 + d > u32::MAX) by (nonlinear_arith)
                    requires
                        acc > (u32::MAX - d) / 16,
                        d <= 15,
                ;
                lemma_hex_val_prefix(s@, i + 1);
            }
            return None;
        }
        assert(acc * 16 + d <= u32::MAX) by (nonlinear_arith)
            requires
                acc <= (u32::MAX - d) / 16,
                0 <= d <= 15,
        ;
        acc = acc * 16 + d;
        i += 1;
    }
    proof {
        assert(s@.subrange(0, len as int) =~= s@);
    }
    Some(acc)
}

/// Parses a non-empty string of decimal digits as a `usize`, most
/// significant digit first. Returns `None` exactly when the value does
/// not fit.
pub fn parse_dec_usize(s: &str) -> (r: Option<usize>)
    requires
        s@.len() > 0,
        forall|k: int| 0 <= k < s@.len() ==> is_dec_char(#[trigger] s@[k]),
    ensures
        match r {
            Some(v) => v == dec_val(s@) && dec_val(s@) <= usize::MAX,
            None => dec_val(s@) > usize::MAX,
        },
{
    let len = s.unicode_len();
    let mut acc: usize = 0;
    let mut i: usize = 0;
    while i < len
        invariant
            i <= len,
            acc == dec_val(s@.subrange(0, i as int)),
        decreases len - i,
    {
        let c = s.get_char(i);
        let d: usize = ((c as u32) - 48) as usize;
        proof {
            assert(d == dec_digit_val(c));
            assert(s@.subrange(0, i + 1).drop_last() =~= s@.subrange(0, i as int));
            lemma_dec_val_nonneg(s@.subrange(0, i as int));
        }
        if acc > (usize::MAX - d) / 10 {
            proof {
                assert(dec_val(s@.subrange(0, i + 1)) == acc * 10 + d);
                assert(acc * 10 + d > usize::MAX) by (nonlinear_arith)
                    requires
                        acc > (usize::MAX - d) / 10,
                        d <= 9,
                ;
                lemma_dec_val_prefix(s@, i + 1);
            }
            return None;
        }
        assert(acc * 10 + d <= usize::MAX) by (nonlinear_arith)
            requires
                acc <= (usize::MAX - d) / 10,
                0 <= d <= 9,
        ;
        acc = acc * 10 + d;
        i += 1;
    }
    proof {
        assert(s@.subrange(0, len as int) =~= s@);
    }
    Some(acc)
}

} // verus!
