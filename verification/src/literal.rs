//! The text of number literals: which byte strings are integers and floats,
//! and what an integer is worth.

use crate::bytes::{
    is_dec_digit, lemma_class_flags, BYTE_DOT, BYTE_MINUS, BYTE_PLUS, CHAR_DEC_DIGIT,
};
use crate::lexer::{byte_at, lemma_run_end_bounds, run_end, scan_run};
use vstd::prelude::*;
use vstd::slice::slice_subrange;
use vstd::string::StringSliceAdditionalSpecFns;
use vstd::utf8::{decode_utf8, encode_utf8, is_ascii_chars, valid_utf8};

verus! {

/// What the digits of `t` are worth in base 10, read from the left. Each byte
/// counts as its distance from `0`.
pub open spec fn digits_value(t: Seq<u8>) -> int
    decreases t.len(),
{
    if t.len() == 0 {
        0
    } else {
        digits_value(t.drop_last()) * 10 + (t.last() - 0x30)
    }
}

/// Whether every byte of `t` is a decimal digit.
pub open spec fn all_digits(t: Seq<u8>) -> bool {
    forall|i: int| 0 <= i < t.len() ==> is_dec_digit(#[trigger] t[i])
}

/// Whether `t` starts with `+` or `-`.
pub open spec fn has_sign(t: Seq<u8>) -> bool {
    t.len() > 0 && (t[0] == BYTE_PLUS || t[0] == BYTE_MINUS)
}

/// `t` without the sign in front of it, if it has one.
pub open spec fn unsigned_part(t: Seq<u8>) -> Seq<u8> {
    if has_sign(t) {
        t.subrange(1, t.len() as int)
    } else {
        t
    }
}

/// The 64-bit signed integer that `t` spells: a sign if there is one, then
/// one decimal digit or more. Nothing where `t` is of another shape, or where
/// its value does not fit.
pub open spec fn int_value(t: Seq<u8>) -> Option<i64> {
    let body = unsigned_part(t);
    let value = if t.len() > 0 && t[0] == BYTE_MINUS {
        -digits_value(body)
    } else {
        digits_value(body)
    };
    if body.len() > 0 && all_digits(body) && i64::MIN <= value <= i64::MAX {
        Some(value as i64)
    } else {
        None
    }
}

/// With digits only, the value of a text is at least that of each of its
/// prefixes.
pub proof fn lemma_digits_value_grows(t: Seq<u8>, n: int)
    requires
        all_digits(t),
        0 <= n <= t.len(),
    ensures
        0 <= digits_value(t.subrange(0, n)) <= digits_value(t),
    decreases t.len() - n,
{
    if n == t.len() {
        assert(t.subrange(0, n) =~= t);
        lemma_digits_value_nonnegative(t);
    } else {
        lemma_digits_value_grows(t, n + 1);
        let longer = t.subrange(0, n + 1);
        assert(longer.drop_last() =~= t.subrange(0, n));
        lemma_digits_value_nonnegative(t.subrange(0, n));
    }
}

proof fn lemma_digits_value_nonnegative(t: Seq<u8>)
    requires
        all_digits(t),
    ensures
        0 <= digits_value(t),
    decreases t.len(),
{
    if t.len() > 0 {
        lemma_digits_value_nonnegative(t.drop_last());
    }
}

/// The 64-bit signed integer that `text` spells in base 10.
pub fn parse_int(text: &[u8]) -> (r: Option<i64>)
    ensures
        r == int_value(text@),
{
    let len = text.len();
    if len == 0 {
        return None;
    }
    let negative = text[0] == BYTE_MINUS;
    let start: usize = if negative || text[0] == BYTE_PLUS {
        1
    } else {
        0
    };
    if start == len {
        return None;
    }
    let ghost body = unsigned_part(text@);
    let limit: u64 = if negative {
        0x8000_0000_0000_0000
    } else {
        0x7FFF_FFFF_FFFF_FFFF
    };
    let mut acc: u64 = 0;
    let mut i: usize = start;
    while i < len
        invariant
            len == text@.len(),
            start <= i <= len,
            len > 0,
            negative == (text@[0] == BYTE_MINUS),
            body == unsigned_part(text@),
            body == text@.subrange(start as int, len as int),
            all_digits(body.subrange(0, i - start)),
            acc == digits_value(body.subrange(0, i - start)),
            acc <= limit,
            limit == if negative {
                0x8000_0000_0000_0000u64
            } else {
                0x7FFF_FFFF_FFFF_FFFFu64
            },
        decreases len - i,
    {
        let b = text[i];
        let ghost seen = body.subrange(0, i - start);
        let ghost more = body.subrange(0, i - start + 1);
        proof {
            assert(more.drop_last() =~= seen);
        }
        if b < 0x30 || b > 0x39 {
            assert(!is_dec_digit(body[i - start]));
            return None;
        }
        let d = (b - 0x30) as u64;
        if acc > (limit - d) / 10 {
            proof {
                if all_digits(body) {
                    lemma_digits_value_grows(body, i - start + 1);
                }
            }
            return None;
        }
        acc = acc * 10 + d;
        i += 1;
    }
    assert(body.subrange(0, i - start) =~= body);
    if negative {
        if acc == 0x8000_0000_0000_0000 {
            Some(i64::MIN)
        } else {
            Some(-(acc as i64))
        }
    } else {
        Some(acc as i64)
    }
}

/// `b` in lower case.
pub open spec fn lower(b: u8) -> u8 {
    if 0x41 <= b <= 0x5A {
        (b + 0x20) as u8
    } else {
        b
    }
}

/// `t` in lower case.
pub open spec fn lowered(t: Seq<u8>) -> Seq<u8> {
    t.map_values(|b: u8| lower(b))
}

/// Whether `t` names a float that is not a number or not finite: `inf`,
/// `infinity` or `nan`, in any case.
pub open spec fn is_special_float(t: Seq<u8>) -> bool {
    ||| lowered(t) == "inf".spec_bytes()
    ||| lowered(t) == "infinity".spec_bytes()
    ||| lowered(t) == "nan".spec_bytes()
}

/// Where the exponent at `pos` ends: `e` or `E`, a sign if there is one, and
/// one digit or more. Nothing where there is no such exponent at `pos`.
pub open spec fn float_exponent_end(t: Seq<u8>, pos: int) -> Option<int> {
    if byte_at(t, pos) == Some(0x65u8) || byte_at(t, pos) == Some(0x45u8) {
        let digits = if byte_at(t, pos + 1) == Some(BYTE_PLUS) || byte_at(t, pos + 1) == Some(
            BYTE_MINUS,
        ) {
            pos + 2
        } else {
            pos + 1
        };
        if run_end(t, digits, CHAR_DEC_DIGIT) > digits {
            Some(run_end(t, digits, CHAR_DEC_DIGIT))
        } else {
            None
        }
    } else {
        None
    }
}

/// Whether `t` is a decimal number: digits, then a `.` and digits if there is
/// a `.`, with a digit on at least one side of it, then an exponent if there
/// is one, and nothing behind it.
pub open spec fn is_decimal_float(t: Seq<u8>) -> bool {
    let whole = run_end(t, 0, CHAR_DEC_DIGIT);
    let mantissa = if byte_at(t, whole) == Some(BYTE_DOT) {
        run_end(t, whole + 1, CHAR_DEC_DIGIT)
    } else {
        whole
    };
    let digits = if byte_at(t, whole) == Some(BYTE_DOT) {
        mantissa - 1
    } else {
        mantissa
    };
    &&& digits > 0
    &&& mantissa == t.len() || float_exponent_end(t, mantissa) == Some(t.len() as int)
}

/// Whether `t` is the text of a 64-bit float: a sign if there is one, then a
/// decimal number or one of the names `inf`, `infinity`, `nan`.
pub open spec fn is_float_text(t: Seq<u8>) -> bool {
    is_special_float(unsigned_part(t)) || is_decimal_float(unsigned_part(t))
}

/// The characters of a byte string, one for each byte.
pub open spec fn ascii_chars(t: Seq<u8>) -> Seq<char> {
    Seq::new(t.len(), |i: int| t[i] as char)
}

/// Whether every byte of `t` is below `0x80`.
pub open spec fn is_ascii_text(t: Seq<u8>) -> bool {
    forall|i: int| 0 <= i < t.len() ==> #[trigger] t[i] < 0x80
}

/// A byte string below `0x80` is UTF-8, and spells one character for each byte.
pub proof fn lemma_ascii_is_utf8(t: Seq<u8>)
    requires
        is_ascii_text(t),
    ensures
        valid_utf8(t),
        decode_utf8(t) == ascii_chars(t),
{
    let chars = ascii_chars(t);
    assert(is_ascii_chars(chars)) by {
        assert forall|i: int| 0 <= i < chars.len() implies '\0' <= #[trigger] chars[i]
            <= '\u{7f}' by {
            assert(t[i] < 0x80);
        }
    }
    vstd::utf8::is_ascii_chars_encode_utf8(chars);
    assert(encode_utf8(chars) =~= t) by {
        assert forall|i: int| 0 <= i < t.len() implies encode_utf8(chars)[i] == t[i] by {
            assert(t[i] < 0x80);
            assert(chars[i] as u8 == t[i]);
        }
    }
    vstd::utf8::encode_utf8_valid_utf8(chars);
    vstd::utf8::encode_utf8_decode_utf8(chars);
}

proof fn lemma_names_are_ascii()
    ensures
        is_ascii_text("inf".spec_bytes()),
        is_ascii_text("infinity".spec_bytes()),
        is_ascii_text("nan".spec_bytes()),
{
    reveal_strlit("inf");
    reveal_strlit("infinity");
    reveal_strlit("nan");
    vstd::utf8::is_ascii_chars_encode_utf8("inf"@);
    vstd::utf8::is_ascii_chars_encode_utf8("infinity"@);
    vstd::utf8::is_ascii_chars_encode_utf8("nan"@);
}

proof fn lemma_run_is_ascii(t: Seq<u8>, pos: int)
    requires
        0 <= pos <= t.len(),
    ensures
        forall|i: int| pos <= i < run_end(t, pos, CHAR_DEC_DIGIT) ==> #[trigger] t[i] < 0x80,
{
    lemma_run_end_bounds(t, pos, CHAR_DEC_DIGIT);
    assert forall|i: int| pos <= i < run_end(t, pos, CHAR_DEC_DIGIT) implies #[trigger] t[i]
        < 0x80 by {
        lemma_class_flags(t[i]);
    }
}

/// The text of a float is below `0x80`, so it is UTF-8 and spells one
/// character for each byte.
pub proof fn lemma_float_text_is_ascii(t: Seq<u8>)
    requires
        is_float_text(t),
    ensures
        is_ascii_text(t),
        valid_utf8(t),
        decode_utf8(t) == ascii_chars(t),
{
    let body = unsigned_part(t);
    assert(is_ascii_text(body)) by {
        if is_special_float(body) {
            lemma_names_are_ascii();
            assert forall|i: int| 0 <= i < body.len() implies #[trigger] body[i] < 0x80 by {
                assert(lowered(body)[i] == lower(body[i]));
            }
        } else {
            let whole = run_end(body, 0, CHAR_DEC_DIGIT);
            lemma_run_end_bounds(body, 0, CHAR_DEC_DIGIT);
            lemma_run_is_ascii(body, 0);
            let dotted = byte_at(body, whole) == Some(BYTE_DOT);
            let mantissa = if dotted {
                run_end(body, whole + 1, CHAR_DEC_DIGIT)
            } else {
                whole
            };
            if dotted {
                lemma_run_end_bounds(body, whole + 1, CHAR_DEC_DIGIT);
                lemma_run_is_ascii(body, whole + 1);
            }
            if mantissa != body.len() {
                let signed = byte_at(body, mantissa + 1) == Some(BYTE_PLUS) || byte_at(
                    body,
                    mantissa + 1,
                ) == Some(BYTE_MINUS);
                let digits = if signed {
                    mantissa + 2
                } else {
                    mantissa + 1
                };
                lemma_run_end_bounds(body, digits, CHAR_DEC_DIGIT);
                lemma_run_is_ascii(body, digits);
            }
        }
    }
    assert forall|i: int| 0 <= i < t.len() implies #[trigger] t[i] < 0x80 by {
        if has_sign(t) && i > 0 {
            assert(t[i] == body[i - 1]);
        }
    }
    lemma_ascii_is_utf8(t);
}

/// Whether `text`, in lower case, is `word`.
fn is_word(text: &[u8], word: &[u8]) -> (r: bool)
    ensures
        r == (lowered(text@) == word@),
{
    if text.len() != word.len() {
        return false;
    }
    let mut i: usize = 0;
    while i < text.len()
        invariant
            i <= text@.len() == word@.len(),
            forall|j: int| 0 <= j < i ==> lower(text@[j]) == word@[j],
        decreases text@.len() - i,
    {
        let b = text[i];
        let low: u8 = if 0x41 <= b && b <= 0x5A {
            b + 0x20
        } else {
            b
        };
        if low != word[i] {
            return false;
        }
        i += 1;
    }
    assert(lowered(text@) =~= word@);
    true
}

fn is_decimal(text: &[u8]) -> (r: bool)
    ensures
        r == is_decimal_float(text@),
{
    let len = text.len();
    let whole = scan_run(text, 0, CHAR_DEC_DIGIT);
    let dotted = whole < len && text[whole] == BYTE_DOT;
    let mantissa = if dotted {
        scan_run(text, whole + 1, CHAR_DEC_DIGIT)
    } else {
        whole
    };
    let digits = if dotted {
        mantissa - 1
    } else {
        mantissa
    };
    if digits == 0 {
        return false;
    }
    if mantissa == len {
        return true;
    }
    if text[mantissa] != 0x65 && text[mantissa] != 0x45 {
        return false;
    }
    let signed = mantissa + 1 < len && (text[mantissa + 1] == BYTE_PLUS || text[mantissa + 1]
        == BYTE_MINUS);
    let first = if signed {
        mantissa + 2
    } else {
        mantissa + 1
    };
    let end = scan_run(text, first, CHAR_DEC_DIGIT);
    end > first && end == len
}

/// Whether `text` is the text of a 64-bit float.
pub fn is_float(text: &[u8]) -> (r: bool)
    ensures
        r == is_float_text(text@),
{
    let len = text.len();
    let start: usize = if len > 0 && (text[0] == BYTE_PLUS || text[0] == BYTE_MINUS) {
        1
    } else {
        0
    };
    let body = slice_subrange(text, start, len);
    assert(body@ =~= unsigned_part(text@));
    is_word(body, "inf".as_bytes()) || is_word(body, "infinity".as_bytes()) || is_word(
        body,
        "nan".as_bytes(),
    ) || is_decimal(body)
}

} // verus!
