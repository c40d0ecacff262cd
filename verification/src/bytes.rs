//! Single-byte classification and structural UTF-8 decoding.
//!
//! Every byte is mapped to a set of class flags by one 256-entry table. The
//! flags are the only way the lexer looks at a single byte. Characters wider
//! than one byte are decoded by shape alone: lead byte, then the low six bits
//! of each following byte.

use vstd::prelude::*;

verus! {

/// `0`-`9`
pub const CHAR_DEC_DIGIT: u16 = 0x0001;

/// `0`-`1`
pub const CHAR_BIN_DIGIT: u16 = 0x0002;

/// `0`-`7`
pub const CHAR_OCT_DIGIT: u16 = 0x0004;

/// `0`-`9`, `a`-`f`, `A`-`F`
pub const CHAR_HEX_DIGIT: u16 = 0x0008;

/// `a`-`z`, `A`-`Z`, `_`
pub const CHAR_ASCII_ID_START: u16 = 0x0010;

/// Lead byte of a multi-byte UTF-8 sequence (`0xC0`-`0xF5`)
pub const CHAR_UTF8_START: u16 = 0x0020;

/// A byte that begins an operator or a punctuation mark
pub const CHAR_SYMBOL: u16 = 0x0040;

/// Tab, line feed, vertical tab, form feed, carriage return, space
pub const CHAR_WHITESPACE: u16 = 0x0080;

/// `"` or `'`
pub const CHAR_QUOTE: u16 = 0x0100;

/// `'`
pub const CHAR_SINGLE_QUOTE: u16 = 0x0200;

/// `"`
pub const CHAR_DOUBLE_QUOTE: u16 = 0x0400;

/// `\`
pub const CHAR_ESCAPE: u16 = 0x0800;

/// Line feed
pub const CHAR_NEWLINE: u16 = 0x1000;

/// `a`-`z`, `A`-`Z`, `_`, `0`-`9`
pub const CHAR_ASCII_ID_CONTINUE: u16 = 0x0011;

/// The bytes that end the fast path inside a `'`-delimited literal: `'`, `\`, line feed
pub const CHAR_SINGLE_STOP: u16 = 0x1A00;

/// The bytes that end the fast path inside a `"`-delimited literal: `"`, `\`, line feed
pub const CHAR_DOUBLE_STOP: u16 = 0x1C00;

pub const CHAR_TABLE: [u16; 256] = [
    0x0000, 0x0000, 0x0000, 0x0000, 0x0000, 0x0000, 0x0000, 0x0000,
    0x0000, 0x0080, 0x1080, 0x0080, 0x0080, 0x0080, 0x0000, 0x0000,
    0x0000, 0x0000, 0x0000, 0x0000, 0x0000, 0x0000, 0x0000, 0x0000,
    0x0000, 0x0000, 0x0000, 0x0000, 0x0000, 0x0000, 0x0000, 0x0000,
    0x0080, 0x0040, 0x0500, 0x0000, 0x0000, 0x0040, 0x0040, 0x0300,
    0x0040, 0x0040, 0x0040, 0x0040, 0x0040, 0x0040, 0x0040, 0x0040,
    0x000F, 0x000F, 0x000D, 0x000D, 0x000D, 0x000D, 0x000D, 0x000D,
    0x0009, 0x0009, 0x0040, 0x0040, 0x0040, 0x0040, 0x0040, 0x0000,
    0x0000, 0x0018, 0x0018, 0x0018, 0x0018, 0x0018, 0x0018, 0x0010,
    0x0010, 0x0010, 0x0010, 0x0010, 0x0010, 0x0010, 0x0010, 0x0010,
    0x0010, 0x0010, 0x0010, 0x0010, 0x0010, 0x0010, 0x0010, 0x0010,
    0x0010, 0x0010, 0x0010, 0x0040, 0x0800, 0x0040, 0x0040, 0x0010,
    0x0000, 0x0018, 0x0018, 0x0018, 0x0018, 0x0018, 0x0018, 0x0010,
    0x0010, 0x0010, 0x0010, 0x0010, 0x0010, 0x0010, 0x0010, 0x0010,
    0x0010, 0x0010, 0x0010, 0x0010, 0x0010, 0x0010, 0x0010, 0x0010,
    0x0010, 0x0010, 0x0010, 0x0040, 0x0040, 0x0040, 0x0040, 0x0000,
    0x0000, 0x0000, 0x0000, 0x0000, 0x0000, 0x0000, 0x0000, 0x0000,
    0x0000, 0x0000, 0x0000, 0x0000, 0x0000, 0x0000, 0x0000, 0x0000,
    0x0000, 0x0000, 0x0000, 0x0000, 0x0000, 0x0000, 0x0000, 0x0000,
    0x0000, 0x0000, 0x0000, 0x0000, 0x0000, 0x0000, 0x0000, 0x0000,
    0x0000, 0x0000, 0x0000, 0x0000, 0x0000, 0x0000, 0x0000, 0x0000,
    0x0000, 0x0000, 0x0000, 0x0000, 0x0000, 0x0000, 0x0000, 0x0000,
    0x0000, 0x0000, 0x0000, 0x0000, 0x0000, 0x0000, 0x0000, 0x0000,
    0x0000, 0x0000, 0x0000, 0x0000, 0x0000, 0x0000, 0x0000, 0x0000,
    0x0020, 0x0020, 0x0020, 0x0020, 0x0020, 0x0020, 0x0020, 0x0020,
    0x0020, 0x0020, 0x0020, 0x0020, 0x0020, 0x0020, 0x0020, 0x0020,
    0x0020, 0x0020, 0x0020, 0x0020, 0x0020, 0x0020, 0x0020, 0x0020,
    0x0020, 0x0020, 0x0020, 0x0020, 0x0020, 0x0020, 0x0020, 0x0020,
    0x0020, 0x0020, 0x0020, 0x0020, 0x0020, 0x0020, 0x0020, 0x0020,
    0x0020, 0x0020, 0x0020, 0x0020, 0x0020, 0x0020, 0x0020, 0x0020,
    0x0020, 0x0020, 0x0020, 0x0020, 0x0020, 0x0020, 0x0000, 0x0000,
    0x0000, 0x0000, 0x0000, 0x0000, 0x0000, 0x0000, 0x0000, 0x0000,
];

pub open spec fn is_dec_digit(b: u8) -> bool {
    0x30 <= b <= 0x39
}

pub open spec fn is_bin_digit(b: u8) -> bool {
    b == 0x30 || b == 0x31
}

pub open spec fn is_oct_digit(b: u8) -> bool {
    0x30 <= b <= 0x37
}

pub open spec fn is_hex_digit(b: u8) -> bool {
    0x30 <= b <= 0x39 || 0x41 <= b <= 0x46 || 0x61 <= b <= 0x66
}

pub open spec fn is_ascii_id_start(b: u8) -> bool {
    0x41 <= b <= 0x5A || 0x61 <= b <= 0x7A || b == 0x5F
}

pub open spec fn is_ascii_id_continue(b: u8) -> bool {
    is_ascii_id_start(b) || is_dec_digit(b)
}

pub open spec fn is_utf8_start(b: u8) -> bool {
    0xC0 <= b <= 0xF5
}

/// `! % & ( ) * + , - . / : ; < = > [ ] ^ { | } ~`
pub open spec fn is_symbol(b: u8) -> bool {
    ||| b == 0x21
    ||| b == 0x25
    ||| b == 0x26
    ||| 0x28 <= b <= 0x2F
    ||| 0x3A <= b <= 0x3E
    ||| b == 0x5B
    ||| b == 0x5D
    ||| b == 0x5E
    ||| 0x7B <= b <= 0x7E
}

pub open spec fn is_whitespace(b: u8) -> bool {
    0x09 <= b <= 0x0D || b == 0x20
}

pub open spec fn is_double_quote(b: u8) -> bool {
    b == 0x22
}

pub open spec fn is_single_quote(b: u8) -> bool {
    b == 0x27
}

pub open spec fn is_quote(b: u8) -> bool {
    is_double_quote(b) || is_single_quote(b)
}

pub open spec fn is_escape(b: u8) -> bool {
    b == 0x5C
}

pub open spec fn is_newline(b: u8) -> bool {
    b == 0x0A
}

/// `flag` when `on` holds, and no bit otherwise.
pub open spec fn flag_if(on: bool, flag: u16) -> int {
    if on {
        flag as int
    } else {
        0
    }
}

/// The class flags of a byte: the sum of the flags of every class it is in.
pub open spec fn class_of(b: u8) -> u16 {
    (flag_if(is_dec_digit(b), CHAR_DEC_DIGIT) + flag_if(is_bin_digit(b), CHAR_BIN_DIGIT)
        + flag_if(is_oct_digit(b), CHAR_OCT_DIGIT) + flag_if(is_hex_digit(b), CHAR_HEX_DIGIT)
        + flag_if(is_ascii_id_start(b), CHAR_ASCII_ID_START) + flag_if(
        is_utf8_start(b),
        CHAR_UTF8_START,
    ) + flag_if(is_symbol(b), CHAR_SYMBOL) + flag_if(is_whitespace(b), CHAR_WHITESPACE) + flag_if(
        is_quote(b),
        CHAR_QUOTE,
    ) + flag_if(is_single_quote(b), CHAR_SINGLE_QUOTE) + flag_if(
        is_double_quote(b),
        CHAR_DOUBLE_QUOTE,
    ) + flag_if(is_escape(b), CHAR_ESCAPE) + flag_if(is_newline(b), CHAR_NEWLINE)) as u16
}

/// Whether `b` carries at least one of the class flags in `mask`.
pub open spec fn in_class(b: u8, mask: u16) -> bool {
    class_of(b) & mask != 0
}

/// The class flags of `b`, read from the table.
pub fn classify(b: u8) -> (m: u16)
    ensures
        m == class_of(b),
{
    CHAR_TABLE[b as usize]
}

/// Whether `b` carries at least one of the class flags in `mask`.
pub fn has_class(b: u8, mask: u16) -> (r: bool)
    ensures
        r == in_class(b, mask),
{
    (classify(b) & mask) != 0
}

/// The bits of each value that the table holds, under each mask that the lexer uses.
proof fn lemma_mask_bits(m: u16)
    by (bit_vector)
    ensures
        m == 0x0000 ==> {
            &&& m & 0x0001 == 0x0000
            &&& m & 0x0002 == 0x0000
            &&& m & 0x0004 == 0x0000
            &&& m & 0x0008 == 0x0000
            &&& m & 0x0010 == 0x0000
            &&& m & 0x0020 == 0x0000
            &&& m & 0x0040 == 0x0000
            &&& m & 0x0080 == 0x0000
            &&& m & 0x0100 == 0x0000
            &&& m & 0x0200 == 0x0000
            &&& m & 0x0400 == 0x0000
            &&& m & 0x0800 == 0x0000
            &&& m & 0x1000 == 0x0000
            &&& m & 0x0011 == 0x0000
            &&& m & 0x1A00 == 0x0000
            &&& m & 0x1C00 == 0x0000
        },
        m == 0x0009 ==> {
            &&& m & 0x0001 == 0x0001
            &&& m & 0x0002 == 0x0000
            &&& m & 0x0004 == 0x0000
            &&& m & 0x0008 == 0x0008
            &&& m & 0x0010 == 0x0000
            &&& m & 0x0020 == 0x0000
            &&& m & 0x0040 == 0x0000
            &&& m & 0x0080 == 0x0000
            &&& m & 0x0100 == 0x0000
            &&& m & 0x0200 == 0x0000
            &&& m & 0x0400 == 0x0000
            &&& m & 0x0800 == 0x0000
            &&& m & 0x1000 == 0x0000
            &&& m & 0x0011 == 0x0001
            &&& m & 0x1A00 == 0x0000
            &&& m & 0x1C00 == 0x0000
        },
        m == 0x000D ==> {
            &&& m & 0x0001 == 0x0001
            &&& m & 0x0002 == 0x0000
            &&& m & 0x0004 == 0x0004
            &&& m & 0x0008 == 0x0008
            &&& m & 0x0010 == 0x0000
            &&& m & 0x0020 == 0x0000
            &&& m & 0x0040 == 0x0000
            &&& m & 0x0080 == 0x0000
            &&& m & 0x0100 == 0x0000
            &&& m & 0x0200 == 0x0000
            &&& m & 0x0400 == 0x0000
            &&& m & 0x0800 == 0x0000
            &&& m & 0x1000 == 0x0000
            &&& m & 0x0011 == 0x0001
            &&& m & 0x1A00 == 0x0000
            &&& m & 0x1C00 == 0x0000
        },
        m == 0x000F ==> {
            &&& m & 0x0001 == 0x0001
            &&& m & 0x0002 == 0x0002
            &&& m & 0x0004 == 0x0004
            &&& m & 0x0008 == 0x0008
            &&& m & 0x0010 == 0x0000
            &&& m & 0x0020 == 0x0000
            &&& m & 0x0040 == 0x0000
            &&& m & 0x0080 == 0x0000
            &&& m & 0x0100 == 0x0000
            &&& m & 0x0200 == 0x0000
            &&& m & 0x0400 == 0x0000
            &&& m & 0x0800 == 0x0000
            &&& m & 0x1000 == 0x0000
            &&& m & 0x0011 == 0x0001
            &&& m & 0x1A00 == 0x0000
            &&& m & 0x1C00 == 0x0000
        },
        m == 0x0010 ==> {
            &&& m & 0x0001 == 0x0000
            &&& m & 0x0002 == 0x0000
            &&& m & 0x0004 == 0x0000
            &&& m & 0x0008 == 0x0000
            &&& m & 0x0010 == 0x0010
            &&& m & 0x0020 == 0x0000
            &&& m & 0x0040 == 0x0000
            &&& m & 0x0080 == 0x0000
            &&& m & 0x0100 == 0x0000
            &&& m & 0x0200 == 0x0000
            &&& m & 0x0400 == 0x0000
            &&& m & 0x0800 == 0x0000
            &&& m & 0x1000 == 0x0000
            &&& m & 0x0011 == 0x0010
            &&& m & 0x1A00 == 0x0000
            &&& m & 0x1C00 == 0x0000
        },
        m == 0x0018 ==> {
            &&& m & 0x0001 == 0x0000
            &&& m & 0x0002 == 0x0000
            &&& m & 0x0004 == 0x0000
            &&& m & 0x0008 == 0x0008
            &&& m & 0x0010 == 0x0010
            &&& m & 0x0020 == 0x0000
            &&& m & 0x0040 == 0x0000
            &&& m & 0x0080 == 0x0000
            &&& m & 0x0100 == 0x0000
            &&& m & 0x0200 == 0x0000
            &&& m & 0x0400 == 0x0000
            &&& m & 0x0800 == 0x0000
            &&& m & 0x1000 == 0x0000
            &&& m & 0x0011 == 0x0010
            &&& m & 0x1A00 == 0x0000
            &&& m & 0x1C00 == 0x0000
        },
        m == 0x0020 ==> {
            &&& m & 0x0001 == 0x0000
            &&& m & 0x0002 == 0x0000
            &&& m & 0x0004 == 0x0000
            &&& m & 0x0008 == 0x0000
            &&& m & 0x0010 == 0x0000
            &&& m & 0x0020 == 0x0020
            &&& m & 0x0040 == 0x0000
            &&& m & 0x0080 == 0x0000
            &&& m & 0x0100 == 0x0000
            &&& m & 0x0200 == 0x0000
            &&& m & 0x0400 == 0x0000
            &&& m & 0x0800 == 0x0000
            &&& m & 0x1000 == 0x0000
            &&& m & 0x0011 == 0x0000
            &&& m & 0x1A00 == 0x0000
            &&& m & 0x1C00 == 0x0000
        },
        m == 0x0040 ==> {
            &&& m & 0x0001 == 0x0000
            &&& m & 0x0002 == 0x0000
            &&& m & 0x0004 == 0x0000
            &&& m & 0x0008 == 0x0000
            &&& m & 0x0010 == 0x0000
            &&& m & 0x0020 == 0x0000
            &&& m & 0x0040 == 0x0040
            &&& m & 0x0080 == 0x0000
            &&& m & 0x0100 == 0x0000
            &&& m & 0x0200 == 0x0000
            &&& m & 0x0400 == 0x0000
            &&& m & 0x0800 == 0x0000
            &&& m & 0x1000 == 0x0000
            &&& m & 0x0011 == 0x0000
            &&& m & 0x1A00 == 0x0000
            &&& m & 0x1C00 == 0x0000
        },
        m == 0x0080 ==> {
            &&& m & 0x0001 == 0x0000
            &&& m & 0x0002 == 0x0000
            &&& m & 0x0004 == 0x0000
            &&& m & 0x0008 == 0x0000
            &&& m & 0x0010 == 0x0000
            &&& m & 0x0020 == 0x0000
            &&& m & 0x0040 == 0x0000
            &&& m & 0x0080 == 0x0080
            &&& m & 0x0100 == 0x0000
            &&& m & 0x0200 == 0x0000
            &&& m & 0x0400 == 0x0000
            &&& m & 0x0800 == 0x0000
            &&& m & 0x1000 == 0x0000
            &&& m & 0x0011 == 0x0000
            &&& m & 0x1A00 == 0x0000
            &&& m & 0x1C00 == 0x0000
        },
        m == 0x0300 ==> {
            &&& m & 0x0001 == 0x0000
            &&& m & 0x0002 == 0x0000
            &&& m & 0x0004 == 0x0000
            &&& m & 0x0008 == 0x0000
            &&& m & 0x0010 == 0x0000
            &&& m & 0x0020 == 0x0000
            &&& m & 0x0040 == 0x0000
            &&& m & 0x0080 == 0x0000
            &&& m & 0x0100 == 0x0100
            &&& m & 0x0200 == 0x0200
            &&& m & 0x0400 == 0x0000
            &&& m & 0x0800 == 0x0000
            &&& m & 0x1000 == 0x0000
            &&& m & 0x0011 == 0x0000
            &&& m & 0x1A00 == 0x0200
            &&& m & 0x1C00 == 0x0000
        },
        m == 0x0500 ==> {
            &&& m & 0x0001 == 0x0000
            &&& m & 0x0002 == 0x0000
            &&& m & 0x0004 == 0x0000
            &&& m & 0x0008 == 0x0000
            &&& m & 0x0010 == 0x0000
            &&& m & 0x0020 == 0x0000
            &&& m & 0x0040 == 0x0000
            &&& m & 0x0080 == 0x0000
            &&& m & 0x0100 == 0x0100
            &&& m & 0x0200 == 0x0000
            &&& m & 0x0400 == 0x0400
            &&& m & 0x0800 == 0x0000
            &&& m & 0x1000 == 0x0000
            &&& m & 0x0011 == 0x0000
            &&& m & 0x1A00 == 0x0000
            &&& m & 0x1C00 == 0x0400
        },
        m == 0x0800 ==> {
            &&& m & 0x0001 == 0x0000
            &&& m & 0x0002 == 0x0000
            &&& m & 0x0004 == 0x0000
            &&& m & 0x0008 == 0x0000
            &&& m & 0x0010 == 0x0000
            &&& m & 0x0020 == 0x0000
            &&& m & 0x0040 == 0x0000
            &&& m & 0x0080 == 0x0000
            &&& m & 0x0100 == 0x0000
            &&& m & 0x0200 == 0x0000
            &&& m & 0x0400 == 0x0000
            &&& m & 0x0800 == 0x0800
            &&& m & 0x1000 == 0x0000
            &&& m & 0x0011 == 0x0000
            &&& m & 0x1A00 == 0x0800
            &&& m & 0x1C00 == 0x0800
        },
        m == 0x1080 ==> {
            &&& m & 0x0001 == 0x0000
            &&& m & 0x0002 == 0x0000
            &&& m & 0x0004 == 0x0000
            &&& m & 0x0008 == 0x0000
            &&& m & 0x0010 == 0x0000
            &&& m & 0x0020 == 0x0000
            &&& m & 0x0040 == 0x0000
            &&& m & 0x0080 == 0x0080
            &&& m & 0x0100 == 0x0000
            &&& m & 0x0200 == 0x0000
            &&& m & 0x0400 == 0x0000
            &&& m & 0x0800 == 0x0000
            &&& m & 0x1000 == 0x1000
            &&& m & 0x0011 == 0x0000
            &&& m & 0x1A00 == 0x1000
            &&& m & 0x1C00 == 0x1000
        },
{
}

/// What each class flag says of a byte.
pub proof fn lemma_class_flags(b: u8)
    ensures
        in_class(b, CHAR_DEC_DIGIT) == is_dec_digit(b),
        in_class(b, CHAR_BIN_DIGIT) == is_bin_digit(b),
        in_class(b, CHAR_OCT_DIGIT) == is_oct_digit(b),
        in_class(b, CHAR_HEX_DIGIT) == is_hex_digit(b),
        in_class(b, CHAR_ASCII_ID_START) == is_ascii_id_start(b),
        in_class(b, CHAR_UTF8_START) == is_utf8_start(b),
        in_class(b, CHAR_SYMBOL) == is_symbol(b),
        in_class(b, CHAR_WHITESPACE) == is_whitespace(b),
        in_class(b, CHAR_QUOTE) == is_quote(b),
        in_class(b, CHAR_SINGLE_QUOTE) == is_single_quote(b),
        in_class(b, CHAR_DOUBLE_QUOTE) == is_double_quote(b),
        in_class(b, CHAR_ESCAPE) == is_escape(b),
        in_class(b, CHAR_NEWLINE) == is_newline(b),
        in_class(b, CHAR_ASCII_ID_CONTINUE) == is_ascii_id_continue(b),
        in_class(b, CHAR_SINGLE_STOP) == (is_single_quote(b) || is_escape(b) || is_newline(b)),
        in_class(b, CHAR_DOUBLE_STOP) == (is_double_quote(b) || is_escape(b) || is_newline(b)),
{
    lemma_mask_bits(class_of(b));
}

/// `\n`
pub const BYTE_NEWLINE: u8 = 0x0A;

/// `"`
pub const BYTE_DOUBLE_QUOTE: u8 = 0x22;

/// `*`
pub const BYTE_STAR: u8 = 0x2A;

/// `+`
pub const BYTE_PLUS: u8 = 0x2B;

/// `-`
pub const BYTE_MINUS: u8 = 0x2D;

/// `.`
pub const BYTE_DOT: u8 = 0x2E;

/// `/`
pub const BYTE_SLASH: u8 = 0x2F;

/// `0`
pub const BYTE_ZERO: u8 = 0x30;

/// The number of bytes that the character with lead byte `b` takes. A byte
/// that cannot lead a character counts as one byte wide.
pub open spec fn char_width(b: u8) -> int {
    if b < 0xC0 {
        1
    } else if b < 0xE0 {
        2
    } else if b < 0xF0 {
        3
    } else {
        4
    }
}

/// The number that the bytes at `pos` spell, read by shape alone: the payload
/// bits of the lead byte, then the low six bits of each byte after it.
/// Nothing where `pos` is outside `s`, where the byte at `pos` cannot lead a
/// character, or where the character would run beyond the end of `s`.
pub open spec fn code_at(s: Seq<u8>, pos: int) -> Option<u32> {
    if pos < 0 || pos >= s.len() {
        None
    } else {
        let b = s[pos];
        if b < 0x80 {
            Some(b as u32)
        } else if b < 0xC0 || pos + char_width(b) > s.len() {
            None
        } else if b < 0xE0 {
            Some(vstd::utf8::codepoint_width_2(b, s[pos + 1]))
        } else if b < 0xF0 {
            Some(vstd::utf8::codepoint_width_3(b, s[pos + 1], s[pos + 2]))
        } else {
            Some(vstd::utf8::codepoint_width_4(b, s[pos + 1], s[pos + 2], s[pos + 3]))
        }
    }
}

/// The character at `pos`: the number that the bytes spell, where that number
/// is a Unicode scalar value.
pub open spec fn char_at(s: Seq<u8>, pos: int) -> Option<char> {
    match code_at(s, pos) {
        Some(code) => if vstd::utf8::is_scalar(code) {
            Some(code as char)
        } else {
            None
        },
        None => None,
    }
}

proof fn lemma_codepoint_bounds(b1: u8, b2: u8, b3: u8, b4: u8)
    by (bit_vector)
    ensures
        b1 < 0x80 ==> vstd::utf8::codepoint_width_1(b1) == b1,
        vstd::utf8::codepoint_width_2(b1, b2) <= 0x7FF,
        vstd::utf8::codepoint_width_3(b1, b2, b3) <= 0xFFFF,
{
}

/// On well-formed text, reading by shape finds the character that is there.
/// Where the bytes from `pos` on start with the UTF-8 encoding of a character,
/// `char_at` yields that character and `char_width` the length of its
/// encoding.
pub proof fn lemma_char_at_of_utf8(s: Seq<u8>, pos: int)
    requires
        0 <= pos < s.len(),
        vstd::utf8::valid_first_scalar(s.subrange(pos, s.len() as int)),
    ensures
        char_at(s, pos) == Some(
            vstd::utf8::decode_first_scalar(s.subrange(pos, s.len() as int)) as char,
        ),
        char_width(s[pos]) == vstd::utf8::length_of_first_scalar(s.subrange(pos, s.len() as int)),
{
    let rest = s.subrange(pos, s.len() as int);
    let b1 = s[pos];
    let b2 = if pos + 1 < s.len() {
        s[pos + 1]
    } else {
        0
    };
    let b3 = if pos + 2 < s.len() {
        s[pos + 2]
    } else {
        0
    };
    let b4 = if pos + 3 < s.len() {
        s[pos + 3]
    } else {
        0
    };
    assert(rest[0] == b1);
    if rest.len() >= 2 {
        assert(rest[1] == b2);
    }
    if rest.len() >= 3 {
        assert(rest[2] == b3);
    }
    if rest.len() >= 4 {
        assert(rest[3] == b4);
    }
    lemma_codepoint_bounds(b1, b2, b3, b4);
}

/// The width of the character with lead byte `b`.
pub fn width_of(b: u8) -> (w: usize)
    ensures
        w == char_width(b),
{
    if b < 0xC0 {
        1
    } else if b < 0xE0 {
        2
    } else if b < 0xF0 {
        3
    } else {
        4
    }
}

/// Decodes the character at `pos`.
pub fn decode_char(input: &[u8], pos: usize) -> (r: Option<char>)
    ensures
        r == char_at(input@, pos as int),
{
    let len = input.len();
    if pos >= len {
        return None;
    }
    let b = input[pos];
    if b < 0x80 {
        return char::from_u32(b as u32);
    }
    if b < 0xC0 || width_of(b) > len - pos {
        return None;
    }
    let code: u32 = if b < 0xE0 {
        let b1 = input[pos + 1];
        ((b & 0x1F) as u32) << 6 | ((b1 & 0x3F) as u32)
    } else if b < 0xF0 {
        let b1 = input[pos + 1];
        let b2 = input[pos + 2];
        ((b & 0x0F) as u32) << 12 | ((b1 & 0x3F) as u32) << 6 | ((b2 & 0x3F) as u32)
    } else {
        let b1 = input[pos + 1];
        let b2 = input[pos + 2];
        let b3 = input[pos + 3];
        ((b & 0x07) as u32) << 18 | ((b1 & 0x3F) as u32) << 12 | ((b2 & 0x3F) as u32) << 6 | ((b3
            & 0x3F) as u32)
    };
    char::from_u32(code)
}

/// Whether two byte strings are equal.
pub fn bytes_equal(a: &[u8], b: &[u8]) -> (r: bool)
    ensures
        r == (a@ == b@),
{
    if a.len() != b.len() {
        return false;
    }
    let mut i: usize = 0;
    while i < a.len()
        invariant
            i <= a@.len() == b@.len(),
            forall|j: int| 0 <= j < i ==> a@[j] == b@[j],
        decreases a@.len() - i,
    {
        if a[i] != b[i] {
            return false;
        }
        i += 1;
    }
    assert(a@ =~= b@);
    true
}

} // verus!
