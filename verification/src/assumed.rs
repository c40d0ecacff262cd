//! What this crate takes on trust from code that Verus does not read.

use vstd::prelude::*;

verus! {

/// `branches::likely` is a branch hint: it hands its argument back.
pub assume_specification[ branches::likely ](b: bool) -> (r: bool)
    ensures
        r == b,
;

/// `branches::unlikely` is a branch hint: it hands its argument back.
pub assume_specification[ branches::unlikely ](b: bool) -> (r: bool)
    ensures
        r == b,
;

/// Whether a character has the Unicode property XID_Start, as
/// `unicode_ident::is_xid_start` computes it from its tables.
pub uninterp spec fn xid_start(ch: char) -> bool;

/// Whether a character has the Unicode property XID_Continue, as
/// `unicode_ident::is_xid_continue` computes it from its tables.
pub uninterp spec fn xid_continue(ch: char) -> bool;

/// `unicode_ident::is_xid_start` is a function of the character alone. Below
/// `0x80` it reads one bit mask, which holds the letters `A`-`Z` and `a`-`z`
/// and nothing else.
pub assume_specification[ unicode_ident::is_xid_start ](ch: char) -> (r: bool)
    ensures
        r == xid_start(ch),
        (ch as u32) < 0x80 ==> r == (0x41 <= (ch as u32) <= 0x5A || 0x61 <= (ch as u32) <= 0x7A),
;

/// `unicode_ident::is_xid_continue` is a function of the character alone.
pub assume_specification[ unicode_ident::is_xid_continue ](ch: char) -> (r: bool)
    ensures
        r == xid_continue(ch),
;

/// `char::from_u32` yields the character with the given number where that
/// number is a Unicode scalar value, and nothing otherwise.
pub assume_specification[ char::from_u32 ](code: u32) -> (r: Option<char>)
    ensures
        r == (if vstd::utf8::is_scalar(code) {
            Some(code as char)
        } else {
            None::<char>
        }),
;

/// The error of `core::str::from_utf8`; nothing is read from it.
#[verifier::external_type_specification]
#[verifier::external_body]
pub struct ExUtf8Error(core::str::Utf8Error);

/// `core::str::from_utf8` succeeds on exactly the byte strings that are valid
/// UTF-8, and the string it yields is those bytes, decoded.
pub assume_specification[ core::str::from_utf8 ](v: &[u8]) -> (r: Result<
    &str,
    core::str::Utf8Error,
>)
    ensures
        r is Ok <==> vstd::utf8::valid_utf8(v@),
        r matches Ok(s) ==> s@ == vstd::utf8::decode_utf8(v@),
;

/// The text that `String::from_utf8_lossy` makes of a byte string: the bytes
/// decoded, with U+FFFD in place of each malformed sequence.
pub uninterp spec fn lossy_text(bytes: Seq<u8>) -> Seq<char>;

/// `String::from_utf8_lossy` is a function of the bytes alone, and on valid
/// UTF-8 it yields the bytes, decoded, with nothing replaced.
#[verifier::external_body]
pub(crate) fn lossy_string(bytes: &[u8]) -> (r: String)
    ensures
        r@ == lossy_text(bytes@),
        vstd::utf8::valid_utf8(bytes@) ==> r@ == vstd::utf8::decode_utf8(bytes@),
{
    String::from_utf8_lossy(bytes).into_owned()
}

} // verus!
