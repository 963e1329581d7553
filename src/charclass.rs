//! Character classification used by the strength policy and by the
//! capitalisation operator.

use vstd::prelude::*;

verus! {

/// Whether `c` is alphabetic in the Unicode sense, as `char::is_alphabetic` decides.
pub uninterp spec fn alphabetic_char(c: char) -> bool;

/// Whether `c` is uppercase in the Unicode sense, as `char::is_uppercase` decides.
pub uninterp spec fn uppercase_char(c: char) -> bool;

/// Whether `c` is numeric in the Unicode sense, as `char::is_numeric` decides.
pub uninterp spec fn numeric_char(c: char) -> bool;

/// The uppercase mapping of `c`, as `char::to_uppercase` yields it.
pub uninterp spec fn upper_of(c: char) -> Seq<char>;

/// ASCII punctuation: `! " # $ % & ' ( ) * + , - . /`, `: ; < = > ? @`,
/// `[ \ ] ^ _ `` ` and `{ | } ~`.
pub open spec fn ascii_punctuation_char(c: char) -> bool {
    let u = c as u32;
    (0x21 <= u <= 0x2f) || (0x3a <= u <= 0x40) || (0x5b <= u <= 0x60) || (0x7b <= u <= 0x7e)
}

/// Relies on `char::is_alphabetic`: the result depends on the character alone.
#[verifier::external_body]
pub(crate) fn is_alphabetic(c: char) -> (r: bool)
    ensures
        r == alphabetic_char(c),
{
    c.is_alphabetic()
}

/// Relies on `char::is_uppercase`: the result depends on the character alone.
#[verifier::external_body]
pub(crate) fn is_uppercase(c: char) -> (r: bool)
    ensures
        r == uppercase_char(c),
{
    c.is_uppercase()
}

/// Relies on `char::is_numeric`: the result depends on the character alone.
#[verifier::external_body]
pub(crate) fn is_numeric(c: char) -> (r: bool)
    ensures
        r == numeric_char(c),
{
    c.is_numeric()
}

/// Relies on `char::to_uppercase`, collected into a string: it yields the
/// uppercase mapping of `c` as one or more characters.
#[verifier::external_body]
pub(crate) fn to_uppercase(c: char) -> (r: String)
    ensures
        r@ == upper_of(c),
        r@.len() >= 1,
{
    c.to_uppercase().collect::<String>()
}

/// Whether `c` is ASCII punctuation.
pub(crate) fn is_ascii_punctuation(c: char) -> (r: bool)
    ensures
        r == ascii_punctuation_char(c),
{
    let u = c as u32;
    (0x21 <= u && u <= 0x2f) || (0x3a <= u && u <= 0x40) || (0x5b <= u && u <= 0x60) || (0x7b
        <= u && u <= 0x7e)
}

/// Relies on `String::push`: the character is appended at the end.
pub assume_specification[ String::push ](s: &mut String, ch: char)
    ensures
        final(s)@ == old(s)@.push(ch),
;

} // verus!
