//! Character classification: whitespace, decimal digits, and the characters
//! that may start or continue a name.

use vstd::prelude::*;

verus! {

/// The Unicode `White_Space` code points, the set that `char::is_whitespace`
/// recognises: ASCII space, tab, line feed, vertical tab, form feed, carriage
/// return, and the non-ASCII whitespace characters.
pub open spec fn is_ws_char(c: char) -> bool {
    ||| c == ' '
    ||| c == '\t'
    ||| c == '\n'
    ||| c == '\u{000B}'
    ||| c == '\u{000C}'
    ||| c == '\r'
    ||| c == '\u{0085}'
    ||| c == '\u{00A0}'
    ||| c == '\u{1680}'
    ||| ('\u{2000}' <= c && c <= '\u{200A}')
    ||| c == '\u{2028}'
    ||| c == '\u{2029}'
    ||| c == '\u{202F}'
    ||| c == '\u{205F}'
    ||| c == '\u{3000}'
}

/// An ASCII decimal digit.
pub open spec fn is_digit_char(c: char) -> bool {
    '0' <= c && c <= '9'
}

/// A character that may start a name: an ASCII letter or an underscore.
pub open spec fn is_name_start_char(c: char) -> bool {
    ||| ('a' <= c && c <= 'z')
    ||| ('A' <= c && c <= 'Z')
    ||| c == '_'
}

/// A character that may continue a name: an ASCII letter, digit or underscore.
pub open spec fn is_name_cont_char(c: char) -> bool {
    is_name_start_char(c) || is_digit_char(c)
}

/// The numeric value of an ASCII decimal digit.
pub open spec fn digit_value(c: char) -> int {
    c as int - '0' as int
}

/// The three token-character classes are disjoint from whitespace, and a
/// digit never starts a name.
pub proof fn lemma_char_classes(c: char)
    ensures
        is_digit_char(c) ==> !is_ws_char(c),
        is_name_start_char(c) ==> !is_ws_char(c),
        is_name_cont_char(c) ==> !is_ws_char(c),
        is_digit_char(c) ==> !is_name_start_char(c),
{
}

pub fn is_ws(c: char) -> (b: bool)
    ensures
        b == is_ws_char(c),
{
    c == ' ' || c == '\t' || c == '\n' || c == '\u{000B}' || c == '\u{000C}' || c == '\r'
        || c == '\u{0085}' || c == '\u{00A0}' || c == '\u{1680}'
        || ('\u{2000}' <= c && c <= '\u{200A}') || c == '\u{2028}' || c == '\u{2029}'
        || c == '\u{202F}' || c == '\u{205F}' || c == '\u{3000}'
}

pub fn is_digit(c: char) -> (b: bool)
    ensures
        b == is_digit_char(c),
{
    '0' <= c && c <= '9'
}

pub fn is_name_start(c: char) -> (b: bool)
    ensures
        b == is_name_start_char(c),
{
    ('a' <= c && c <= 'z') || ('A' <= c && c <= 'Z') || c == '_'
}

pub fn is_name_cont(c: char) -> (b: bool)
    ensures
        b == is_name_cont_char(c),
{
    is_name_start(c) || is_digit(c)
}

} // verus!
