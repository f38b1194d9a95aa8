use vstd::prelude::*;

verus! {

/// An ASCII capital letter.
pub open spec fn spec_is_upper(c: char) -> bool {
    'A' <= c && c <= 'Z'
}

/// An ASCII small letter.
pub open spec fn spec_is_lower(c: char) -> bool {
    'a' <= c && c <= 'z'
}

/// An ASCII letter of either case.
pub open spec fn spec_is_alphabetic(c: char) -> bool {
    spec_is_upper(c) || spec_is_lower(c)
}

/// The capital form of an ASCII small letter; every other character is kept.
pub open spec fn spec_to_upper(c: char) -> char {
    if spec_is_lower(c) {
        ((c as u32) - 32) as char
    } else {
        c
    }
}

/// The small form of an ASCII capital letter; every other character is kept.
pub open spec fn spec_to_lower(c: char) -> char {
    if spec_is_upper(c) {
        ((c as u32) + 32) as char
    } else {
        c
    }
}

/// The characters that split words: underscore, hyphen, space and line feed.
pub open spec fn spec_is_separator(c: char) -> bool {
    c == '_' || c == '-' || c == ' ' || c == '\n'
}

pub fn is_upper(c: char) -> (r: bool)
    ensures
        r == spec_is_upper(c),
{
    'A' <= c && c <= 'Z'
}

pub fn is_lower(c: char) -> (r: bool)
    ensures
        r == spec_is_lower(c),
{
    'a' <= c && c <= 'z'
}

pub fn is_alphabetic(c: char) -> (r: bool)
    ensures
        r == spec_is_alphabetic(c),
{
    is_upper(c) || is_lower(c)
}

pub fn to_upper(c: char) -> (r: char)
    ensures
        r == spec_to_upper(c),
{
    if is_lower(c) {
        ((c as u8) - 32) as char
    } else {
        c
    }
}

pub fn to_lower(c: char) -> (r: char)
    ensures
        r == spec_to_lower(c),
{
    if is_upper(c) {
        ((c as u8) + 32) as char
    } else {
        c
    }
}

/// Whether `letter` splits words.
pub fn is_separator(letter: char) -> (r: bool)
    ensures
        r == spec_is_separator(letter),
{
    letter == '_' || letter == '-' || letter == ' ' || letter == '\n'
}

/// Changing the case of a letter gives a letter of the other case; every
/// other character is kept.
pub proof fn lemma_case_change(c: char)
    ensures
        spec_is_lower(c) ==> spec_is_upper(spec_to_upper(c)),
        spec_is_upper(c) ==> spec_is_lower(spec_to_lower(c)),
        !spec_is_lower(c) ==> spec_to_upper(c) == c,
        !spec_is_upper(c) ==> spec_to_lower(c) == c,
        spec_is_upper(c) ==> spec_to_upper(spec_to_lower(c)) == c,
        spec_is_lower(c) ==> spec_to_lower(spec_to_upper(c)) == c,
{
}

} // verus!
