use vstd::prelude::*;

verus! {

/// `String::push` appends one character at the end of the string.
pub assume_specification[ std::string::String::push ](string: &mut std::string::String, ch: char)
    ensures
        final(string)@ == old(string)@.push(ch),
;

/// `String::with_capacity` returns an empty string; the capacity is not observable here.
pub assume_specification[ std::string::String::with_capacity ](capacity: usize) -> (string: std::string::String)
    ensures
        string@ == Seq::<char>::empty(),
;

/// `str == str` compares the two strings character by character.
pub assume_specification[ <str as PartialEq>::eq ](left: &str, right: &str) -> (equal: bool)
    ensures
        equal == (left@ == right@),
;

/// Whether two strings hold the same characters.
pub fn str_eq(left: &str, right: &str) -> (equal: bool)
    ensures
        equal == (left@ == right@),
{
    <str as PartialEq>::eq(left, right)
}

/// A string never has more characters than bytes.
pub proof fn lemma_chars_within_bytes(chars: Seq<char>)
    ensures
        chars.len() <= vstd::utf8::encode_utf8(chars).len(),
    decreases chars.len(),
{
    if chars.len() > 0 {
        lemma_chars_within_bytes(chars.drop_first());
    }
}

/// The number of characters of a string fits in `usize`.
pub fn chars_fit(value: &str)
    ensures
        value@.len() <= usize::MAX,
{
    let bytes = value.as_bytes();
    proof {
        lemma_chars_within_bytes(value@);
    }
    let count = bytes.len();
    assert(bytes@.len() == count);
}

/// The decimal digit for `digit`, which is under ten.
pub open spec fn digit_char(digit: nat) -> char {
    ((digit + 48) as u32) as char
}

/// The decimal writing of `value`, without leading zeros.
pub open spec fn decimal(value: nat) -> Seq<char>
    decreases value,
{
    if value < 10 {
        seq![digit_char(value)]
    } else {
        decimal(value / 10).push(digit_char(value % 10))
    }
}

/// Appends the decimal writing of `value` to `target`.
pub fn push_decimal(target: &mut String, value: usize)
    ensures
        final(target)@ == old(target)@ + decimal(value as nat),
    decreases value,
{
    if value >= 10 {
        push_decimal(target, value / 10);
    }
    let digit = (value % 10) as u8;
    target.push((digit + 48) as char);
    assert(((digit + 48) as u8) as char == digit_char((value % 10) as nat));
}

} // verus!
