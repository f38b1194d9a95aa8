use crate::error::Error;
use crate::meta::{Meta, Text};
use crate::parse::{Argument, Key};
use std::collections::VecDeque;
use vstd::prelude::*;

verus! {

/// Whether `text` matches the regular expression written `pattern`; none
/// where the pattern does not compile.
pub uninterp spec fn regex_match(pattern: Seq<char>, text: Seq<char>) -> Option<bool>;

/// `regex::Regex::new` compiles `pattern` (with the default options) and
/// `Regex::is_match` runs it on `text`: the outcome depends on the two texts
/// alone, and is named `regex_match`.
#[verifier::external_body]
fn is_match(pattern: &str, text: &str) -> (matched: Option<bool>)
    ensures
        matched == regex_match(pattern@, text@),
{
    match regex::Regex::new(pattern) {
        Ok(regex) => Some(regex.is_match(text)),
        Err(_) => None,
    }
}

/// The regular expressions that `metas` ask of a value, in order, those of
/// the groups among them included.
pub open spec fn valid_patterns(metas: Seq<Meta>) -> Seq<Text>
    decreases metas,
{
    if metas.len() == 0 {
        Seq::empty()
    } else {
        let front = valid_patterns(metas.drop_last());
        match metas.last() {
            Meta::Valid(pattern) => front.push(pattern),
            Meta::Group(children) => {
                proof {
                    assert(decreases_to!(metas => metas[metas.len() - 1]));
                }
                front + valid_patterns(children@)
            },
            _ => front,
        }
    }
}

/// A value is valid when no regular expression is asked of it, or when one
/// of them matches it.
pub open spec fn spec_valid(patterns: Seq<Text>, value: Seq<char>) -> bool {
    patterns.len() == 0 || exists|k: int|
        0 <= k < patterns.len() && regex_match(#[trigger] patterns[k]@, value) == Some(true)
}

/// `text` without the `letter`s it starts with.
pub open spec fn trim_start(text: Seq<char>, letter: char) -> Seq<char>
    decreases text.len(),
{
    if text.len() > 0 && text[0] == letter {
        trim_start(text.drop_first(), letter)
    } else {
        text
    }
}

/// `text` without the `letter`s it ends with.
pub open spec fn trim_end(text: Seq<char>, letter: char) -> Seq<char>
    decreases text.len(),
{
    if text.len() > 0 && text.last() == letter {
        trim_end(text.drop_last(), letter)
    } else {
        text
    }
}

/// A regular expression as shown to the user: without the anchors `^` it
/// starts with and `$` it ends with.
pub open spec fn trimmed(pattern: Seq<char>) -> Seq<char> {
    trim_end(trim_start(pattern, '^'), '$')
}

/// The type named among `metas`: the last one.
pub open spec fn last_type(metas: Seq<Meta>) -> Option<Text>
    decreases metas.len(),
{
    if metas.len() == 0 {
        None
    } else {
        match metas.last() {
            Meta::Type(name) => Some(name),
            _ => last_type(metas.drop_last()),
        }
    }
}

/// Adds the regular expressions of `metas` (see `valid_patterns`) to `found`.
fn collect<'a>(metas: &'a [Meta], found: &mut Vec<&'a Text>)
    ensures
        final(found)@.map_values(|pattern: &Text| *pattern) == old(found)@.map_values(
            |pattern: &Text| *pattern,
        ) + valid_patterns(metas@),
    decreases metas@,
{
    let ghost start = found@.map_values(|pattern: &Text| *pattern);
    let mut index: usize = 0;
    while index < metas.len()
        invariant
            index <= metas@.len(),
            found@.map_values(|pattern: &Text| *pattern) == start + valid_patterns(
                metas@.take(index as int),
            ),
        decreases metas@.len() - index,
    {
        let ghost before = found@.map_values(|pattern: &Text| *pattern);
        assert(metas@.take(index + 1).drop_last() =~= metas@.take(index as int));
        assert(metas@.take(index + 1).last() == metas@[index as int]);
        match &metas[index] {
            Meta::Valid(pattern) => {
                found.push(pattern);
                assert(found@.map_values(|pattern: &Text| *pattern) =~= before.push(*pattern));
            },
            Meta::Group(children) => {
                proof {
                    assert(decreases_to!(metas@ => metas@[index as int]));
                }
                collect(children.as_slice(), found);
            },
            _ => {},
        }
        index = index + 1;
    }
    assert(metas@.take(metas@.len() as int) =~= metas@);
}

/// `pattern` without its leading `^`s and trailing `$`s (see `trimmed`).
pub fn trim_pattern(pattern: &Text) -> (trimmed_pattern: String)
    ensures
        trimmed_pattern@ == trimmed(pattern@),
{
    let mut chars: Vec<char> = Vec::new();
    for letter in iter: pattern.as_str().chars()
        invariant
            iter.seq() == pattern@,
            chars@ == pattern@.take(iter.index() as int),
    {
        assert(pattern@.take(iter.index() + 1) == pattern@.take(iter.index() as int).push(letter));
        chars.push(letter);
    }
    assert(pattern@.take(pattern@.len() as int) == pattern@);
    let mut start: usize = 0;
    while start < chars.len() && chars[start] == '^'
        invariant
            start <= chars@.len(),
            trim_start(chars@.skip(start as int), '^') == trim_start(pattern@, '^'),
        decreases chars@.len() - start,
    {
        assert(chars@.skip(start as int).drop_first() =~= chars@.skip(start + 1));
        start = start + 1;
    }
    assert(trim_start(chars@.skip(start as int), '^') == chars@.skip(start as int));
    let mut end: usize = chars.len();
    while end > start && chars[end - 1] == '$'
        invariant
            start <= end <= chars@.len(),
            trim_end(chars@.subrange(start as int, end as int), '$') == trimmed(pattern@),
        decreases end,
    {
        assert(chars@.subrange(start as int, end as int).drop_last() =~= chars@.subrange(
            start as int,
            end - 1,
        ));
        end = end - 1;
    }
    let mut text = String::new();
    let mut index = start;
    while index < end
        invariant
            start <= index <= end <= chars@.len(),
            text@ == chars@.subrange(start as int, index as int),
            trim_end(chars@.subrange(start as int, end as int), '$') == chars@.subrange(
                start as int,
                end as int,
            ),
            trim_end(chars@.subrange(start as int, end as int), '$') == trimmed(pattern@),
        decreases end - index,
    {
        assert(chars@.subrange(start as int, index + 1) == chars@.subrange(
            start as int,
            index as int,
        ).push(chars@[index as int]));
        text.push(chars[index]);
        index = index + 1;
    }
    text
}

/// The regular expressions asked of a value among `metas`, as shown to the
/// user.
pub fn patterns(metas: &[Meta]) -> (patterns: Vec<String>)
    ensures
        patterns@.map_values(|pattern: String| pattern@) == valid_patterns(metas@).map_values(
            |pattern: Text| trimmed(pattern@),
        ),
{
    let mut found: Vec<&Text> = Vec::new();
    collect(metas, &mut found);
    assert(found@.map_values(|pattern: &Text| *pattern) =~= valid_patterns(metas@));
    let ghost all = valid_patterns(metas@);
    let mut patterns: Vec<String> = Vec::new();
    let mut index: usize = 0;
    while index < found.len()
        invariant
            index <= found@.len(),
            found@.map_values(|pattern: &Text| *pattern) == all,
            patterns@.map_values(|pattern: String| pattern@) == all.take(index as int).map_values(
                |pattern: Text| trimmed(pattern@),
            ),
        decreases found@.len() - index,
    {
        let ghost before = patterns@;
        let pattern = trim_pattern(found[index]);
        let ghost shown = pattern@;
        patterns.push(pattern);
        assert(found@.map_values(|pattern: &Text| *pattern)[index as int] == *found@[index as int]);
        assert(patterns@.map_values(|pattern: String| pattern@) =~= before.map_values(
            |pattern: String| pattern@,
        ).push(shown));
        assert(all.take(index + 1).map_values(|pattern: Text| trimmed(pattern@)) =~= all.take(
            index as int,
        ).map_values(|pattern: Text| trimmed(pattern@)).push(trimmed(all[index as int]@)));
        assert(patterns@.map_values(|pattern: String| pattern@) =~= all.take(index + 1).map_values(
            |pattern: Text| trimmed(pattern@),
        ));
        index = index + 1;
    }
    assert(all.take(found@.len() as int) =~= all);
    patterns
}

/// Whether `value` is valid for the node described by `metas` (see
/// `spec_valid`).
pub fn is_valid(metas: &[Meta], value: &Text) -> (valid: bool)
    ensures
        valid == spec_valid(valid_patterns(metas@), value@),
{
    let mut found: Vec<&Text> = Vec::new();
    collect(metas, &mut found);
    let ghost all = valid_patterns(metas@);
    assert(found@.map_values(|pattern: &Text| *pattern) =~= all);
    let mut valid = true;
    let mut index: usize = 0;
    while index < found.len()
        invariant
            index <= found@.len(),
            found@.map_values(|pattern: &Text| *pattern) == all,
            valid == (index == 0),
            all == valid_patterns(metas@),
            forall|k: int| 0 <= k < index ==> regex_match(#[trigger] all[k]@, value@) != Some(true),
        decreases found@.len() - index,
    {
        assert(found@.map_values(|pattern: &Text| *pattern)[index as int] == *found@[index as int]);
        if is_match(found[index].as_str(), value.as_str()) == Some(true) {
            assert(regex_match(all[index as int]@, value@) == Some(true));
            return true;
        }
        valid = false;
        index = index + 1;
    }
    valid
}

/// The type named among `metas` (see `last_type`).
pub fn named_type(metas: &[Meta]) -> (name: Option<Text>)
    ensures
        name == last_type(metas@),
{
    let mut name: Option<&Text> = None;
    let mut index: usize = 0;
    while index < metas.len()
        invariant
            index <= metas@.len(),
            match name {
                Some(value) => last_type(metas@.take(index as int)) == Some(*value),
                None => last_type(metas@.take(index as int)) is None,
            },
        decreases metas@.len() - index,
    {
        assert(metas@.take(index + 1).drop_last() =~= metas@.take(index as int));
        assert(metas@.take(index + 1).last() == metas@[index as int]);
        if let Meta::Type(value) = &metas[index] {
            name = Some(value);
        }
        index = index + 1;
    }
    assert(metas@.take(metas@.len() as int) =~= metas@);
    match name {
        Some(value) => Some(value.clone()),
        None => None,
    }
}

/// The error for a value given twice to the node `meta`: an option, a verb,
/// or any other node.
pub fn duplicate(meta: &Meta, path: Vec<Key>) -> (error: Error)
    ensures
        error == match *meta {
            Meta::Option(_) => Error::DuplicateOption(path),
            Meta::Verb(_) => Error::DuplicateVerb(path),
            _ => Error::DuplicateParse(path),
        },
{
    match meta {
        Meta::Option(_) => Error::DuplicateOption(path),
        Meta::Verb(_) => Error::DuplicateVerb(path),
        _ => Error::DuplicateParse(path),
    }
}

/// The error for an option whose value is missing, with the type it names.
pub fn missing_option(metas: &[Meta], path: Vec<Key>) -> (error: Error)
    ensures
        error == Error::MissingValue(last_type(metas@), path),
{
    Error::MissingValue(named_type(metas), path)
}

/// The error for an option value that no regular expression of the option
/// matches, with the expressions as shown to the user.
pub fn invalid_option(metas: &[Meta], value: Text, path: Vec<Key>) -> (error: Error)
    ensures
        match error {
            Error::InvalidOptionValue(shown, expected, at) => {
                &&& shown == value
                &&& at == path
                &&& expected@.map_values(|pattern: String| pattern@) == valid_patterns(
                    metas@,
                ).map_values(|pattern: Text| trimmed(pattern@))
            },
            _ => false,
        },
{
    Error::InvalidOptionValue(value, patterns(metas), path)
}

/// The error for an option value that does not read as the option's type.
pub fn failed_parse(metas: &[Meta], value: Text, path: Vec<Key>) -> (error: Error)
    ensures
        error == Error::FailedToParseOptionValue(value, last_type(metas@), path),
{
    Error::FailedToParseOptionValue(value, named_type(metas), path)
}

/// What the value of an option comes to, read from the argument that was in
/// front of the command line.
#[derive(Debug)]
pub enum Reading {
    /// The argument, which parses as the option's type and matches its
    /// patterns.
    Parsed(Text),
    /// `true`, for a flag: no argument was left, or the argument (handed back
    /// here, to be put back in front) does not parse as the flag's type.
    Flag(Option<Text>),
    /// One letter of a group of short options, which no value option takes.
    Swizzled(char),
    /// No argument was left for an option that is no flag.
    Missing,
    /// The argument parses, but matches none of the option's patterns.
    Invalid(Text),
    /// The argument does not parse as the option's type.
    Unparsed(Text),
}

/// The reading of `argument` for the option described by `metas`, where
/// `flag` says that the option's type is `bool` and `parsed` whether the
/// argument's text parses as that type.
pub open spec fn spec_reading(
    metas: Seq<Meta>,
    argument: Option<Argument>,
    flag: bool,
    parsed: bool,
) -> Reading {
    match argument {
        None => if flag {
            Reading::Flag(None)
        } else {
            Reading::Missing
        },
        Some(Argument::Swizzle(letter)) => Reading::Swizzled(letter),
        Some(Argument::String(text)) => if parsed {
            if spec_valid(valid_patterns(metas), text@) {
                Reading::Parsed(text)
            } else {
                Reading::Invalid(text)
            }
        } else if flag {
            Reading::Flag(Some(text))
        } else {
            Reading::Unparsed(text)
        },
    }
}

/// Reads the value of the option described by `metas` from `argument` (see
/// `spec_reading`).
pub fn read_value(metas: &[Meta], argument: Option<Argument>, flag: bool, parsed: bool) -> (reading:
    Reading)
    ensures
        reading == spec_reading(metas@, argument, flag, parsed),
{
    match argument {
        None => if flag {
            Reading::Flag(None)
        } else {
            Reading::Missing
        },
        Some(Argument::Swizzle(letter)) => Reading::Swizzled(letter),
        Some(Argument::String(text)) => if parsed {
            if is_valid(metas, &text) {
                Reading::Parsed(text)
            } else {
                Reading::Invalid(text)
            }
        } else if flag {
            Reading::Flag(Some(text))
        } else {
            Reading::Unparsed(text)
        },
    }
}

/// The whole arguments among `arguments`, in order (letters of a group of
/// short options are left out).
pub open spec fn whole_arguments(arguments: Seq<Argument>) -> Seq<Text>
    decreases arguments.len(),
{
    if arguments.len() == 0 {
        Seq::empty()
    } else {
        match arguments[0] {
            Argument::String(text) => seq![text] + whole_arguments(arguments.drop_first()),
            Argument::Swizzle(_) => whole_arguments(arguments.drop_first()),
        }
    }
}

/// What the arguments left once the command line is parsed come to: nothing
/// when none is left, else the excess whole arguments.
pub fn leftover(arguments: VecDeque<Argument>) -> (error: Option<Error>)
    ensures
        arguments@.len() == 0 ==> error is None,
        arguments@.len() > 0 ==> (error matches Some(Error::ExcessArguments(excess)) && excess@
            == whole_arguments(arguments@)),
{
    if arguments.len() == 0 {
        return None;
    }
    let ghost all = arguments@;
    let mut arguments = arguments;
    let mut excess: Vec<Text> = Vec::new();
    while arguments.len() > 0
        invariant
            excess@ + whole_arguments(arguments@) == whole_arguments(all),
        decreases arguments@.len(),
    {
        let ghost before = arguments@;
        match arguments.pop_front() {
            Some(Argument::String(text)) => {
                assert(before.drop_first() == arguments@);
                excess.push(text);
                assert(excess@ + whole_arguments(arguments@) =~= whole_arguments(all));
            },
            Some(Argument::Swizzle(_)) => {
                assert(before.drop_first() == arguments@);
            },
            None => {},
        }
    }
    assert(excess@ =~= whole_arguments(all));
    Some(Error::ExcessArguments(excess))
}

/// What a required node answers when its value is missing: a missing value
/// becomes a missing required one; every other error stays.
pub fn required(error: Error) -> (answer: Error)
    ensures
        answer == match error {
            Error::MissingValue(kind, path) => Error::MissingRequired(kind, path),
            other => other,
        },
{
    match error {
        Error::MissingValue(kind, path) => Error::MissingRequired(kind, path),
        other => other,
    }
}

/// The type and the path of a missing value (required or not), which a
/// default or an environment variable can stand in for; every other error
/// is handed back.
pub fn missing(error: Error) -> (parts: Result<(Option<Text>, Vec<Key>), Error>)
    ensures
        parts == match error {
            Error::MissingValue(kind, path) => Ok((kind, path)),
            Error::MissingRequired(kind, path) => Ok((kind, path)),
            other => Err(other),
        },
{
    match error {
        Error::MissingValue(kind, path) => Ok((kind, path)),
        Error::MissingRequired(kind, path) => Ok((kind, path)),
        other => Err(other),
    }
}

/// What parsing a node repeatedly comes to once it stopped, after `count`
/// values, on `stop` (or on reaching its limit): the error only when no value
/// was parsed.
pub fn repeated(stop: Option<Error>, count: usize) -> (error: Option<Error>)
    ensures
        error == (if count == 0 {
            stop
        } else {
            None
        }),
{
    if count == 0 {
        stop
    } else {
        None
    }
}

} // verus!
