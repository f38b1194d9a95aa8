use crate::case::{spec_convert, Case};
use crate::error::Error;
use crate::meta::{Meta, Options, Text};
use crate::parse::{spec_name_chars, Argument, Key, Name};
use crate::spell::{lemma_suggest_views, suggested_words, word_view, Spell};
use crate::strings::str_eq;
use std::collections::VecDeque;
use vstd::prelude::*;

verus! {

/// What searching the descriptions of a node for an argument comes to.
pub enum KeyResult {
    Help,
    Version,
    Author,
    License,
    Position(usize),
    Name(Name),
    Break(bool),
    Error(Error),
    Unrecognized,
}

/// What a search reads and never changes: the argument looked for, the
/// prefix and case of names, whether verb or option names are matched, and
/// the position asked for.
pub struct Lookup {
    pub argument: Argument,
    pub prefix: char,
    pub case: Case,
    pub verb: bool,
    pub option: bool,
    pub position: usize,
}

/// What a search carries from one description to the next: the arguments
/// left to read, the names tried in vain, the path of groups entered, the
/// positions passed, and whether help and version are offered.
#[verifier::ext_equal]
pub struct Walk {
    pub arguments: Seq<Argument>,
    pub names: Seq<Name>,
    pub indices: Seq<usize>,
    pub count: usize,
    pub help: Option<bool>,
    pub version: Option<bool>,
}

/// `flag`, or `Some(true)` where it is not set yet.
pub open spec fn or_true(flag: Option<bool>) -> Option<bool> {
    match flag {
        Some(value) => Some(value),
        None => Some(true),
    }
}

/// The characters of an argument.
pub open spec fn argument_chars(argument: Argument) -> Seq<char> {
    match argument {
        Argument::String(key) => key@,
        Argument::Swizzle(key) => seq![key],
    }
}

/// A character of a group of short options, as an argument of its own.
pub open spec fn swizzle(letter: char) -> Argument {
    Argument::Swizzle(letter)
}

/// Each character as an argument of its own, in order.
pub open spec fn swizzled(chars: Seq<char>) -> Seq<Argument> {
    chars.map_values(|letter: char| swizzle(letter))
}

/// Whether a `Swizzle` description stands at `i` or after it.
pub open spec fn swizzles_from(metas: Seq<Meta>, i: int) -> bool {
    exists|j: int| i <= j < metas.len() && #[trigger] metas[j] is Swizzle
}

/// A short option name: one prefix, no case.
pub open spec fn short_option(lookup: Lookup, value: Text) -> Name {
    Name { value, prefixes: (Some(lookup.prefix), None), case: None }
}

/// A long option name: two prefixes, in the case of the search.
pub open spec fn long_option(lookup: Lookup, value: Text) -> Name {
    Name { value, prefixes: (Some(lookup.prefix), Some(lookup.prefix)), case: Some(lookup.case) }
}

/// A short verb name: no prefix, no case.
pub open spec fn short_verb(value: Text) -> Name {
    Name { value, prefixes: (None, None), case: None }
}

/// A long verb name: no prefix, in the case of the search.
pub open spec fn long_verb(lookup: Lookup, value: Text) -> Name {
    Name { value, prefixes: (None, None), case: Some(lookup.case) }
}

/// Matches `name`, without its prefixes and in its case, against `key`; a
/// name that does not match is added to the names tried.
pub open spec fn try_name(names: Seq<Name>, name: Name, key: Seq<char>) -> (Seq<Name>, bool) {
    if spec_name_chars(name, false, true) == key {
        (names, true)
    } else {
        (names.push(name), false)
    }
}

/// Matches the whole argument against a short and then a long option name.
pub open spec fn try_options(
    lookup: Lookup,
    names: Seq<Name>,
    short: Option<Text>,
    long: Option<Text>,
) -> (Seq<Name>, bool) {
    let chars = argument_chars(lookup.argument);
    let (names, hit) = match short {
        Some(value) => try_name(names, short_option(lookup, value), chars),
        None => (names, false),
    };
    if hit {
        (names, true)
    } else {
        match long {
            Some(value) => try_name(names, long_option(lookup, value), chars),
            None => (names, false),
        }
    }
}

/// `Some(value)` when `on`.
pub open spec fn when(on: bool, value: Text) -> Option<Text> {
    if on {
        Some(value)
    } else {
        None
    }
}

/// Matches the argument against the names of a built-in option.
pub open spec fn try_builtin(lookup: Lookup, names: Seq<Name>, options: Options) -> (
    Seq<Name>,
    Option<KeyResult>,
) {
    let (short, long, result) = match options {
        Options::Help { short, long } => (
            when(short, Text::Static("h")),
            when(long, Text::Static("help")),
            KeyResult::Help,
        ),
        Options::Version { short, long } => (
            when(short, Text::Static("v")),
            when(long, Text::Static("version")),
            KeyResult::Version,
        ),
        Options::Author { short, long } => (
            when(short, Text::Static("a")),
            when(long, Text::Static("author")),
            KeyResult::Author,
        ),
        Options::License { short, long } => (
            when(short, Text::Static("l")),
            when(long, Text::Static("license")),
            KeyResult::License,
        ),
    };
    let (names, hit) = try_options(lookup, names, short, long);
    (names, if hit {
        Some(result)
    } else {
        None
    })
}

/// Matches the argument against the name `value` of the description at `i`:
/// as a long (`--name`) or short (`-n`, possibly followed by more short
/// names) option when options are searched, as a verb when verbs are; a lone
/// prefix is unrecognized and a double prefix ends the options.
pub open spec fn name_step(
    lookup: Lookup,
    metas: Seq<Meta>,
    i: int,
    swizzle: bool,
    value: Text,
    walk: Walk,
) -> (Walk, Option<KeyResult>) {
    let pass = swizzle || swizzles_from(metas, i);
    match lookup.argument {
        Argument::String(key) => {
            let k = key@;
            if lookup.option && k.len() >= 1 && k[0] == lookup.prefix {
                if k.len() == 1 {
                    (walk, Some(KeyResult::Unrecognized))
                } else if k[1] == lookup.prefix {
                    if k.len() == 2 {
                        (walk, Some(KeyResult::Break(false)))
                    } else {
                        let name = long_option(lookup, value);
                        let (names, hit) = try_name(walk.names, name, k.skip(2));
                        if hit {
                            (walk, Some(KeyResult::Name(name)))
                        } else {
                            (Walk { names, ..walk }, None)
                        }
                    }
                } else {
                    let name = short_option(lookup, value);
                    let (names, hit) = try_name(walk.names, name, seq![k[1]]);
                    if hit {
                        let next = Walk {
                            arguments: swizzled(k.skip(2)) + walk.arguments,
                            ..walk
                        };
                        if k.len() == 2 || pass {
                            (next, Some(KeyResult::Name(name)))
                        } else {
                            (next, Some(KeyResult::Error(Error::InvalidSwizzleOption(value))))
                        }
                    } else {
                        (Walk { names, ..walk }, None)
                    }
                }
            } else if lookup.verb && k.len() >= 1 {
                let name = if k.len() >= 2 {
                    long_verb(lookup, value)
                } else {
                    short_verb(value)
                };
                let (names, hit) = try_name(walk.names, name, k);
                if hit {
                    (walk, Some(KeyResult::Name(name)))
                } else {
                    (Walk { names, ..walk }, None)
                }
            } else {
                (walk, None)
            }
        },
        Argument::Swizzle(key) => {
            let name = short_option(lookup, value);
            let (names, hit) = try_name(walk.names, name, seq![key]);
            if hit {
                if pass {
                    (walk, Some(KeyResult::Name(name)))
                } else {
                    (walk, Some(KeyResult::Error(Error::InvalidSwizzleOption(value))))
                }
            } else {
                (Walk { names, ..walk }, None)
            }
        },
    }
}

/// The search of `metas` from `i` on, `at` being the number of nodes passed
/// at this level and `swizzle` whether short options may be written
/// together here: documentation marks help and version as offered, a
/// position or a name of the option or verb searched may match the argument,
/// a group is searched in turn, a verb or an option is searched as one (each
/// node's index on the path while inside), and a built-in option may answer
/// the argument. The first match ends the search.
pub open spec fn walk(
    lookup: Lookup,
    metas: Seq<Meta>,
    i: int,
    at: nat,
    swizzle: bool,
    state: Walk,
) -> (Walk, Option<KeyResult>)
    decreases metas, metas.len() - i,
{
    if i < 0 || i >= metas.len() {
        (state, None)
    } else {
        let searching = lookup.verb || lookup.option;
        match metas[i] {
            Meta::Help(_) | Meta::Usage(_) | Meta::Note(_) | Meta::Repository(_) | Meta::Summary(
                _,
            ) => walk(lookup, metas, i + 1, at, swizzle, Walk { help: or_true(state.help), ..state }),
            Meta::Version(_) => walk(
                lookup,
                metas,
                i + 1,
                at,
                swizzle,
                Walk { version: or_true(state.version), ..state },
            ),
            Meta::Position => if !searching {
                walk(lookup, metas, i + 1, at, swizzle, state)
            } else if state.count == lookup.position {
                (state, Some(KeyResult::Position(lookup.position)))
            } else {
                walk(
                    lookup,
                    metas,
                    i + 1,
                    at,
                    swizzle,
                    Walk { count: (state.count + 1) as usize, ..state },
                )
            },
            Meta::Name(value) => if !searching {
                walk(lookup, metas, i + 1, at, swizzle, state)
            } else {
                let (next, found) = name_step(lookup, metas, i, swizzle, value, state);
                if found is Some {
                    (next, found)
                } else {
                    walk(lookup, metas, i + 1, at, swizzle, next)
                }
            },
            Meta::Swizzle => walk(lookup, metas, i + 1, at, true, state),
            Meta::Group(children) => {
                proof {
                    assert(decreases_to!(metas => metas[i]));
                }
                let (inner, found) = walk(
                    lookup,
                    children@,
                    0,
                    0,
                    swizzle,
                    Walk { indices: state.indices.push(at as usize), ..state },
                );
                if found is Some {
                    (inner, found)
                } else {
                    walk(
                        lookup,
                        metas,
                        i + 1,
                        at + 1,
                        swizzle,
                        Walk { indices: state.indices, ..inner },
                    )
                }
            },
            Meta::Verb(children) => if searching {
                walk(lookup, metas, i + 1, at, swizzle, state)
            } else {
                proof {
                    assert(decreases_to!(metas => metas[i]));
                }
                let (inner, found) = walk(
                    Lookup { verb: true, option: false, ..lookup },
                    children@,
                    0,
                    0,
                    swizzle,
                    Walk { indices: state.indices.push(at as usize), ..state },
                );
                if found is Some {
                    (inner, found)
                } else {
                    walk(
                        lookup,
                        metas,
                        i + 1,
                        at + 1,
                        swizzle,
                        Walk { indices: state.indices, help: or_true(inner.help), ..inner },
                    )
                }
            },
            Meta::Option(children) => if searching {
                walk(lookup, metas, i + 1, at, swizzle, state)
            } else {
                proof {
                    assert(decreases_to!(metas => metas[i]));
                }
                let (inner, found) = walk(
                    Lookup { verb: false, option: true, ..lookup },
                    children@,
                    0,
                    0,
                    swizzle,
                    Walk { indices: state.indices.push(at as usize), ..state },
                );
                if found is Some {
                    (inner, found)
                } else {
                    walk(
                        lookup,
                        metas,
                        i + 1,
                        at + 1,
                        swizzle,
                        Walk { indices: state.indices, help: or_true(inner.help), ..inner },
                    )
                }
            },
            Meta::Options(options) => if searching {
                walk(lookup, metas, i + 1, at, swizzle, state)
            } else {
                let (names, found) = try_builtin(lookup, state.names, options);
                if found is Some {
                    (Walk { names, ..state }, found)
                } else {
                    walk(
                        lookup,
                        metas,
                        i + 1,
                        at,
                        swizzle,
                        Walk { names, help: Some(false), version: Some(false), ..state },
                    )
                }
            },
            _ => walk(lookup, metas, i + 1, at, swizzle, state),
        }
    }
}

/// A search that finds nothing leaves the path of groups and the arguments
/// as it found them; a search never asks for the argument to be put back.
pub proof fn lemma_walk_keeps_path(
    lookup: Lookup,
    metas: Seq<Meta>,
    i: int,
    at: nat,
    swizzle: bool,
    state: Walk,
)
    ensures
        walk(lookup, metas, i, at, swizzle, state).1 is None ==> walk(
            lookup,
            metas,
            i,
            at,
            swizzle,
            state,
        ).0.indices == state.indices && walk(lookup, metas, i, at, swizzle, state).0.arguments
            == state.arguments,
        walk(lookup, metas, i, at, swizzle, state).1 != Some(KeyResult::Break(true)),
    decreases metas, metas.len() - i,
{
    if 0 <= i < metas.len() {
        let searching = lookup.verb || lookup.option;
        match metas[i] {
            Meta::Help(_) | Meta::Usage(_) | Meta::Note(_) | Meta::Repository(_) | Meta::Summary(
                _,
            ) => lemma_walk_keeps_path(
                lookup,
                metas,
                i + 1,
                at,
                swizzle,
                Walk { help: or_true(state.help), ..state },
            ),
            Meta::Version(_) => lemma_walk_keeps_path(
                lookup,
                metas,
                i + 1,
                at,
                swizzle,
                Walk { version: or_true(state.version), ..state },
            ),
            Meta::Position => {
                lemma_walk_keeps_path(lookup, metas, i + 1, at, swizzle, state);
                lemma_walk_keeps_path(
                    lookup,
                    metas,
                    i + 1,
                    at,
                    swizzle,
                    Walk { count: (state.count + 1) as usize, ..state },
                );
            },
            Meta::Name(value) => {
                lemma_walk_keeps_path(lookup, metas, i + 1, at, swizzle, state);
                let (next, found) = name_step(lookup, metas, i, swizzle, value, state);
                lemma_walk_keeps_path(lookup, metas, i + 1, at, swizzle, next);
                if found is None {
                    assert(next.arguments == state.arguments);
                    assert(next.indices == state.indices);
                }
            },
            Meta::Swizzle => lemma_walk_keeps_path(lookup, metas, i + 1, at, true, state),
            Meta::Group(children) => {
                assert(decreases_to!(metas => metas[i]));
                lemma_walk_keeps_path(
                    lookup,
                    children@,
                    0,
                    0,
                    swizzle,
                    Walk { indices: state.indices.push(at as usize), ..state },
                );
                let (inner, found) = walk(
                    lookup,
                    children@,
                    0,
                    0,
                    swizzle,
                    Walk { indices: state.indices.push(at as usize), ..state },
                );
                lemma_walk_keeps_path(
                    lookup,
                    metas,
                    i + 1,
                    at + 1,
                    swizzle,
                    Walk { indices: state.indices, ..inner },
                );
            },
            Meta::Verb(children) => {
                assert(decreases_to!(metas => metas[i]));
                lemma_walk_keeps_path(lookup, metas, i + 1, at, swizzle, state);
                lemma_walk_keeps_path(
                    Lookup { verb: true, option: false, ..lookup },
                    children@,
                    0,
                    0,
                    swizzle,
                    Walk { indices: state.indices.push(at as usize), ..state },
                );
                let (inner, found) = walk(
                    Lookup { verb: true, option: false, ..lookup },
                    children@,
                    0,
                    0,
                    swizzle,
                    Walk { indices: state.indices.push(at as usize), ..state },
                );
                lemma_walk_keeps_path(
                    lookup,
                    metas,
                    i + 1,
                    at + 1,
                    swizzle,
                    Walk { indices: state.indices, help: or_true(inner.help), ..inner },
                );
            },
            Meta::Option(children) => {
                assert(decreases_to!(metas => metas[i]));
                lemma_walk_keeps_path(lookup, metas, i + 1, at, swizzle, state);
                lemma_walk_keeps_path(
                    Lookup { verb: false, option: true, ..lookup },
                    children@,
                    0,
                    0,
                    swizzle,
                    Walk { indices: state.indices.push(at as usize), ..state },
                );
                let (inner, found) = walk(
                    Lookup { verb: false, option: true, ..lookup },
                    children@,
                    0,
                    0,
                    swizzle,
                    Walk { indices: state.indices.push(at as usize), ..state },
                );
                lemma_walk_keeps_path(
                    lookup,
                    metas,
                    i + 1,
                    at + 1,
                    swizzle,
                    Walk { indices: state.indices, help: or_true(inner.help), ..inner },
                );
            },
            Meta::Options(options) => {
                lemma_walk_keeps_path(lookup, metas, i + 1, at, swizzle, state);
                let (names, found) = try_builtin(lookup, state.names, options);
                lemma_walk_keeps_path(
                    lookup,
                    metas,
                    i + 1,
                    at,
                    swizzle,
                    Walk { names, help: Some(false), version: Some(false), ..state },
                );
            },
            _ => lemma_walk_keeps_path(lookup, metas, i + 1, at, swizzle, state),
        }
    }
}

/// What a search reads at the end, once the descriptions are through: a
/// double-dash style break where no name was tried, else an unrecognized
/// argument; where options are searched, help and version are offered last.
pub open spec fn spec_find(lookup: Lookup, metas: Seq<Meta>, swizzle: bool, state: Walk) -> (
    Walk,
    KeyResult,
) {
    let (reached, found) = walk(
        Lookup { verb: false, option: false, ..lookup },
        metas,
        0,
        0,
        swizzle,
        state,
    );
    match found {
        Some(result) => (reached, result),
        None => {
            let (names, help) = if lookup.option && reached.help == Some(true) {
                try_options(
                    lookup,
                    reached.names,
                    Some(Text::Static("h")),
                    Some(Text::Static("help")),
                )
            } else {
                (reached.names, false)
            };
            if help {
                (Walk { names, ..reached }, KeyResult::Help)
            } else {
                let (names, version) = if lookup.option && reached.version == Some(true) {
                    try_options(
                        lookup,
                        names,
                        Some(Text::Static("v")),
                        Some(Text::Static("version")),
                    )
                } else {
                    (names, false)
                };
                if version {
                    (Walk { names, ..reached }, KeyResult::Version)
                } else if names.len() == 0 {
                    (Walk { names, ..reached }, KeyResult::Break(true))
                } else {
                    (Walk { names, ..reached }, KeyResult::Unrecognized)
                }
            }
        },
    }
}

/// The state a search for the next key starts from.
pub open spec fn fresh(arguments: Seq<Argument>) -> Walk {
    Walk {
        arguments,
        names: Seq::empty(),
        indices: Seq::empty(),
        count: 0,
        help: None,
        version: None,
    }
}

/// A search for the next key: neither verb nor option names are matched
/// directly at this level.
pub open spec fn key_lookup(argument: Argument, prefix: char, case: Case, position: usize) -> Lookup {
    Lookup { argument, prefix, case, verb: false, option: false, position }
}

/// How an unrecognized argument is reported: as written, or a short option
/// of a group with the prefix before it.
pub open spec fn unrecognized_text(argument: Argument, prefix: char) -> Seq<char> {
    match argument {
        Argument::String(key) => key@,
        Argument::Swizzle(key) => seq![prefix, key],
    }
}

/// Names are suggested for a word of `bytes` bytes under a distance of a
/// third of its length, and never from three on.
pub open spec fn suggestion_limit(bytes: nat) -> usize {
    if bytes / 3 < 3 {
        (bytes / 3) as usize
    } else {
        3
    }
}

/// Whether the bytes of `word` can be counted and one added (a word held in
/// memory always can).
pub open spec fn fits(word: Seq<char>) -> bool {
    vstd::utf8::encode_utf8(word).len() < usize::MAX
}

/// The names tried, written with their prefixes and case, that suggestions
/// are drawn from.
pub open spec fn tried_words(names: Seq<Name>) -> Seq<Seq<char>> {
    names.map_values(|name: Name| spec_name_chars(name, true, true)).filter(
        |word: Seq<char>| fits(word),
    )
}

/// A suggestion by its characters.
pub open spec fn text_view(pair: (Text, usize)) -> (Seq<char>, usize) {
    (pair.0@, pair.1)
}

/// What the search for the next key (`argument` taken from the front of the
/// arguments) makes of the arguments, the names tried, the path of groups,
/// the position and the result: a built-in option reports itself, a break
/// puts the argument back when asked, a position puts it back and moves on,
/// a name is the key, and an unrecognized argument is reported with the
/// names tried that are close to it.
pub open spec fn key_outcome(
    argument: Argument,
    searched: (Walk, KeyResult),
    prefix: char,
    position: usize,
    arguments: Seq<Argument>,
    names: Seq<Name>,
    indices: Seq<usize>,
    moved: usize,
    result: Result<Option<Key>, Error>,
) -> bool {
    let (reached, found) = searched;
    &&& names == reached.names
    &&& indices == reached.indices
    &&& match found {
        KeyResult::Help => result == Err::<Option<Key>, Error>(Error::Help(None)) && arguments
            == reached.arguments && moved == position,
        KeyResult::Version => result == Err::<Option<Key>, Error>(Error::Version(None))
            && arguments == reached.arguments && moved == position,
        KeyResult::Author => result == Err::<Option<Key>, Error>(Error::Author(None))
            && arguments == reached.arguments && moved == position,
        KeyResult::License => result == Err::<Option<Key>, Error>(Error::License(None))
            && arguments == reached.arguments && moved == position,
        KeyResult::Break(restore) => result == Ok::<Option<Key>, Error>(None) && arguments == (
        if restore {
            seq![argument] + reached.arguments
        } else {
            reached.arguments
        }) && moved == position,
        KeyResult::Error(error) => result == Err::<Option<Key>, Error>(error) && arguments
            == reached.arguments && moved == position,
        KeyResult::Name(name) => result == Ok::<Option<Key>, Error>(Some(Key::Name(name)))
            && arguments == reached.arguments && moved == position,
        KeyResult::Position(index) => result == Ok::<Option<Key>, Error>(
            Some(Key::Position(index)),
        ) && arguments == seq![argument] + reached.arguments && moved == position + 1,
        KeyResult::Unrecognized => arguments == reached.arguments && moved == position
            && match result {
            Err(Error::UnrecognizedArgument(key, suggestions)) => {
                &&& key@ == unrecognized_text(argument, prefix)
                &&& if fits(key@) {
                    suggested_words(
                        key@,
                        tried_words(names),
                        suggestion_limit(vstd::utf8::encode_utf8(key@).len()),
                        suggestions@.map_values(|pair: (Text, usize)| text_view(pair)),
                    )
                } else {
                    suggestions@.len() == 0
                }
            },
            _ => false,
        },
    }
}

/// The state a search changes as it goes (see `Walk`).
pub struct Search {
    pub arguments: VecDeque<Argument>,
    pub names: Vec<Name>,
    pub indices: Vec<usize>,
    pub count: usize,
    pub help: Option<bool>,
    pub version: Option<bool>,
}

impl Search {
    pub open spec fn walk(&self) -> Walk {
        Walk {
            arguments: self.arguments@,
            names: self.names@,
            indices: self.indices@,
            count: self.count,
            help: self.help,
            version: self.version,
        }
    }
}

/// The characters of `text`, one by one.
fn char_list(text: &str) -> (chars: Vec<char>)
    ensures
        chars@ == text@,
{
    let mut chars: Vec<char> = Vec::new();
    for letter in iter: text.chars()
        invariant
            iter.seq() == text@,
            chars@ == text@.take(iter.index() as int),
    {
        assert(text@.take(iter.index() + 1) == text@.take(iter.index() as int).push(letter));
        chars.push(letter);
    }
    assert(text@.take(text@.len() as int) == text@);
    chars
}

/// The characters of `chars` from `start` on, as a string.
fn string_from(chars: &[char], start: usize) -> (text: String)
    requires
        start <= chars@.len(),
    ensures
        text@ == chars@.skip(start as int),
{
    let mut text = String::new();
    let mut index = start;
    while index < chars.len()
        invariant
            start <= index <= chars@.len(),
            text@ == chars@.subrange(start as int, index as int),
        decreases chars@.len() - index,
    {
        assert(chars@.subrange(start as int, index + 1) == chars@.subrange(
            start as int,
            index as int,
        ).push(chars@[index as int]));
        text.push(chars[index]);
        index = index + 1;
    }
    text
}

/// A string of the one character `letter`.
fn single(letter: char) -> (text: String)
    ensures
        text@ == seq![letter],
{
    let mut text = String::new();
    text.push(letter);
    text
}

/// `flag`, or `Some(true)` where it is not set yet.
fn or_true_flag(flag: Option<bool>) -> (result: Option<bool>)
    ensures
        result == or_true(flag),
{
    match flag {
        Some(value) => Some(value),
        None => Some(true),
    }
}

/// A search of one level of descriptions for one argument.
struct KeyFinder<'a> {
    argument: &'a Argument,
    metas: &'a [Meta],
    prefix: char,
    case: Case,
    verb: bool,
    option: bool,
    position: usize,
    swizzle: bool,
}

impl<'a> KeyFinder<'a> {
    spec fn lookup(&self) -> Lookup {
        Lookup {
            argument: *self.argument,
            prefix: self.prefix,
            case: self.case,
            verb: self.verb,
            option: self.option,
            position: self.position,
        }
    }

    /// The same search over `metas`, searching options and verbs as asked.
    fn with(&self, metas: &'a [Meta], option: bool, verb: bool) -> (finder: KeyFinder<'a>)
        ensures
            finder.lookup() == (Lookup { option, verb, ..self.lookup() }),
            finder.metas@ == metas@,
            finder.swizzle == self.swizzle,
    {
        KeyFinder {
            argument: self.argument,
            metas,
            prefix: self.prefix,
            case: self.case,
            verb,
            option,
            position: self.position,
            swizzle: self.swizzle,
        }
    }

    /// Whether short options may be written together from `index` on.
    fn swizzles(&self, index: usize) -> (swizzles: bool)
        requires
            index <= self.metas@.len(),
        ensures
            swizzles == (self.swizzle || swizzles_from(self.metas@, index as int)),
    {
        if self.swizzle {
            return true;
        }
        let mut at = index;
        while at < self.metas.len()
            invariant
                index <= at <= self.metas@.len(),
                forall|j: int| index <= j < at ==> !(#[trigger] self.metas@[j] is Swizzle),
            decreases self.metas@.len() - at,
        {
            if let Meta::Swizzle = self.metas[at] {
                return true;
            }
            at = at + 1;
        }
        false
    }

    /// `name` when it matches `key`; else it joins the names tried.
    fn is_name(&self, names: &mut Vec<Name>, name: Name, key: &str) -> (found: Option<Name>)
        ensures
            final(names)@ == try_name(old(names)@, name, key@).0,
            found == (if try_name(old(names)@, name, key@).1 {
                Some(name)
            } else {
                None
            }),
    {
        let chars = name.chars(false, true);
        if str_eq(chars.as_str(), key) {
            Some(name)
        } else {
            names.push(name);
            None
        }
    }

    fn is_short_option(&self, names: &mut Vec<Name>, value: Text, key: &str) -> (found: Option<
        Name,
    >)
        ensures
            final(names)@ == try_name(old(names)@, short_option(self.lookup(), value), key@).0,
            found == (if try_name(old(names)@, short_option(self.lookup(), value), key@).1 {
                Some(short_option(self.lookup(), value))
            } else {
                None
            }),
    {
        let name = Name { value, prefixes: (Some(self.prefix), None), case: None };
        self.is_name(names, name, key)
    }

    fn is_long_option(&self, names: &mut Vec<Name>, value: Text, key: &str) -> (found: Option<
        Name,
    >)
        ensures
            final(names)@ == try_name(old(names)@, long_option(self.lookup(), value), key@).0,
            found == (if try_name(old(names)@, long_option(self.lookup(), value), key@).1 {
                Some(long_option(self.lookup(), value))
            } else {
                None
            }),
    {
        let name = Name {
            value,
            prefixes: (Some(self.prefix), Some(self.prefix)),
            case: Some(self.case),
        };
        self.is_name(names, name, key)
    }

    fn is_short_verb(&self, names: &mut Vec<Name>, value: Text, key: &str) -> (found: Option<
        Name,
    >)
        ensures
            final(names)@ == try_name(old(names)@, short_verb(value), key@).0,
            found == (if try_name(old(names)@, short_verb(value), key@).1 {
                Some(short_verb(value))
            } else {
                None
            }),
    {
        let name = Name { value, prefixes: (None, None), case: None };
        self.is_name(names, name, key)
    }

    fn is_long_verb(&self, names: &mut Vec<Name>, value: Text, key: &str) -> (found: Option<
        Name,
    >)
        ensures
            final(names)@ == try_name(old(names)@, long_verb(self.lookup(), value), key@).0,
            found == (if try_name(old(names)@, long_verb(self.lookup(), value), key@).1 {
                Some(long_verb(self.lookup(), value))
            } else {
                None
            }),
    {
        let name = Name { value, prefixes: (None, None), case: Some(self.case) };
        self.is_name(names, name, key)
    }

    /// Whether the whole argument is the short or the long name given.
    fn is_options(&self, names: &mut Vec<Name>, short: Option<Text>, long: Option<Text>) -> (hit:
        bool)
        ensures
            (final(names)@, hit) == try_options(self.lookup(), old(names)@, short, long),
    {
        let chars = self.argument.chars();
        if let Some(short) = short {
            if self.is_short_option(names, short, chars.as_str()).is_some() {
                return true;
            }
        }
        if let Some(long) = long {
            if self.is_long_option(names, long, chars.as_str()).is_some() {
                return true;
            }
        }
        false
    }

    fn is_help(&self, names: &mut Vec<Name>, short: bool, long: bool) -> (hit: bool)
        ensures
            (final(names)@, hit) == try_options(
                self.lookup(),
                old(names)@,
                when(short, Text::Static("h")),
                when(long, Text::Static("help")),
            ),
    {
        self.is_options(
            names,
            if short {
                Some(Text::Static("h"))
            } else {
                None
            },
            if long {
                Some(Text::Static("help"))
            } else {
                None
            },
        )
    }

    fn is_version(&self, names: &mut Vec<Name>, short: bool, long: bool) -> (hit: bool)
        ensures
            (final(names)@, hit) == try_options(
                self.lookup(),
                old(names)@,
                when(short, Text::Static("v")),
                when(long, Text::Static("version")),
            ),
    {
        self.is_options(
            names,
            if short {
                Some(Text::Static("v"))
            } else {
                None
            },
            if long {
                Some(Text::Static("version"))
            } else {
                None
            },
        )
    }

    fn is_author(&self, names: &mut Vec<Name>, short: bool, long: bool) -> (hit: bool)
        ensures
            (final(names)@, hit) == try_options(
                self.lookup(),
                old(names)@,
                when(short, Text::Static("a")),
                when(long, Text::Static("author")),
            ),
    {
        self.is_options(
            names,
            if short {
                Some(Text::Static("a"))
            } else {
                None
            },
            if long {
                Some(Text::Static("author"))
            } else {
                None
            },
        )
    }

    fn is_license(&self, names: &mut Vec<Name>, short: bool, long: bool) -> (hit: bool)
        ensures
            (final(names)@, hit) == try_options(
                self.lookup(),
                old(names)@,
                when(short, Text::Static("l")),
                when(long, Text::Static("license")),
            ),
    {
        self.is_options(
            names,
            if short {
                Some(Text::Static("l"))
            } else {
                None
            },
            if long {
                Some(Text::Static("license"))
            } else {
                None
            },
        )
    }

    /// The built-in option `options` when it answers the argument.
    fn builtin(&self, names: &mut Vec<Name>, options: Options) -> (found: Option<KeyResult>)
        ensures
            (final(names)@, found) == try_builtin(self.lookup(), old(names)@, options),
    {
        match options {
            Options::Help { short, long } => if self.is_help(names, short, long) {
                Some(KeyResult::Help)
            } else {
                None
            },
            Options::Version { short, long } => if self.is_version(names, short, long) {
                Some(KeyResult::Version)
            } else {
                None
            },
            Options::Author { short, long } => if self.is_author(names, short, long) {
                Some(KeyResult::Author)
            } else {
                None
            },
            Options::License { short, long } => if self.is_license(names, short, long) {
                Some(KeyResult::License)
            } else {
                None
            },
        }
    }

    /// Matches the argument against the name `value` of the description at
    /// `index` (see `name_step`).
    fn name(&self, search: &mut Search, index: usize, value: &Text) -> (found: Option<KeyResult>)
        requires
            index < self.metas@.len(),
        ensures
            final(search).walk() == name_step(
                self.lookup(),
                self.metas@,
                index as int,
                self.swizzle,
                *value,
                old(search).walk(),
            ).0,
            found == name_step(
                self.lookup(),
                self.metas@,
                index as int,
                self.swizzle,
                *value,
                old(search).walk(),
            ).1,
    {
        match self.argument {
            Argument::String(key) => {
                let chars = char_list(key.as_str());
                if self.option && chars.len() >= 1 && chars[0] == self.prefix {
                    if chars.len() == 1 {
                        return Some(KeyResult::Unrecognized);
                    }
                    if chars[1] == self.prefix {
                        if chars.len() == 2 {
                            return Some(KeyResult::Break(false));
                        }
                        let rest = string_from(chars.as_slice(), 2);
                        match self.is_long_option(&mut search.names, value.clone(), rest.as_str()) {
                            Some(name) => Some(KeyResult::Name(name)),
                            None => None,
                        }
                    } else {
                        let second = single(chars[1]);
                        match self.is_short_option(
                            &mut search.names,
                            value.clone(),
                            second.as_str(),
                        ) {
                            Some(name) => {
                                let ghost before = search.arguments@;
                                let ghost fixed = search.walk();
                                let mut single = true;
                                let mut at = chars.len();
                                assert(swizzled(chars@.subrange(at as int, at as int)) + before
                                    =~= before);
                                while at > 2
                                    invariant
                                        2 <= at <= chars@.len(),
                                        search.names@ == fixed.names,
                                        search.indices@ == fixed.indices,
                                        search.count == fixed.count,
                                        search.help == fixed.help,
                                        search.version == fixed.version,
                                        single == (at == chars@.len()),
                                        search.arguments@ == swizzled(
                                            chars@.subrange(at as int, chars@.len() as int),
                                        ) + before,
                                    decreases at,
                                {
                                    at = at - 1;
                                    let ghost later = swizzled(
                                        chars@.subrange(at + 1, chars@.len() as int),
                                    );
                                    search.arguments.push_front(Argument::Swizzle(chars[at]));
                                    single = false;
                                    assert(swizzled(chars@.subrange(at as int, chars@.len() as int))
                                        =~= seq![swizzle(chars@[at as int])] + later);
                                    assert(seq![swizzle(chars@[at as int])] + (later
                                        + before) =~= (seq![swizzle(chars@[at as int])]
                                        + later) + before);
                                }
                                assert(chars@.subrange(2, chars@.len() as int) =~= key@.skip(2));

                                if single || self.swizzles(index) {
                                    Some(KeyResult::Name(name))
                                } else {
                                    Some(KeyResult::Error(Error::InvalidSwizzleOption(name.value.clone())))
                                }
                            },
                            None => None,
                        }
                    }
                } else if self.verb && chars.len() >= 1 {
                    let found = if chars.len() >= 2 {
                        self.is_long_verb(&mut search.names, value.clone(), key.as_str())
                    } else {
                        self.is_short_verb(&mut search.names, value.clone(), key.as_str())
                    };
                    match found {
                        Some(name) => Some(KeyResult::Name(name)),
                        None => None,
                    }
                } else {
                    None
                }
            },
            Argument::Swizzle(key) => {
                let text = single(*key);
                match self.is_short_option(&mut search.names, value.clone(), text.as_str()) {
                    Some(name) => if self.swizzles(index) {
                        Some(KeyResult::Name(name))
                    } else {
                        Some(KeyResult::Error(Error::InvalidSwizzleOption(name.value.clone())))
                    },
                    None => None,
                }
            },
        }
    }

    /// Searches this level of descriptions (see `walk`).
    fn descend(self, search: &mut Search) -> (found: Option<KeyResult>)
        requires
            old(search).count <= self.position,
        ensures
            (final(search).walk(), found) == walk(
                self.lookup(),
                self.metas@,
                0,
                0,
                self.swizzle,
                old(search).walk(),
            ),
            final(search).count <= self.position,
        decreases self.metas@,
    {
        let mut finder = self;
        let ghost lookup = finder.lookup();
        let ghost whole = walk(lookup, finder.metas@, 0, 0, finder.swizzle, search.walk());
        let metas: &'a [Meta] = finder.metas;
        let mut at: usize = 0;
        let mut index: usize = 0;
        while index < metas.len()
            invariant
                finder.lookup() == lookup,
                finder.metas@ == metas@,
                self.lookup() == lookup,
                self.metas@ == metas@,
                whole == walk(self.lookup(), self.metas@, 0, 0, self.swizzle, old(search).walk()),
                index <= metas@.len(),
                at <= index,
                search.count <= lookup.position,
                walk(lookup, metas@, index as int, at as nat, finder.swizzle, search.walk()) == whole,
            decreases metas@.len() - index,
        {
            let meta = &metas[index];
            match meta {
                Meta::Help(_) | Meta::Usage(_) | Meta::Note(_) | Meta::Repository(_) | Meta::Summary(
                    _,
                ) => {
                    search.help = or_true_flag(search.help);
                },
                Meta::Version(_) => {
                    search.version = or_true_flag(search.version);
                },
                Meta::Position => {
                    if finder.verb || finder.option {
                        if search.count == finder.position {
                            return Some(KeyResult::Position(finder.position));
                        } else {
                            search.count = search.count + 1;
                        }
                    }
                },
                Meta::Name(value) => {
                    if finder.verb || finder.option {
                        let found = finder.name(search, index, value);
                        if found.is_some() {
                            return found;
                        }
                    }
                },
                Meta::Swizzle => {
                    finder.swizzle = true;
                },
                Meta::Group(children) => {
                    let ghost before = search.walk();
                    search.indices.push(at);
                    let finder = finder.with(children.as_slice(), finder.option, finder.verb);
                    proof {
                        assert(metas@[index as int] == Meta::Group(*children));
                        assert(decreases_to!(metas@ => metas@[index as int]));
                        assert(decreases_to!(Meta::Group(*children) => *children));
                        assert(decreases_to!(*children => children@));
                        assert(search.walk() =~= Walk { indices: before.indices.push(at), ..before });
                        lemma_walk_keeps_path(
                            lookup,
                            children@,
                            0,
                            0,
                            finder.swizzle,
                            search.walk(),
                        );
                    }
                    let found = finder.descend(search);
                    if found.is_some() {
                        return found;
                    }
                    search.indices.pop();
                    proof {
                        assert(search.walk() =~= Walk { indices: before.indices, ..search.walk() });
                    }
                    at = at + 1;
                },
                Meta::Verb(children) => {
                    if !finder.verb && !finder.option {
                        let ghost before = search.walk();
                        search.indices.push(at);
                        let child = finder.with(children.as_slice(), false, true);
                        proof {
                            assert(metas@[index as int] == Meta::Verb(*children));
                            assert(decreases_to!(metas@ => metas@[index as int]));
                            assert(decreases_to!(Meta::Verb(*children) => *children));
                            assert(decreases_to!(*children => children@));
                            assert(search.walk() =~= Walk {
                                indices: before.indices.push(at),
                                ..before
                            });
                            lemma_walk_keeps_path(
                                Lookup { verb: true, option: false, ..lookup },
                                children@,
                                0,
                                0,
                                finder.swizzle,
                                search.walk(),
                            );
                        }
                        let found = child.descend(search);
                        if found.is_some() {
                            return found;
                        }
                        search.indices.pop();
                        at = at + 1;
                        search.help = or_true_flag(search.help);
                        proof {
                            assert(search.walk() =~= Walk {
                                indices: before.indices,
                                help: search.help,
                                ..search.walk()
                            });
                        }
                    }
                },
                Meta::Option(children) => {
                    if !finder.verb && !finder.option {
                        let ghost before = search.walk();
                        search.indices.push(at);
                        let child = finder.with(children.as_slice(), true, false);
                        proof {
                            assert(metas@[index as int] == Meta::Option(*children));
                            assert(decreases_to!(metas@ => metas@[index as int]));
                            assert(decreases_to!(Meta::Option(*children) => *children));
                            assert(decreases_to!(*children => children@));
                            assert(search.walk() =~= Walk {
                                indices: before.indices.push(at),
                                ..before
                            });
                            lemma_walk_keeps_path(
                                Lookup { verb: false, option: true, ..lookup },
                                children@,
                                0,
                                0,
                                finder.swizzle,
                                search.walk(),
                            );
                        }
                        let found = child.descend(search);
                        if found.is_some() {
                            return found;
                        }
                        search.indices.pop();
                        at = at + 1;
                        search.help = or_true_flag(search.help);
                        proof {
                            assert(search.walk() =~= Walk {
                                indices: before.indices,
                                help: search.help,
                                ..search.walk()
                            });
                        }
                    }
                },
                Meta::Options(options) => {
                    if !finder.verb && !finder.option {
                        let found = finder.builtin(&mut search.names, *options);
                        if found.is_some() {
                            return found;
                        }
                        search.help = Some(false);
                        search.version = Some(false);
                    }
                },
                _ => {},
            }
            index = index + 1;
        }
        None
    }

    /// Searches the descriptions for the argument (see `spec_find`).
    fn find(self, search: &mut Search) -> (result: KeyResult)
        requires
            old(search).count <= self.position,
        ensures
            (final(search).walk(), result) == spec_find(
                self.lookup(),
                self.metas@,
                self.swizzle,
                old(search).walk(),
            ),
    {
        let finder = self.with(self.metas, false, false);
        if let Some(result) = finder.descend(search) {
            return result;
        }
        if self.option {
            if let Some(true) = search.help {
                if self.is_help(&mut search.names, true, true) {
                    return KeyResult::Help;
                }
            }
            if let Some(true) = search.version {
                if self.is_version(&mut search.names, true, true) {
                    return KeyResult::Version;
                }
            }
        }
        if search.names.len() == 0 {
            KeyResult::Break(true)
        } else {
            KeyResult::Unrecognized
        }
    }
}

/// The names tried, written with their prefixes and case, that can be
/// measured.
fn words(names: &Vec<Name>) -> (words: Vec<String>)
    ensures
        words@.map_values(|word: String| word@) == tried_words(names@),
{
    let mut words: Vec<String> = Vec::new();
    let mut index: usize = 0;
    while index < names.len()
        invariant
            index <= names@.len(),
            words@.map_values(|word: String| word@) == tried_words(names@.take(index as int)),
        decreases names@.len() - index,
    {
        let word = names[index].chars(true, true);
        let ghost written = names@.take(index + 1).map_values(
            |name: Name| spec_name_chars(name, true, true),
        );
        assert(written =~= names@.take(index as int).map_values(
            |name: Name| spec_name_chars(name, true, true),
        ).push(word@));
        proof {
            names@.take(index as int).map_values(
                |name: Name| spec_name_chars(name, true, true),
            ).lemma_filter_push(word@, |word: Seq<char>| fits(word));
        }
        if word.as_str().as_bytes().len() < usize::MAX {
            let ghost before = words@;
            words.push(word);
            assert(words@.map_values(|word: String| word@) =~= before.map_values(
                |word: String| word@,
            ).push(word@));
        }
        index = index + 1;
    }
    assert(names@.take(names@.len() as int) == names@);
    words
}

/// The next key of the command line for the node described by `metas`: the
/// first argument is taken and searched for among the descriptions (see
/// `key_outcome`); there is none when the arguments are exhausted.
pub fn next_key(
    arguments: &mut VecDeque<Argument>,
    names: &mut Vec<Name>,
    indices: &mut Vec<usize>,
    metas: &[Meta],
    prefix: char,
    case: Case,
    position: &mut usize,
) -> (result: Result<Option<Key>, Error>)
    requires
        old(arguments)@.len() > 0 && spec_find(
            key_lookup(old(arguments)@[0], prefix, case, *old(position)),
            metas@,
            false,
            fresh(old(arguments)@.drop_first()),
        ).1 is Position ==> *old(position) < usize::MAX,
    ensures
        old(arguments)@.len() == 0 ==> {
            &&& result == Ok::<Option<Key>, Error>(None)
            &&& final(arguments)@ == old(arguments)@
            &&& final(names)@ == old(names)@
            &&& final(indices)@ == old(indices)@
            &&& *final(position) == *old(position)
        },
        old(arguments)@.len() > 0 ==> key_outcome(
            old(arguments)@[0],
            spec_find(
                key_lookup(old(arguments)@[0], prefix, case, *old(position)),
                metas@,
                false,
                fresh(old(arguments)@.drop_first()),
            ),
            prefix,
            *old(position),
            final(arguments)@,
            final(names)@,
            final(indices)@,
            *final(position),
            result,
        ),
{
    let argument = match arguments.pop_front() {
        Some(argument) => argument,
        None => return Ok(None),
    };
    let ghost rest = arguments@;
    let mut search = Search {
        arguments: VecDeque::new(),
        names: Vec::new(),
        indices: Vec::new(),
        count: 0,
        help: None,
        version: None,
    };
    std::mem::swap(&mut search.arguments, arguments);
    assert(search.walk() =~= fresh(rest));
    let finder = KeyFinder {
        argument: &argument,
        metas,
        prefix,
        case,
        verb: false,
        option: false,
        position: *position,
        swizzle: false,
    };
    let ghost lookup = finder.lookup();
    let result = finder.find(&mut search);
    let Search { arguments: left, names: tried, indices: path, .. } = search;
    *arguments = left;
    *names = tried;
    *indices = path;
    match result {
        KeyResult::Help => Err(Error::Help(None)),
        KeyResult::Version => Err(Error::Version(None)),
        KeyResult::Author => Err(Error::Author(None)),
        KeyResult::License => Err(Error::License(None)),
        KeyResult::Break(restore) => {
            if restore {
                arguments.push_front(argument);
            }
            Ok(None)
        },
        KeyResult::Error(error) => Err(error),
        KeyResult::Name(name) => Ok(Some(Key::Name(name))),
        KeyResult::Position(index) => {
            arguments.push_front(argument);
            *position = *position + 1;
            Ok(Some(Key::Position(index)))
        },
        KeyResult::Unrecognized => {
            let key = match argument {
                Argument::String(key) => key,
                Argument::Swizzle(key) => {
                    let mut text = String::new();
                    text.push(prefix);
                    text.push(key);
                    assert(text@ =~= seq![prefix, key]);
                    Text::from(text)
                },
            };
            let candidates = words(names);
            let mut dictionary: Vec<&str> = Vec::new();
            let mut index: usize = 0;
            while index < candidates.len()
                invariant
                    index <= candidates@.len(),
                    dictionary@.map_values(|word: &str| word@) == candidates@.take(
                        index as int,
                    ).map_values(|word: String| word@),
                decreases candidates@.len() - index,
            {
                let ghost before = dictionary@;
                let entry = candidates[index].as_str();
                dictionary.push(entry);
                assert(dictionary@.map_values(|word: &str| word@) =~= before.map_values(
                    |word: &str| word@,
                ).push(entry@));
                assert(candidates@.take(index + 1).map_values(|word: String| word@)
                    =~= candidates@.take(index as int).map_values(|word: String| word@).push(
                    candidates@[index as int]@,
                ));
                index = index + 1;
            }
            assert(candidates@.take(candidates@.len() as int) == candidates@);
            let word = key.as_str();
            let bytes = word.as_bytes().len();
            let mut suggestions: Vec<(Text, usize)> = Vec::new();
            if bytes < usize::MAX {
                let maximum = if bytes / 3 < 3 {
                    bytes / 3
                } else {
                    3
                };
                let mut spell = Spell::new();
                assert forall|k: int| 0 <= k < dictionary@.len() implies vstd::utf8::encode_utf8(
                    (#[trigger] dictionary@[k])@,
                ).len() < usize::MAX by {
                    assert(dictionary@.map_values(|word: &str| word@)[k] == dictionary@[k]@);
                    assert(tried_words(names@).contains(dictionary@[k]@));
                }
                let found = spell.suggest(word, dictionary.as_slice(), maximum);
                proof {
                    lemma_suggest_views(word, dictionary@, maximum, found@);
                }
                let mut index: usize = 0;
                while index < found.len()
                    invariant
                        index <= found@.len(),
                        suggestions@.map_values(|pair: (Text, usize)| text_view(pair))
                            == found@.take(index as int).map_values(
                            |pair: (&str, usize)| word_view(pair),
                        ),
                    decreases found@.len() - index,
                {
                    let (text, distance) = found[index];
                    let ghost before = suggestions@;
                    let owned = Text::from(text.to_owned());
                    assert(owned@ == text@);
                    suggestions.push((owned, distance));
                    assert(suggestions@.map_values(|pair: (Text, usize)| text_view(pair))
                        =~= before.map_values(|pair: (Text, usize)| text_view(pair)).push(
                        (text@, distance),
                    ));
                    assert(found@.take(index + 1).map_values(|pair: (&str, usize)| word_view(pair))
                        =~= found@.take(index as int).map_values(
                        |pair: (&str, usize)| word_view(pair),
                    ).push(word_view(found@[index as int])));
                    index = index + 1;
                }
                assert(found@.take(found@.len() as int) == found@);
            }
            Err(Error::UnrecognizedArgument(key, suggestions))
        },
    }
}


/// An argument that no description claims is put back in front of the
/// arguments, which are then as they were.
pub proof fn law_unclaimed_argument_put_back(
    arguments: Seq<Argument>,
    metas: Seq<Meta>,
    prefix: char,
    case: Case,
    position: usize,
)
    requires
        arguments.len() > 0,
    ensures
        ({
            let (reached, found) = spec_find(
                key_lookup(arguments[0], prefix, case, position),
                metas,
                false,
                fresh(arguments.drop_first()),
            );
            found == KeyResult::Break(true) ==> seq![arguments[0]] + reached.arguments == arguments
        }),
{
    let lookup = key_lookup(arguments[0], prefix, case, position);
    lemma_walk_keeps_path(
        Lookup { verb: false, option: false, ..lookup },
        metas,
        0,
        0,
        false,
        fresh(arguments.drop_first()),
    );
    assert(seq![arguments[0]] + arguments.drop_first() =~= arguments);
}

/// Whether a `Swizzle` description stands at `i` or after it, here or in a
/// group nested here: short options may then be written together.
pub open spec fn tagged_from(metas: Seq<Meta>, i: int) -> bool
    decreases metas, metas.len() - i,
{
    if i < 0 || i >= metas.len() {
        false
    } else {
        let here = match metas[i] {
            Meta::Swizzle => true,
            Meta::Group(children) => {
                proof {
                    assert(decreases_to!(metas => metas[i]));
                }
                tagged_from(children@, 0)
            },
            _ => false,
        };
        here || tagged_from(metas, i + 1)
    }
}

proof fn lemma_swizzles_tagged(metas: Seq<Meta>, i: int)
    requires
        0 <= i,
        swizzles_from(metas, i),
    ensures
        tagged_from(metas, i),
    decreases metas.len() - i,
{
    if !(metas[i] is Swizzle) {
        let j = choose|j: int| i <= j < metas.len() && #[trigger] metas[j] is Swizzle;
        assert(i + 1 <= j);
        lemma_swizzles_tagged(metas, i + 1);
    }
}

/// A letter split off a group of short options is taken for an option only
/// where short options may be written together: a search of option or verb
/// descriptions that answers such a letter with a name was allowed to by an
/// enclosing `Swizzle` description (`swizzle`) or by one among the
/// descriptions searched.
pub proof fn law_swizzled_letter_needs_tag(
    lookup: Lookup,
    metas: Seq<Meta>,
    i: int,
    at: nat,
    swizzle: bool,
    state: Walk,
)
    requires
        lookup.argument is Swizzle,
        lookup.verb || lookup.option,
        0 <= i,
    ensures
        walk(lookup, metas, i, at, swizzle, state).1 matches Some(KeyResult::Name(_)) ==> swizzle
            || tagged_from(metas, i),
    decreases metas, metas.len() - i,
{
    if i < metas.len() {
        match metas[i] {
            Meta::Help(_) | Meta::Usage(_) | Meta::Note(_) | Meta::Repository(_) | Meta::Summary(
                _,
            ) => law_swizzled_letter_needs_tag(
                lookup,
                metas,
                i + 1,
                at,
                swizzle,
                Walk { help: or_true(state.help), ..state },
            ),
            Meta::Version(_) => law_swizzled_letter_needs_tag(
                lookup,
                metas,
                i + 1,
                at,
                swizzle,
                Walk { version: or_true(state.version), ..state },
            ),
            Meta::Position => {
                if state.count != lookup.position {
                    law_swizzled_letter_needs_tag(
                        lookup,
                        metas,
                        i + 1,
                        at,
                        swizzle,
                        Walk { count: (state.count + 1) as usize, ..state },
                    );
                }
            },
            Meta::Name(value) => {
                let (next, found) = name_step(lookup, metas, i, swizzle, value, state);
                if swizzles_from(metas, i) {
                    lemma_swizzles_tagged(metas, i);
                }
                if found is None {
                    law_swizzled_letter_needs_tag(lookup, metas, i + 1, at, swizzle, next);
                }
            },
            Meta::Swizzle => law_swizzled_letter_needs_tag(lookup, metas, i + 1, at, true, state),
            Meta::Group(children) => {
                assert(decreases_to!(metas => metas[i]));
                let entered = Walk { indices: state.indices.push(at as usize), ..state };
                law_swizzled_letter_needs_tag(lookup, children@, 0, 0, swizzle, entered);
                let (inner, found) = walk(lookup, children@, 0, 0, swizzle, entered);
                if found is None {
                    law_swizzled_letter_needs_tag(
                        lookup,
                        metas,
                        i + 1,
                        at + 1,
                        swizzle,
                        Walk { indices: state.indices, ..inner },
                    );
                }
            },
            _ => law_swizzled_letter_needs_tag(lookup, metas, i + 1, at, swizzle, state),
        }
    }
}

/// The positions that a search of option or verb descriptions passes from
/// `i` on: each `Position` description, here or in a group nested here.
pub open spec fn positions_from(metas: Seq<Meta>, i: int) -> nat
    decreases metas, metas.len() - i,
{
    if i < 0 || i >= metas.len() {
        0
    } else {
        let here: nat = match metas[i] {
            Meta::Position => 1,
            Meta::Group(children) => {
                proof {
                    assert(decreases_to!(metas => metas[i]));
                }
                positions_from(children@, 0)
            },
            _ => 0,
        };
        here + positions_from(metas, i + 1)
    }
}

/// Positions are counted in the order the descriptions are met: a search of
/// option or verb descriptions that finds nothing has counted every position
/// it passed, and one that answers with a position answers the position asked
/// for, which lies among those passed.
pub proof fn law_positions_counted(
    lookup: Lookup,
    metas: Seq<Meta>,
    i: int,
    at: nat,
    swizzle: bool,
    state: Walk,
)
    requires
        lookup.verb || lookup.option,
        0 <= i,
        state.count + positions_from(metas, i) <= usize::MAX,
    ensures
        walk(lookup, metas, i, at, swizzle, state).1 is None ==> walk(
            lookup,
            metas,
            i,
            at,
            swizzle,
            state,
        ).0.count == state.count + positions_from(metas, i),
        walk(lookup, metas, i, at, swizzle, state).1 matches Some(KeyResult::Position(p)) ==> p
            == lookup.position && state.count <= p < state.count + positions_from(metas, i),
    decreases metas, metas.len() - i,
{
    if i < metas.len() {
        match metas[i] {
            Meta::Help(_) | Meta::Usage(_) | Meta::Note(_) | Meta::Repository(_) | Meta::Summary(
                _,
            ) => law_positions_counted(
                lookup,
                metas,
                i + 1,
                at,
                swizzle,
                Walk { help: or_true(state.help), ..state },
            ),
            Meta::Version(_) => law_positions_counted(
                lookup,
                metas,
                i + 1,
                at,
                swizzle,
                Walk { version: or_true(state.version), ..state },
            ),
            Meta::Position => {
                if state.count != lookup.position {
                    law_positions_counted(
                        lookup,
                        metas,
                        i + 1,
                        at,
                        swizzle,
                        Walk { count: (state.count + 1) as usize, ..state },
                    );
                }
            },
            Meta::Name(value) => {
                let (next, found) = name_step(lookup, metas, i, swizzle, value, state);
                assert(next.count == state.count);
                if found is None {
                    law_positions_counted(lookup, metas, i + 1, at, swizzle, next);
                }
            },
            Meta::Swizzle => law_positions_counted(lookup, metas, i + 1, at, true, state),
            Meta::Group(children) => {
                assert(decreases_to!(metas => metas[i]));
                let entered = Walk { indices: state.indices.push(at as usize), ..state };
                law_positions_counted(lookup, children@, 0, 0, swizzle, entered);
                let (inner, found) = walk(lookup, children@, 0, 0, swizzle, entered);
                if found is None {
                    law_positions_counted(
                        lookup,
                        metas,
                        i + 1,
                        at + 1,
                        swizzle,
                        Walk { indices: state.indices, ..inner },
                    );
                }
            },
            _ => law_positions_counted(lookup, metas, i + 1, at, swizzle, state),
        }
    }
}

/// A whole argument that is no option is matched against a verb's name in
/// the case of the search when it is two or more characters long, and as
/// the name is written when it is a single character: `show-all` finds the
/// verb `showAll` in kebab case.
pub proof fn law_verb_names_in_case(
    lookup: Lookup,
    metas: Seq<Meta>,
    i: int,
    swizzle: bool,
    value: Text,
    state: Walk,
)
    requires
        lookup.argument matches Argument::String(key) && key@.len() >= 1 && !(lookup.option
            && key@[0] == lookup.prefix),
        lookup.verb,
    ensures
        ({
            let key = argument_chars(lookup.argument);
            let written = if key.len() >= 2 {
                spec_convert(lookup.case, value@)
            } else {
                value@
            };
            &&& name_step(lookup, metas, i, swizzle, value, state).1 is Some <==> key == written
            &&& name_step(lookup, metas, i, swizzle, value, state).1 matches Some(
                KeyResult::Name(name),
            ) ==> name.value == value && name.prefixes == (None::<char>, None::<char>)
        }),
{
    let key = argument_chars(lookup.argument);
    if key.len() >= 2 {
        assert(crate::parse::name_source(long_verb(lookup, value), false) =~= value@);
    } else {
        assert(crate::parse::name_source(short_verb(value), false) =~= value@);
    }
}

/// Whether no `Name` description stands at `i` or after it, here or in a
/// group nested here.
pub open spec fn nameless_from(metas: Seq<Meta>, i: int) -> bool
    decreases metas, metas.len() - i,
{
    if i < 0 || i >= metas.len() {
        true
    } else {
        let here = match metas[i] {
            Meta::Name(_) => false,
            Meta::Group(children) => {
                proof {
                    assert(decreases_to!(metas => metas[i]));
                }
                nameless_from(children@, 0)
            },
            _ => true,
        };
        here && nameless_from(metas, i + 1)
    }
}

/// Among descriptions without names (those of positional options), the
/// position asked for is answered exactly when it lies among the positions
/// passed: counting from `state.count`, the `k`-th position met answers
/// position `state.count + k`, and nothing else answers.
pub proof fn law_positions_answered(
    lookup: Lookup,
    metas: Seq<Meta>,
    i: int,
    at: nat,
    swizzle: bool,
    state: Walk,
)
    requires
        lookup.verb || lookup.option,
        0 <= i,
        state.count + positions_from(metas, i) <= usize::MAX,
        nameless_from(metas, i),
    ensures
        walk(lookup, metas, i, at, swizzle, state).1 == (if state.count <= lookup.position
            < state.count + positions_from(metas, i) {
            Some(KeyResult::Position(lookup.position))
        } else {
            None
        }),
    decreases metas, metas.len() - i,
{
    if i < metas.len() {
        match metas[i] {
            Meta::Help(_) | Meta::Usage(_) | Meta::Note(_) | Meta::Repository(_) | Meta::Summary(
                _,
            ) => law_positions_answered(
                lookup,
                metas,
                i + 1,
                at,
                swizzle,
                Walk { help: or_true(state.help), ..state },
            ),
            Meta::Version(_) => law_positions_answered(
                lookup,
                metas,
                i + 1,
                at,
                swizzle,
                Walk { version: or_true(state.version), ..state },
            ),
            Meta::Position => {
                if state.count != lookup.position {
                    law_positions_answered(
                        lookup,
                        metas,
                        i + 1,
                        at,
                        swizzle,
                        Walk { count: (state.count + 1) as usize, ..state },
                    );
                }
            },
            Meta::Swizzle => law_positions_answered(lookup, metas, i + 1, at, true, state),
            Meta::Group(children) => {
                assert(decreases_to!(metas => metas[i]));
                let entered = Walk { indices: state.indices.push(at as usize), ..state };
                law_positions_answered(lookup, children@, 0, 0, swizzle, entered);
                law_positions_counted(lookup, children@, 0, 0, swizzle, entered);
                let (inner, found) = walk(lookup, children@, 0, 0, swizzle, entered);
                if found is None {
                    law_positions_answered(
                        lookup,
                        metas,
                        i + 1,
                        at + 1,
                        swizzle,
                        Walk { indices: state.indices, ..inner },
                    );
                }
            },
            _ => law_positions_answered(lookup, metas, i + 1, at, swizzle, state),
        }
    }
}

/// A letter split off a group of short options matches an option's short
/// name when it is that name; it is then taken for the option where short
/// options may be written together, and refused with
/// `InvalidSwizzleOption` where they may not.
pub proof fn law_swizzled_letter_answer(
    lookup: Lookup,
    metas: Seq<Meta>,
    i: int,
    swizzle: bool,
    value: Text,
    state: Walk,
)
    requires
        lookup.argument is Swizzle,
    ensures
        ({
            let letter = argument_chars(lookup.argument);
            let found = name_step(lookup, metas, i, swizzle, value, state).1;
            &&& found is Some <==> value@ == letter
            &&& value@ == letter && (swizzle || swizzles_from(metas, i)) ==> found == Some(
                KeyResult::Name(Name { value, prefixes: (Some(lookup.prefix), None), case: None }),
            )
            &&& value@ == letter && !(swizzle || swizzles_from(metas, i)) ==> found == Some(
                KeyResult::Error(Error::InvalidSwizzleOption(value)),
            )
        }),
{
    assert(crate::parse::name_source(short_option(lookup, value), false) =~= value@);
}

} // verus!
