use crate::help::{authors_of, join, text_views, versions_of, Author, Help, License, Version};
use crate::meta::{spec_children, Meta, Text};
use crate::parse::Key;
use crate::render::{help_text, style_palette};
use crate::strings::{decimal, push_decimal};
use crate::style::Format;
use vstd::prelude::*;

verus! {

/// `items` one after the other with `separator` between two neighbours.
pub open spec fn joined(separator: Seq<char>, items: Seq<Seq<char>>) -> Seq<char>
    decreases items.len(),
{
    if items.len() == 0 {
        Seq::empty()
    } else if items.len() == 1 {
        items[0]
    } else {
        joined(separator, items.drop_last()) + separator + items.last()
    }
}

/// `items` joined by `separator`, framed by `prefix` and `suffix`; nothing at
/// all when there are no items.
pub open spec fn spec_write_join(
    prefix: Seq<char>,
    suffix: Seq<char>,
    separator: Seq<char>,
    items: Seq<Seq<char>>,
) -> Seq<char> {
    if items.len() == 0 {
        Seq::empty()
    } else {
        prefix + joined(separator, items) + suffix
    }
}

/// The characters that each of `items` is written as.
pub open spec fn texts<T: Format>(items: Seq<T>) -> Seq<Seq<char>> {
    items.map_values(|item: T| item.spec_text())
}

/// Appends `items` joined by `separator` and framed by `prefix` and `suffix`
/// to `target`; appends nothing when there are no items.
pub fn write_join<T: Format>(
    target: &mut String,
    prefix: &str,
    suffix: &str,
    separator: &str,
    items: &[T],
)
    ensures
        final(target)@ == old(target)@ + spec_write_join(prefix@, suffix@, separator@, texts(items@)),
{
    let ghost start = target@;
    let mut has = false;
    let mut index: usize = 0;
    while index < items.len()
        invariant
            index <= items@.len(),
            has == (index > 0),
            index > 0 ==> target@ == start + prefix@ + joined(
                separator@,
                texts(items@.take(index as int)),
            ),
            index == 0 ==> target@ == start,
        decreases items@.len() - index,
    {
        let ghost before = texts(items@.take(index as int));
        assert(texts(items@.take(index + 1)) == before.push(items@[index as int].spec_text()));
        assert(texts(items@.take(index + 1)).drop_last() == before);
        if has {
            target.append(separator);
        } else {
            target.append(prefix);
            has = true;
        }
        items[index].write(target);
        index = index + 1;
    }
    if has {
        target.append(suffix);
    }
    assert(items@.take(items@.len() as int) == items@);
}

/// Everything that can go wrong when a command line is described or parsed,
/// and the answers of the built-in options (help, version, author, license).
pub enum Error {
    Help(Option<Help>),
    Version(Option<Version>),
    Author(Option<Author>),
    License(Option<License>),
    MissingValue(Option<Text>, Vec<Key>),
    MissingRequired(Option<Text>, Vec<Key>),
    DuplicateOption(Vec<Key>),
    UnrecognizedArgument(Text, Vec<(Text, usize)>),
    ExcessArguments(Vec<Text>),
    DuplicateName(String),
    Format,
    Regex(Text),
    Other(Text),
    FailedToParseEnvironmentVariable(Text, Text, Option<Text>, Vec<Key>),
    FailedToParseOptionValue(Text, Option<Text>, Vec<Key>),
    DuplicateParse(Vec<Key>),
    DuplicateVerb(Vec<Key>),
    GroupNestingLimitOverflow,
    InvalidIndex(usize),
    MissingIndex,
    InvalidParseState,
    InvalidOptionName(Text),
    InvalidGroupName(Text),
    InvalidVerbName(Text),
    InvalidLeafMeta(Meta),
    MissingOptionNameOrPosition,
    MissingVerbName,
    FailedToParseArguments,
    InvalidPrefix(char),
    MissingShortOptionNameForSwizzling,
    InvalidSwizzleOption(Text),
    InvalidOptionType(Text),
    InvalidInitialization,
    InvalidOptionValue(Text, Vec<String>, Vec<Key>),
    InvalidArgument(Text, Vec<String>, Vec<Key>),
    EmptyShortOption,
    EmptyArgument,
}

/// ` of type 'name'`, ` as type 'name'` and the like, or nothing without a
/// type name.
pub open spec fn typed(lead: Seq<char>, kind: Option<Text>) -> Seq<char> {
    match kind {
        Some(name) => lead + name@ + "'"@,
        None => Seq::empty(),
    }
}

/// The quoted suggestions of an unrecognized argument.
pub open spec fn quoted(suggestions: Seq<(Text, usize)>) -> Seq<Seq<char>> {
    suggestions.map_values(|pair: (Text, usize)| "'"@ + pair.0@ + "'"@)
}

/// The message of `error`; none for the answers and errors whose text comes
/// from elsewhere: the rendered help, the license files, the formatting and
/// pattern errors, and the debug form of a description.
pub open spec fn spec_message(error: Error) -> Option<Seq<char>> {
    match error {
        Error::Help(Some(help)) => Some(
            help_text(style_palette(&*help.style), help.path@, *help.root, *help.meta),
        ),
        Error::Help(None) => Some("Missing help."@),
        Error::Version(Some(version)) => Some(
            joined(", "@, text_views(versions_of(spec_children(*version.0)))),
        ),
        Error::Version(None) => Some("Missing version."@),
        Error::Author(Some(author)) => Some(
            joined(", "@, text_views(authors_of(spec_children(*author.0)))),
        ),
        Error::Author(None) => Some("Missing author."@),
        Error::License(Some(_)) => None,
        Error::License(None) => Some("Missing license."@),
        Error::InvalidArgument(argument, patterns, path) => Some(
            "Invalid argument '"@ + argument@ + "'"@ + spec_write_join(
                " for '"@,
                "'"@,
                " "@,
                texts(path@),
            ) + "."@ + spec_write_join(
                " Argument must match pattern '"@,
                "'."@,
                " | "@,
                texts(patterns@),
            ),
        ),
        Error::UnrecognizedArgument(argument, suggestions) => Some(
            "Unrecognized argument '"@ + argument@ + "'."@ + spec_write_join(
                " Similar matches: "@,
                "."@,
                ", "@,
                quoted(suggestions@),
            ),
        ),
        Error::ExcessArguments(arguments) => Some(
            "Excess arguments '"@ + joined(", "@, texts(arguments@)) + "'."@,
        ),
        Error::MissingValue(kind, path) => Some(
            "Missing value"@ + typed(" of type '"@, kind) + spec_write_join(
                " for option '"@,
                "'"@,
                " "@,
                texts(path@),
            ) + "."@,
        ),
        Error::DuplicateParse(path) => Some(
            "Duplicate parse"@ + spec_write_join(" '"@, "'"@, " "@, texts(path@)) + "."@,
        ),
        Error::DuplicateOption(path) => Some(
            "Duplicate option"@ + spec_write_join(" '"@, "'"@, " "@, texts(path@)) + "."@,
        ),
        Error::DuplicateVerb(path) => Some(
            "Duplicate verb"@ + spec_write_join(" '"@, "'"@, " "@, texts(path@)) + "."@,
        ),
        Error::MissingRequired(kind, path) => Some(
            "Missing required value"@ + typed(" of type '"@, kind) + spec_write_join(
                " at '"@,
                "'"@,
                " "@,
                texts(path@),
            ) + "."@,
        ),
        Error::FailedToParseEnvironmentVariable(key, value, kind, path) => Some(
            "Failed to parse environment variable '"@ + key@ + "' with value '"@ + value@ + "'"@
                + typed(" as type '"@, kind) + spec_write_join(
                " for option '"@,
                "'"@,
                " "@,
                texts(path@),
            ) + "."@,
        ),
        Error::FailedToParseOptionValue(value, kind, path) => Some(
            "Failed to parse value '"@ + value@ + "'"@ + typed(" as type '"@, kind)
                + spec_write_join(" for option '"@, "'"@, " "@, texts(path@)) + "."@,
        ),
        Error::InvalidPrefix(prefix) => Some(
            "Invalid prefix '"@ + seq![prefix]
                + "'. A valid prefix is a non-whitespace, non-control, non-alpha-numeric character."@,
        ),
        Error::DuplicateName(name) => Some("Duplicate name '"@ + name@ + "'."@),
        Error::InvalidIndex(index) => Some(
            "Invalid index '"@ + decimal(index as nat) + "'."@,
        ),
        Error::MissingIndex => Some("Missing index."@),
        Error::InvalidGroupName(name) => Some(
            "Invalid group name '"@ + name@
                + "'. A valid group name contains at least 1 non-whitespace character."@,
        ),
        Error::InvalidVerbName(name) => Some(
            "Invalid verb name '"@ + name@
                + "'. A valid verb name is non-empty and contains only ascii character(s)."@,
        ),
        Error::InvalidOptionName(name) => Some(
            "Invalid option name '"@ + name@
                + "'. A valid option name is non-empty and contains only ascii character(s)."@,
        ),
        Error::InvalidOptionType(kind) => Some(
            "Invalid option type '"@ + kind@ + "'."@,
        ),
        Error::InvalidOptionValue(value, patterns, path) => Some(
            "Invalid value '"@ + value@ + "'"@ + spec_write_join(
                " for option '"@,
                "'"@,
                " "@,
                texts(path@),
            ) + "."@ + spec_write_join(" Value must match pattern '"@, "'."@, "|"@, texts(patterns@)),
        ),
        Error::InvalidLeafMeta(_) => None,
        Error::InvalidParseState => Some("Invalid parse state."@),
        Error::GroupNestingLimitOverflow => Some("Group nesting limit overflow."@),
        Error::MissingOptionNameOrPosition => Some("Missing name or position for option."@),
        Error::MissingVerbName => Some("Missing name for verb."@),
        Error::FailedToParseArguments => Some("Failed to parse arguments."@),
        Error::MissingShortOptionNameForSwizzling => Some(
            "Missing short option name for swizzling. A valid short option name has only a single ascii character."@,
        ),
        Error::InvalidSwizzleOption(value) => Some(
            "Invalid swizzle option '"@ + value@
                + "'. A valid swizzle option is tagged for swizzling, has a short name and is of type 'boolean'."@,
        ),
        Error::InvalidInitialization => Some("Invalid initialization."@),
        Error::Format => None,
        Error::Regex(text) => Some(text@),
        Error::Other(text) => Some(text@),
        Error::EmptyShortOption => Some("Empty short option."@),
        Error::EmptyArgument => Some("Empty argument."@),
    }
}

/// Appends ` of type 'name'` (with `lead` in front of the name) when there is
/// a type name.
fn write_typed(target: &mut String, lead: &str, kind: &Option<Text>)
    ensures
        final(target)@ == old(target)@ + typed(lead@, *kind),
{
    if let Some(name) = kind {
        target.append(lead);
        target.append(name.as_str());
        target.append("'");
    }
}

/// Appends the quoted suggestions, framed as the message shows them.
fn write_suggestions(target: &mut String, suggestions: &Vec<(Text, usize)>)
    ensures
        final(target)@ == old(target)@ + spec_write_join(
            " Similar matches: "@,
            "."@,
            ", "@,
            quoted(suggestions@),
        ),
{
    let mut items: Vec<String> = Vec::new();
    let mut index: usize = 0;
    while index < suggestions.len()
        invariant
            index <= suggestions@.len(),
            texts(items@) == quoted(suggestions@.take(index as int)),
        decreases suggestions@.len() - index,
    {
        let mut item = String::new();
        item.append("'");
        item.append(suggestions[index].0.as_str());
        item.append("'");
        let ghost before = items@;
        items.push(item);
        assert(texts(items@) == texts(before).push(item@));
        assert(suggestions@.take(index + 1) == suggestions@.take(index as int).push(
            suggestions@[index as int],
        ));
        index = index + 1;
    }
    assert(suggestions@.take(suggestions@.len() as int) == suggestions@);
    write_join(target, " Similar matches: ", ".", ", ", items.as_slice());
}

/// Appends the texts joined by a comma and a space.
fn write_texts(target: &mut String, items: &Vec<Text>)
    ensures
        final(target)@ == old(target)@ + joined(", "@, texts(items@)),
{
    let mut references: Vec<&Text> = Vec::new();
    let mut index: usize = 0;
    while index < items.len()
        invariant
            index <= items@.len(),
            references@.map_values(|item: &Text| *item) == items@.take(index as int),
        decreases items@.len() - index,
    {
        let ghost before = references@;
        references.push(&items[index]);
        assert(references@.map_values(|item: &Text| *item) == before.map_values(
            |item: &Text| *item,
        ).push(items@[index as int]));
        assert(items@.take(index + 1) == items@.take(index as int).push(items@[index as int]));
        index = index + 1;
    }
    assert(items@.take(items@.len() as int) == items@);
    assert(text_views(references@.map_values(|item: &Text| *item)) =~= texts(items@));
    join(target, references.as_slice());
}

impl Error {
    /// The message of this error (see `spec_message`).
    pub fn message(&self) -> (message: Option<String>)
        ensures
            match spec_message(*self) {
                Some(text) => message matches Some(m) && m@ == text,
                None => message is None,
            },
    {
        let mut f = String::new();
        match self {
            Error::Help(Some(help)) => return Some(help.render()),
            Error::Help(None) => f.append("Missing help."),
            Error::Version(Some(version)) => {
                let versions = version.versions();
                join(&mut f, versions.as_slice());
            },
            Error::Version(None) => f.append("Missing version."),
            Error::Author(Some(author)) => {
                let authors = author.authors();
                join(&mut f, authors.as_slice());
            },
            Error::Author(None) => f.append("Missing author."),
            Error::License(Some(_)) => return None,
            Error::License(None) => f.append("Missing license."),
            Error::InvalidArgument(argument, patterns, path) => {
                f.append("Invalid argument '");
                f.append(argument.as_str());
                f.append("'");
                write_join(&mut f, " for '", "'", " ", path.as_slice());
                f.append(".");
                write_join(&mut f, " Argument must match pattern '", "'.", " | ", patterns.as_slice());
            },
            Error::UnrecognizedArgument(argument, suggestions) => {
                f.append("Unrecognized argument '");
                f.append(argument.as_str());
                f.append("'.");
                write_suggestions(&mut f, suggestions);
            },
            Error::ExcessArguments(arguments) => {
                f.append("Excess arguments '");
                write_texts(&mut f, arguments);
                f.append("'.");
            },
            Error::MissingValue(kind, path) => {
                f.append("Missing value");
                write_typed(&mut f, " of type '", kind);
                write_join(&mut f, " for option '", "'", " ", path.as_slice());
                f.append(".");
            },
            Error::DuplicateParse(path) => {
                f.append("Duplicate parse");
                write_join(&mut f, " '", "'", " ", path.as_slice());
                f.append(".");
            },
            Error::DuplicateOption(path) => {
                f.append("Duplicate option");
                write_join(&mut f, " '", "'", " ", path.as_slice());
                f.append(".");
            },
            Error::DuplicateVerb(path) => {
                f.append("Duplicate verb");
                write_join(&mut f, " '", "'", " ", path.as_slice());
                f.append(".");
            },
            Error::MissingRequired(kind, path) => {
                f.append("Missing required value");
                write_typed(&mut f, " of type '", kind);
                write_join(&mut f, " at '", "'", " ", path.as_slice());
                f.append(".");
            },
            Error::FailedToParseEnvironmentVariable(key, value, kind, path) => {
                f.append("Failed to parse environment variable '");
                f.append(key.as_str());
                f.append("' with value '");
                f.append(value.as_str());
                f.append("'");
                write_typed(&mut f, " as type '", kind);
                write_join(&mut f, " for option '", "'", " ", path.as_slice());
                f.append(".");
            },
            Error::FailedToParseOptionValue(value, kind, path) => {
                f.append("Failed to parse value '");
                f.append(value.as_str());
                f.append("'");
                write_typed(&mut f, " as type '", kind);
                write_join(&mut f, " for option '", "'", " ", path.as_slice());
                f.append(".");
            },
            Error::InvalidPrefix(prefix) => {
                f.append("Invalid prefix '");
                f.push(*prefix);
                f.append(
                    "'. A valid prefix is a non-whitespace, non-control, non-alpha-numeric character.",
                );
            },
            Error::DuplicateName(name) => {
                f.append("Duplicate name '");
                f.append(name.as_str());
                f.append("'.");
            },
            Error::InvalidIndex(index) => {
                f.append("Invalid index '");
                push_decimal(&mut f, *index);
                f.append("'.");
            },
            Error::MissingIndex => f.append("Missing index."),
            Error::InvalidGroupName(name) => {
                f.append("Invalid group name '");
                f.append(name.as_str());
                f.append("'. A valid group name contains at least 1 non-whitespace character.");
            },
            Error::InvalidVerbName(name) => {
                f.append("Invalid verb name '");
                f.append(name.as_str());
                f.append(
                    "'. A valid verb name is non-empty and contains only ascii character(s).",
                );
            },
            Error::InvalidOptionName(name) => {
                f.append("Invalid option name '");
                f.append(name.as_str());
                f.append(
                    "'. A valid option name is non-empty and contains only ascii character(s).",
                );
            },
            Error::InvalidOptionType(kind) => {
                f.append("Invalid option type '");
                f.append(kind.as_str());
                f.append("'.");
            },
            Error::InvalidOptionValue(value, patterns, path) => {
                f.append("Invalid value '");
                f.append(value.as_str());
                f.append("'");
                write_join(&mut f, " for option '", "'", " ", path.as_slice());
                f.append(".");
                write_join(&mut f, " Value must match pattern '", "'.", "|", patterns.as_slice());
            },
            Error::InvalidLeafMeta(_) => return None,
            Error::InvalidParseState => f.append("Invalid parse state."),
            Error::GroupNestingLimitOverflow => f.append("Group nesting limit overflow."),
            Error::MissingOptionNameOrPosition => f.append("Missing name or position for option."),
            Error::MissingVerbName => f.append("Missing name for verb."),
            Error::FailedToParseArguments => f.append("Failed to parse arguments."),
            Error::MissingShortOptionNameForSwizzling => f.append(
                "Missing short option name for swizzling. A valid short option name has only a single ascii character.",
            ),
            Error::InvalidSwizzleOption(value) => {
                f.append("Invalid swizzle option '");
                f.append(value.as_str());
                f.append(
                    "'. A valid swizzle option is tagged for swizzling, has a short name and is of type 'boolean'.",
                );
            },
            Error::InvalidInitialization => f.append("Invalid initialization."),
            Error::Format => return None,
            Error::Regex(text) => f.append(text.as_str()),
            Error::Other(text) => f.append(text.as_str()),
            Error::EmptyShortOption => f.append("Empty short option."),
            Error::EmptyArgument => f.append("Empty argument."),
        }
        Some(f)
    }
}

impl From<&'static str> for Error {
    fn from(value: &'static str) -> (error: Self) {
        Error::Other(Text::Static(value))
    }
}

impl vstd::std_specs::convert::FromSpecImpl<&'static str> for Error {
    open spec fn obeys_from_spec() -> bool {
        true
    }

    open spec fn from_spec(value: &'static str) -> Self {
        Error::Other(Text::Static(value))
    }
}

impl From<String> for Error {
    fn from(value: String) -> (error: Self) {
        Error::Other(Text::from(value))
    }
}

impl vstd::std_specs::convert::FromSpecImpl<String> for Error {
    open spec fn obeys_from_spec() -> bool {
        true
    }

    open spec fn from_spec(value: String) -> Self {
        Error::Other(Text::Shared(std::sync::Arc::new(value)))
    }
}

impl From<Text> for Error {
    fn from(value: Text) -> (error: Self) {
        Error::Other(value)
    }
}

impl vstd::std_specs::convert::FromSpecImpl<Text> for Error {
    open spec fn obeys_from_spec() -> bool {
        true
    }

    open spec fn from_spec(value: Text) -> Self {
        Error::Other(value)
    }
}

} // verus!
