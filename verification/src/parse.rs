use crate::case::{spec_convert, Case};
use crate::meta::{blank, is_blank, Text};
use crate::strings::{decimal, push_decimal};
use crate::style::{count_chars, Format};
use vstd::prelude::*;

verus! {

/// A name as the parser reads it: the name itself, the prefix characters
/// written before it (none, one for a short option, two for a long one), and
/// the case it is converted to when matched.
#[derive(Debug, PartialEq)]
pub struct Name {
    pub value: Text,
    pub prefixes: (Option<char>, Option<char>),
    pub case: Option<Case>,
}

/// Where a value sits on the command line: at a position, or after a name.
#[derive(Debug, PartialEq)]
pub enum Key {
    Position(usize),
    Name(Name),
}

/// An argument of the command line: a whole argument, or one character of a
/// group of short options written together (`-abc`).
#[derive(Debug, PartialEq)]
pub enum Argument {
    String(Text),
    Swizzle(char),
}

/// The prefixes of `name` (when `prefix`) followed by its value.
pub open spec fn name_source(name: Name, prefix: bool) -> Seq<char> {
    let first: Seq<char> = match name.prefixes.0 {
        Some(c) if prefix => seq![c],
        _ => Seq::empty(),
    };
    let second: Seq<char> = match name.prefixes.1 {
        Some(c) if prefix => seq![c],
        _ => Seq::empty(),
    };
    first + second + name.value@
}

/// The case that `name` is written in: its own when `case` asks for it.
pub open spec fn name_case(name: Name, case: bool) -> Case {
    match name.case {
        Some(c) if case => c,
        _ => Case::Same,
    }
}

/// How `name` is written, with or without its prefixes and its case.
pub open spec fn spec_name_chars(name: Name, prefix: bool, case: bool) -> Seq<char> {
    spec_convert(name_case(name, case), name_source(name, prefix))
}

/// How `key` is written: `[position]` or the name with its prefixes and case.
pub open spec fn key_text(key: Key) -> Seq<char> {
    match key {
        Key::Position(position) => seq!['['] + decimal(position as nat) + seq![']'],
        Key::Name(name) => spec_name_chars(name, true, true),
    }
}

/// The number of columns that `key` is given in help text.
pub open spec fn key_width(key: Key) -> nat {
    match key {
        Key::Position(position) => if position < 10 {
            3
        } else {
            4
        },
        Key::Name(name) => spec_name_chars(name, true, true).len(),
    }
}

impl Clone for Name {
    fn clone(&self) -> (clone: Self)
        ensures
            clone == *self,
    {
        Name { value: self.value.clone(), prefixes: self.prefixes, case: self.case }
    }
}

impl Clone for Key {
    fn clone(&self) -> (clone: Self)
        ensures
            clone == *self,
    {
        match self {
            Key::Position(position) => Key::Position(*position),
            Key::Name(name) => Key::Name(name.clone()),
        }
    }
}

impl Clone for Argument {
    fn clone(&self) -> (clone: Self)
        ensures
            clone == *self,
    {
        match self {
            Argument::String(key) => Argument::String(key.clone()),
            Argument::Swizzle(key) => Argument::Swizzle(*key),
        }
    }
}

impl Name {
    /// The number of characters of the name as written.
    pub fn len(&self, prefix: bool, case: bool) -> (length: usize)
        ensures
            length == spec_name_chars(*self, prefix, case).len(),
    {
        let chars = self.chars(prefix, case);
        count_chars(chars.as_str())
    }

    /// The name as written, with its prefixes when `prefix` and in its case
    /// when `case`.
    pub fn chars(&self, prefix: bool, case: bool) -> (chars: String)
        ensures
            chars@ == spec_name_chars(*self, prefix, case),
    {
        let mut source = String::new();
        if prefix {
            if let Some(first) = self.prefixes.0 {
                source.push(first);
            }
            if let Some(second) = self.prefixes.1 {
                source.push(second);
            }
        }
        let ghost prefixes = source@;
        assert(prefixes == name_source(*self, prefix).take(prefixes.len() as int));
        source.append(self.value.as_str());
        assert(source@ =~= name_source(*self, prefix));
        let case = match self.case {
            Some(own) if case => own,
            _ => Case::Same,
        };
        case.convert(source.as_str())
    }
}

impl Argument {
    /// An argument of the command line made of `value`; none for a value of
    /// white space only.
    pub fn string(value: Text) -> (argument: Option<Argument>)
        ensures
            argument == (if blank(value@) {
                None
            } else {
                Some(Argument::String(value))
            }),
    {
        if is_blank(value.as_str()) {
            None
        } else {
            Some(Argument::String(value))
        }
    }

    /// The characters of the argument.
    pub fn chars(&self) -> (chars: String)
        ensures
            chars@ == match *self {
                Argument::String(key) => key@,
                Argument::Swizzle(key) => seq![key],
            },
    {
        match self {
            Argument::String(key) => {
                let mut chars = String::new();
                chars.append(key.as_str());
                chars
            },
            Argument::Swizzle(key) => {
                let mut chars = String::new();
                chars.push(*key);
                chars
            },
        }
    }
}

impl Format for Name {
    open spec fn spec_text(&self) -> Seq<char> {
        spec_name_chars(*self, true, true)
    }

    fn width(&self) -> (width: usize)
        ensures
            width == spec_name_chars(*self, true, true).len(),
    {
        self.len(true, true)
    }

    fn write(&self, target: &mut String) {
        let chars = self.chars(true, true);
        target.append(chars.as_str());
    }
}

impl Format for Key {
    open spec fn spec_text(&self) -> Seq<char> {
        key_text(*self)
    }

    fn width(&self) -> (width: usize)
        ensures
            width == key_width(*self),
    {
        match self {
            Key::Position(position) if *position < 10 => 3,
            Key::Position(_) => 4,
            Key::Name(name) => name.width(),
        }
    }

    fn write(&self, target: &mut String) {
        match self {
            Key::Position(position) => {
                target.push('[');
                push_decimal(target, *position);
                target.push(']');
            },
            Key::Name(name) => name.write(target),
        }
    }
}

} // verus!
