use crate::meta::Text;
use crate::strings::chars_fit;
use vstd::prelude::*;

verus! {

/// Something that can be written into help text, with the number of columns
/// that it takes on a terminal.
pub trait Format {
    /// The characters that `write` appends.
    spec fn spec_text(&self) -> Seq<char>;

    /// The number of terminal columns that the written text takes.
    fn width(&self) -> usize;

    fn write(&self, target: &mut String)
        ensures
            final(target)@ == old(target)@ + self.spec_text(),
    ;
}

/// A styled piece of text: the characters to write and the number of columns
/// they take (escape sequences take none).
#[derive(Clone, Copy)]
pub struct Piece {
    pub text: &'static str,
    pub width: usize,
}

/// The parts of the help text that a style decorates.
#[derive(Clone, Copy, PartialEq, Eq, Structural)]
#[non_exhaustive]
pub enum Item {
    Head,
    Bar(Line),
    Arrow(Line),
    Version,
    Description,
    Author,
    Help,
    Group,
    Verb,
    Type,
    Option,
    Usage,
    Note,
    Link,
    Summary,
    Tag,
}

/// The kinds of lines that carry a bar or an arrow in the help header.
#[derive(Clone, Copy, PartialEq, Eq, Structural)]
pub enum Line {
    Head,
    Description,
    Link,
    Usage,
}

/// How help text is laid out and decorated.
pub trait Style {
    /// The indentation step that `indent` gives.
    spec fn spec_indent(&self) -> usize;

    /// The wrapping width that `width` gives.
    spec fn spec_width(&self) -> usize;

    /// What `begin` gives for `item`.
    spec fn spec_begin(&self, item: Item) -> Piece;

    /// What `end` gives for `item`.
    spec fn spec_end(&self, item: Item) -> Piece;

    /// The number of columns that nested content is indented by.
    fn indent(&self) -> (indent: usize)
        ensures
            indent == self.spec_indent(),
    ;

    /// The number of columns that text is wrapped at.
    fn width(&self) -> (width: usize)
        ensures
            width == self.spec_width(),
    ;

    /// What is written before an item.
    fn begin(&self, item: Item) -> (piece: Piece)
        ensures
            piece == self.spec_begin(item),
    ;

    /// What is written after an item.
    fn end(&self, item: Item) -> (piece: Piece)
        ensures
            piece == self.spec_end(item),
    ;
}

/// The style without colours: bars and brackets only.
pub struct Plain;

/// What the plain style writes before `item`.
pub open spec fn plain_begin(item: Item) -> Piece {
    match item {
        Item::Bar(_) => Piece { text: "~", width: 1 },
        Item::Arrow(_) => Piece { text: "  ", width: 2 },
        Item::Type => Piece { text: "<", width: 1 },
        Item::Tag => Piece { text: "[", width: 1 },
        _ => Piece { text: "", width: 0 },
    }
}

/// What the plain style writes after `item`.
pub open spec fn plain_end(item: Item) -> Piece {
    match item {
        Item::Tag => Piece { text: "]", width: 1 },
        Item::Type => Piece { text: ">", width: 1 },
        _ => Piece { text: "", width: 0 },
    }
}

impl Style for Plain {
    open spec fn spec_indent(&self) -> usize {
        2
    }

    open spec fn spec_width(&self) -> usize {
        96
    }

    open spec fn spec_begin(&self, item: Item) -> Piece {
        plain_begin(item)
    }

    open spec fn spec_end(&self, item: Item) -> Piece {
        plain_end(item)
    }

    fn indent(&self) -> (indent: usize) {
        2
    }

    fn width(&self) -> (width: usize) {
        96
    }

    fn begin(&self, item: Item) -> (piece: Piece) {
        match item {
            Item::Bar(_) => Piece { text: "~", width: 1 },
            Item::Arrow(_) => Piece { text: "  ", width: 2 },
            Item::Type => Piece { text: "<", width: 1 },
            Item::Tag => Piece { text: "[", width: 1 },
            _ => Piece { text: "", width: 0 },
        }
    }

    fn end(&self, item: Item) -> (piece: Piece) {
        match item {
            Item::Tag => Piece { text: "]", width: 1 },
            Item::Type => Piece { text: ">", width: 1 },
            _ => Piece { text: "", width: 0 },
        }
    }
}

/// The number of characters of `value`.
pub fn count_chars(value: &str) -> (count: usize)
    ensures
        count == value@.len(),
{
    chars_fit(value);
    let mut count: usize = 0;
    for letter in iter: value.chars()
        invariant
            iter.seq() == value@,
            count == iter.index(),
            value@.len() <= usize::MAX,
    {
        count = count + 1;
    }
    count
}

impl Format for char {
    open spec fn spec_text(&self) -> Seq<char> {
        seq![*self]
    }

    fn width(&self) -> (width: usize)
        ensures
            width == 1,
    {
        1
    }

    fn write(&self, target: &mut String) {
        target.push(*self);
    }
}

impl<'a> Format for &'a str {
    open spec fn spec_text(&self) -> Seq<char> {
        (*self)@
    }

    fn width(&self) -> (width: usize)
        ensures
            width == (*self)@.len(),
    {
        count_chars(self)
    }

    fn write(&self, target: &mut String) {
        target.append(self);
    }
}

impl Format for String {
    open spec fn spec_text(&self) -> Seq<char> {
        self@
    }

    fn width(&self) -> (width: usize)
        ensures
            width == self@.len(),
    {
        count_chars(self.as_str())
    }

    fn write(&self, target: &mut String) {
        target.append(self.as_str());
    }
}

impl Format for Text {
    open spec fn spec_text(&self) -> Seq<char> {
        self@
    }

    fn width(&self) -> (width: usize)
        ensures
            width == self@.len(),
    {
        count_chars(self.as_str())
    }

    fn write(&self, target: &mut String) {
        target.append(self.as_str());
    }
}

impl Format for Piece {
    open spec fn spec_text(&self) -> Seq<char> {
        self.text@
    }

    fn width(&self) -> (width: usize)
        ensures
            width == self.width,
    {
        self.width
    }

    fn write(&self, target: &mut String) {
        target.append(self.text);
    }
}

} // verus!
