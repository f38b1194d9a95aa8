use crate::context::last_type;
use crate::meta::{blank, is_blank, spec_children, spec_prefix, spec_visible, prefix, Meta, Prefix, Text};
use crate::parse::{key_text, key_width, Key, Name};
use crate::strings::{decimal, push_decimal};
use crate::style::{count_chars, Format, Item, Line, Piece, Style};
use vstd::prelude::*;

verus! {

/// `std::slice::from_ref` gives the slice of the one value referred to.
pub assume_specification<T>[ std::slice::from_ref::<T> ](value: &T) -> (slice: &[T])
    ensures
        slice@ == seq![*value],
;

/// Text written into the help, with the number of terminal columns it takes
/// (counted up to `usize::MAX`).
#[verifier::ext_equal]
pub struct Span {
    pub text: Seq<char>,
    pub width: usize,
}

/// Nothing written.
pub open spec fn nothing() -> Span {
    Span { text: Seq::empty(), width: 0 }
}

/// `first`, then `second`.
pub open spec fn then(first: Span, second: Span) -> Span {
    Span { text: first.text + second.text, width: first.width.saturating_add(second.width) }
}

/// A text that takes a column per character.
pub open spec fn plain(text: Seq<char>) -> Span {
    Span { text, width: text.len() as usize }
}

/// A styled piece.
pub open spec fn piece(value: Piece) -> Span {
    Span { text: value.text@, width: value.width }
}

/// Styled pieces, one after the other.
pub open spec fn pieces(values: Seq<Piece>) -> Span
    decreases values.len(),
{
    if values.len() == 0 {
        nothing()
    } else {
        then(pieces(values.drop_last()), piece(values.last()))
    }
}

/// `value` followed by a line break, which takes no column.
pub open spec fn line(value: Span) -> Span {
    Span { text: value.text.push('\n'), width: value.width }
}

/// `count` spaces.
pub open spec fn spaces(count: usize) -> Span {
    Span { text: Seq::new(count as nat, |i: int| ' '), width: count }
}

/// Texts separated by `separator`.
pub open spec fn joined_spans(separator: Span, items: Seq<Seq<char>>) -> Span
    decreases items.len(),
{
    if items.len() == 0 {
        nothing()
    } else if items.len() == 1 {
        plain(items[0])
    } else {
        then(then(joined_spans(separator, items.drop_last()), separator), plain(items.last()))
    }
}

/// Texts separated by `separator` and framed by `prefix` and `suffix`;
/// nothing at all without texts.
pub open spec fn join_span(prefix: Span, suffix: Span, separator: Span, items: Seq<Seq<char>>) -> Span {
    if items.len() == 0 {
        nothing()
    } else {
        then(then(prefix, joined_spans(separator, items)), suffix)
    }
}

/// The position of `line` among the kinds of lines.
pub open spec fn line_index(line: Line) -> int {
    match line {
        Line::Head => 0,
        Line::Description => 1,
        Line::Link => 2,
        Line::Usage => 3,
    }
}

/// The position of `item` among the items a style decorates.
pub open spec fn item_index(item: Item) -> int {
    match item {
        Item::Head => 0,
        Item::Bar(line) => 1 + line_index(line),
        Item::Arrow(line) => 5 + line_index(line),
        Item::Version => 9,
        Item::Description => 10,
        Item::Author => 11,
        Item::Help => 12,
        Item::Group => 13,
        Item::Verb => 14,
        Item::Type => 15,
        Item::Option => 16,
        Item::Usage => 17,
        Item::Note => 18,
        Item::Link => 19,
        Item::Summary => 20,
        Item::Tag => 21,
    }
}

/// The item at `index` (see `item_index`).
pub open spec fn item_at(index: int) -> Item {
    if index == 0 {
        Item::Head
    } else if 1 <= index < 5 {
        Item::Bar(line_at(index - 1))
    } else if 5 <= index < 9 {
        Item::Arrow(line_at(index - 5))
    } else if index == 9 {
        Item::Version
    } else if index == 10 {
        Item::Description
    } else if index == 11 {
        Item::Author
    } else if index == 12 {
        Item::Help
    } else if index == 13 {
        Item::Group
    } else if index == 14 {
        Item::Verb
    } else if index == 15 {
        Item::Type
    } else if index == 16 {
        Item::Option
    } else if index == 17 {
        Item::Usage
    } else if index == 18 {
        Item::Note
    } else if index == 19 {
        Item::Link
    } else if index == 20 {
        Item::Summary
    } else {
        Item::Tag
    }
}

/// Every item sits at its own index, among the first 22.
proof fn lemma_item_round_trip(item: Item)
    ensures
        0 <= item_index(item) < 22,
        item_at(item_index(item)) == item,
{
}

/// The kind of line at `index` (see `line_index`).
pub open spec fn line_at(index: int) -> Line {
    if index == 0 {
        Line::Head
    } else if index == 1 {
        Line::Description
    } else if index == 2 {
        Line::Link
    } else {
        Line::Usage
    }
}

fn item_of(index: usize) -> (item: Item)
    requires
        index < 22,
    ensures
        item == item_at(index as int),
        item_index(item) == index,
{
    let line = if index >= 1 && index < 5 {
        index - 1
    } else if index >= 5 && index < 9 {
        index - 5
    } else {
        0
    };
    let kind = match line {
        0 => Line::Head,
        1 => Line::Description,
        2 => Line::Link,
        _ => Line::Usage,
    };
    match index {
        0 => Item::Head,
        1 | 2 | 3 | 4 => Item::Bar(kind),
        5 | 6 | 7 | 8 => Item::Arrow(kind),
        9 => Item::Version,
        10 => Item::Description,
        11 => Item::Author,
        12 => Item::Help,
        13 => Item::Group,
        14 => Item::Verb,
        15 => Item::Type,
        16 => Item::Option,
        17 => Item::Usage,
        18 => Item::Note,
        19 => Item::Link,
        20 => Item::Summary,
        _ => Item::Tag,
    }
}

fn index_of(item: Item) -> (index: usize)
    ensures
        index == item_index(item),
        index < 22,
{
    let line = match item {
        Item::Bar(line) | Item::Arrow(line) => match line {
            Line::Head => 0,
            Line::Description => 1,
            Line::Link => 2,
            Line::Usage => 3,
        },
        _ => 0,
    };
    match item {
        Item::Head => 0,
        Item::Bar(_) => 1 + line,
        Item::Arrow(_) => 5 + line,
        Item::Version => 9,
        Item::Description => 10,
        Item::Author => 11,
        Item::Help => 12,
        Item::Group => 13,
        Item::Verb => 14,
        Item::Type => 15,
        Item::Option => 16,
        Item::Usage => 17,
        Item::Note => 18,
        Item::Link => 19,
        Item::Summary => 20,
        Item::Tag => 21,
    }
}

/// What a style gives the help text, read once: the indentation step, the
/// width that text is wrapped at, and what is written before and after each
/// item.
pub struct Palette {
    pub indent: usize,
    pub width: usize,
    pub begins: Vec<Piece>,
    pub ends: Vec<Piece>,
}

/// The contents of a palette: the pieces are listed in the order of
/// `item_index`.
pub struct PaletteView {
    pub indent: usize,
    pub width: usize,
    pub begins: Seq<Piece>,
    pub ends: Seq<Piece>,
}

impl PaletteView {
    /// A piece before and after every item.
    pub open spec fn complete(&self) -> bool {
        self.begins.len() == 22 && self.ends.len() == 22
    }

    /// What is written before `item`.
    pub open spec fn begin(&self, item: Item) -> Piece {
        self.begins[item_index(item)]
    }

    /// What is written after `item`.
    pub open spec fn end(&self, item: Item) -> Piece {
        self.ends[item_index(item)]
    }
}

impl View for Palette {
    type V = PaletteView;

    open spec fn view(&self) -> PaletteView {
        PaletteView {
            indent: self.indent,
            width: self.width,
            begins: self.begins@,
            ends: self.ends@,
        }
    }
}

/// The palette that `style` gives: its indentation and width, and what it
/// writes before and after each item.
pub open spec fn style_palette<S: Style + ?Sized>(style: &S) -> PaletteView {
    PaletteView {
        indent: style.spec_indent(),
        width: style.spec_width(),
        begins: Seq::new(22, |index: int| style.spec_begin(item_at(index))),
        ends: Seq::new(22, |index: int| style.spec_end(item_at(index))),
    }
}

impl Palette {
    /// A piece before and after every item.
    pub open spec fn complete(&self) -> bool {
        self@.complete()
    }

    /// What is written before `item`.
    pub open spec fn begin(&self, item: Item) -> Piece {
        self@.begin(item)
    }

    /// What is written after `item`.
    pub open spec fn end(&self, item: Item) -> Piece {
        self@.end(item)
    }

    /// Reads `style` for every item, in the order of `item_index`.
    pub fn of<S: Style + ?Sized>(style: &S) -> (palette: Palette)
        ensures
            palette@ == style_palette(style),
            palette.complete(),
            palette.indent == style.spec_indent(),
            palette.width == style.spec_width(),
            forall|item: Item|
                #![trigger palette.begin(item)]
                #![trigger palette.end(item)]
                palette.begin(item) == style.spec_begin(item) && palette.end(item)
                    == style.spec_end(item),
    {
        let mut begins: Vec<Piece> = Vec::new();
        let mut ends: Vec<Piece> = Vec::new();
        let mut index: usize = 0;
        while index < 22
            invariant
                index <= 22,
                begins@.len() == index,
                ends@.len() == index,
                forall|k: int|
                    0 <= k < index ==> #[trigger] begins@[k] == style.spec_begin(item_at(k)),
                forall|k: int| 0 <= k < index ==> #[trigger] ends@[k] == style.spec_end(item_at(k)),
            decreases 22 - index,
        {
            let item = item_of(index);
            begins.push(style.begin(item));
            ends.push(style.end(item));
            index = index + 1;
        }
        let palette = Palette { indent: style.indent(), width: style.width(), begins, ends };
        assert(palette@.begins =~= style_palette(style).begins);
        assert(palette@.ends =~= style_palette(style).ends);
        assert forall|item: Item|
            #![trigger palette.begin(item)]
            #![trigger palette.end(item)]
            palette.begin(item) == style.spec_begin(item) && palette.end(item) == style.spec_end(
                item,
            ) by {
            lemma_item_round_trip(item);
        }
        palette
    }

    fn begin_piece(&self, item: Item) -> (value: Piece)
        requires
            self.complete(),
        ensures
            value == self.begin(item),
    {
        self.begins[index_of(item)]
    }

    fn end_piece(&self, item: Item) -> (value: Piece)
        requires
            self.complete(),
        ensures
            value == self.end(item),
    {
        self.ends[index_of(item)]
    }
}

/// Appends `value` (see `plain`).
fn write_str(out: &mut String, value: &str) -> (width: usize)
    ensures
        final(out)@ == old(out)@ + plain(value@).text,
        width == plain(value@).width,
{
    let width = count_chars(value);
    out.append(value);
    width
}

/// Appends `value` (see `piece`).
fn write_piece(out: &mut String, value: Piece) -> (width: usize)
    ensures
        final(out)@ == old(out)@ + piece(value).text,
        width == piece(value).width,
{
    out.append(value.text);
    value.width
}

/// Appends `values` (see `pieces`).
fn write_pieces(out: &mut String, values: &[Piece]) -> (width: usize)
    ensures
        final(out)@ == old(out)@ + pieces(values@).text,
        width == pieces(values@).width,
{
    let ghost start = out@;
    let mut width: usize = 0;
    let mut index: usize = 0;
    while index < values.len()
        invariant
            index <= values@.len(),
            out@ == start + pieces(values@.take(index as int)).text,
            width == pieces(values@.take(index as int)).width,
        decreases values@.len() - index,
    {
        assert(values@.take(index + 1).drop_last() =~= values@.take(index as int));
        let ghost before = out@;
        let added = write_piece(out, values[index]);
        width = width.saturating_add(added);
        assert(out@ =~= start + pieces(values@.take(index + 1)).text);
        index = index + 1;
    }
    assert(values@.take(values@.len() as int) =~= values@);
    width
}

/// Appends a line break.
fn write_newline(out: &mut String)
    ensures
        final(out)@ == old(out)@.push('\n'),
{
    out.push('\n');
}

/// Appends `count` spaces.
fn write_spaces(out: &mut String, count: usize) -> (width: usize)
    ensures
        final(out)@ == old(out)@ + spaces(count).text,
        width == count,
{
    let ghost start = out@;
    let mut index: usize = 0;
    while index < count
        invariant
            index <= count,
            out@ == start + Seq::new(index as nat, |i: int| ' '),
        decreases count - index,
    {
        out.push(' ');
        index = index + 1;
        assert(out@ =~= start + Seq::new(index as nat, |i: int| ' '));
    }
    assert(spaces(count).text =~= Seq::new(count as nat, |i: int| ' '));
    count
}

/// Appends `items` framed and separated by pieces (see `join_span`).
fn write_join(
    out: &mut String,
    prefix: &[Piece],
    suffix: &[Piece],
    separator: &[Piece],
    items: &[String],
) -> (width: usize)
    ensures
        final(out)@ == old(out)@ + join_span(
            pieces(prefix@),
            pieces(suffix@),
            pieces(separator@),
            items@.map_values(|item: String| item@),
        ).text,
        width == join_span(
            pieces(prefix@),
            pieces(suffix@),
            pieces(separator@),
            items@.map_values(|item: String| item@),
        ).width,
{
    let ghost start = out@;
    let ghost all = items@.map_values(|item: String| item@);
    let ghost framed = pieces(prefix@);
    let ghost between = pieces(separator@);
    let mut width: usize = 0;
    let mut index: usize = 0;
    while index < items.len()
        invariant
            index <= items@.len(),
            all == items@.map_values(|item: String| item@),
            framed == pieces(prefix@),
            between == pieces(separator@),
            index == 0 ==> out@ == start && width == 0,
            index > 0 ==> out@ == start + then(framed, joined_spans(between, all.take(index as int))).text
                && width == then(framed, joined_spans(between, all.take(index as int))).width,
        decreases items@.len() - index,
    {
        let ghost taken = all.take(index + 1);
        assert(taken.drop_last() =~= all.take(index as int));
        assert(taken.last() == items@[index as int]@);
        if index == 0 {
            width = width.saturating_add(write_pieces(out, prefix));
        } else {
            width = width.saturating_add(write_pieces(out, separator));
        }
        width = width.saturating_add(write_str(out, items[index].as_str()));
        proof {
            if index == 0 {
                assert(taken.len() == 1);
            }
        }
        assert(out@ =~= start + then(framed, joined_spans(between, taken)).text);
        index = index + 1;
    }
    if index > 0 {
        width = width.saturating_add(write_pieces(out, suffix));
    }
    assert(all.take(items@.len() as int) =~= all);
    width
}


/// A position shown as `[position]`.
pub open spec fn position_text(position: nat) -> Seq<char> {
    seq!['['] + decimal(position) + seq![']']
}

/// Whether a name of `value` is shown in a column of short names, of long
/// names, or both; a name of no character is always shown.
pub open spec fn shown_name(value: Seq<char>, short: bool, long: bool) -> bool {
    match spec_prefix(value.len()) {
        Prefix::Empty => true,
        Prefix::Short => short,
        Prefix::Long => long,
    }
}

/// The names shown among the visible `metas`: the names of the lengths
/// asked for and, with short names, the positions as `[k]`, counted from
/// `position`.
pub open spec fn name_items(metas: Seq<Meta>, short: bool, long: bool, position: nat) -> Seq<
    Seq<char>,
>
    decreases metas.len(),
{
    if metas.len() == 0 {
        Seq::empty()
    } else {
        let rest = metas.drop_first();
        match metas[0] {
            Meta::Name(value) => if shown_name(value@, short, long) {
                seq![value@] + name_items(rest, short, long, position)
            } else {
                name_items(rest, short, long, position)
            },
            Meta::Position => if short {
                seq![position_text(position)] + name_items(rest, short, long, position + 1)
            } else {
                name_items(rest, short, long, position)
            },
            _ => name_items(rest, short, long, position),
        }
    }
}

/// The kinds of texts gathered from descriptions into one line.
#[derive(Clone, Copy, PartialEq, Eq, Structural)]
pub enum Pick {
    Version,
    Author,
    Usage,
    Home,
    Repository,
    Tag,
    Valid,
    Default,
}

/// The text of kind `kind` that `meta` shows, if any: versions, authors,
/// usages, home pages and repositories as written; the tags `require`,
/// `swizzle` and `many`; regular expressions as written; defaults as
/// written and environment variables after a `$`.
pub open spec fn picked(kind: Pick, meta: Meta) -> Option<Seq<char>> {
    match kind {
        Pick::Version => match meta {
            Meta::Version(value) => Some(value@),
            _ => None,
        },
        Pick::Author => match meta {
            Meta::Author(value) => Some(value@),
            _ => None,
        },
        Pick::Usage => match meta {
            Meta::Usage(value) => Some(value@),
            _ => None,
        },
        Pick::Home => match meta {
            Meta::Home(value) => Some(value@),
            _ => None,
        },
        Pick::Repository => match meta {
            Meta::Repository(value) => Some(value@),
            _ => None,
        },
        Pick::Tag => match meta {
            Meta::Require(_) => Some("require"@),
            Meta::Swizzle => Some("swizzle"@),
            Meta::Many(_) => Some("many"@),
            _ => None,
        },
        Pick::Valid => match meta {
            Meta::Valid(value) => Some(value@),
            _ => None,
        },
        Pick::Default => match meta {
            Meta::Default(value) => Some(value@),
            Meta::Environment(value) => Some(seq!['$'] + value@),
            _ => None,
        },
    }
}

/// The texts of kind `kind` among `metas`, in order.
pub open spec fn picked_texts(kind: Pick, metas: Seq<Meta>) -> Seq<Seq<char>>
    decreases metas.len(),
{
    if metas.len() == 0 {
        Seq::empty()
    } else {
        match picked(kind, metas[0]) {
            Some(text) => seq![text] + picked_texts(kind, metas.drop_first()),
            None => picked_texts(kind, metas.drop_first()),
        }
    }
}

/// The text of kind `kind` that `meta` shows (see `picked`).
fn pick(kind: Pick, meta: &Meta) -> (text: Option<String>)
    ensures
        match text {
            Some(value) => picked(kind, *meta) == Some(value@),
            None => picked(kind, *meta) is None,
        },
{
    match kind {
        Pick::Version => match meta {
            Meta::Version(value) => Some(value.as_str().to_owned()),
            _ => None,
        },
        Pick::Author => match meta {
            Meta::Author(value) => Some(value.as_str().to_owned()),
            _ => None,
        },
        Pick::Usage => match meta {
            Meta::Usage(value) => Some(value.as_str().to_owned()),
            _ => None,
        },
        Pick::Home => match meta {
            Meta::Home(value) => Some(value.as_str().to_owned()),
            _ => None,
        },
        Pick::Repository => match meta {
            Meta::Repository(value) => Some(value.as_str().to_owned()),
            _ => None,
        },
        Pick::Tag => match meta {
            Meta::Require(_) => Some("require".to_owned()),
            Meta::Swizzle => Some("swizzle".to_owned()),
            Meta::Many(_) => Some("many".to_owned()),
            _ => None,
        },
        Pick::Valid => match meta {
            Meta::Valid(value) => Some(value.as_str().to_owned()),
            _ => None,
        },
        Pick::Default => match meta {
            Meta::Default(value) => Some(value.as_str().to_owned()),
            Meta::Environment(value) => {
                let mut text = String::new();
                text.push('$');
                text.append(value.as_str());
                assert(text@ =~= seq!['$'] + value@);
                Some(text)
            },
            _ => None,
        },
    }
}

/// The texts of kind `kind` among the visible `metas`.
fn pick_texts(kind: Pick, metas: &[Meta]) -> (texts: Vec<String>)
    ensures
        texts@.map_values(|text: String| text@) == picked_texts(kind, spec_visible(metas@)),
{
    let visible = Meta::visible(metas);
    let ghost all = visible@.map_values(|meta: &Meta| *meta);
    let mut texts: Vec<String> = Vec::new();
    let mut index: usize = 0;
    assert(all.skip(0) =~= all);
    assert(texts@.map_values(|text: String| text@) + picked_texts(kind, all) =~= picked_texts(
        kind,
        all,
    ));
    while index < visible.len()
        invariant
            index <= visible@.len(),
            all == visible@.map_values(|meta: &Meta| *meta),
            all == spec_visible(metas@),
            texts@.map_values(|text: String| text@) + picked_texts(kind, all.skip(index as int))
                == picked_texts(kind, all),
        decreases visible@.len() - index,
    {
        let ghost rest = all.skip(index as int);
        assert(rest[0] == *visible@[index as int]);
        assert(rest.drop_first() =~= all.skip(index + 1));
        let ghost before = texts@.map_values(|text: String| text@);
        match pick(kind, visible[index]) {
            Some(text) => {
                let ghost value = text@;
                texts.push(text);
                assert(texts@.map_values(|text: String| text@) =~= before.push(value));
                assert(before.push(value) + picked_texts(kind, all.skip(index + 1)) =~= before + (
                seq![value] + picked_texts(kind, all.skip(index + 1))));
            },
            None => {},
        }
        index = index + 1;
    }
    assert(all.skip(visible@.len() as int) =~= Seq::<Meta>::empty());
    assert(texts@.map_values(|text: String| text@) + Seq::<Seq<char>>::empty() =~= texts@.map_values(
        |text: String| text@,
    ));
    texts
}

/// The names shown among the visible `metas` (see `name_items`).
fn name_texts(metas: &[Meta], short: bool, long: bool) -> (texts: Vec<String>)
    ensures
        texts@.map_values(|text: String| text@) == name_items(spec_visible(metas@), short, long, 0),
{
    let visible = Meta::visible(metas);
    let ghost all = visible@.map_values(|meta: &Meta| *meta);
    let mut texts: Vec<String> = Vec::new();
    let mut position: usize = 0;
    let mut index: usize = 0;
    assert(all.skip(0) =~= all);
    assert(texts@.map_values(|text: String| text@) + name_items(all, short, long, 0) =~= name_items(
        all,
        short,
        long,
        0,
    ));
    while index < visible.len()
        invariant
            index <= visible@.len(),
            position <= index,
            all == visible@.map_values(|meta: &Meta| *meta),
            all == spec_visible(metas@),
            texts@.map_values(|text: String| text@) + name_items(
                all.skip(index as int),
                short,
                long,
                position as nat,
            ) == name_items(all, short, long, 0),
        decreases visible@.len() - index,
    {
        let ghost rest = all.skip(index as int);
        assert(rest[0] == *visible@[index as int]);
        assert(rest.drop_first() =~= all.skip(index + 1));
        let ghost before = texts@.map_values(|text: String| text@);
        match visible[index] {
            Meta::Name(value) => {
                let shown = match prefix(value.as_str()) {
                    Prefix::Empty => true,
                    Prefix::Short => short,
                    Prefix::Long => long,
                };
                if shown {
                    let text = value.as_str().to_owned();
                    texts.push(text);
                    assert(texts@.map_values(|text: String| text@) =~= before.push(value@));
                    assert(before.push(value@) + name_items(
                        all.skip(index + 1),
                        short,
                        long,
                        position as nat,
                    ) =~= before + (seq![value@] + name_items(
                        all.skip(index + 1),
                        short,
                        long,
                        position as nat,
                    )));
                }
            },
            Meta::Position => {
                if short {
                    let mut text = String::new();
                    text.push('[');
                    push_decimal(&mut text, position);
                    text.push(']');
                    assert(text@ =~= position_text(position as nat));
                    let ghost value = text@;
                    texts.push(text);
                    position = position + 1;
                    assert(texts@.map_values(|text: String| text@) =~= before.push(value));
                    assert(before.push(value) + name_items(
                        all.skip(index + 1),
                        short,
                        long,
                        position as nat,
                    ) =~= before + (seq![value] + name_items(
                        all.skip(index + 1),
                        short,
                        long,
                        position as nat,
                    )));
                }
            },
            _ => {},
        }
        index = index + 1;
    }
    assert(all.skip(visible@.len() as int) =~= Seq::<Meta>::empty());
    assert(texts@.map_values(|text: String| text@) + Seq::<Seq<char>>::empty() =~= texts@.map_values(
        |text: String| text@,
    ));
    texts
}


/// The separator `, ` as a piece.
pub open spec fn comma() -> Piece {
    Piece { text: ", ", width: 2 }
}

/// A separator ` | ` as a piece.
pub open spec fn bar() -> Piece {
    Piece { text: " | ", width: 3 }
}

fn comma_piece() -> (value: Piece)
    ensures
        value == comma(),
{
    Piece { text: ", ", width: 2 }
}

fn bar_piece() -> (value: Piece)
    ensures
        value == bar(),
{
    Piece { text: " | ", width: 3 }
}

/// The names of the visible `metas` (see `name_items`), joined by commas.
pub open spec fn names_span(
    metas: Seq<Meta>,
    short: bool,
    long: bool,
    prefix: Seq<Piece>,
    suffix: Seq<Piece>,
) -> Span {
    join_span(
        pieces(prefix),
        pieces(suffix),
        pieces(seq![comma()]),
        name_items(spec_visible(metas), short, long, 0),
    )
}

/// The texts of kind `kind` of the visible `metas`, joined by `separator`.
pub open spec fn picked_span(
    kind: Pick,
    metas: Seq<Meta>,
    prefix: Seq<Piece>,
    suffix: Seq<Piece>,
    separator: Piece,
) -> Span {
    join_span(
        pieces(prefix),
        pieces(suffix),
        pieces(seq![separator]),
        picked_texts(kind, spec_visible(metas)),
    )
}

/// The last type named among the visible `metas`, framed; nothing without
/// one.
pub open spec fn types_span(metas: Seq<Meta>, prefix: Seq<Piece>, suffix: Seq<Piece>) -> Span {
    match last_type(spec_visible(metas)) {
        Some(name) => then(then(pieces(prefix), plain(name@)), pieces(suffix)),
        None => nothing(),
    }
}

/// The tags of an option: `require`, `swizzle` and `many` joined by commas,
/// then the regular expressions after `valid: ` and the defaults after
/// `default: `, each group joined by ` | ` and set apart by a comma.
pub open spec fn tags_span(metas: Seq<Meta>) -> Span {
    let words = picked_span(Pick::Tag, metas, Seq::empty(), Seq::empty(), comma());
    let first = if words.width > 0 {
        comma()
    } else {
        Piece { text: "", width: 0 }
    };
    let valid = picked_span(
        Pick::Valid,
        metas,
        seq![first, Piece { text: "valid: ", width: 7 }],
        Seq::empty(),
        bar(),
    );
    let so_far = then(words, valid);
    let second = if so_far.width > 0 {
        comma()
    } else {
        Piece { text: "", width: 0 }
    };
    let defaults = picked_span(
        Pick::Default,
        metas,
        seq![second, Piece { text: "default: ", width: 9 }],
        Seq::empty(),
        bar(),
    );
    then(so_far, defaults)
}

/// Appends the names of the visible `metas` (see `names_span`).
fn write_names(
    out: &mut String,
    metas: &[Meta],
    short: bool,
    long: bool,
    prefix: &[Piece],
    suffix: &[Piece],
) -> (width: usize)
    ensures
        final(out)@ == old(out)@ + names_span(metas@, short, long, prefix@, suffix@).text,
        width == names_span(metas@, short, long, prefix@, suffix@).width,
{
    let items = name_texts(metas, short, long);
    let separator = [comma_piece()];
    assert(separator@ =~= seq![comma()]);
    write_join(out, prefix, suffix, &separator, items.as_slice())
}

/// Appends the texts of kind `kind` of the visible `metas` (see
/// `picked_span`).
fn write_picked(
    out: &mut String,
    kind: Pick,
    metas: &[Meta],
    prefix: &[Piece],
    suffix: &[Piece],
    separator: Piece,
) -> (width: usize)
    ensures
        final(out)@ == old(out)@ + picked_span(kind, metas@, prefix@, suffix@, separator).text,
        width == picked_span(kind, metas@, prefix@, suffix@, separator).width,
{
    let items = pick_texts(kind, metas);
    let separators = [separator];
    assert(separators@ =~= seq![separator]);
    write_join(out, prefix, suffix, &separators, items.as_slice())
}

/// Appends the last type named among the visible `metas` (see
/// `types_span`).
fn write_types(out: &mut String, metas: &[Meta], prefix: &[Piece], suffix: &[Piece]) -> (width:
    usize)
    ensures
        final(out)@ == old(out)@ + types_span(metas@, prefix@, suffix@).text,
        width == types_span(metas@, prefix@, suffix@).width,
{
    let visible = Meta::visible(metas);
    let ghost all = visible@.map_values(|meta: &Meta| *meta);
    let mut name: Option<&Text> = None;
    let mut index: usize = 0;
    while index < visible.len()
        invariant
            index <= visible@.len(),
            all == visible@.map_values(|meta: &Meta| *meta),
            all == spec_visible(metas@),
            match name {
                Some(value) => last_type(all.take(index as int)) == Some(*value),
                None => last_type(all.take(index as int)) is None,
            },
        decreases visible@.len() - index,
    {
        assert(all.take(index + 1).drop_last() =~= all.take(index as int));
        assert(all.take(index + 1).last() == *visible@[index as int]);
        if let Meta::Type(value) = visible[index] {
            name = Some(value);
        }
        index = index + 1;
    }
    assert(all.take(visible@.len() as int) =~= all);
    match name {
        Some(name) => {
            let ghost start = out@;
            let mut width = write_pieces(out, prefix);
            width = width.saturating_add(write_str(out, name.as_str()));
            width = width.saturating_add(write_pieces(out, suffix));
            assert(out@ =~= start + types_span(metas@, prefix@, suffix@).text);
            width
        },
        None => 0,
    }
}

/// Appends the tags of an option (see `tags_span`).
fn write_tags(out: &mut String, metas: &[Meta]) -> (width: usize)
    ensures
        final(out)@ == old(out)@ + tags_span(metas@).text,
        width == tags_span(metas@).width,
{
    let ghost start = out@;
    let none: [Piece; 0] = [];
    assert(none@ =~= Seq::<Piece>::empty());
    let mut width = write_picked(out, Pick::Tag, metas, &none, &none, comma_piece());
    let first = if width > 0 {
        comma_piece()
    } else {
        Piece { text: "", width: 0 }
    };
    let valid = [first, Piece { text: "valid: ", width: 7 }];
    assert(valid@ =~= seq![first, Piece { text: "valid: ", width: 7 }]);
    width = width.saturating_add(write_picked(out, Pick::Valid, metas, &valid, &none, bar_piece()));
    let second = if width > 0 {
        comma_piece()
    } else {
        Piece { text: "", width: 0 }
    };
    let defaults = [second, Piece { text: "default: ", width: 9 }];
    assert(defaults@ =~= seq![second, Piece { text: "default: ", width: 9 }]);
    width = width.saturating_add(
        write_picked(out, Pick::Default, metas, &defaults, &none, bar_piece()),
    );
    assert(out@ =~= start + tags_span(metas@).text);
    width
}

/// The parts of `text` between the `separator`s, as `str::split` gives
/// them: one more part than separators.
pub open spec fn split(text: Seq<char>, separator: char) -> Seq<Seq<char>>
    decreases text.len(),
{
    if text.len() == 0 {
        seq![Seq::empty()]
    } else {
        let parts = split(text.drop_last(), separator);
        if text.last() == separator {
            parts.push(Seq::empty())
        } else {
            parts.update(parts.len() - 1, parts.last().push(text.last()))
        }
    }
}

proof fn lemma_split_not_empty(text: Seq<char>, separator: char)
    ensures
        split(text, separator).len() >= 1,
    decreases text.len(),
{
    if text.len() > 0 {
        lemma_split_not_empty(text.drop_last(), separator);
    }
}

/// The parts of `text` between the `separator`s (see `split`).
fn split_at(text: &str, separator: char) -> (parts: Vec<String>)
    ensures
        parts@.map_values(|part: String| part@) == split(text@, separator),
{
    let mut parts: Vec<String> = Vec::new();
    let mut current = String::new();
    for letter in iter: text.chars()
        invariant
            iter.seq() == text@,
            parts@.map_values(|part: String| part@).push(current@) == split(
                text@.take(iter.index() as int),
                separator,
            ),
    {
        let ghost taken = text@.take(iter.index() + 1);
        assert(taken.drop_last() =~= text@.take(iter.index() as int));
        assert(taken.last() == letter);
        proof {
            lemma_split_not_empty(text@.take(iter.index() as int), separator);
        }
        let ghost before = parts@.map_values(|part: String| part@);
        if letter == separator {
            let done = current;
            let ghost finished = done@;
            parts.push(done);
            current = String::new();
            assert(parts@.map_values(|part: String| part@) =~= before.push(finished));
            assert(parts@.map_values(|part: String| part@).push(current@) =~= split(taken, separator));
        } else {
            let ghost was = current@;
            current.push(letter);
            assert(before.push(current@) =~= before.push(was).update(
                before.push(was).len() - 1,
                before.push(was).last().push(letter),
            ));
        }
    }
    assert(text@.take(text@.len() as int) =~= text@);
    let ghost before = parts@.map_values(|part: String| part@);
    let ghost last = current@;
    parts.push(current);
    assert(parts@.map_values(|part: String| part@) =~= before.push(last));
    parts
}

/// The number of bytes of `text`.
pub open spec fn byte_length(text: Seq<char>) -> nat {
    vstd::utf8::encode_utf8(text).len()
}

/// `first` then the text of `second`, whose columns are not counted.
pub open spec fn quietly(first: Span, second: Span) -> Span {
    Span { text: first.text + second.text, width: first.width }
}

/// A line break, the indentation and the decoration of a wrapped line; the
/// indentation is not counted.
pub open spec fn break_line(out: Span, indent: usize, wrap: Span) -> Span {
    then(quietly(then(out, line(nothing())), spaces(indent)), wrap)
}

/// One word of a line at `cursor`: a space before all but the first word,
/// a line break before a word that would pass `width`, then the word,
/// whose columns move the cursor but are not counted.
pub open spec fn put_word(
    indent: usize,
    width: usize,
    wrap: Span,
    word: Seq<char>,
    first: bool,
    out: Span,
    cursor: usize,
) -> (Span, usize) {
    let spaced = if first {
        out
    } else {
        then(out, plain(" "@))
    };
    let (broken, at) = if cursor.saturating_add(byte_length(word) as usize) > width {
        (break_line(spaced, indent, wrap), indent)
    } else {
        (spaced, cursor)
    };
    (quietly(broken, plain(word)), at.saturating_add(word.len() as usize))
}

/// The words of a line, one after the other (see `put_word`).
pub open spec fn put_words(
    indent: usize,
    width: usize,
    wrap: Span,
    words: Seq<Seq<char>>,
    out: Span,
    cursor: usize,
) -> (Span, usize)
    decreases words.len(),
{
    if words.len() == 0 {
        (out, cursor)
    } else {
        let (before, at) = put_words(indent, width, wrap, words.drop_last(), out, cursor);
        put_word(indent, width, wrap, words.last(), words.len() == 1, before, at)
    }
}

/// The lines of a text, one after the other: the first after `prefix`
/// unless something was written before (`wrote`), every other after a line
/// break; then its words.
pub open spec fn put_lines(
    indent: usize,
    width: usize,
    prefix: Span,
    wrap: Span,
    lines: Seq<Seq<char>>,
    wrote: bool,
    out: Span,
    cursor: usize,
) -> (Span, usize)
    decreases lines.len(),
{
    if lines.len() == 0 {
        (out, cursor)
    } else {
        let (before, at) = put_lines(indent, width, prefix, wrap, lines.drop_last(), wrote, out, cursor);
        let (started, start) = if lines.len() == 1 && !wrote {
            (then(before, prefix), at)
        } else {
            (break_line(before, indent, wrap), indent)
        };
        put_words(indent, width, wrap, split(lines.last(), ' '), started, start)
    }
}

/// A text wrapped at `width` (see `put_lines`), followed by `suffix` when
/// anything was counted; nothing for an empty text. The result is what is
/// written, the cursor after it, and whether something was written.
pub open spec fn wrap_span(
    indent: usize,
    width: usize,
    value: Seq<char>,
    prefix: Span,
    suffix: Span,
    wrap: Span,
    cursor: usize,
    wrote: bool,
) -> (Span, usize, bool) {
    if value.len() == 0 {
        (nothing(), cursor, wrote)
    } else {
        let (written, at) = put_lines(
            indent,
            width,
            prefix,
            wrap,
            split(value, '\n'),
            wrote,
            nothing(),
            cursor,
        );
        (if written.width > 0 {
            then(written, suffix)
        } else {
            written
        }, at, true)
    }
}

/// Words written after other text add the same text whatever came before.
proof fn lemma_put_words_shift(
    indent: usize,
    width: usize,
    wrap: Span,
    words: Seq<Seq<char>>,
    before: Seq<char>,
    out: Span,
    cursor: usize,
)
    ensures
        ({
            let (shifted, shifted_at) = put_words(
                indent,
                width,
                wrap,
                words,
                Span { text: before + out.text, width: out.width },
                cursor,
            );
            let (own, own_at) = put_words(indent, width, wrap, words, out, cursor);
            &&& shifted.text == before + own.text
            &&& shifted.width == own.width
            &&& shifted_at == own_at
        }),
    decreases words.len(),
{
    if words.len() > 0 {
        lemma_put_words_shift(indent, width, wrap, words.drop_last(), before, out, cursor);
        let (own, own_at) = put_words(indent, width, wrap, words.drop_last(), out, cursor);
        let (shifted, shifted_at) = put_words(
            indent,
            width,
            wrap,
            words.drop_last(),
            Span { text: before + out.text, width: out.width },
            cursor,
        );
        assert(shifted == Span { text: before + own.text, width: own.width });
        let word = words.last();
        let first = words.len() == 1;
        let spaced_own = if first {
            own
        } else {
            then(own, plain(" "@))
        };
        let spaced_shifted = if first {
            shifted
        } else {
            then(shifted, plain(" "@))
        };
        assert(spaced_shifted.text =~= before + spaced_own.text);
        assert(break_line(spaced_shifted, indent, wrap).text =~= before + break_line(
            spaced_own,
            indent,
            wrap,
        ).text);
        assert(quietly(break_line(spaced_shifted, indent, wrap), plain(word)).text =~= before
            + quietly(break_line(spaced_own, indent, wrap), plain(word)).text);
        assert(quietly(spaced_shifted, plain(word)).text =~= before + quietly(
            spaced_own,
            plain(word),
        ).text);
    }
}

/// Appends the words of `line` (see `put_words`).
fn write_words(
    out: &mut String,
    indent: usize,
    width: usize,
    wrap: &[Piece],
    line: &str,
    written: usize,
    cursor: &mut usize,
) -> (total: usize)
    ensures
        ({
            let (span, at) = put_words(
                indent,
                width,
                pieces(wrap@),
                split(line@, ' '),
                Span { text: old(out)@, width: written },
                *old(cursor),
            );
            &&& final(out)@ == span.text
            &&& total == span.width
            &&& *final(cursor) == at
        }),
{
    let words = split_at(line, ' ');
    let ghost all = words@.map_values(|word: String| word@);
    let ghost start = Span { text: out@, width: written };
    let ghost first_cursor = *cursor;
    let mut total = written;
    let mut index: usize = 0;
    while index < words.len()
        invariant
            index <= words@.len(),
            all == words@.map_values(|word: String| word@),
            all == split(line@, ' '),
            ({
                let (span, at) = put_words(
                    indent,
                    width,
                    pieces(wrap@),
                    all.take(index as int),
                    start,
                    first_cursor,
                );
                &&& out@ == span.text
                &&& total == span.width
                &&& *cursor == at
            }),
        decreases words@.len() - index,
    {
        let ghost taken = all.take(index + 1);
        assert(taken.drop_last() =~= all.take(index as int));
        assert(taken.last() == words@[index as int]@);
        let word = words[index].as_str();
        if index > 0 {
            total = total.saturating_add(write_str(out, " "));
        }
        let bytes = word.as_bytes().len();
        if cursor.saturating_add(bytes) > width {
            write_newline(out);
            *cursor = write_spaces(out, indent);
            total = total.saturating_add(write_pieces(out, wrap));
        }
        let moved = write_str(out, word);
        *cursor = cursor.saturating_add(moved);
        index = index + 1;
        assert(out@ =~= put_words(indent, width, pieces(wrap@), taken, start, first_cursor).0.text);
    }
    assert(all.take(words@.len() as int) =~= all);
    total
}

/// Appends `value` wrapped at `width` (see `wrap_span`).
fn write_wrapped(
    out: &mut String,
    indent: usize,
    width: usize,
    value: &str,
    prefix: &[Piece],
    suffix: &[Piece],
    wrap: &[Piece],
    cursor: &mut usize,
    wrote: &mut bool,
) -> (total: usize)
    ensures
        ({
            let (span, at, had) = wrap_span(
                indent,
                width,
                value@,
                pieces(prefix@),
                pieces(suffix@),
                pieces(wrap@),
                *old(cursor),
                *old(wrote),
            );
            &&& final(out)@ == old(out)@ + span.text
            &&& total == span.width
            &&& *final(cursor) == at
            &&& *final(wrote) == had
        }),
{
    if value.is_empty() {
        assert(value@.len() == 0);
        assert(out@ =~= out@ + nothing().text);
        return 0;
    }
    let ghost start = out@;
    let ghost first_cursor = *cursor;
    let ghost first_wrote = *wrote;
    let lines = split_at(value, '\n');
    let ghost all = lines@.map_values(|line: String| line@);
    let mut total: usize = 0;
    let mut index: usize = 0;
    assert(Span { text: start, width: 0 } == then(Span { text: start, width: 0 }, nothing()));
    while index < lines.len()
        invariant
            index <= lines@.len(),
            all == lines@.map_values(|line: String| line@),
            all == split(value@, '\n'),
            index > 0 ==> *wrote,
            index == 0 ==> *wrote == first_wrote,
            ({
                let (span, at) = put_lines(
                    indent,
                    width,
                    pieces(prefix@),
                    pieces(wrap@),
                    all.take(index as int),
                    first_wrote,
                    nothing(),
                    first_cursor,
                );
                &&& out@ == start + span.text
                &&& total == span.width
                &&& *cursor == at
            }),
        decreases lines@.len() - index,
    {
        let ghost taken = all.take(index + 1);
        assert(taken.drop_last() =~= all.take(index as int));
        assert(taken.last() == lines@[index as int]@);
        let ghost before_out = out@;
        if index == 0 && !*wrote {
            *wrote = true;
            total = total.saturating_add(write_pieces(out, prefix));
        } else {
            *wrote = true;
            write_newline(out);
            *cursor = write_spaces(out, indent);
            total = total.saturating_add(write_pieces(out, wrap));
        }
        let ghost prior = put_lines(
            indent,
            width,
            pieces(prefix@),
            pieces(wrap@),
            all.take(index as int),
            first_wrote,
            nothing(),
            first_cursor,
        ).0;
        let ghost started = if index == 0 && !first_wrote {
            then(prior, pieces(prefix@))
        } else {
            break_line(prior, indent, pieces(wrap@))
        };
        assert(out@ =~= start + started.text);
        let ghost at = *cursor;
        total = write_words(out, indent, width, wrap, lines[index].as_str(), total, cursor);
        proof {
            lemma_put_words_shift(
                indent,
                width,
                pieces(wrap@),
                split(lines@[index as int]@, ' '),
                start,
                started,
                at,
            );
        }
        index = index + 1;
    }
    assert(all.take(lines@.len() as int) =~= all);
    proof {
        lemma_split_not_empty(value@, '\n');
    }
    let ghost written = put_lines(
        indent,
        width,
        pieces(prefix@),
        pieces(wrap@),
        all,
        first_wrote,
        nothing(),
        first_cursor,
    ).0;
    if total > 0 {
        total = total.saturating_add(write_pieces(out, suffix));
        assert(out@ =~= start + then(written, pieces(suffix@)).text);
    }
    total
}


/// The summaries of the visible `metas` that are not blank, each on a line
/// of its own at `indent`, wrapped with `line` before each wrapped line;
/// then `suffix` when anything was counted.
pub open spec fn description_lines(
    indent: usize,
    width: usize,
    metas: Seq<Meta>,
    prefix: Span,
    line_start: Span,
    out: Span,
) -> Span
    decreases metas.len(),
{
    if metas.len() == 0 {
        out
    } else {
        let before = description_lines(indent, width, metas.drop_last(), prefix, line_start, out);
        match metas.last() {
            Meta::Summary(value) => if blank(value@) {
                before
            } else {
                let started = then(then(before, line(nothing())), spaces(indent));
                then(
                    started,
                    wrap_span(indent, width, value@, prefix, nothing(), line_start, 0, false).0,
                )
            },
            _ => before,
        }
    }
}

/// The description of a node (see `description_lines`).
pub open spec fn description_span(
    indent: usize,
    width: usize,
    metas: Seq<Meta>,
    prefix: Span,
    suffix: Span,
    line_start: Span,
) -> Span {
    let lines = description_lines(
        indent,
        width,
        spec_visible(metas),
        prefix,
        line_start,
        nothing(),
    );
    if lines.width > 0 {
        then(lines, suffix)
    } else {
        lines
    }
}

/// The texts of the visible `metas` of one kind, wrapped one after the
/// other from `cursor`.
pub open spec fn wrap_all(
    indent: usize,
    width: usize,
    texts: Seq<Seq<char>>,
    prefix: Span,
    suffix: Span,
    out: Span,
    cursor: usize,
    wrote: bool,
) -> (Span, usize, bool)
    decreases texts.len(),
{
    if texts.len() == 0 {
        (out, cursor, wrote)
    } else {
        let (before, at, had) = wrap_all(
            indent,
            width,
            texts.drop_last(),
            prefix,
            suffix,
            out,
            cursor,
            wrote,
        );
        let (added, next, now) = wrap_span(
            indent,
            width,
            texts.last(),
            prefix,
            suffix,
            nothing(),
            at,
            had,
        );
        (then(before, added), next, now)
    }
}

/// The summaries of the visible `metas`, of one kind.
pub open spec fn summaries(metas: Seq<Meta>) -> Seq<Seq<char>>
    decreases metas.len(),
{
    if metas.len() == 0 {
        Seq::empty()
    } else {
        match metas.last() {
            Meta::Summary(value) => summaries(metas.drop_last()).push(value@),
            _ => summaries(metas.drop_last()),
        }
    }
}

/// The help texts of the visible `metas`.
pub open spec fn helps(metas: Seq<Meta>) -> Seq<Seq<char>>
    decreases metas.len(),
{
    if metas.len() == 0 {
        Seq::empty()
    } else {
        match metas.last() {
            Meta::Help(value) => helps(metas.drop_last()).push(value@),
            _ => helps(metas.drop_last()),
        }
    }
}

/// The summary of a node, wrapped from `cursor`: its summaries, or its help
/// texts when the summaries count nothing.
pub open spec fn summary_span(
    indent: usize,
    width: usize,
    metas: Seq<Meta>,
    prefix: Span,
    suffix: Span,
    cursor: usize,
) -> Span {
    let visible = spec_visible(metas);
    let (first, at, wrote) = wrap_all(
        indent,
        width,
        summaries(visible),
        prefix,
        suffix,
        nothing(),
        cursor,
        false,
    );
    if first.width == 0 {
        wrap_all(indent, width, helps(visible), prefix, suffix, first, at, wrote).0
    } else {
        first
    }
}


/// Appends the description of a node (see `description_span`).
fn write_description(
    out: &mut String,
    indent: usize,
    width: usize,
    metas: &[Meta],
    prefix: &[Piece],
    suffix: &[Piece],
    line_start: &[Piece],
) -> (count: usize)
    ensures
        final(out)@ == old(out)@ + description_span(
            indent,
            width,
            metas@,
            pieces(prefix@),
            pieces(suffix@),
            pieces(line_start@),
        ).text,
        count == description_span(
            indent,
            width,
            metas@,
            pieces(prefix@),
            pieces(suffix@),
            pieces(line_start@),
        ).width,
{
    let ghost start = out@;
    let visible = Meta::visible(metas);
    let ghost all = visible@.map_values(|meta: &Meta| *meta);
    let none: [Piece; 0] = [];
    assert(none@ =~= Seq::<Piece>::empty());
    let mut count: usize = 0;
    let mut index: usize = 0;
    while index < visible.len()
        invariant
            index <= visible@.len(),
            all == visible@.map_values(|meta: &Meta| *meta),
            all == spec_visible(metas@),
            none@ == Seq::<Piece>::empty(),
            out@ == start + description_lines(
                indent,
                width,
                all.take(index as int),
                pieces(prefix@),
                pieces(line_start@),
                nothing(),
            ).text,
            count == description_lines(
                indent,
                width,
                all.take(index as int),
                pieces(prefix@),
                pieces(line_start@),
                nothing(),
            ).width,
        decreases visible@.len() - index,
    {
        assert(all.take(index + 1).drop_last() =~= all.take(index as int));
        assert(all.take(index + 1).last() == *visible@[index as int]);
        if let Meta::Summary(value) = visible[index] {
            if !is_blank(value.as_str()) {
                let ghost before = out@;
                write_newline(out);
                count = count.saturating_add(write_spaces(out, indent));
                let mut cursor: usize = 0;
                let mut wrote = false;
                count = count.saturating_add(
                    write_wrapped(
                        out,
                        indent,
                        width,
                        value.as_str(),
                        prefix,
                        &none,
                        line_start,
                        &mut cursor,
                        &mut wrote,
                    ),
                );
                assert(pieces(Seq::<Piece>::empty()) == nothing());
                assert(out@ =~= start + description_lines(
                    indent,
                    width,
                    all.take(index + 1),
                    pieces(prefix@),
                    pieces(line_start@),
                    nothing(),
                ).text);
            }
        }
        index = index + 1;
    }
    assert(all.take(visible@.len() as int) =~= all);
    if count > 0 {
        let ghost lines = out@;
        count = count.saturating_add(write_pieces(out, suffix));
        assert(out@ =~= start + then(
            description_lines(
                indent,
                width,
                all,
                pieces(prefix@),
                pieces(line_start@),
                nothing(),
            ),
            pieces(suffix@),
        ).text);
    }
    count
}

/// Wraps the texts of one kind among `visible` (see `wrap_all`); `summary`
/// picks summaries, else help texts.
#[verifier::rlimit(40)]
fn write_all(
    out: &mut String,
    indent: usize,
    width: usize,
    visible: &Vec<&Meta>,
    summary: bool,
    prefix: &[Piece],
    suffix: &[Piece],
    cursor: &mut usize,
    wrote: &mut bool,
    written: usize,
) -> (total: usize)
    ensures
        ({
            let all = visible@.map_values(|meta: &Meta| *meta);
            let texts = if summary {
                summaries(all)
            } else {
                helps(all)
            };
            let (span, at, now) = wrap_all(
                indent,
                width,
                texts,
                pieces(prefix@),
                pieces(suffix@),
                Span { text: Seq::empty(), width: written },
                *old(cursor),
                *old(wrote),
            );
            &&& final(out)@ == old(out)@ + span.text
            &&& total == span.width
            &&& *final(cursor) == at
            &&& *final(wrote) == now
        }),
{
    let ghost start = out@;
    let ghost all = visible@.map_values(|meta: &Meta| *meta);
    let ghost first_cursor = *cursor;
    let ghost first_wrote = *wrote;
    let ghost origin = Span { text: Seq::empty(), width: written };
    let mut total = written;
    let mut index: usize = 0;
    while index < visible.len()
        invariant
            index <= visible@.len(),
            all == visible@.map_values(|meta: &Meta| *meta),
            ({
                let texts = if summary {
                    summaries(all.take(index as int))
                } else {
                    helps(all.take(index as int))
                };
                let (span, at, now) = wrap_all(
                    indent,
                    width,
                    texts,
                    pieces(prefix@),
                    pieces(suffix@),
                    origin,
                    first_cursor,
                    first_wrote,
                );
                &&& out@ == start + span.text
                &&& total == span.width
                &&& *cursor == at
                &&& *wrote == now
            }),
        decreases visible@.len() - index,
    {
        let ghost taken = all.take(index + 1);
        assert(taken.drop_last() =~= all.take(index as int));
        assert(taken.last() == *visible@[index as int]);
        let text = match visible[index] {
            Meta::Summary(value) => if summary {
                Some(value)
            } else {
                None
            },
            Meta::Help(value) => if summary {
                None
            } else {
                Some(value)
            },
            _ => None,
        };
        if let Some(value) = text {
            let added = write_wrapped(
                out,
                indent,
                width,
                value.as_str(),
                prefix,
                suffix,
                &[],
                cursor,
                wrote,
            );
            total = total.saturating_add(added);
            assert(pieces(Seq::<Piece>::empty()) == nothing());
            let ghost texts = if summary {
                summaries(taken)
            } else {
                helps(taken)
            };
            assert(texts.drop_last() =~= (if summary {
                summaries(all.take(index as int))
            } else {
                helps(all.take(index as int))
            }));
            assert(out@ =~= start + wrap_all(
                indent,
                width,
                texts,
                pieces(prefix@),
                pieces(suffix@),
                origin,
                first_cursor,
                first_wrote,
            ).0.text);
        }
        index = index + 1;
    }
    assert(all.take(visible@.len() as int) =~= all);
    total
}

/// Texts wrapped after other text add the same text whatever came before.
proof fn lemma_wrap_all_shift(
    indent: usize,
    width: usize,
    texts: Seq<Seq<char>>,
    prefix: Span,
    suffix: Span,
    out: Span,
    cursor: usize,
    wrote: bool,
)
    ensures
        ({
            let (whole, whole_at, whole_wrote) = wrap_all(
                indent,
                width,
                texts,
                prefix,
                suffix,
                out,
                cursor,
                wrote,
            );
            let (own, own_at, own_wrote) = wrap_all(
                indent,
                width,
                texts,
                prefix,
                suffix,
                Span { text: Seq::empty(), width: out.width },
                cursor,
                wrote,
            );
            &&& whole.text == out.text + own.text
            &&& whole.width == own.width
            &&& whole_at == own_at
            &&& whole_wrote == own_wrote
        }),
    decreases texts.len(),
{
    if texts.len() == 0 {
        assert(out.text + Seq::<char>::empty() =~= out.text);
    } else {
        lemma_wrap_all_shift(indent, width, texts.drop_last(), prefix, suffix, out, cursor, wrote);
        let (whole, at, now) = wrap_all(
            indent,
            width,
            texts.drop_last(),
            prefix,
            suffix,
            out,
            cursor,
            wrote,
        );
        let (own, own_at, own_now) = wrap_all(
            indent,
            width,
            texts.drop_last(),
            prefix,
            suffix,
            Span { text: Seq::empty(), width: out.width },
            cursor,
            wrote,
        );
        let (added, next, later) = wrap_span(
            indent,
            width,
            texts.last(),
            prefix,
            suffix,
            nothing(),
            at,
            now,
        );
        assert(then(whole, added).text =~= out.text + then(own, added).text);
    }
}

/// Appends the summary of a node (see `summary_span`).
fn write_summary(
    out: &mut String,
    indent: usize,
    width: usize,
    metas: &[Meta],
    prefix: &[Piece],
    suffix: &[Piece],
    cursor: usize,
) -> (total: usize)
    ensures
        final(out)@ == old(out)@ + summary_span(
            indent,
            width,
            metas@,
            pieces(prefix@),
            pieces(suffix@),
            cursor,
        ).text,
        total == summary_span(indent, width, metas@, pieces(prefix@), pieces(suffix@), cursor).width,
{
    let ghost start = out@;
    let ghost first_cursor = cursor;
    let visible = Meta::visible(metas);
    let mut cursor = cursor;
    let mut wrote = false;
    let mut total = write_all(out, indent, width, &visible, true, prefix, suffix, &mut cursor, &mut wrote, 0);
    assert(Span { text: Seq::empty(), width: 0 } == nothing());
    if total == 0 {
        let ghost middle = out@;
        total = write_all(out, indent, width, &visible, false, prefix, suffix, &mut cursor, &mut wrote, total);
        proof {
            let all = visible@.map_values(|meta: &Meta| *meta);
            let (first, at, now) = wrap_all(
                indent,
                width,
                summaries(all),
                pieces(prefix@),
                pieces(suffix@),
                nothing(),
                first_cursor,
                false,
            );
            lemma_wrap_all_shift(
                indent,
                width,
                helps(all),
                pieces(prefix@),
                pieces(suffix@),
                first,
                at,
                now,
            );
        }
    }
    total
}


/// The widths of the columns of short names, long names and types.
#[derive(Clone, Copy, PartialEq, Eq, Structural)]
pub struct Columns {
    pub short: usize,
    pub long: usize,
    pub types: usize,
}

/// The larger of two widths.
pub open spec fn larger(a: usize, b: usize) -> usize {
    if a >= b {
        a
    } else {
        b
    }
}

/// The columns that the visible `metas` need, `depth` levels down, with
/// whether a short and a long name were counted and the positions counted
/// so far: at the last level a position takes `[k]` in the short column, a
/// one-character name takes its bytes in the long column and a longer name
/// in the short column (two more columns for each further name), and a type
/// takes its bytes and the type decoration; above it, a node takes the
/// larger widths of its own and its children's.
pub open spec fn columns_of(
    type_width: usize,
    metas: Seq<Meta>,
    depth: nat,
    position: usize,
) -> (Columns, bool, bool, usize)
    decreases depth, metas.len(),
{
    if metas.len() == 0 {
        (Columns { short: 0, long: 0, types: 0 }, false, false, position)
    } else {
        let (columns, short, long, at) = columns_of(type_width, metas.drop_last(), depth, position);
        match metas.last() {
            Meta::Position => if depth == 0 {
                let next = at.saturating_add(1);
                let own: usize = if next < 10 {
                    3
                } else {
                    4
                };
                let more: usize = if short {
                    2
                } else {
                    0
                };
                (
                    Columns { short: columns.short.saturating_add((own + more) as usize), ..columns },
                    true,
                    long,
                    next,
                )
            } else {
                (columns, short, long, at)
            },
            Meta::Name(value) => if depth == 0 {
                let bytes = byte_length(value@) as usize;
                match spec_prefix(value@.len()) {
                    Prefix::Empty => (columns, short, long, at),
                    Prefix::Short => {
                        let more: usize = if long {
                            2
                        } else {
                            0
                        };
                        (
                            Columns { long: columns.long.saturating_add(bytes.saturating_add(more)), ..columns },
                            short,
                            true,
                            at,
                        )
                    },
                    Prefix::Long => {
                        let more: usize = if short {
                            2
                        } else {
                            0
                        };
                        (
                            Columns {
                                short: columns.short.saturating_add(bytes.saturating_add(more)),
                                ..columns
                            },
                            true,
                            long,
                            at,
                        )
                    },
                }
            } else {
                (columns, short, long, at)
            },
            Meta::Type(value) => if depth == 0 {
                (
                    Columns {
                        types: (byte_length(value@) as usize).saturating_add(type_width),
                        ..columns
                    },
                    short,
                    long,
                    at,
                )
            } else {
                (columns, short, long, at)
            },
            Meta::Option(children) | Meta::Verb(children) | Meta::Group(children) => if depth > 0 {
                let (child, _, _, next) = columns_of(
                    type_width,
                    spec_visible(children@),
                    (depth - 1) as nat,
                    at,
                );
                (
                    Columns {
                        short: larger(columns.short, child.short),
                        long: larger(columns.long, child.long),
                        types: larger(columns.types, child.types),
                    },
                    short,
                    long,
                    next,
                )
            } else {
                (columns, short, long, at)
            },
            _ => (columns, short, long, at),
        }
    }
}

/// The columns of a node (see `columns_of`).
fn columns(type_width: usize, metas: &[Meta], position: &mut usize, depth: usize) -> (columns: Columns)
    ensures
        (columns, *final(position)) == ({
            let (columns, _, _, at) = columns_of(
                type_width,
                spec_visible(metas@),
                depth as nat,
                *old(position),
            );
            (columns, at)
        }),
    decreases depth,
{
    let visible = Meta::visible(metas);
    let ghost all = visible@.map_values(|meta: &Meta| *meta);
    let ghost first = *position;
    let mut short = false;
    let mut long = false;
    let mut columns = Columns { short: 0, long: 0, types: 0 };
    let mut index: usize = 0;
    while index < visible.len()
        invariant
            index <= visible@.len(),
            all == visible@.map_values(|meta: &Meta| *meta),
            all == spec_visible(metas@),
            (columns, short, long, *position) == columns_of(
                type_width,
                all.take(index as int),
                depth as nat,
                first,
            ),
        decreases visible@.len() - index,
    {
        assert(all.take(index + 1).drop_last() =~= all.take(index as int));
        assert(all.take(index + 1).last() == *visible@[index as int]);
        match visible[index] {
            Meta::Position => {
                if depth == 0 {
                    *position = position.saturating_add(1);
                    let own: usize = if *position < 10 {
                        3
                    } else {
                        4
                    };
                    let more: usize = if short {
                        2
                    } else {
                        0
                    };
                    short = true;
                    columns.short = columns.short.saturating_add(own + more);
                }
            },
            Meta::Name(value) => {
                if depth == 0 {
                    let bytes = value.as_str().len();
                    match prefix(value.as_str()) {
                        Prefix::Empty => {},
                        Prefix::Short => {
                            let more: usize = if long {
                                2
                            } else {
                                0
                            };
                            long = true;
                            columns.long = columns.long.saturating_add(bytes.saturating_add(more));
                        },
                        Prefix::Long => {
                            let more: usize = if short {
                                2
                            } else {
                                0
                            };
                            short = true;
                            columns.short = columns.short.saturating_add(
                                bytes.saturating_add(more),
                            );
                        },
                    }
                }
            },
            Meta::Type(value) => {
                if depth == 0 {
                    columns.types = value.as_str().len().saturating_add(type_width);
                }
            },
            Meta::Option(children) | Meta::Verb(children) | Meta::Group(children) => {
                if depth > 0 {
                    let child = self::columns(type_width, children.as_slice(), position, depth - 1);
                    columns.short = if columns.short >= child.short {
                        columns.short
                    } else {
                        child.short
                    };
                    columns.long = if columns.long >= child.long {
                        columns.long
                    } else {
                        child.long
                    };
                    columns.types = if columns.types >= child.types {
                        columns.types
                    } else {
                        child.types
                    };
                }
            },
            _ => {},
        }
        index = index + 1;
    }
    assert(all.take(visible@.len() as int) =~= all);
    columns
}

/// A column of `width` holding `inner`, padded to the width and then by
/// `pad` spaces; nothing for a column of no width.
pub open spec fn column_span(width: usize, pad: usize, inner: Span) -> Span {
    if width == 0 {
        nothing()
    } else {
        then(inner, spaces(width.saturating_sub(inner.width).saturating_add(pad)))
    }
}

/// The columns of a verb or an option: its short names, its long names and
/// its type, each in its column and decorated as the item.
pub open spec fn columns_span(palette: PaletteView, metas: Seq<Meta>, columns: Columns, verb: bool) -> Span {
    let item = if verb {
        Item::Verb
    } else {
        Item::Option
    };
    let decorated = seq![palette.begin(item)];
    let closed = seq![palette.end(item)];
    let short = column_span(
        columns.short,
        palette.indent,
        names_span(metas, true, false, decorated, closed),
    );
    let long = column_span(
        columns.long,
        palette.indent,
        names_span(metas, false, true, decorated, closed),
    );
    let types = column_span(
        columns.types,
        palette.indent,
        types_span(metas, seq![palette.begin(Item::Type)], seq![palette.end(Item::Type)]),
    );
    then(then(short, long), types)
}

/// Pads a column of `width` that holds `count` columns, then `pad` more.
fn write_padding(out: &mut String, width: usize, count: usize, pad: usize) -> (total: usize)
    ensures
        final(out)@ == old(out)@ + spaces(width.saturating_sub(count).saturating_add(pad)).text,
        total == count.saturating_add(width.saturating_sub(count).saturating_add(pad)),
{
    count.saturating_add(write_spaces(out, width.saturating_sub(count).saturating_add(pad)))
}

/// Appends a column of names (see `column_span`).
fn write_name_column(
    out: &mut String,
    metas: &[Meta],
    width: usize,
    pad: usize,
    short: bool,
    decorated: &[Piece],
    closed: &[Piece],
) -> (total: usize)
    ensures
        final(out)@ == old(out)@ + column_span(
            width,
            pad,
            names_span(metas@, short, !short, decorated@, closed@),
        ).text,
        total == column_span(width, pad, names_span(metas@, short, !short, decorated@, closed@)).width,
{
    if width == 0 {
        assert(out@ =~= out@ + nothing().text);
        return 0;
    }
    let ghost start = out@;
    let count = write_names(out, metas, short, !short, decorated, closed);
    let total = write_padding(out, width, count, pad);
    assert(out@ =~= start + column_span(
        width,
        pad,
        names_span(metas@, short, !short, decorated@, closed@),
    ).text);
    total
}

/// Appends a column of the type (see `column_span`).
fn write_type_column(
    out: &mut String,
    metas: &[Meta],
    width: usize,
    pad: usize,
    typed: &[Piece],
    untyped: &[Piece],
) -> (total: usize)
    ensures
        final(out)@ == old(out)@ + column_span(width, pad, types_span(metas@, typed@, untyped@)).text,
        total == column_span(width, pad, types_span(metas@, typed@, untyped@)).width,
{
    if width == 0 {
        assert(out@ =~= out@ + nothing().text);
        return 0;
    }
    let ghost start = out@;
    let count = write_types(out, metas, typed, untyped);
    let total = write_padding(out, width, count, pad);
    assert(out@ =~= start + column_span(width, pad, types_span(metas@, typed@, untyped@)).text);
    total
}

/// Appends the columns of a verb or an option (see `columns_span`).
fn write_columns(
    out: &mut String,
    palette: &Palette,
    metas: &[Meta],
    columns: Columns,
    verb: bool,
) -> (width: usize)
    requires
        palette.complete(),
    ensures
        final(out)@ == old(out)@ + columns_span(palette@, metas@, columns, verb).text,
        width == columns_span(palette@, metas@, columns, verb).width,
{
    let ghost start = out@;
    let item = if verb {
        Item::Verb
    } else {
        Item::Option
    };
    let decorated = [palette.begin_piece(item)];
    let closed = [palette.end_piece(item)];
    let typed = [palette.begin_piece(Item::Type)];
    let untyped = [palette.end_piece(Item::Type)];
    assert(decorated@ =~= seq![palette.begin(item)]);
    assert(closed@ =~= seq![palette.end(item)]);
    assert(typed@ =~= seq![palette.begin(Item::Type)]);
    assert(untyped@ =~= seq![palette.end(Item::Type)]);
    let pad = palette.indent;
    let mut width = write_name_column(out, metas, columns.short, pad, true, &decorated, &closed);
    width = width.saturating_add(
        write_name_column(out, metas, columns.long, pad, false, &decorated, &closed),
    );
    width = width.saturating_add(
        write_type_column(out, metas, columns.types, pad, &typed, &untyped),
    );
    assert(out@ =~= start + columns_span(palette@, metas@, columns, verb).text);
    width
}


/// A space as a piece.
pub open spec fn space() -> Piece {
    Piece { text: " ", width: 1 }
}

fn space_piece() -> (value: Piece)
    ensures
        value == space(),
{
    Piece { text: " ", width: 1 }
}

/// Whether an option is among the visible `metas` or, `depth` levels down,
/// among the visible descriptions of their nodes.
pub open spec fn has_option(metas: Seq<Meta>, depth: nat) -> bool
    decreases depth, metas.len(),
{
    if metas.len() == 0 {
        false
    } else {
        ||| has_option(metas.drop_last(), depth)
        ||| metas.last() is Option
        ||| (depth > 0 && has_option(
            spec_visible(spec_children(metas.last())),
            (depth - 1) as nat,
        ))
    }
}

/// The value a group requires shown after the group as ` <value>`: the
/// visible `metas` are read depth first, each after its own visible
/// descriptions (`depth` levels down); a required value is remembered,
/// written when its group ends, and forgotten at the end of any node.
pub open spec fn required_after(metas: Seq<Meta>, depth: nat, state: Option<Text>, out: Span) -> (
    Option<Text>,
    Span,
)
    decreases depth, metas.len(),
{
    if metas.len() == 0 {
        (state, out)
    } else {
        let (before, written) = required_after(metas.drop_last(), depth, state, out);
        let meta = metas.last();
        let (inner, inside) = if depth > 0 {
            required_after(spec_visible(spec_children(meta)), (depth - 1) as nat, before, written)
        } else {
            (before, written)
        };
        match meta {
            Meta::Require(value) => (Some(value), inside),
            Meta::Group(_) => (None, match inner {
                Some(value) => then(
                    then(then(then(inside, plain(" "@)), plain("<"@)), plain(value@)),
                    plain(">"@),
                ),
                None => inside,
            }),
            Meta::Option(_) | Meta::Verb(_) => (None, inside),
            _ => (inner, inside),
        }
    }
}

/// The first name among `metas`.
pub open spec fn first_name(metas: Seq<Meta>) -> Option<Text>
    decreases metas.len(),
{
    if metas.len() == 0 {
        None
    } else {
        match metas[0] {
            Meta::Name(value) => Some(value),
            _ => first_name(metas.drop_first()),
        }
    }
}

/// The key of the whole command line: its first visible name, as written.
pub open spec fn root_key(root: Meta) -> Option<Key> {
    match first_name(spec_visible(spec_children(root))) {
        Some(value) => Some(Key::Name(Name { value, prefixes: (None, None), case: None })),
        None => None,
    }
}

/// A key as written.
pub open spec fn key_span(key: Key) -> Span {
    Span { text: key_text(key), width: key_width(key) as usize }
}

/// `keys`, each after a space, written after `out`.
pub open spec fn keys_after(keys: Seq<Key>, out: Span) -> Span
    decreases keys.len(),
{
    if keys.len() == 0 {
        out
    } else {
        then(then(keys_after(keys.drop_last(), out), plain(" "@)), key_span(keys.last()))
    }
}

/// The usage line of a node without usages, after `written` columns:
/// `Usage:`, the keys from the whole command line to the node, `[OPTIONS]`
/// when it has options, and the values its groups require.
pub open spec fn usage_line(
    path: Seq<Key>,
    root: Meta,
    metas: Seq<Meta>,
    prefix: Span,
    suffix: Span,
    written: usize,
) -> Span {
    let visible = spec_visible(metas);
    let keys = match root_key(root) {
        Some(key) => seq![key] + path,
        None => path,
    };
    let listed = keys_after(
        keys,
        then(then(Span { text: Seq::empty(), width: written }, prefix), plain("Usage:"@)),
    );
    let optioned = if has_option(visible, usize::MAX as nat) {
        then(listed, plain(" [OPTIONS]"@))
    } else {
        listed
    };
    then(required_after(visible, usize::MAX as nat, None, optioned).1, suffix)
}

/// The usage line of a node: its usages joined by spaces, else the line of
/// `usage_line`.
pub open spec fn usage_span(
    path: Seq<Key>,
    root: Meta,
    metas: Seq<Meta>,
    prefix: Span,
    suffix: Span,
) -> Span {
    let usages = join_span(
        prefix,
        suffix,
        pieces(seq![space()]),
        picked_texts(Pick::Usage, spec_visible(metas)),
    );
    if usages.width > 0 {
        usages
    } else {
        let line = usage_line(path, root, metas, prefix, suffix, usages.width);
        Span { text: usages.text + line.text, width: line.width }
    }
}

/// Whether an option is among the visible `metas` (see `has_option`).
fn any_option(metas: &[Meta], depth: usize) -> (found: bool)
    ensures
        found == has_option(spec_visible(metas@), depth as nat),
    decreases depth,
{
    let visible = Meta::visible(metas);
    let ghost all = visible@.map_values(|meta: &Meta| *meta);
    let mut index: usize = 0;
    while index < visible.len()
        invariant
            index <= visible@.len(),
            all == visible@.map_values(|meta: &Meta| *meta),
            all == spec_visible(metas@),
            !has_option(all.take(index as int), depth as nat),
        decreases visible@.len() - index,
    {
        assert(all.take(index + 1).drop_last() =~= all.take(index as int));
        assert(all.take(index + 1).last() == *visible@[index as int]);
        let meta = visible[index];
        if let Meta::Option(_) = meta {
            proof {
                lemma_has_option_grows(all, index as int + 1, depth as nat);
            }
            return true;
        }
        if depth > 0 && any_option(meta.children(), depth - 1) {
            proof {
                lemma_has_option_grows(all, index as int + 1, depth as nat);
            }
            return true;
        }
        index = index + 1;
    }
    assert(all.take(visible@.len() as int) =~= all);
    false
}

/// An option found early is found in the whole.
proof fn lemma_has_option_grows(metas: Seq<Meta>, count: int, depth: nat)
    requires
        0 <= count <= metas.len(),
        has_option(metas.take(count), depth),
    ensures
        has_option(metas, depth),
    decreases metas.len() - count,
{
    if count < metas.len() {
        assert(metas.take(count + 1).drop_last() =~= metas.take(count));
        lemma_has_option_grows(metas, count + 1, depth);
    } else {
        assert(metas.take(count) =~= metas);
    }
}

/// Appends the values that groups require (see `required_after`).
fn write_required(
    out: &mut String,
    metas: &[Meta],
    depth: usize,
    state: Option<Text>,
    written: usize,
) -> (result: (Option<Text>, usize))
    ensures
        ({
            let (after, span) = required_after(
                spec_visible(metas@),
                depth as nat,
                state,
                Span { text: old(out)@, width: written },
            );
            &&& result.0 == after
            &&& final(out)@ == span.text
            &&& result.1 == span.width
        }),
    decreases depth,
{
    let visible = Meta::visible(metas);
    let ghost all = visible@.map_values(|meta: &Meta| *meta);
    let ghost start = Span { text: out@, width: written };
    let ghost first = state;
    let mut state = state;
    let mut total = written;
    let mut index: usize = 0;
    while index < visible.len()
        invariant
            index <= visible@.len(),
            all == visible@.map_values(|meta: &Meta| *meta),
            all == spec_visible(metas@),
            ({
                let (after, span) = required_after(all.take(index as int), depth as nat, first, start);
                &&& state == after
                &&& out@ == span.text
                &&& total == span.width
            }),
        decreases visible@.len() - index,
    {
        assert(all.take(index + 1).drop_last() =~= all.take(index as int));
        assert(all.take(index + 1).last() == *visible@[index as int]);
        let meta = visible[index];
        if depth > 0 {
            let (inner, width) = write_required(out, meta.children(), depth - 1, state, total);
            state = inner;
            total = width;
        }
        match meta {
            Meta::Require(value) => {
                state = Some(value.clone());
            },
            Meta::Group(_) => {
                if let Some(value) = &state {
                    total = total.saturating_add(write_str(out, " "));
                    total = total.saturating_add(write_str(out, "<"));
                    total = total.saturating_add(write_str(out, value.as_str()));
                    total = total.saturating_add(write_str(out, ">"));
                }
                state = None;
            },
            Meta::Option(_) | Meta::Verb(_) => {
                state = None;
            },
            _ => {},
        }
        index = index + 1;
    }
    assert(all.take(visible@.len() as int) =~= all);
    (state, total)
}

/// The key of the whole command line (see `root_key`).
fn key_of_root(root: &Meta) -> (key: Option<Key>)
    ensures
        key == root_key(*root),
{
    let visible = Meta::visible(root.children());
    let ghost all = visible@.map_values(|meta: &Meta| *meta);
    let mut index: usize = 0;
    assert(all.skip(0) =~= all);
    while index < visible.len()
        invariant
            index <= visible@.len(),
            all == visible@.map_values(|meta: &Meta| *meta),
            all == spec_visible(spec_children(*root)),
            first_name(all) == first_name(all.skip(index as int)),
        decreases visible@.len() - index,
    {
        assert(all.skip(index as int)[0] == *visible@[index as int]);
        assert(all.skip(index as int).drop_first() =~= all.skip(index + 1));
        if let Meta::Name(value) = visible[index] {
            return Some(Key::Name(Name { value: value.clone(), prefixes: (None, None), case: None }));
        }
        index = index + 1;
    }
    None
}

/// Appends the usage line of a node without usages (see `usage_line`).
fn write_usage_line(
    out: &mut String,
    path: &[Key],
    root: &Meta,
    metas: &[Meta],
    prefix: &[Piece],
    suffix: &[Piece],
    written: usize,
) -> (width: usize)
    ensures
        final(out)@ == old(out)@ + usage_line(
            path@,
            *root,
            metas@,
            pieces(prefix@),
            pieces(suffix@),
            written,
        ).text,
        width == usage_line(path@, *root, metas@, pieces(prefix@), pieces(suffix@), written).width,
{
    let ghost start = out@;
    let mut width = written.saturating_add(write_pieces(out, prefix));
    width = width.saturating_add(write_str(out, "Usage:"));
    let first_key = key_of_root(root);
    let mut keys: Vec<Key> = Vec::new();
    if let Some(key) = first_key {
        keys.push(key);
    }
    let mut position: usize = 0;
    while position < path.len()
        invariant
            position <= path@.len(),
            keys@ == (match root_key(*root) {
                Some(key) => seq![key] + path@.take(position as int),
                None => path@.take(position as int),
            }),
        decreases path@.len() - position,
    {
        keys.push(path[position].clone());
        assert(path@.take(position + 1) =~= path@.take(position as int).push(path@[position as int]));
        position = position + 1;
    }
    assert(path@.take(path@.len() as int) =~= path@);
    let ghost head = then(
        then(Span { text: Seq::empty(), width: written }, pieces(prefix@)),
        plain("Usage:"@),
    );
    assert(out@ =~= start + head.text);
    let mut index: usize = 0;
    while index < keys.len()
        invariant
            index <= keys@.len(),
            out@ == start + keys_after(keys@.take(index as int), head).text,
            width == keys_after(keys@.take(index as int), head).width,
        decreases keys@.len() - index,
    {
        assert(keys@.take(index + 1).drop_last() =~= keys@.take(index as int));
        assert(keys@.take(index + 1).last() == keys@[index as int]);
        width = width.saturating_add(write_str(out, " "));
        width = width.saturating_add(keys[index].width());
        keys[index].write(out);
        assert(out@ =~= start + keys_after(keys@.take(index + 1), head).text);
        index = index + 1;
    }
    assert(keys@.take(keys@.len() as int) =~= keys@);
    let ghost listed = keys_after(keys@, head);
    if any_option(metas, usize::MAX) {
        width = width.saturating_add(write_str(out, " [OPTIONS]"));
    }
    let ghost optioned = if has_option(spec_visible(metas@), usize::MAX as nat) {
        then(listed, plain(" [OPTIONS]"@))
    } else {
        listed
    };
    assert(out@ =~= start + optioned.text);
    assert(width == optioned.width);
    let mut rest = String::new();
    let (_, total) = write_required(&mut rest, metas, usize::MAX, None, width);
    proof {
        lemma_required_shift(
            spec_visible(metas@),
            usize::MAX as nat,
            None,
            optioned.text,
            Span { text: Seq::empty(), width },
        );
        assert(optioned.text + Seq::<char>::empty() =~= optioned.text);
        assert(Span { text: optioned.text, width } == optioned);
    }
    let ghost required = required_after(spec_visible(metas@), usize::MAX as nat, None, optioned).1;
    out.append(rest.as_str());
    assert(out@ =~= start + required.text);
    width = total.saturating_add(write_pieces(out, suffix));
    assert(out@ =~= start + then(required, pieces(suffix@)).text);
    width
}

/// Appends the usage line of a node (see `usage_span`).
fn write_usage(
    out: &mut String,
    path: &[Key],
    root: &Meta,
    metas: &[Meta],
    prefix: &[Piece],
    suffix: &[Piece],
) -> (width: usize)
    ensures
        final(out)@ == old(out)@ + usage_span(path@, *root, metas@, pieces(prefix@), pieces(suffix@)).text,
        width == usage_span(path@, *root, metas@, pieces(prefix@), pieces(suffix@)).width,
{
    let ghost start = out@;
    let width = write_picked(out, Pick::Usage, metas, prefix, suffix, space_piece());
    if width > 0 {
        return width;
    }
    let ghost middle = out@;
    let total = write_usage_line(out, path, root, metas, prefix, suffix, width);
    assert(out@ =~= start + usage_span(path@, *root, metas@, pieces(prefix@), pieces(suffix@)).text);
    total
}

/// Required values written after other text add the same text whatever came
/// before.
proof fn lemma_required_shift(
    metas: Seq<Meta>,
    depth: nat,
    state: Option<Text>,
    before: Seq<char>,
    out: Span,
)
    ensures
        ({
            let (shifted_state, shifted) = required_after(
                metas,
                depth,
                state,
                Span { text: before + out.text, width: out.width },
            );
            let (own_state, own) = required_after(metas, depth, state, out);
            &&& shifted_state == own_state
            &&& shifted.text == before + own.text
            &&& shifted.width == own.width
        }),
    decreases depth, metas.len(),
{
    if metas.len() > 0 {
        lemma_required_shift(metas.drop_last(), depth, state, before, out);
        let (own_state, own) = required_after(metas.drop_last(), depth, state, out);
        let meta = metas.last();
        if depth > 0 {
            lemma_required_shift(
                spec_visible(spec_children(meta)),
                (depth - 1) as nat,
                own_state,
                before,
                own,
            );
        }
        let (inner, inside) = if depth > 0 {
            required_after(spec_visible(spec_children(meta)), (depth - 1) as nat, own_state, own)
        } else {
            (own_state, own)
        };
        let shifted_inside = Span { text: before + inside.text, width: inside.width };
        match inner {
            Some(value) => {
                assert(then(
                    then(then(then(shifted_inside, plain(" "@)), plain("<"@)), plain(value@)),
                    plain(">"@),
                ).text =~= before + then(
                    then(then(then(inside, plain(" "@)), plain("<"@)), plain(value@)),
                    plain(">"@),
                ).text);
            },
            None => {},
        }
    }
}


/// A line break as a piece that takes a column, as a character does.
pub open spec fn newline() -> Piece {
    Piece { text: "\n", width: 1 }
}

fn newline_piece() -> (value: Piece)
    ensures
        value == newline(),
{
    Piece { text: "\n", width: 1 }
}

/// What starts each line of a description.
pub open spec fn description_start(palette: PaletteView) -> Seq<Piece> {
    seq![
        palette.begin(Item::Bar(Line::Description)),
        palette.end(Item::Bar(Line::Description)),
        palette.begin(Item::Arrow(Line::Description)),
        palette.end(Item::Arrow(Line::Description)),
        space(),
        palette.begin(Item::Description),
    ]
}

/// What starts the line of a link.
pub open spec fn link_start(palette: PaletteView) -> Seq<Piece> {
    seq![
        newline(),
        palette.begin(Item::Bar(Line::Link)),
        palette.end(Item::Bar(Line::Link)),
        palette.begin(Item::Arrow(Line::Link)),
        palette.end(Item::Arrow(Line::Link)),
        space(),
        palette.begin(Item::Link),
    ]
}

/// What starts the usage line, with a bar line before it when something was
/// written above it.
pub open spec fn usage_start(palette: PaletteView, after: bool) -> Seq<Piece> {
    let line = seq![
        newline(),
        palette.begin(Item::Bar(Line::Usage)),
        palette.end(Item::Bar(Line::Usage)),
        palette.begin(Item::Arrow(Line::Usage)),
        palette.end(Item::Arrow(Line::Usage)),
        space(),
        palette.begin(Item::Usage),
    ];
    if after {
        seq![
            newline(),
            palette.begin(Item::Bar(Line::Usage)),
            palette.end(Item::Bar(Line::Usage)),
        ] + line
    } else {
        line
    }
}

/// The block under the title of a node: its description, its home page
/// and repository links, and its usage line; with whether anything was
/// counted in it.
pub open spec fn header_block(
    palette: PaletteView,
    path: Seq<Key>,
    root: Meta,
    metas: Seq<Meta>,
    indent: usize,
) -> (Seq<char>, bool) {
    let line_start = description_start(palette);
    let description = description_span(
        indent,
        palette.width,
        metas,
        pieces(line_start),
        pieces(seq![palette.end(Item::Description)]),
        pieces(seq![palette.end(Item::Description)] + line_start),
    );
    let home = picked_span(
        Pick::Home,
        metas,
        link_start(palette),
        seq![palette.end(Item::Link)],
        space(),
    );
    let repository = picked_span(
        Pick::Repository,
        metas,
        link_start(palette),
        seq![palette.end(Item::Link)],
        space(),
    );
    let before = description.width > 0 || home.width > 0 || repository.width > 0;
    let usage = usage_span(
        path,
        root,
        metas,
        pieces(usage_start(palette, before)),
        pieces(seq![palette.end(Item::Usage)]),
    );
    (description.text + home.text + repository.text + usage.text, before || usage.width > 0)
}

/// The title of a node: its names after a head bar.
pub open spec fn title_span(palette: PaletteView, metas: Seq<Meta>) -> Span {
    names_span(
        metas,
        true,
        true,
        seq![
            newline(),
            palette.begin(Item::Bar(Line::Head)),
            palette.end(Item::Bar(Line::Head)),
            space(),
            palette.begin(Item::Head),
        ],
        seq![palette.end(Item::Head)],
    )
}

/// The versions and authors of a node after its title, and a line break.
pub open spec fn credits_text(palette: PaletteView, metas: Seq<Meta>) -> Seq<char> {
    picked_span(
        Pick::Version,
        metas,
        seq![palette.begin(Item::Version), space()],
        seq![palette.end(Item::Version)],
        comma(),
    ).text + picked_span(
        Pick::Author,
        metas,
        seq![palette.begin(Item::Author), Piece { text: " by ", width: 4 }],
        seq![palette.end(Item::Author)],
        comma(),
    ).text + seq!['\n']
}

/// The header of a node: a blank line, its title with its credits when it
/// has a title, the block of `header_block` behind a head bar when it holds
/// anything, and a blank line.
pub open spec fn header_text(
    palette: PaletteView,
    path: Seq<Key>,
    root: Meta,
    metas: Seq<Meta>,
    indent: usize,
) -> Seq<char> {
    let title = title_span(palette, metas);
    let credits = if title.width > 0 {
        credits_text(palette, metas)
    } else {
        Seq::empty()
    };
    let (block, filled) = header_block(palette, path, root, metas, indent);
    let barred = if filled {
        palette.begin(Item::Bar(Line::Head)).text@ + palette.end(Item::Bar(Line::Head)).text@ + block
            + seq!['\n']
    } else {
        Seq::empty()
    };
    seq!['\n'] + spaces(indent).text + title.text + credits + barred + seq!['\n']
}

/// Appends the block under the title of a node (see `header_block`).
#[verifier::rlimit(60)]
fn write_header_block(
    out: &mut String,
    palette: &Palette,
    path: &[Key],
    root: &Meta,
    metas: &[Meta],
    indent: usize,
) -> (filled: bool)
    requires
        palette.complete(),
    ensures
        final(out)@ == old(out)@ + header_block(palette@, path@, *root, metas@, indent).0,
        filled == header_block(palette@, path@, *root, metas@, indent).1,
{
    let ghost start = out@;
    let line_start = [
        palette.begin_piece(Item::Bar(Line::Description)),
        palette.end_piece(Item::Bar(Line::Description)),
        palette.begin_piece(Item::Arrow(Line::Description)),
        palette.end_piece(Item::Arrow(Line::Description)),
        space_piece(),
        palette.begin_piece(Item::Description),
    ];
    assert(line_start@ =~= description_start(palette@));
    let closing = [palette.end_piece(Item::Description)];
    assert(closing@ =~= seq![palette.end(Item::Description)]);
    let next_line = [
        palette.end_piece(Item::Description),
        palette.begin_piece(Item::Bar(Line::Description)),
        palette.end_piece(Item::Bar(Line::Description)),
        palette.begin_piece(Item::Arrow(Line::Description)),
        palette.end_piece(Item::Arrow(Line::Description)),
        space_piece(),
        palette.begin_piece(Item::Description),
    ];
    assert(next_line@ =~= seq![palette.end(Item::Description)] + description_start(palette@));
    let count = write_description(
        out,
        indent,
        palette.width,
        metas,
        &line_start,
        &closing,
        &next_line,
    );
    let mut filled = count > 0;
    let link = [
        newline_piece(),
        palette.begin_piece(Item::Bar(Line::Link)),
        palette.end_piece(Item::Bar(Line::Link)),
        palette.begin_piece(Item::Arrow(Line::Link)),
        palette.end_piece(Item::Arrow(Line::Link)),
        space_piece(),
        palette.begin_piece(Item::Link),
    ];
    assert(link@ =~= link_start(palette@));
    let unlink = [palette.end_piece(Item::Link)];
    assert(unlink@ =~= seq![palette.end(Item::Link)]);
    let count = write_picked(out, Pick::Home, metas, &link, &unlink, space_piece());
    filled = filled || count > 0;
    let count = write_picked(out, Pick::Repository, metas, &link, &unlink, space_piece());
    filled = filled || count > 0;
    let usage_line = [
        newline_piece(),
        palette.begin_piece(Item::Bar(Line::Usage)),
        palette.end_piece(Item::Bar(Line::Usage)),
        palette.begin_piece(Item::Arrow(Line::Usage)),
        palette.end_piece(Item::Arrow(Line::Usage)),
        space_piece(),
        palette.begin_piece(Item::Usage),
    ];
    let mut usage_prefix: Vec<Piece> = Vec::new();
    if filled {
        usage_prefix.push(newline_piece());
        usage_prefix.push(palette.begin_piece(Item::Bar(Line::Usage)));
        usage_prefix.push(palette.end_piece(Item::Bar(Line::Usage)));
    }
    let mut index: usize = 0;
    let ghost before = usage_prefix@;
    while index < 7
        invariant
            index <= 7,
            usage_line@.len() == 7,
            usage_prefix@ == before + usage_line@.take(index as int),
        decreases 7 - index,
    {
        usage_prefix.push(usage_line[index]);
        assert(usage_line@.take(index + 1) =~= usage_line@.take(index as int).push(
            usage_line@[index as int],
        ));
        index = index + 1;
    }
    assert(usage_line@.take(7) =~= usage_line@);
    assert(usage_prefix@ =~= usage_start(palette@, filled));
    let unusage = [palette.end_piece(Item::Usage)];
    assert(unusage@ =~= seq![palette.end(Item::Usage)]);
    let count = write_usage(out, path, root, metas, usage_prefix.as_slice(), &unusage);
    filled = filled || count > 0;
    assert(out@ =~= start + header_block(palette@, path@, *root, metas@, indent).0);
    filled
}

/// Appends the title of a node (see `title_span`).
fn write_title(out: &mut String, palette: &Palette, metas: &[Meta]) -> (width: usize)
    requires
        palette.complete(),
    ensures
        final(out)@ == old(out)@ + title_span(palette@, metas@).text,
        width == title_span(palette@, metas@).width,
{
    let title = [
        newline_piece(),
        palette.begin_piece(Item::Bar(Line::Head)),
        palette.end_piece(Item::Bar(Line::Head)),
        space_piece(),
        palette.begin_piece(Item::Head),
    ];
    let untitle = [palette.end_piece(Item::Head)];
    assert(title@ =~= seq![
        newline(),
        palette.begin(Item::Bar(Line::Head)),
        palette.end(Item::Bar(Line::Head)),
        space(),
        palette.begin(Item::Head),
    ]);
    assert(untitle@ =~= seq![palette.end(Item::Head)]);
    write_names(out, metas, true, true, &title, &untitle)
}

/// Appends the credits of a node (see `credits_text`).
fn write_credits(out: &mut String, palette: &Palette, metas: &[Meta])
    requires
        palette.complete(),
    ensures
        final(out)@ == old(out)@ + credits_text(palette@, metas@),
{
    let ghost start = out@;
    let versioned = [palette.begin_piece(Item::Version), space_piece()];
    let unversioned = [palette.end_piece(Item::Version)];
    assert(versioned@ =~= seq![palette.begin(Item::Version), space()]);
    assert(unversioned@ =~= seq![palette.end(Item::Version)]);
    write_picked(out, Pick::Version, metas, &versioned, &unversioned, comma_piece());
    let authored = [palette.begin_piece(Item::Author), Piece { text: " by ", width: 4 }];
    let unauthored = [palette.end_piece(Item::Author)];
    assert(authored@ =~= seq![palette.begin(Item::Author), Piece { text: " by ", width: 4 }]);
    assert(unauthored@ =~= seq![palette.end(Item::Author)]);
    write_picked(out, Pick::Author, metas, &authored, &unauthored, comma_piece());
    write_newline(out);
    assert(out@ =~= start + credits_text(palette@, metas@));
}

/// Appends the header of a node (see `header_text`).
#[verifier::rlimit(40)]
fn write_header(
    out: &mut String,
    palette: &Palette,
    path: &[Key],
    root: &Meta,
    metas: &[Meta],
    indent: usize,
)
    requires
        palette.complete(),
    ensures
        final(out)@ == old(out)@ + header_text(palette@, path@, *root, metas@, indent),
{
    let ghost start = out@;
    write_newline(out);
    write_spaces(out, indent);
    let count = write_title(out, palette, metas);
    if count > 0 {
        write_credits(out, palette, metas);
    }
    let ghost credited = out@;
    let ghost title = title_span(palette@, metas@);
    let ghost credits = if title.width > 0 {
        credits_text(palette@, metas@)
    } else {
        Seq::empty()
    };
    assert(credited =~= start + seq!['\n'] + spaces(indent).text + title.text + credits);
    let mut block = String::new();
    let filled = write_header_block(&mut block, palette, path, root, metas, indent);
    assert(block@ =~= header_block(palette@, path@, *root, metas@, indent).0);
    if filled {
        write_piece(out, palette.begin_piece(Item::Bar(Line::Head)));
        write_piece(out, palette.end_piece(Item::Bar(Line::Head)));
        out.append(block.as_str());
        write_newline(out);
    }
    write_newline(out);
    assert(out@ =~= start + header_text(palette@, path@, *root, metas@, indent));
}


/// The columns the type decoration takes.
pub open spec fn type_width(palette: PaletteView) -> usize {
    palette.begin(Item::Type).width.saturating_add(palette.end(Item::Type).width)
}

/// The columns of the entries of a node.
pub open spec fn node_columns(palette: PaletteView, metas: Seq<Meta>) -> Columns {
    columns_of(type_width(palette), spec_visible(metas), 1, 0).0
}

/// A help text or a note of a node: indented, wrapped and decorated as
/// `item`, on its own line.
pub open spec fn paragraph_text(palette: PaletteView, value: Seq<char>, item: Item, indent: usize) -> Seq<char> {
    spaces(indent).text + wrap_span(
        indent,
        palette.width,
        value,
        pieces(seq![palette.begin(item)]),
        pieces(seq![palette.end(item)]),
        nothing(),
        0,
        false,
    ).0.text + seq!['\n']
}

/// The entry of a verb: its columns and, aligned after them, its summary.
pub open spec fn verb_entry(palette: PaletteView, metas: Seq<Meta>, columns: Columns, indent: usize) -> Seq<
    char,
> {
    let shown = columns_span(palette, metas, columns, true);
    let inner = indent.saturating_add(shown.width);
    spaces(indent).text + shown.text + summary_span(
        inner,
        palette.width,
        metas,
        pieces(seq![palette.begin(Item::Summary)]),
        pieces(seq![palette.end(Item::Summary)]),
        inner,
    ).text + seq!['\n']
}

/// The tags of an option after its summary, `width` columns into a line
/// whose entries start at `inner`: after a space on the same line, or on a
/// line of their own when they would pass the width.
pub open spec fn option_tags(palette: PaletteView, metas: Seq<Meta>, inner: usize, width: usize) -> Seq<
    char,
> {
    let tags = tags_span(metas).text;
    let (gap, cursor) = if width.saturating_add(byte_length(tags) as usize) > palette.width {
        (seq!['\n'] + spaces(inner).text, inner)
    } else if width > inner {
        (" "@, width.saturating_add(1))
    } else {
        (Seq::empty(), width)
    };
    gap + wrap_span(
        inner,
        palette.width,
        tags,
        pieces(seq![palette.begin(Item::Tag)]),
        pieces(seq![palette.end(Item::Tag)]),
        nothing(),
        cursor,
        false,
    ).0.text + seq!['\n']
}

/// The entry of an option: its columns, its summary aligned after them, and
/// its tags (see `option_tags`).
pub open spec fn option_entry(palette: PaletteView, metas: Seq<Meta>, columns: Columns, indent: usize) -> Seq<
    char,
> {
    let shown = columns_span(palette, metas, columns, false);
    let inner = indent.saturating_add(shown.width);
    let summary = summary_span(
        inner,
        palette.width,
        metas,
        pieces(seq![palette.begin(Item::Summary)]),
        pieces(seq![palette.end(Item::Summary)]),
        inner,
    );
    spaces(indent).text + shown.text + summary.text + option_tags(
        palette,
        metas,
        inner,
        inner.saturating_add(summary.width),
    )
}

/// The help that the visible description `meta` of a node adds: help texts
/// and notes as paragraphs, blank lines, groups and verbs at the top with a
/// header and their own help, nested groups under their names (indented
/// when they have any), and verbs and options as entries aligned in
/// `columns`.
pub open spec fn entry_text(
    palette: PaletteView,
    path: Seq<Key>,
    root: Meta,
    meta: Meta,
    depth: usize,
    indent: usize,
    columns: Columns,
) -> Seq<char>
    decreases meta, 0int,
{
    match meta {
        Meta::Help(value) => paragraph_text(palette, value@, Item::Help, indent),
        Meta::Line => seq!['\n'],
        Meta::Note(value) => paragraph_text(palette, value@, Item::Note, indent),
        Meta::Group(children) => {
            let inner = node_columns(palette, children@);
            let deeper = depth.saturating_add(1);
            if depth == 0 {
                header_text(palette, path, root, children@, indent) + node_from(
                    palette,
                    path,
                    root,
                    children@,
                    0,
                    false,
                    deeper,
                    indent,
                    inner,
                )
            } else {
                let names = names_span(
                    children@,
                    true,
                    true,
                    seq![palette.begin(Item::Group)],
                    seq![palette.end(Item::Group)],
                );
                if names.width > 0 {
                    spaces(indent).text + names.text + seq!['\n'] + node_from(
                        palette,
                        path,
                        root,
                        children@,
                        0,
                        false,
                        deeper,
                        indent.saturating_add(palette.indent),
                        inner,
                    ) + seq!['\n']
                } else {
                    spaces(indent).text + names.text + node_from(
                        palette,
                        path,
                        root,
                        children@,
                        0,
                        false,
                        deeper,
                        indent,
                        inner,
                    )
                }
            }
        },
        Meta::Verb(children) => if depth == 0 {
            header_text(palette, path, root, children@, indent) + node_from(
                palette,
                path,
                root,
                children@,
                0,
                false,
                depth.saturating_add(1),
                indent,
                node_columns(palette, children@),
            )
        } else {
            verb_entry(palette, children@, columns, indent)
        },
        Meta::Option(children) => option_entry(palette, children@, columns, indent),
        _ => Seq::empty(),
    }
}

/// The help of the visible `metas` from `i` on (`hidden` while inside a
/// hidden stretch), entry after entry (see `entry_text`).
pub open spec fn node_from(
    palette: PaletteView,
    path: Seq<Key>,
    root: Meta,
    metas: Seq<Meta>,
    i: int,
    hidden: bool,
    depth: usize,
    indent: usize,
    columns: Columns,
) -> Seq<char>
    decreases metas, metas.len() - i,
{
    if i < 0 || i >= metas.len() {
        Seq::empty()
    } else if hidden {
        node_from(palette, path, root, metas, i + 1, !(metas[i] is Show), depth, indent, columns)
    } else if metas[i] is Hide {
        node_from(palette, path, root, metas, i + 1, true, depth, indent, columns)
    } else {
        proof {
            assert(decreases_to!(metas => metas[i]));
        }
        entry_text(palette, path, root, metas[i], depth, indent, columns) + node_from(
            palette,
            path,
            root,
            metas,
            i + 1,
            false,
            depth,
            indent,
            columns,
        )
    }
}

/// The help of a node (see `node_from`).
pub open spec fn node_text(
    palette: PaletteView,
    path: Seq<Key>,
    root: Meta,
    metas: Seq<Meta>,
    depth: usize,
    indent: usize,
) -> Seq<char> {
    node_from(palette, path, root, metas, 0, false, depth, indent, node_columns(palette, metas))
}

/// The help text of `meta`, reached from `root` by `path`.
pub open spec fn help_text(palette: PaletteView, path: Seq<Key>, root: Meta, meta: Meta) -> Seq<char> {
    node_text(palette, path, root, seq![meta], 0, 0)
}

/// Appends a help text or a note (see `paragraph_text`).
fn write_paragraph(out: &mut String, palette: &Palette, value: &Text, item: Item, indent: usize)
    requires
        palette.complete(),
    ensures
        final(out)@ == old(out)@ + paragraph_text(palette@, value@, item, indent),
{
    let ghost start = out@;
    write_spaces(out, indent);
    let opening = [palette.begin_piece(item)];
    let closing = [palette.end_piece(item)];
    assert(opening@ =~= seq![palette.begin(item)]);
    assert(closing@ =~= seq![palette.end(item)]);
    let mut cursor: usize = 0;
    let mut wrote = false;
    write_wrapped(
        out,
        indent,
        palette.width,
        value.as_str(),
        &opening,
        &closing,
        &[],
        &mut cursor,
        &mut wrote,
    );
    assert(pieces(Seq::<Piece>::empty()) == nothing());
    write_newline(out);
    assert(out@ =~= start + paragraph_text(palette@, value@, item, indent));
}

/// Appends the entry of a verb (see `verb_entry`).
fn write_verb(out: &mut String, palette: &Palette, metas: &[Meta], columns: Columns, indent: usize)
    requires
        palette.complete(),
    ensures
        final(out)@ == old(out)@ + verb_entry(palette@, metas@, columns, indent),
{
    let ghost start = out@;
    write_spaces(out, indent);
    let shown = write_columns(out, palette, metas, columns, true);
    let inner = indent.saturating_add(shown);
    let opening = [palette.begin_piece(Item::Summary)];
    let closing = [palette.end_piece(Item::Summary)];
    assert(opening@ =~= seq![palette.begin(Item::Summary)]);
    assert(closing@ =~= seq![palette.end(Item::Summary)]);
    write_summary(out, inner, palette.width, metas, &opening, &closing, inner);
    write_newline(out);
    assert(out@ =~= start + verb_entry(palette@, metas@, columns, indent));
}

/// Appends the tags of an option (see `option_tags`).
#[verifier::rlimit(40)]
fn write_option_tags(out: &mut String, palette: &Palette, metas: &[Meta], inner: usize, width: usize)
    requires
        palette.complete(),
    ensures
        final(out)@ == old(out)@ + option_tags(palette@, metas@, inner, width),
{
    let ghost start = out@;
    let mut tags = String::new();
    write_tags(&mut tags, metas);
    assert(tags@ =~= tags_span(metas@).text);
    let bytes = tags.as_str().as_bytes().len();
    assert(bytes == byte_length(tags@));
    proof {
        reveal_strlit(" ");
    }
    let mut cursor = width;
    let ghost gap: Seq<char> = if width.saturating_add(byte_length(tags@) as usize) > palette.width {
        seq!['\n'] + spaces(inner).text
    } else if width > inner {
        " "@
    } else {
        Seq::empty()
    };
    if width.saturating_add(bytes) > palette.width {
        write_newline(out);
        cursor = write_spaces(out, inner);
    } else if width > inner {
        cursor = width.saturating_add(write_str(out, " "));
    }
    assert(out@ =~= start + gap);
    let tagged = [palette.begin_piece(Item::Tag)];
    let untagged = [palette.end_piece(Item::Tag)];
    assert(tagged@ =~= seq![palette.begin(Item::Tag)]);
    assert(untagged@ =~= seq![palette.end(Item::Tag)]);
    let mut wrote = false;
    write_wrapped(
        out,
        inner,
        palette.width,
        tags.as_str(),
        &tagged,
        &untagged,
        &[],
        &mut cursor,
        &mut wrote,
    );
    assert(pieces(Seq::<Piece>::empty()) == nothing());
    let ghost wrapped = out@;
    write_newline(out);
    assert(out@ =~= wrapped + seq!['\n']);
    assert(out@ =~= start + option_tags(palette@, metas@, inner, width));
}

/// Appends the entry of an option (see `option_entry`).
#[verifier::rlimit(60)]
fn write_option(out: &mut String, palette: &Palette, metas: &[Meta], columns: Columns, indent: usize)
    requires
        palette.complete(),
    ensures
        final(out)@ == old(out)@ + option_entry(palette@, metas@, columns, indent),
{
    let ghost start = out@;
    write_spaces(out, indent);
    let shown = write_columns(out, palette, metas, columns, false);
    let inner = indent.saturating_add(shown);
    let opening = [palette.begin_piece(Item::Summary)];
    let closing = [palette.end_piece(Item::Summary)];
    assert(opening@ =~= seq![palette.begin(Item::Summary)]);
    assert(closing@ =~= seq![palette.end(Item::Summary)]);
    let summarized = write_summary(out, inner, palette.width, metas, &opening, &closing, inner);
    write_option_tags(out, palette, metas, inner, inner.saturating_add(summarized));
    assert(out@ =~= start + option_entry(palette@, metas@, columns, indent));
}


/// Appends the help of a nested group (see `entry_text`).
fn write_group(
    out: &mut String,
    palette: &Palette,
    path: &[Key],
    root: &Meta,
    metas: &[Meta],
    depth: usize,
    indent: usize,
)
    requires
        palette.complete(),
        depth > 0,
    ensures
        final(out)@ == old(out)@ + ({
            let deeper = depth.saturating_add(1);
            let names = names_span(
                metas@,
                true,
                true,
                seq![palette.begin(Item::Group)],
                seq![palette.end(Item::Group)],
            );
            if names.width > 0 {
                spaces(indent).text + names.text + seq!['\n'] + node_text(
                    palette@,
                    path@,
                    *root,
                    metas@,
                    deeper,
                    indent.saturating_add(palette.indent),
                ) + seq!['\n']
            } else {
                spaces(indent).text + names.text + node_text(
                    palette@,
                    path@,
                    *root,
                    metas@,
                    deeper,
                    indent,
                )
            }
        }),
    decreases metas@, 2nat,
{
    let ghost start = out@;
    write_spaces(out, indent);
    let opening = [palette.begin_piece(Item::Group)];
    let closing = [palette.end_piece(Item::Group)];
    assert(opening@ =~= seq![palette.begin(Item::Group)]);
    assert(closing@ =~= seq![palette.end(Item::Group)]);
    let width = write_names(out, metas, true, true, &opening, &closing);
    if width > 0 {
        write_newline(out);
        write_node(
            out,
            palette,
            path,
            root,
            metas,
            depth.saturating_add(1),
            indent.saturating_add(palette.indent),
        );
        write_newline(out);
    } else {
        write_node(out, palette, path, root, metas, depth.saturating_add(1), indent);
    }
}

/// Appends the help that a visible description adds (see `entry_text`).
#[verifier::rlimit(80)]
fn write_entry(
    out: &mut String,
    palette: &Palette,
    path: &[Key],
    root: &Meta,
    meta: &Meta,
    depth: usize,
    indent: usize,
    columns: Columns,
)
    requires
        palette.complete(),
    ensures
        final(out)@ == old(out)@ + entry_text(palette@, path@, *root, *meta, depth, indent, columns),
    decreases *meta, 0nat,
{
    let ghost start = out@;
    match meta {
        Meta::Help(value) => write_paragraph(out, palette, value, Item::Help, indent),
        Meta::Line => write_newline(out),
        Meta::Note(value) => write_paragraph(out, palette, value, Item::Note, indent),
        Meta::Group(children) => {
            proof {
                assert(decreases_to!(Meta::Group(*children) => *children));
                assert(decreases_to!(*children => children@));
            }
            if depth == 0 {
                write_header(out, palette, path, root, children.as_slice(), indent);
                write_node(out, palette, path, root, children.as_slice(), 1, indent);
            } else {
                write_group(out, palette, path, root, children.as_slice(), depth, indent);
            }
        },
        Meta::Verb(children) => {
            proof {
                assert(decreases_to!(Meta::Verb(*children) => *children));
                assert(decreases_to!(*children => children@));
            }
            if depth == 0 {
                write_header(out, palette, path, root, children.as_slice(), indent);
                write_node(out, palette, path, root, children.as_slice(), 1, indent);
            } else {
                write_verb(out, palette, children.as_slice(), columns, indent);
            }
        },
        Meta::Option(children) => write_option(out, palette, children.as_slice(), columns, indent),
        _ => {
            assert(out@ =~= start + Seq::<char>::empty());
        },
    }
    assert(out@ =~= start + entry_text(palette@, path@, *root, *meta, depth, indent, columns));
}

/// Appends the help of a node (see `node_text`).
fn write_node(
    out: &mut String,
    palette: &Palette,
    path: &[Key],
    root: &Meta,
    metas: &[Meta],
    depth: usize,
    indent: usize,
)
    requires
        palette.complete(),
    ensures
        final(out)@ == old(out)@ + node_text(palette@, path@, *root, metas@, depth, indent),
    decreases metas@, 1nat,
{
    let ghost start = out@;
    let type_width = palette.begin_piece(Item::Type).width.saturating_add(
        palette.end_piece(Item::Type).width,
    );
    let mut position: usize = 0;
    let columns = columns(type_width, metas, &mut position, 1);
    let ghost whole = node_text(palette@, path@, *root, metas@, depth, indent);
    let ghost mut done: Seq<char> = Seq::empty();
    let mut hidden = false;
    let mut index: usize = 0;
    assert(done + node_from(palette@, path@, *root, metas@, 0, false, depth, indent, columns)
        =~= whole);
    while index < metas.len()
        invariant
            index <= metas@.len(),
            palette.complete(),
            out@ == start + done,
            done + node_from(
                palette@,
                path@,
                *root,
                metas@,
                index as int,
                hidden,
                depth,
                indent,
                columns,
            ) == whole,
        decreases metas@.len() - index,
    {
        let meta = &metas[index];
        if hidden {
            if let Meta::Show = meta {
                hidden = false;
            }
        } else if let Meta::Hide = meta {
            hidden = true;
        } else {
            let ghost before = out@;
            proof {
                assert(decreases_to!(metas@ => metas@[index as int]));
            }
            write_entry(out, palette, path, root, meta, depth, indent, columns);
            proof {
                let own = entry_text(palette@, path@, *root, *meta, depth, indent, columns);
                assert(done + own + node_from(
                    palette@,
                    path@,
                    *root,
                    metas@,
                    index + 1,
                    false,
                    depth,
                    indent,
                    columns,
                ) =~= done + (own + node_from(
                    palette@,
                    path@,
                    *root,
                    metas@,
                    index + 1,
                    false,
                    depth,
                    indent,
                    columns,
                )));
                done = done + own;
            }
        }
        index = index + 1;
    }
    assert(done + Seq::<char>::empty() =~= done);
}

/// The help text of `meta`, reached from `root` by `path`, in the style of
/// `palette` (see `help_text`).
pub fn render(palette: &Palette, path: &[Key], root: &Meta, meta: &Meta) -> (text: String)
    requires
        palette.complete(),
    ensures
        text@ == help_text(palette@, path@, *root, *meta),
{
    let mut out = String::new();
    let metas = std::slice::from_ref(meta);
    write_node(&mut out, palette, path, root, metas, 0, 0);
    assert(out@ =~= help_text(palette@, path@, *root, *meta));
    out
}

/// Each of `keys` after a space, as written.
pub open spec fn spaced_keys(keys: Seq<Key>) -> Seq<char>
    decreases keys.len(),
{
    if keys.len() == 0 {
        Seq::empty()
    } else {
        seq![' '] + key_text(keys[0]) + spaced_keys(keys.drop_first())
    }
}

proof fn lemma_spaced_keys_push(keys: Seq<Key>, key: Key)
    ensures
        spaced_keys(keys.push(key)) == spaced_keys(keys) + seq![' '] + key_text(key),
    decreases keys.len(),
{
    if keys.len() > 0 {
        lemma_spaced_keys_push(keys.drop_first(), key);
        assert(keys.push(key).drop_first() =~= keys.drop_first().push(key));
        assert(keys.push(key)[0] == keys[0]);
        assert(spaced_keys(keys.push(key)) =~= spaced_keys(keys) + seq![' '] + key_text(key));
    } else {
        assert(keys.push(key).drop_first() =~= Seq::<Key>::empty());
        assert(keys.push(key)[0] == key);
        assert(spaced_keys(Seq::<Key>::empty()) == Seq::<char>::empty());
        assert(spaced_keys(keys) == Seq::<char>::empty());
        assert(spaced_keys(keys.push(key)) == seq![' '] + key_text(key) + spaced_keys(
            keys.push(key).drop_first(),
        ));
        assert(spaced_keys(keys.push(key)) =~= spaced_keys(keys) + seq![' '] + key_text(key));
    }
}

proof fn lemma_keys_after_text(keys: Seq<Key>, out: Span)
    ensures
        keys_after(keys, out).text == out.text + spaced_keys(keys),
    decreases keys.len(),
{
    if keys.len() > 0 {
        lemma_keys_after_text(keys.drop_last(), out);
        lemma_spaced_keys_push(keys.drop_last(), keys.last());
        assert(keys.drop_last().push(keys.last()) =~= keys);
        reveal_strlit(" ");
        assert(" "@ =~= seq![' ']);
    }
}

proof fn lemma_required_after_extends(metas: Seq<Meta>, depth: nat, state: Option<Text>, out: Span)
    ensures
        out.text.is_prefix_of(required_after(metas, depth, state, out).1.text),
    decreases depth, metas.len(),
{
    if metas.len() > 0 {
        lemma_required_after_extends(metas.drop_last(), depth, state, out);
        let (before, written) = required_after(metas.drop_last(), depth, state, out);
        let meta = metas.last();
        if depth > 0 {
            lemma_required_after_extends(
                spec_visible(spec_children(meta)),
                (depth - 1) as nat,
                before,
                written,
            );
        }
    }
}

/// The usage line of a node without usages starts, after what is written
/// before it, with `Usage:` and then the key of the whole command line and
/// every key of the path to the node, each after a space and in order: the
/// help of `tool run` reads `Usage: tool run`.
pub proof fn law_usage_line_lists_the_path(
    path: Seq<Key>,
    root: Meta,
    metas: Seq<Meta>,
    prefix: Span,
    suffix: Span,
    written: usize,
)
    ensures
        (prefix.text + "Usage:"@ + spaced_keys(
            match root_key(root) {
                Some(key) => seq![key],
                None => Seq::<Key>::empty(),
            } + path,
        )).is_prefix_of(usage_line(path, root, metas, prefix, suffix, written).text),
{
    let keys = match root_key(root) {
        Some(key) => seq![key] + path,
        None => path,
    };
    let start = then(then(Span { text: Seq::empty(), width: written }, prefix), plain("Usage:"@));
    lemma_keys_after_text(keys, start);
    let listed = keys_after(keys, start);
    let visible = spec_visible(metas);
    let optioned = if has_option(visible, usize::MAX as nat) {
        then(listed, plain(" [OPTIONS]"@))
    } else {
        listed
    };
    lemma_required_after_extends(visible, usize::MAX as nat, None, optioned);
    assert(match root_key(root) {
        Some(key) => seq![key],
        None => Seq::<Key>::empty(),
    } + path =~= keys);
    assert(start.text =~= prefix.text + "Usage:"@);
    assert(listed.text.is_prefix_of(optioned.text));
}

} // verus!
