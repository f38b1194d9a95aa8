use crate::strings::{str_eq};
use std::sync::Arc;
use vstd::prelude::*;

verus! {

/// `Arc::clone` gives another handle to the same value.
#[verifier::external_body]
fn share<T>(arc: &Arc<T>) -> (clone: Arc<T>)
    ensures
        clone == *arc,
{
    arc.clone()
}

/// How many prefix characters a name is written with: none for an empty name,
/// a short prefix for a single character, a long prefix otherwise.
#[derive(Clone, Copy, PartialEq, Eq, Structural)]
pub enum Prefix {
    Empty,
    Short,
    Long,
}

/// A piece of text, either static or shared.
#[derive(Debug)]
pub enum Text {
    Static(&'static str),
    Shared(Arc<String>),
}

impl View for Text {
    type V = Seq<char>;

    open spec fn view(&self) -> Seq<char> {
        match self {
            Text::Static(value) => value@,
            Text::Shared(value) => value@,
        }
    }
}

impl Text {
    pub fn as_str(&self) -> (text: &str)
        ensures
            text@ == self@,
    {
        match self {
            Text::Static(value) => value,
            Text::Shared(value) => value.as_str(),
        }
    }
}

impl Clone for Text {
    fn clone(&self) -> (clone: Self)
        ensures
            clone == *self,
    {
        match self {
            Text::Static(value) => Text::Static(value),
            Text::Shared(value) => Text::Shared(share(value)),
        }
    }
}

impl PartialEq for Text {
    fn eq(&self, other: &Self) -> (equal: bool) {
        str_eq(self.as_str(), other.as_str())
    }
}

impl vstd::std_specs::cmp::PartialEqSpecImpl for Text {
    open spec fn obeys_eq_spec() -> bool {
        true
    }

    open spec fn eq_spec(&self, other: &Self) -> bool {
        self@ == other@
    }
}

impl Eq for Text {

}

impl From<&'static str> for Text {
    fn from(value: &'static str) -> (text: Self) {
        Text::Static(value)
    }
}

impl vstd::std_specs::convert::FromSpecImpl<&'static str> for Text {
    open spec fn obeys_from_spec() -> bool {
        true
    }

    open spec fn from_spec(value: &'static str) -> Self {
        Text::Static(value)
    }
}

impl From<String> for Text {
    fn from(value: String) -> (text: Self) {
        Text::Shared(Arc::new(value))
    }
}

impl vstd::std_specs::convert::FromSpecImpl<String> for Text {
    open spec fn obeys_from_spec() -> bool {
        true
    }

    open spec fn from_spec(value: String) -> Self {
        Text::Shared(Arc::new(value))
    }
}

/// The built-in options that a node may answer: the author, the license, the
/// version and the help, each by its short name, its long name, or both.
#[derive(Debug, Copy, Clone, PartialEq, Eq, Structural)]
pub enum Options {
    Author { short: bool, long: bool },
    License { short: bool, long: bool },
    Version { short: bool, long: bool },
    Help { short: bool, long: bool },
}

impl Options {
    pub fn all(short: bool, long: bool) -> (options: [Options; 4])
        ensures
            options@ == seq![
                Options::Author { short, long },
                Options::License { short, long },
                Options::Version { short, long },
                Options::Help { short, long },
            ],
    {
        let options = [
            Options::Author { short, long },
            Options::License { short, long },
            Options::Version { short, long },
            Options::Help { short, long },
        ];
        assert(options@ =~= seq![
            Options::Author { short, long },
            Options::License { short, long },
            Options::Version { short, long },
            Options::Help { short, long },
        ]);
        options
    }

    pub fn common(short: bool, long: bool) -> (options: [Options; 2])
        ensures
            options@ == seq![Options::Version { short, long }, Options::Help { short, long }],
    {
        let options = [Options::Version { short, long }, Options::Help { short, long }];
        assert(options@ =~= seq![Options::Version { short, long }, Options::Help { short, long }]);
        options
    }

    pub fn version(short: bool, long: bool) -> (option: Self)
        ensures
            option == (Options::Version { short, long }),
    {
        Self::Version { short, long }
    }

    pub fn help(short: bool, long: bool) -> (option: Self)
        ensures
            option == (Options::Help { short, long }),
    {
        Self::Help { short, long }
    }

    pub fn author(short: bool, long: bool) -> (option: Self)
        ensures
            option == (Options::Author { short, long }),
    {
        Self::Author { short, long }
    }

    pub fn license(short: bool, long: bool) -> (option: Self)
        ensures
            option == (Options::License { short, long }),
    {
        Self::License { short, long }
    }
}

/// The prefix that a name of `length` characters is written with.
pub open spec fn spec_prefix(length: nat) -> Prefix {
    if length == 0 {
        Prefix::Empty
    } else if length == 1 {
        Prefix::Short
    } else {
        Prefix::Long
    }
}

/// Whether `value` is an empty, a short (one character) or a long name.
pub fn prefix(value: &str) -> (prefix: Prefix)
    ensures
        prefix == spec_prefix(value@.len()),
{
    let mut count: usize = 0;
    for letter in iter: value.chars()
        invariant
            iter.seq() == value@,
            count == iter.index(),
            count < 2,
    {
        count = count + 1;
        if count == 2 {
            return Prefix::Long;
        }
    }
    if count == 0 {
        Prefix::Empty
    } else {
        Prefix::Short
    }
}

/// Whether `letter` is white space as Unicode defines it (what
/// `char::is_whitespace` tests).
pub open spec fn spec_is_whitespace(letter: char) -> bool {
    let code = letter as u32;
    ||| 9 <= code <= 13
    ||| code == 32
    ||| code == 0x85
    ||| code == 0xa0
    ||| code == 0x1680
    ||| 0x2000 <= code <= 0x200a
    ||| code == 0x2028
    ||| code == 0x2029
    ||| code == 0x202f
    ||| code == 0x205f
    ||| code == 0x3000
}

/// Whether `text` is white space only (an empty text is).
pub open spec fn blank(text: Seq<char>) -> bool {
    forall|k: int| 0 <= k < text.len() ==> spec_is_whitespace(#[trigger] text[k])
}

fn is_whitespace(letter: char) -> (white: bool)
    ensures
        white == spec_is_whitespace(letter),
{
    let code = letter as u32;
    (9 <= code && code <= 13) || code == 32 || code == 0x85 || code == 0xa0 || code == 0x1680 || (
    0x2000 <= code && code <= 0x200a) || code == 0x2028 || code == 0x2029 || code == 0x202f || code
        == 0x205f || code == 0x3000
}

/// Whether `text` is white space only (see `blank`).
pub fn is_blank(text: &str) -> (white: bool)
    ensures
        white == blank(text@),
{
    for letter in iter: text.chars()
        invariant
            iter.seq() == text@,
            forall|k: int| 0 <= k < iter.index() ==> spec_is_whitespace(#[trigger] text@[k]),
    {
        if !is_whitespace(letter) {
            return false;
        }
    }
    true
}

/// A piece of the description of a command line: names, documentation, the
/// shape of a value, and the nodes (options, verbs, groups) with their own
/// descriptions. A `Valid` holds the regular expression that a value must
/// match, as written.
#[derive(Debug)]
pub enum Meta {
    Name(Text),
    Position,
    Version(Text),
    License(Text, Text),
    Author(Text),
    Help(Text),
    Line,
    Usage(Text),
    Summary(Text),
    Home(Text),
    Repository(Text),
    Note(Text),
    Type(Text),
    Valid(Text),
    Require(Text),
    Many(Option<usize>),
    Default(Text),
    Environment(Text),
    Show,
    Hide,
    Swizzle,
    Option(Vec<Meta>),
    Options(Options),
    Verb(Vec<Meta>),
    Group(Vec<Meta>),
}

/// The descriptions nested in a node; a leaf has none.
pub open spec fn spec_children(meta: Meta) -> Seq<Meta> {
    match meta {
        Meta::Option(metas) => metas@,
        Meta::Verb(metas) => metas@,
        Meta::Group(metas) => metas@,
        _ => Seq::empty(),
    }
}

/// `result` is `meta` with its nodes kept down to `depth` levels: a node at
/// the last level keeps its kind and loses its children; a leaf is kept as is.
pub open spec fn truncated(result: Meta, meta: Meta, depth: nat) -> bool
    decreases depth, 1nat,
{
    match meta {
        Meta::Option(metas) => result is Option && truncated_all(
            spec_children(result),
            metas@,
            depth,
        ),
        Meta::Verb(metas) => result is Verb && truncated_all(spec_children(result), metas@, depth),
        Meta::Group(metas) => result is Group && truncated_all(
            spec_children(result),
            metas@,
            depth,
        ),
        _ => result == meta,
    }
}

/// `results` are the children `metas` kept down to `depth` levels.
pub open spec fn truncated_all(results: Seq<Meta>, metas: Seq<Meta>, depth: nat) -> bool
    decreases depth, 0nat,
{
    if depth == 0 {
        results.len() == 0
    } else {
        &&& results.len() == metas.len()
        &&& forall|k: int|
            0 <= k < metas.len() ==> truncated(
                #[trigger] results[k],
                metas[k],
                (depth - 1) as nat,
            )
    }
}

/// Whether the visible-filter is inside a hidden stretch after reading `metas`,
/// and what it has let through.
pub open spec fn visible_run(metas: Seq<Meta>) -> (bool, Seq<Meta>)
    decreases metas.len(),
{
    if metas.len() == 0 {
        (false, Seq::empty())
    } else {
        let (hidden, out) = visible_run(metas.drop_last());
        let meta = metas.last();
        if hidden {
            (!(meta is Show), out)
        } else if meta is Hide {
            (true, out)
        } else {
            (false, out.push(meta))
        }
    }
}

/// The visible descriptions among `metas`: a `Hide` starts a hidden stretch
/// that ends with the next `Show`; both markers and what lies between them are
/// left out (a `Show` outside a hidden stretch is kept).
pub open spec fn spec_visible(metas: Seq<Meta>) -> Seq<Meta> {
    visible_run(metas).1
}

/// The first required-value description among `metas`.
pub open spec fn first_require(metas: Seq<Meta>) -> Option<Text>
    decreases metas.len(),
{
    if metas.len() == 0 {
        None
    } else {
        match metas[0] {
            Meta::Require(value) => Some(value),
            _ => first_require(metas.drop_first()),
        }
    }
}

/// No `Hide` marker is ever visible.
pub proof fn law_visible_has_no_hide(metas: Seq<Meta>)
    ensures
        forall|k: int|
            0 <= k < spec_visible(metas).len() ==> !(#[trigger] spec_visible(metas)[k] is Hide),
    decreases metas.len(),
{
    if metas.len() > 0 {
        law_visible_has_no_hide(metas.drop_last());
        let out = visible_run(metas.drop_last()).1;
        assert forall|k: int|
            0 <= k < spec_visible(metas).len() implies !(#[trigger] spec_visible(
            metas,
        )[k] is Hide) by {
            if k < out.len() {
                assert(spec_visible(metas)[k] == out[k]);
                assert(!(spec_visible(metas.drop_last())[k] is Hide));
            }
        }
    }
}

proof fn lemma_visible_without_hide(metas: Seq<Meta>)
    requires
        forall|k: int| 0 <= k < metas.len() ==> !(#[trigger] metas[k] is Hide),
    ensures
        visible_run(metas) == (false, metas),
    decreases metas.len(),
{
    if metas.len() > 0 {
        assert(metas.last() == metas[metas.len() - 1]);
        lemma_visible_without_hide(metas.drop_last());
        assert(metas.drop_last().push(metas.last()) == metas);
    }
}

/// Filtering what is already visible changes nothing.
pub proof fn law_visible_idempotent(metas: Seq<Meta>)
    ensures
        spec_visible(spec_visible(metas)) == spec_visible(metas),
{
    law_visible_has_no_hide(metas);
    lemma_visible_without_hide(spec_visible(metas));
}

impl Meta {
    /// A copy of this description that keeps nodes down to `depth` levels.
    pub fn clone(&self, depth: usize) -> (clone: Self)
        ensures
            truncated(clone, *self, depth as nat),
        decreases depth,
    {
        match self {
            Meta::Name(value) => Meta::Name(value.clone()),
            Meta::Position => Meta::Position,
            Meta::Version(value) => Meta::Version(value.clone()),
            Meta::License(name, content) => Meta::License(name.clone(), content.clone()),
            Meta::Author(value) => Meta::Author(value.clone()),
            Meta::Help(value) => Meta::Help(value.clone()),
            Meta::Line => Meta::Line,
            Meta::Summary(value) => Meta::Summary(value.clone()),
            Meta::Home(value) => Meta::Home(value.clone()),
            Meta::Repository(value) => Meta::Repository(value.clone()),
            Meta::Usage(value) => Meta::Usage(value.clone()),
            Meta::Note(value) => Meta::Note(value.clone()),
            Meta::Type(value) => Meta::Type(value.clone()),
            Meta::Require(value) => Meta::Require(value.clone()),
            Meta::Many(value) => Meta::Many(*value),
            Meta::Default(value) => Meta::Default(value.clone()),
            Meta::Environment(value) => Meta::Environment(value.clone()),
            Meta::Valid(value) => Meta::Valid(value.clone()),
            Meta::Hide => Meta::Hide,
            Meta::Show => Meta::Show,
            Meta::Swizzle => Meta::Swizzle,
            Meta::Option(metas) => Meta::Option(Self::clone_all(metas, depth)),
            Meta::Options(options) => Meta::Options(*options),
            Meta::Verb(metas) => Meta::Verb(Self::clone_all(metas, depth)),
            Meta::Group(metas) => Meta::Group(Self::clone_all(metas, depth)),
        }
    }

    /// The children of a node at `depth`, each kept down to `depth - 1`
    /// levels; none at depth zero.
    fn clone_all(metas: &Vec<Meta>, depth: usize) -> (clones: Vec<Meta>)
        ensures
            truncated_all(clones@, metas@, depth as nat),
        decreases depth, 0nat,
    {
        let mut clones: Vec<Meta> = Vec::new();
        if depth > 0 {
            let mut index: usize = 0;
            while index < metas.len()
                invariant
                    depth > 0,
                    index <= metas@.len(),
                    clones@.len() == index,
                    forall|k: int|
                        0 <= k < index ==> truncated(
                            #[trigger] clones@[k],
                            metas@[k],
                            (depth - 1) as nat,
                        ),
                decreases metas@.len() - index,
            {
                clones.push(metas[index].clone(depth - 1));
                index = index + 1;
            }
        }
        clones
    }

    /// Adds `meta` at the end of this node's descriptions; a leaf takes
    /// nothing and says so.
    pub fn push(&mut self, meta: Meta) -> (pushed: bool)
        ensures
            pushed == (*old(self) is Option || *old(self) is Verb || *old(self) is Group),
            pushed ==> spec_children(*final(self)) == spec_children(*old(self)).push(meta),
            pushed ==> (*final(self) is Option <==> *old(self) is Option) && (*final(self) is Verb
                <==> *old(self) is Verb) && (*final(self) is Group <==> *old(self) is Group),
            !pushed ==> *final(self) == *old(self),
    {
        match self {
            Meta::Option(metas) => {
                metas.push(meta);
                true
            },
            Meta::Verb(metas) => {
                metas.push(meta);
                true
            },
            Meta::Group(metas) => {
                metas.push(meta);
                true
            },
            _ => false,
        }
    }

    /// The descriptions nested in this node.
    pub fn children(&self) -> (children: &[Meta])
        ensures
            children@ == spec_children(*self),
    {
        match self {
            Meta::Option(metas) => metas.as_slice(),
            Meta::Verb(metas) => metas.as_slice(),
            Meta::Group(metas) => metas.as_slice(),
            _ => &[],
        }
    }

    /// The visible descriptions among `metas` (see `spec_visible`).
    pub fn visible<'a>(metas: &'a [Meta]) -> (visible: Vec<&'a Meta>)
        ensures
            visible@.map_values(|meta: &Meta| *meta) == spec_visible(metas@),
    {
        let mut visible: Vec<&'a Meta> = Vec::new();
        let mut hidden = false;
        let mut index: usize = 0;
        while index < metas.len()
            invariant
                index <= metas@.len(),
                visible_run(metas@.take(index as int)) == (hidden, visible@.map_values(
                    |meta: &Meta| *meta,
                )),
            decreases metas@.len() - index,
        {
            assert(metas@.take(index + 1).drop_last() == metas@.take(index as int));
            let meta = &metas[index];
            let ghost before = visible@;
            if hidden {
                if let Meta::Show = meta {
                    hidden = false;
                }
            } else if let Meta::Hide = meta {
                hidden = true;
            } else {
                visible.push(meta);
                assert(visible@.map_values(|meta: &Meta| *meta) == before.map_values(
                    |meta: &Meta| *meta,
                ).push(*meta));
            }
            index = index + 1;
        }
        assert(metas@.take(metas@.len() as int) == metas@);
        visible
    }

    /// The first required-value description among this node and its
    /// visible children.
    pub fn require(&self) -> (require: Option<Text>)
        ensures
            require == first_require(
                spec_visible(seq![*self]) + spec_visible(spec_children(*self)),
            ),
    {
        let ghost own = spec_visible(seq![*self]);
        assert(seq![*self].drop_last() == Seq::<Meta>::empty());
        assert(seq![*self].last() == *self);
        assert(visible_run(Seq::<Meta>::empty()) == (false, Seq::<Meta>::empty()));
        if let Meta::Require(value) = self {
            assert(own == seq![*self]);
            return Some(value.clone());
        }
        let children = Self::visible(self.children());
        let ghost rest = spec_visible(spec_children(*self));
        let ghost all = own + rest;
        proof {
            if self is Hide {
                assert(own == Seq::<Meta>::empty());
                assert(all == rest);
            } else {
                assert(own == seq![*self]);
                assert(all.drop_first() == rest);
            }
            assert(first_require(all) == first_require(rest));
        }
        let ghost view = children@.map_values(|meta: &Meta| *meta);
        assert(view == rest);
        assert(view.skip(0) == view);
        let mut index: usize = 0;
        while index < children.len()
            invariant
                index <= children@.len(),
                view == children@.map_values(|meta: &Meta| *meta),
                first_require(view) == first_require(view.skip(index as int)),
                first_require(view) == first_require(all),
                all == spec_visible(seq![*self]) + spec_visible(spec_children(*self)),
            decreases children@.len() - index,
        {
            assert(view.skip(index as int).drop_first() == view.skip(index + 1));
            assert(view.skip(index as int)[0] == *children@[index as int]);
            if let Meta::Require(value) = children[index] {
                assert(view.skip(index as int)[0] == Meta::Require(*value));
                return Some(value.clone());
            }
            index = index + 1;
        }
        assert(view.skip(index as int).len() == 0);
        None
    }
}

} // verus!
