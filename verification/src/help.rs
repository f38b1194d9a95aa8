use crate::error::joined;
use crate::meta::{blank, is_blank, spec_children, Meta, Text};
use crate::parse::Key;
use crate::render::{help_text, render, style_palette, Palette};
use crate::style::Style;
use std::sync::Arc;
use vstd::prelude::*;

verus! {

/// What the help option answers: the description of the whole command
/// line, the node that was reached, the keys that led to it, and the style to
/// write it in.
pub struct Help {
    pub root: Arc<Meta>,
    pub meta: Arc<Meta>,
    pub path: Vec<Key>,
    pub style: Arc<dyn Style>,
}

/// What the version option answers: the node whose versions are shown.
pub struct Version(pub Arc<Meta>);

/// What the license option answers: the node whose licenses are shown.
pub struct License(pub Arc<Meta>);

/// What the author option answers: the node whose authors are shown.
pub struct Author(pub Arc<Meta>);

/// The versions among `metas`, in order.
pub open spec fn versions_of(metas: Seq<Meta>) -> Seq<Text>
    decreases metas.len(),
{
    if metas.len() == 0 {
        Seq::empty()
    } else {
        let rest = versions_of(metas.drop_last());
        match metas.last() {
            Meta::Version(version) => rest.push(version),
            _ => rest,
        }
    }
}

/// The authors among `metas`, in order.
pub open spec fn authors_of(metas: Seq<Meta>) -> Seq<Text>
    decreases metas.len(),
{
    if metas.len() == 0 {
        Seq::empty()
    } else {
        let rest = authors_of(metas.drop_last());
        match metas.last() {
            Meta::Author(author) => rest.push(author),
            _ => rest,
        }
    }
}

/// The licenses (name and file) among `metas`, in order.
pub open spec fn licenses_of(metas: Seq<Meta>) -> Seq<(Text, Text)>
    decreases metas.len(),
{
    if metas.len() == 0 {
        Seq::empty()
    } else {
        let rest = licenses_of(metas.drop_last());
        match metas.last() {
            Meta::License(name, file) => rest.push((name, file)),
            _ => rest,
        }
    }
}

/// The characters of each text.
pub open spec fn text_views(items: Seq<Text>) -> Seq<Seq<char>> {
    items.map_values(|item: Text| item@)
}

/// Appends `items` to `target`, separated by a comma and a space.
pub fn join(target: &mut String, items: &[&Text])
    ensures
        final(target)@ == old(target)@ + joined(
            ", "@,
            text_views(items@.map_values(|item: &Text| *item)),
        ),
{
    let ghost start = target@;
    let ghost all = text_views(items@.map_values(|item: &Text| *item));
    let mut comma = false;
    let mut index: usize = 0;
    while index < items.len()
        invariant
            index <= items@.len(),
            comma == (index > 0),
            all == text_views(items@.map_values(|item: &Text| *item)),
            target@ == start + joined(", "@, all.take(index as int)),
        decreases items@.len() - index,
    {
        assert(all.take(index + 1).drop_last() == all.take(index as int));
        assert(all.take(index + 1).last() == items@[index as int]@);
        if comma {
            target.append(", ");
        } else {
            comma = true;
        }
        target.append(items[index].as_str());
        index = index + 1;
    }
    assert(all.take(items@.len() as int) == all);
}

impl Help {
    /// The help text in the help's style: the style is read into a palette,
    /// and the text is the one `help_text` gives for it.
    pub fn render(&self) -> (text: String)
        ensures
            text@ == help_text(style_palette(&*self.style), self.path@, *self.root, *self.meta),
    {
        let palette = Palette::of(&*self.style);
        let text = render(&palette, self.path.as_slice(), &*self.root, &*self.meta);
        text
    }
}

impl Version {
    /// The versions of the node joined by commas.
    pub fn text(&self) -> (text: String)
        ensures
            text@ == joined(", "@, text_views(versions_of(spec_children(*self.0)))),
    {
        let versions = self.versions();
        let mut text = String::new();
        join(&mut text, versions.as_slice());
        assert(text@ =~= joined(", "@, text_views(versions_of(spec_children(*self.0)))));
        text
    }

    /// The versions of the node, in order.
    pub fn versions(&self) -> (versions: Vec<&Text>)
        ensures
            versions@.map_values(|version: &Text| *version) == versions_of(spec_children(*self.0)),
    {
        let children = self.0.children();
        let mut versions: Vec<&Text> = Vec::new();
        let mut index: usize = 0;
        while index < children.len()
            invariant
                index <= children@.len(),
                children@ == spec_children(*self.0),
                versions@.map_values(|version: &Text| *version) == versions_of(
                    children@.take(index as int),
                ),
            decreases children@.len() - index,
        {
            assert(children@.take(index + 1).drop_last() == children@.take(index as int));
            let ghost before = versions@;
            if let Meta::Version(version) = &children[index] {
                versions.push(version);
                assert(versions@.map_values(|version: &Text| *version) == before.map_values(
                    |version: &Text| *version,
                ).push(*version));
            }
            index = index + 1;
        }
        assert(children@.take(children@.len() as int) == children@);
        versions
    }

    pub fn meta(&self) -> (meta: &Meta)
        ensures
            *meta == *self.0,
    {
        &self.0
    }
}

impl Author {
    /// The authors of the node joined by commas.
    pub fn text(&self) -> (text: String)
        ensures
            text@ == joined(", "@, text_views(authors_of(spec_children(*self.0)))),
    {
        let authors = self.authors();
        let mut text = String::new();
        join(&mut text, authors.as_slice());
        assert(text@ =~= joined(", "@, text_views(authors_of(spec_children(*self.0)))));
        text
    }

    /// The authors of the node, in order.
    pub fn authors(&self) -> (authors: Vec<&Text>)
        ensures
            authors@.map_values(|author: &Text| *author) == authors_of(spec_children(*self.0)),
    {
        let children = self.0.children();
        let mut authors: Vec<&Text> = Vec::new();
        let mut index: usize = 0;
        while index < children.len()
            invariant
                index <= children@.len(),
                children@ == spec_children(*self.0),
                authors@.map_values(|author: &Text| *author) == authors_of(
                    children@.take(index as int),
                ),
            decreases children@.len() - index,
        {
            assert(children@.take(index + 1).drop_last() == children@.take(index as int));
            let ghost before = authors@;
            if let Meta::Author(author) = &children[index] {
                authors.push(author);
                assert(authors@.map_values(|author: &Text| *author) == before.map_values(
                    |author: &Text| *author,
                ).push(*author));
            }
            index = index + 1;
        }
        assert(children@.take(children@.len() as int) == children@);
        authors
    }

    pub fn meta(&self) -> (meta: &Meta)
        ensures
            *meta == *self.0,
    {
        &self.0
    }
}

impl License {
    /// The licenses of the node (name and file), in order.
    pub fn licenses(&self) -> (licenses: Vec<(&Text, &Text)>)
        ensures
            licenses@.map_values(|license: (&Text, &Text)| (*license.0, *license.1))
                == licenses_of(spec_children(*self.0)),
    {
        let children = self.0.children();
        let mut licenses: Vec<(&Text, &Text)> = Vec::new();
        let mut index: usize = 0;
        while index < children.len()
            invariant
                index <= children@.len(),
                children@ == spec_children(*self.0),
                licenses@.map_values(|license: (&Text, &Text)| (*license.0, *license.1))
                    == licenses_of(children@.take(index as int)),
            decreases children@.len() - index,
        {
            assert(children@.take(index + 1).drop_last() == children@.take(index as int));
            let ghost before = licenses@;
            if let Meta::License(name, file) = &children[index] {
                licenses.push((name, file));
                assert(licenses@.map_values(|license: (&Text, &Text)| (*license.0, *license.1))
                    == before.map_values(|license: (&Text, &Text)| (*license.0, *license.1)).push(
                    (*name, *file),
                ));
            }
            index = index + 1;
        }
        assert(children@.take(children@.len() as int) == children@);
        licenses
    }

    pub fn meta(&self) -> (meta: &Meta)
        ensures
            *meta == *self.0,
    {
        &self.0
    }
}

/// What a license shows: the content of its file when the file could be
/// read (`content`), else its name when no file is given, else the file's
/// name.
pub fn license_entry(name: &Text, file: &Text, content: Option<String>) -> (shown: Text)
    ensures
        shown@ == match content {
            Some(text) => text@,
            None => if blank(file@) {
                name@
            } else {
                file@
            },
        },
{
    match content {
        Some(text) => Text::from(text),
        None => if is_blank(file.as_str()) {
            name.clone()
        } else {
            file.clone()
        },
    }
}

} // verus!
