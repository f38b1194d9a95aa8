use scalp::help::license_entry;
use scalp::help::{Author, Version};
use scalp::meta::{Meta, Options, Text};
use scalp::render::{render, Palette};
use scalp::style::Plain;
use std::sync::Arc;

fn tool() -> Meta {
    Meta::Verb(vec![
        Meta::Name(Text::Static("tool")),
        Meta::Help(Text::Static("A tool.")),
        Meta::Option(vec![
            Meta::Name(Text::Static("v")),
            Meta::Name(Text::Static("verbose")),
            Meta::Summary(Text::Static("Talk more.")),
        ]),
    ])
}

#[test]
fn plain_palette_reads_the_style() {
    let palette = Palette::of(&Plain);
    assert_eq!(palette.indent, 2);
    assert_eq!(palette.width, 96);
    assert_eq!(palette.begins.len(), 22);
    assert_eq!(palette.ends.len(), 22);
    assert_eq!(palette.begins[1].text, "~");
    assert_eq!(palette.begins[15].text, "<");
    assert_eq!(palette.ends[21].text, "]");
}

#[test]
fn help_of_a_small_tool() {
    let palette = Palette::of(&Plain);
    let root = tool();
    let text = render(&palette, &[], &root, &root);
    let expected = String::from("\n\n~ tool\n~\n~   Usage: tool [OPTIONS]\n\nA tool.\nv")
        + &" ".repeat(8)
        + "verbose  Talk more. \n";
    assert_eq!(text, expected);
}

#[test]
fn hidden_descriptions_are_left_out() {
    let palette = Palette::of(&Plain);
    let root = Meta::Verb(vec![
        Meta::Hide,
        Meta::Name(Text::Static("secret")),
        Meta::Show,
        Meta::Help(Text::Static("Shown.")),
    ]);
    let text = render(&palette, &[], &root, &root);
    assert!(!text.contains("secret"));
    assert!(text.contains("Shown."));
}

#[test]
fn long_help_is_wrapped() {
    let palette = Palette {
        indent: 2,
        width: 10,
        begins: Palette::of(&Plain).begins,
        ends: Palette::of(&Plain).ends,
    };
    let root = Meta::Group(vec![Meta::Help(Text::Static("one two three four"))]);
    let meta = Meta::Group(vec![Meta::Help(Text::Static("one two three four"))]);
    let text = render(&palette, &[], &root, &meta);
    assert!(text.ends_with("one two \nthree four\n"));
}

#[test]
fn versions_and_authors_are_joined() {
    let node = Arc::new(Meta::Verb(vec![
        Meta::Version(Text::Static("1.0")),
        Meta::Author(Text::Static("Boba")),
        Meta::Version(Text::Static("2.0")),
        Meta::Author(Text::Static("Fett")),
        Meta::Options(Options::Help { short: true, long: true }),
    ]));
    assert_eq!(Version(node.clone()).text(), "1.0, 2.0");
    assert_eq!(Author(node).text(), "Boba, Fett");
}

#[test]
fn help_renders_in_its_own_style() {
    let root = Arc::new(tool());
    let help = scalp::help::Help {
        root: root.clone(),
        meta: root.clone(),
        path: Vec::new(),
        style: Arc::new(Plain),
    };
    let expected = render(&Palette::of(&Plain), &[], &root, &root);
    assert_eq!(help.render(), expected);
    assert_eq!(scalp::error::Error::Help(Some(help)).message(), Some(expected));
}

#[test]
fn license_entries_fall_back_to_names() {
    let name = Text::Static("MIT");
    assert_eq!(license_entry(&name, &Text::Static("LICENSE"), Some("text".to_string())).as_str(), "text");
    assert_eq!(license_entry(&name, &Text::Static(" "), None).as_str(), "MIT");
    assert_eq!(license_entry(&name, &Text::Static("LICENSE"), None).as_str(), "LICENSE");
}
