use scalp::utility::{kind_name, Kind};
use scalp::case::Case;
use scalp::convert::{
    to_camel, to_camel_in, to_kebab, to_kebab_in, to_pascal, to_pascal_in, to_screaming_kebab,
    to_screaming_snake, to_snake, to_snake_in, to_upper_kebab_in, to_upper_snake_in,
};
use scalp::meta::{Meta, Options, Text};
use scalp::parse::Argument;
use scalp::spell::Spell;

#[test]
fn appending_conversions_append() {
    let mut target = String::from(">");
    to_pascal_in("boba fett", &mut target);
    to_camel_in(" boba-fett", &mut target);
    to_snake_in(" BobaFett", &mut target);
    to_kebab_in(" BobaFett", &mut target);
    to_upper_snake_in(" BobaFett", &mut target);
    to_upper_kebab_in(" BobaFett", &mut target);
    assert_eq!(target, ">BobaFettbobaFettboba_fettboba-fettBOBA_FETTBOBA-FETT");
}

#[test]
fn separated_conversion_is_idempotent() {
    for source in ["Boba Fett", "boba__fett", "_BOBA-fett_", "1boBa2FetT", ""] {
        assert_eq!(to_snake(&to_snake(source)), to_snake(source));
        assert_eq!(to_kebab(&to_kebab(source)), to_kebab(source));
        assert_eq!(to_screaming_snake(&to_screaming_snake(source)), to_screaming_snake(source));
        assert_eq!(to_screaming_kebab(&to_screaming_kebab(source)), to_screaming_kebab(source));
        let case = Case::Snake { upper: false };
        assert_eq!(case.convert(&case.convert(source)), case.convert(source));
    }
}

#[test]
fn continuous_conversion_drops_separators() {
    for source in ["boba fett", "BOBA-FETT", "_boba_", "a_b-c d"] {
        assert!(!to_pascal(source).contains(['_', '-', ' ']));
        assert!(!to_camel(source).contains(['_', '-', ' ']));
    }
}

#[test]
fn continuous_conversion_may_change_again() {
    let once = to_pascal("A_a_B");
    assert_eq!(once, "AAB");
    assert_eq!(to_pascal(&once), "Aab");
}

#[test]
fn cases_match_the_free_conversions() {
    let source = "boba fett-Jango";
    assert_eq!(Case::Pascal.convert(source), to_pascal(source));
    assert_eq!(Case::Camel.convert(source), to_camel(source));
    assert_eq!(Case::Snake { upper: true }.convert(source), to_screaming_snake(source));
    assert_eq!(Case::Kebab { upper: false }.convert(source), to_kebab(source));
    assert_eq!(Case::Same.convert(source), source);
}

#[test]
fn distance_laws_on_words() {
    let mut spell = Spell::new();
    assert_eq!(spell.distance(b"fett", b"fett"), 0);
    assert_eq!(spell.distance(b"BoBa", b"boba"), 0);
    assert!(spell.distance(b"jango", b"boba") <= 5);
    assert!(spell.distance(b"boba", b"jango") <= 5);
}

#[test]
fn visible_descriptions_skip_hidden_stretches() {
    let metas = [
        Meta::Hide,
        Meta::Name(Text::Static("hidden")),
        Meta::Show,
        Meta::Name(Text::Static("shown")),
        Meta::Show,
    ];
    let visible = Meta::visible(&metas);
    assert_eq!(visible.len(), 2);
    assert!(matches!(visible[0], Meta::Name(name) if name.as_str() == "shown"));
    assert!(matches!(visible[1], Meta::Show));
}

#[test]
fn common_options_are_version_and_help() {
    let options = Options::common(true, false);
    assert_eq!(options, [Options::Version { short: true, long: false }, Options::Help { short: true, long: false }]);
    assert_eq!(Options::all(false, true).len(), 4);
}

#[test]
fn pushing_into_a_node_appends() {
    let mut node = Meta::Group(vec![Meta::Position]);
    assert!(node.push(Meta::Swizzle));
    assert_eq!(node.children().len(), 2);
    assert!(matches!(node.children()[1], Meta::Swizzle));
    let mut leaf = Meta::Position;
    assert!(!leaf.push(Meta::Swizzle));
    assert!(leaf.children().is_empty());
}

#[test]
fn blank_values_make_no_argument() {
    assert_eq!(Argument::string(Text::from(" \t\n")), None);
    assert_eq!(Argument::string(Text::from("")), None);
    assert_eq!(Argument::string(Text::from(" x ")), Some(Argument::String(Text::from(" x "))));
}

#[test]
fn camel_is_pascal_with_a_small_start() {
    for source in ["boba fett", "__boba_fett", "1st place", "BOBA-fett", ""] {
        let pascal = to_pascal(source);
        let camel = to_camel(source);
        let mut lowered = String::new();
        let mut done = false;
        for letter in pascal.chars() {
            if !done && letter.is_ascii_alphabetic() {
                lowered.push(letter.to_ascii_lowercase());
                done = true;
            } else {
                lowered.push(letter);
            }
        }
        assert_eq!(camel, lowered);
    }
}

#[test]
fn kebab_is_snake_with_hyphens_and_screaming_is_capital() {
    for source in ["BobaFett", "boba fett", "a1-b2_c3", "HTTPServer"] {
        assert_eq!(to_kebab(source), to_snake(source).replace('_', "-"));
        assert_eq!(to_screaming_snake(source), to_snake(source).to_ascii_uppercase());
        assert_eq!(to_screaming_kebab(source), to_kebab(source).to_ascii_uppercase());
    }
}

#[test]
fn kinds_name_their_values() {
    assert_eq!(kind_name(Kind::Boolean, "bool"), "boolean");
    assert_eq!(kind_name(Kind::Natural, "u8"), "natural number");
    assert_eq!(kind_name(Kind::Integer, "i64"), "integer number");
    assert_eq!(kind_name(Kind::Rational, "f64"), "rational number");
    assert_eq!(kind_name(Kind::Other, "alloc::vec::Vec<u8>"), "Vec");
}
