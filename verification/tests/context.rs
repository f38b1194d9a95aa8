use scalp::context::{leftover, missing, repeated, required};
use std::collections::VecDeque;
use scalp::context::{duplicate, failed_parse, invalid_option, is_valid, missing_option, named_type, patterns, read_value, trim_pattern, Reading};
use scalp::error::Error;
use scalp::meta::{Meta, Text};
use scalp::parse::Argument;

#[test]
fn last_named_type_wins() {
    let metas = [
        Meta::Type(Text::Static("first")),
        Meta::Help(Text::Static("help")),
        Meta::Type(Text::Static("second")),
    ];
    assert_eq!(named_type(&metas).map(|name| name.as_str().to_string()), Some("second".to_string()));
    assert!(named_type(&[Meta::Position]).is_none());
}

#[test]
fn patterns_are_shown_without_anchors() {
    assert_eq!(trim_pattern(&Text::Static("^^a+$$")), "a+");
    assert_eq!(trim_pattern(&Text::Static("^$")), "");
    let metas = [
        Meta::Valid(Text::Static("^[a-z]+$")),
        Meta::Group(vec![Meta::Valid(Text::Static("^[0-9]+$"))]),
        Meta::Option(vec![Meta::Valid(Text::Static("^x$"))]),
    ];
    assert_eq!(patterns(&metas), vec!["[a-z]+".to_string(), "[0-9]+".to_string()]);
}

#[test]
fn valid_when_a_pattern_matches() {
    let metas = [
        Meta::Valid(Text::Static("^[a-z]+$")),
        Meta::Group(vec![Meta::Valid(Text::Static("^[0-9]+$"))]),
    ];
    assert!(is_valid(&metas, &Text::Static("boba")));
    assert!(is_valid(&metas, &Text::Static("42")));
    assert!(!is_valid(&metas, &Text::Static("boba42")));
    assert!(is_valid(&[Meta::Position], &Text::Static("anything")));
}

#[test]
fn errors_carry_their_details() {
    let metas = [Meta::Type(Text::Static("number")), Meta::Valid(Text::Static("^[0-9]$"))];
    assert!(matches!(duplicate(&Meta::Option(vec![]), vec![]), Error::DuplicateOption(_)));
    assert!(matches!(duplicate(&Meta::Verb(vec![]), vec![]), Error::DuplicateVerb(_)));
    assert!(matches!(duplicate(&Meta::Group(vec![]), vec![]), Error::DuplicateParse(_)));
    match missing_option(&metas, vec![]) {
        Error::MissingValue(Some(name), path) => {
            assert_eq!(name.as_str(), "number");
            assert!(path.is_empty());
        }
        _ => panic!("expected a missing value"),
    }
    match invalid_option(&metas, Text::Static("x"), vec![]) {
        Error::InvalidOptionValue(value, expected, _) => {
            assert_eq!(value.as_str(), "x");
            assert_eq!(expected, vec!["[0-9]".to_string()]);
        }
        _ => panic!("expected an invalid value"),
    }
    assert!(matches!(failed_parse(&metas, Text::Static("x"), vec![]), Error::FailedToParseOptionValue(_, Some(_), _)));
}

#[test]
fn option_values_are_read_from_the_front_argument() {
    let digits = [Meta::Valid(Text::Static("^[0-9]+$"))];
    let text = |value: &'static str| Some(Argument::String(Text::Static(value)));
    assert!(matches!(read_value(&digits, text("42"), false, true), Reading::Parsed(value) if value.as_str() == "42"));
    assert!(matches!(read_value(&digits, text("4a"), false, true), Reading::Invalid(value) if value.as_str() == "4a"));
    assert!(matches!(read_value(&digits, text("x"), false, false), Reading::Unparsed(value) if value.as_str() == "x"));
    assert!(matches!(read_value(&digits, None, false, false), Reading::Missing));
    assert!(matches!(read_value(&[], None, true, false), Reading::Flag(None)));
    assert!(matches!(read_value(&[], text("run"), true, false), Reading::Flag(Some(value)) if value.as_str() == "run"));
    assert!(matches!(read_value(&[], text("false"), true, true), Reading::Parsed(_)));
    assert!(matches!(read_value(&[], Some(Argument::Swizzle('a')), true, false), Reading::Swizzled('a')));
}

#[test]
fn leftover_arguments_are_excess() {
    assert!(leftover(VecDeque::new()).is_none());
    let arguments = VecDeque::from(vec![
        Argument::String(Text::Static("a")),
        Argument::Swizzle('x'),
        Argument::String(Text::Static("b")),
    ]);
    match leftover(arguments) {
        Some(Error::ExcessArguments(excess)) => {
            assert_eq!(excess.iter().map(|text| text.as_str()).collect::<Vec<_>>(), vec!["a", "b"]);
        }
        _ => panic!(),
    }
    let only_letters = VecDeque::from(vec![Argument::Swizzle('x')]);
    assert!(matches!(leftover(only_letters), Some(Error::ExcessArguments(excess)) if excess.is_empty()));
}

#[test]
fn missing_values_are_required_or_stood_in_for() {
    assert!(matches!(required(Error::MissingValue(None, Vec::new())), Error::MissingRequired(None, _)));
    assert!(matches!(required(Error::MissingIndex), Error::MissingIndex));
    assert!(matches!(missing(Error::MissingRequired(Some(Text::Static("t")), Vec::new())), Ok((Some(_), _))));
    assert!(matches!(missing(Error::MissingValue(None, Vec::new())), Ok((None, _))));
    assert!(matches!(missing(Error::EmptyArgument), Err(Error::EmptyArgument)));
    assert!(matches!(repeated(Some(Error::MissingIndex), 0), Some(Error::MissingIndex)));
    assert!(repeated(Some(Error::MissingIndex), 2).is_none());
    assert!(repeated(None, 0).is_none());
}
