use scalp::case::Case;
use scalp::error::Error;
use scalp::finder::next_key;
use scalp::meta::{Meta, Options, Text};
use scalp::parse::{Argument, Key, Name};
use std::collections::VecDeque;

fn arguments(values: &[&'static str]) -> VecDeque<Argument> {
    values
        .iter()
        .map(|value| Argument::String(Text::Static(value)))
        .collect()
}

fn run(
    queue: &mut VecDeque<Argument>,
    metas: &[Meta],
) -> (Result<Option<Key>, Error>, Vec<Name>, Vec<usize>, usize) {
    let mut names = Vec::new();
    let mut indices = Vec::new();
    let mut position = 0;
    let result = next_key(
        queue,
        &mut names,
        &mut indices,
        metas,
        '-',
        Case::Kebab { upper: false },
        &mut position,
    );
    (result, names, indices, position)
}

#[test]
fn no_arguments_no_key() {
    let mut queue = arguments(&[]);
    let (result, names, indices, position) = run(&mut queue, &[Meta::Position]);
    assert!(matches!(result, Ok(None)));
    assert!(queue.is_empty());
    assert!(names.is_empty());
    assert!(indices.is_empty());
    assert_eq!(position, 0);
}

#[test]
fn unclaimed_argument_is_put_back() {
    let mut queue = arguments(&["value", "other"]);
    let metas = [Meta::Position, Meta::Name(Text::Static("name"))];
    let (result, names, _, position) = run(&mut queue, &metas);
    assert!(matches!(result, Ok(None)));
    assert_eq!(queue.len(), 2);
    assert!(matches!(&queue[0], Argument::String(text) if text.as_str() == "value"));
    assert!(names.is_empty());
    assert_eq!(position, 0);
}

#[test]
fn builtin_help_answers() {
    let mut queue = arguments(&["help", "rest"]);
    let metas = [Meta::Options(Options::Help { short: true, long: true })];
    let (result, names, _, _) = run(&mut queue, &metas);
    assert!(matches!(result, Err(Error::Help(None))));
    assert_eq!(queue.len(), 1);
    assert_eq!(names.len(), 1);
    assert_eq!(names[0].chars(true, true), "-h");
}

#[test]
fn builtin_version_inside_group() {
    let mut queue = arguments(&["v"]);
    let metas = [
        Meta::Help(Text::Static("about")),
        Meta::Group(vec![Meta::Options(Options::Version { short: true, long: false })]),
    ];
    let (result, names, indices, _) = run(&mut queue, &metas);
    assert!(matches!(result, Err(Error::Version(None))));
    assert!(names.is_empty());
    assert_eq!(indices, vec![0]);
}

#[test]
fn unrecognized_argument_suggests_close_names() {
    let mut queue = arguments(&["verson"]);
    let metas = [
        Meta::Options(Options::Help { short: true, long: true }),
        Meta::Options(Options::Version { short: true, long: true }),
    ];
    let (result, names, _, _) = run(&mut queue, &metas);
    assert_eq!(names.len(), 4);
    match result {
        Err(Error::UnrecognizedArgument(key, suggestions)) => {
            assert_eq!(key.as_str(), "verson");
            assert_eq!(suggestions.len(), 1);
            assert_eq!(suggestions[0].0.as_str(), "version");
            assert_eq!(suggestions[0].1, 1);
        }
        _ => panic!("expected an unrecognized argument"),
    }
    assert!(queue.is_empty());
}

#[test]
fn unrecognized_swizzle_is_shown_with_its_prefix() {
    let mut queue: VecDeque<Argument> = VecDeque::new();
    queue.push_back(Argument::Swizzle('q'));
    let metas = [Meta::Options(Options::Author { short: true, long: false })];
    let (result, _, _, _) = run(&mut queue, &metas);
    match result {
        Err(Error::UnrecognizedArgument(key, suggestions)) => {
            assert_eq!(key.as_str(), "-q");
            assert!(suggestions.is_empty());
        }
        _ => panic!("expected an unrecognized argument"),
    }
}

fn texts(values: &[&'static str]) -> Vec<Meta> {
    values.iter().map(|value| Meta::Name(Text::Static(value))).collect()
}

fn command_line() -> Vec<Meta> {
    let mut debug = texts(&["d", "debug"]);
    debug.push(Meta::Help(Text::Static("Debug mode.")));
    let mut yes = texts(&["y", "yes"]);
    yes.push(Meta::Swizzle);
    let mut force = texts(&["f", "force"]);
    force.push(Meta::Swizzle);
    let run = vec![
        Meta::Name(Text::Static("run")),
        Meta::Usage(Text::Static("example run <file> [OPTIONS]")),
        Meta::Option(vec![
            Meta::Name(Text::Static("file")),
            Meta::Position,
            Meta::Require(Text::Static("file")),
        ]),
    ];
    vec![
        Meta::Option(debug),
        Meta::Option(yes),
        Meta::Option(force),
        Meta::Options(Options::Help { short: true, long: true }),
        Meta::Group(vec![Meta::Verb(run), Meta::Verb(texts(&["show"]))]),
    ]
}

#[test]
fn long_option_is_found_with_its_path() {
    let mut queue = arguments(&["--debug", "rest"]);
    let (result, _, indices, _) = run(&mut queue, &command_line());
    match result {
        Ok(Some(Key::Name(name))) => {
            assert_eq!(name.value.as_str(), "debug");
            assert_eq!(name.prefixes, (Some('-'), Some('-')));
        }
        _ => panic!("expected a name"),
    }
    assert_eq!(indices, vec![0]);
    assert_eq!(queue.len(), 1);
}

#[test]
fn short_options_written_together_are_split() {
    let mut queue = arguments(&["-fy"]);
    let (result, _, indices, _) = run(&mut queue, &command_line());
    match result {
        Ok(Some(Key::Name(name))) => assert_eq!(name.value.as_str(), "f"),
        _ => panic!("expected a name"),
    }
    assert_eq!(indices, vec![2]);
    assert_eq!(queue.len(), 1);
    assert!(matches!(queue[0], Argument::Swizzle('y')));
    let (result, _, indices, _) = run(&mut queue, &command_line());
    match result {
        Ok(Some(Key::Name(name))) => assert_eq!(name.value.as_str(), "y"),
        _ => panic!("expected a name"),
    }
    assert_eq!(indices, vec![1]);
    assert!(queue.is_empty());
}

#[test]
fn option_without_swizzle_refuses_company() {
    let mut queue = arguments(&["-dy"]);
    let (result, _, _, _) = run(&mut queue, &command_line());
    match result {
        Err(Error::InvalidSwizzleOption(name)) => assert_eq!(name.as_str(), "d"),
        _ => panic!("expected an invalid swizzle"),
    }
    assert_eq!(queue.len(), 1);
}

#[test]
fn verb_is_found_inside_group() {
    let mut queue = arguments(&["run", "./"]);
    let (result, _, indices, _) = run(&mut queue, &command_line());
    match result {
        Ok(Some(Key::Name(name))) => {
            assert_eq!(name.value.as_str(), "run");
            assert_eq!(name.prefixes, (None, None));
        }
        _ => panic!("expected a verb"),
    }
    assert_eq!(indices, vec![3, 0]);
    assert_eq!(queue.len(), 1);
}

#[test]
fn position_is_found_and_counted() {
    let metas = match &command_line()[4] {
        Meta::Group(verbs) => match &verbs[0] {
            Meta::Verb(run) => run.iter().map(|meta| meta.clone(8)).collect::<Vec<Meta>>(),
            _ => panic!(),
        },
        _ => panic!(),
    };
    let mut queue = arguments(&["./"]);
    let (result, _, indices, position) = run(&mut queue, &metas);
    assert!(matches!(result, Ok(Some(Key::Position(0)))));
    assert_eq!(indices, vec![0]);
    assert_eq!(position, 1);
    assert_eq!(queue.len(), 1);
}

#[test]
fn double_prefix_ends_the_options() {
    let mut queue = arguments(&["--", "value"]);
    let (result, _, _, _) = run(&mut queue, &command_line());
    assert!(matches!(result, Ok(None)));
    assert_eq!(queue.len(), 1);
    assert!(matches!(&queue[0], Argument::String(text) if text.as_str() == "value"));
}

#[test]
fn lone_prefix_is_unrecognized() {
    let mut queue = arguments(&["-"]);
    let (result, _, _, _) = run(&mut queue, &command_line());
    match result {
        Err(Error::UnrecognizedArgument(key, _)) => assert_eq!(key.as_str(), "-"),
        _ => panic!("expected an unrecognized argument"),
    }
}
