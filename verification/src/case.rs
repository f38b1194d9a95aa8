use crate::ascii::{
    lemma_case_change,
    is_alphabetic, is_lower, is_separator, is_upper, spec_is_separator, spec_to_lower,
    spec_to_upper, to_lower, to_upper,
};
use crate::convert::{
    continuous_run, continuous_step, law_separated_idempotent, separated_run, separated_step, spec_continuous,
    spec_separated, ContinuousState, SeparatedState,
};
use vstd::prelude::*;

verus! {

/// A way of writing names: unchanged, all small or all capital letters with
/// the separators dropped, joined words (pascal, camel), or words joined by a
/// separator (snake, kebab, any other separator) in small or capital letters.
#[derive(Debug, Clone, Copy, PartialEq, Eq, Structural, PartialOrd, Ord, Hash)]
pub enum Case {
    Same,
    Lower,
    Upper,
    Pascal,
    Camel,
    Snake { upper: bool },
    Kebab { upper: bool },
    Separate { separator: char, upper: bool },
}

impl core::default::Default for Case {
    fn default() -> (case: Self)
        ensures
            case == Case::Same,
    {
        Case::Same
    }
}

/// `source` with the separators dropped and every ASCII letter made capital.
pub open spec fn spec_upper(source: Seq<char>) -> Seq<char> {
    source.filter(|c: char| !spec_is_separator(c)).map_values(|c: char| spec_to_upper(c))
}

/// `source` with the separators dropped and every ASCII letter made small.
pub open spec fn spec_lower(source: Seq<char>) -> Seq<char> {
    source.filter(|c: char| !spec_is_separator(c)).map_values(|c: char| spec_to_lower(c))
}

/// The text that `case` makes of `source`.
pub open spec fn spec_convert(case: Case, source: Seq<char>) -> Seq<char> {
    match case {
        Case::Same => source,
        Case::Lower => spec_lower(source),
        Case::Upper => spec_upper(source),
        Case::Pascal => spec_continuous(source, true),
        Case::Camel => spec_continuous(source, false),
        Case::Snake { upper } => spec_separated(source, '_', !upper),
        Case::Kebab { upper } => spec_separated(source, '-', !upper),
        Case::Separate { separator, upper } => spec_separated(source, separator, !upper),
    }
}

impl Case {
    pub fn convert(&self, source: &str) -> (target: String)
        ensures
            target@ == spec_convert(*self, source@),
    {
        match self {
            Case::Same => same(source),
            Case::Lower => Self::lower(source),
            Case::Upper => Self::upper(source),
            Case::Pascal => Self::pascal(source),
            Case::Camel => Self::camel(source),
            Case::Snake { upper } => Self::snake(source, *upper),
            Case::Kebab { upper } => Self::kebab(source, *upper),
            Case::Separate { separator, upper } => separated(source, *separator, !*upper),
        }
    }

    pub fn upper(source: &str) -> (target: String)
        ensures
            target@ == spec_upper(source@),
    {
        map_letters(source, true)
    }

    pub fn lower(source: &str) -> (target: String)
        ensures
            target@ == spec_lower(source@),
    {
        map_letters(source, false)
    }

    pub fn pascal(source: &str) -> (target: String)
        ensures
            target@ == spec_continuous(source@, true),
    {
        continuous(source, true)
    }

    pub fn camel(source: &str) -> (target: String)
        ensures
            target@ == spec_continuous(source@, false),
    {
        continuous(source, false)
    }

    pub fn snake(source: &str, upper: bool) -> (target: String)
        ensures
            target@ == spec_separated(source@, '_', !upper),
    {
        separated(source, '_', !upper)
    }

    pub fn kebab(source: &str, upper: bool) -> (target: String)
        ensures
            target@ == spec_separated(source@, '-', !upper),
    {
        separated(source, '-', !upper)
    }
}

fn same(source: &str) -> (target: String)
    ensures
        target@ == source@,
{
    let mut target = String::new();
    for letter in iter: source.chars()
        invariant
            iter.seq() == source@,
            target@ == source@.take(iter.index() as int),
    {
        assert(source@.take(iter.index() + 1) == source@.take(iter.index() as int).push(letter));
        target.push(letter);
    }
    assert(source@.take(source@.len() as int) == source@);
    target
}

/// Drops the separators of `source` and makes every letter capital (`upper`)
/// or small.
fn map_letters(source: &str, upper: bool) -> (target: String)
    ensures
        upper ==> target@ == spec_upper(source@),
        !upper ==> target@ == spec_lower(source@),
{
    let ghost keep = |c: char| !spec_is_separator(c);
    let ghost map = |c: char|
        if upper {
            spec_to_upper(c)
        } else {
            spec_to_lower(c)
        };
    let mut target = String::new();
    for letter in iter: source.chars()
        invariant
            iter.seq() == source@,
            forall|c: char| #[trigger] keep(c) == !spec_is_separator(c),
            forall|c: char|
                #[trigger] map(c) == if upper {
                    spec_to_upper(c)
                } else {
                    spec_to_lower(c)
                },
            target@ == source@.take(iter.index() as int).filter(keep).map_values(map),
    {
        let ghost before = source@.take(iter.index() as int);
        assert(source@.take(iter.index() + 1).drop_last() == before);
        assert(source@.take(iter.index() + 1) == before.push(letter));
        proof {
            before.lemma_filter_push(letter, keep);
        }
        if !is_separator(letter) {
            target.push(
                if upper {
                    to_upper(letter)
                } else {
                    to_lower(letter)
                },
            );
            assert(source@.take(iter.index() + 1).filter(keep) == before.filter(keep).push(letter));
        } else {
            assert(source@.take(iter.index() + 1).filter(keep) == before.filter(keep));
        }
        assert(target@ == source@.take(iter.index() + 1).filter(keep).map_values(map));
    }
    assert(source@.take(source@.len() as int) == source@);
    assert(upper ==> target@ == spec_upper(source@));
    assert(!upper ==> target@ == spec_lower(source@));
    target
}

fn continuous(source: &str, first: bool) -> (target: String)
    ensures
        target@ == spec_continuous(source@, first),
{
    let mut target = String::new();
    let mut first = first;
    let ghost initial = first;
    let mut upper = first;
    let mut last = true;
    for letter in iter: source.chars()
        invariant
            iter.seq() == source@,
            continuous_run(source@.take(iter.index() as int), initial).0 == (ContinuousState {
                upper,
                last,
                first,
            }),
            target@ == continuous_run(source@.take(iter.index() as int), initial).1,
    {
        let ghost before = source@.take(iter.index() as int);
        assert(source@.take(iter.index() + 1).drop_last() == before);
        let mut result: Option<char> = None;
        if is_alphabetic(letter) {
            if upper {
                result = Some(to_upper(letter));
                upper = false;
            } else if last {
                result = Some(to_lower(letter));
            } else {
                result = Some(letter);
            }
            last = is_upper(letter);
            first = true;
        } else if is_separator(letter) {
            upper = first;
        } else {
            upper = first;
            result = Some(letter);
        }
        if let Some(out) = result {
            target.push(out);
        }
        assert(target@ == continuous_run(before, initial).1 + continuous_step(
            continuous_run(before, initial).0,
            letter,
        ).1);
    }
    assert(source@.take(source@.len() as int) == source@);
    target
}

fn separated(source: &str, separator: char, lower: bool) -> (target: String)
    ensures
        target@ == spec_separated(source@, separator, lower),
{
    let mut target = String::new();
    let mut separate = false;
    let mut first = false;
    let mut last = false;
    for letter in iter: source.chars()
        invariant
            iter.seq() == source@,
            separated_run(source@.take(iter.index() as int), separator, lower).0
                == (SeparatedState { separate, first, last }),
            target@ == separated_run(source@.take(iter.index() as int), separator, lower).1,
    {
        let ghost before = source@.take(iter.index() as int);
        assert(source@.take(iter.index() + 1).drop_last() == before);
        let mut results: [Option<char>; 2] = [None, None];
        if is_upper(letter) {
            if separate || last {
                results[0] = Some(separator);
                separate = false;
                last = false;
            }
            first = true;
            results[1] = Some(
                if lower {
                    to_lower(letter)
                } else {
                    letter
                },
            );
        } else if is_lower(letter) {
            if separate {
                results[0] = Some(separator);
                separate = false;
            }
            first = true;
            last = true;
            results[1] = Some(
                if lower {
                    letter
                } else {
                    to_upper(letter)
                },
            );
        } else if is_separator(letter) {
            separate = first;
            last = false;
        } else {
            results[0] = Some(letter);
            separate = false;
            first = false;
            last = false;
        }
        if let Some(out) = results[0] {
            target.push(out);
        }
        if let Some(out) = results[1] {
            target.push(out);
        }
        assert(target@ == separated_run(before, separator, lower).1 + separated_step(
            separated_run(before, separator, lower).0,
            letter,
            separator,
            lower,
        ).1);
    }
    assert(source@.take(source@.len() as int) == source@);
    target
}

/// Dropping separators and changing letter case, written one character at a
/// time.
proof fn lemma_map_letters_push(source: Seq<char>, letter: char, upper: bool)
    ensures
        upper ==> spec_upper(source.push(letter)) == if spec_is_separator(letter) {
            spec_upper(source)
        } else {
            spec_upper(source).push(spec_to_upper(letter))
        },
        !upper ==> spec_lower(source.push(letter)) == if spec_is_separator(letter) {
            spec_lower(source)
        } else {
            spec_lower(source).push(spec_to_lower(letter))
        },
{
    let keep = |c: char| !spec_is_separator(c);
    source.lemma_filter_push(letter, keep);
    assert(source.push(letter).filter(keep) == if keep(letter) {
        source.filter(keep).push(letter)
    } else {
        source.filter(keep)
    });
    if keep(letter) {
        assert(source.filter(keep).push(letter).map_values(|c: char| spec_to_upper(c))
            == source.filter(keep).map_values(|c: char| spec_to_upper(c)).push(
            spec_to_upper(letter),
        ));
        assert(source.filter(keep).push(letter).map_values(|c: char| spec_to_lower(c))
            == source.filter(keep).map_values(|c: char| spec_to_lower(c)).push(
            spec_to_lower(letter),
        ));
    }
}

proof fn lemma_map_letters_idempotent(source: Seq<char>, upper: bool)
    ensures
        upper ==> spec_upper(spec_upper(source)) == spec_upper(source),
        !upper ==> spec_lower(spec_lower(source)) == spec_lower(source),
    decreases source.len(),
{
    if source.len() == 0 {
        let keep = |c: char| !spec_is_separator(c);
        reveal(Seq::filter);
        assert(source.filter(keep) == source);
    } else {
        let before = source.drop_last();
        let letter = source.last();
        assert(before.push(letter) == source);
        lemma_map_letters_idempotent(before, upper);
        lemma_map_letters_push(before, letter, upper);
        lemma_case_change(letter);
        if upper {
            lemma_map_letters_push(spec_upper(before), spec_to_upper(letter), upper);
            lemma_case_change(spec_to_upper(letter));
        } else {
            lemma_map_letters_push(spec_lower(before), spec_to_lower(letter), upper);
            lemma_case_change(spec_to_lower(letter));
        }
    }
}

/// Converting a second time changes nothing, for every case but pascal and
/// camel (whose second pass may change runs of capitals: `A_a_B` becomes
/// `AAB` and then `Aab`) and a separated case whose separator is no word
/// separator.
pub proof fn law_convert_idempotent(case: Case, source: Seq<char>)
    requires
        !(case is Pascal),
        !(case is Camel),
        case is Separate ==> spec_is_separator(case->separator),
    ensures
        spec_convert(case, spec_convert(case, source)) == spec_convert(case, source),
{
    match case {
        Case::Lower => lemma_map_letters_idempotent(source, false),
        Case::Upper => lemma_map_letters_idempotent(source, true),
        Case::Snake { upper } => law_separated_idempotent(source, '_', !upper),
        Case::Kebab { upper } => law_separated_idempotent(source, '-', !upper),
        Case::Separate { separator, upper } => law_separated_idempotent(source, separator, !upper),
        _ => {},
    }
}

/// The conversions of `Case` and the free conversion functions agree: pascal,
/// camel, small and capital snake and kebab case give the same text either way.
pub proof fn law_case_matches_free_functions(source: Seq<char>)
    ensures
        spec_convert(Case::Pascal, source) == spec_continuous(source, true),
        spec_convert(Case::Camel, source) == spec_continuous(source, false),
        spec_convert(Case::Snake { upper: false }, source) == spec_separated(source, '_', true),
        spec_convert(Case::Snake { upper: true }, source) == spec_separated(source, '_', false),
        spec_convert(Case::Kebab { upper: false }, source) == spec_separated(source, '-', true),
        spec_convert(Case::Kebab { upper: true }, source) == spec_separated(source, '-', false),
{
}

/// The separated case with any separator gives what the free separated
/// conversion gives with that separator: small letters unless `upper`.
pub proof fn law_separate_matches_free_function(source: Seq<char>, separator: char, upper: bool)
    ensures
        spec_convert(Case::Separate { separator, upper }, source) == spec_separated(
            source,
            separator,
            !upper,
        ),
{
}

} // verus!
