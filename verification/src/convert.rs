use crate::ascii::{
    lemma_case_change,
    is_alphabetic, is_lower, is_separator, is_upper, spec_is_alphabetic, spec_is_lower,
    spec_is_separator, spec_is_upper, spec_to_lower, spec_to_upper, to_lower, to_upper,
};
use vstd::prelude::*;

verus! {

/// What the joined-word conversion remembers between two characters:
/// whether the next letter is capitalised, whether the previous letter was a
/// capital, and whether a word has started.
pub struct ContinuousState {
    pub upper: bool,
    pub last: bool,
    pub first: bool,
}

/// What the separated-word conversion remembers between two characters:
/// whether a separator is owed before the next letter, whether a word has
/// started, and whether the previous letter was a small letter.
pub struct SeparatedState {
    pub separate: bool,
    pub first: bool,
    pub last: bool,
}

/// One character of the joined-word conversion (pascal and camel case):
/// the state after `letter` and the characters it emits.
pub open spec fn continuous_step(state: ContinuousState, letter: char) -> (ContinuousState, Seq<char>) {
    if spec_is_alphabetic(letter) {
        let out = if state.upper {
            spec_to_upper(letter)
        } else if state.last {
            spec_to_lower(letter)
        } else {
            letter
        };
        (ContinuousState { upper: false, last: spec_is_upper(letter), first: true }, seq![out])
    } else if spec_is_separator(letter) {
        (ContinuousState { upper: state.first, ..state }, Seq::empty())
    } else {
        (ContinuousState { upper: state.first, ..state }, seq![letter])
    }
}

/// The joined-word conversion run over `source` from its start; `first` says
/// whether the very first letter is capitalised.
pub open spec fn continuous_run(source: Seq<char>, first: bool) -> (ContinuousState, Seq<char>)
    decreases source.len(),
{
    if source.len() == 0 {
        (ContinuousState { upper: first, last: true, first }, Seq::empty())
    } else {
        let (state, out) = continuous_run(source.drop_last(), first);
        let (next, emitted) = continuous_step(state, source.last());
        (next, out + emitted)
    }
}

/// The text that the joined-word conversion makes of `source`: separators are
/// dropped, each word starts with a capital (the first one only when `first`),
/// and runs of capitals are turned to small letters after their first letter.
pub open spec fn spec_continuous(source: Seq<char>, first: bool) -> Seq<char> {
    continuous_run(source, first).1
}

/// One character of the separated-word conversion (snake and kebab case).
pub open spec fn separated_step(
    state: SeparatedState,
    letter: char,
    separator: char,
    lower: bool,
) -> (SeparatedState, Seq<char>) {
    if spec_is_upper(letter) {
        let lead: Seq<char> = if state.separate || state.last {
            seq![separator]
        } else {
            Seq::empty()
        };
        let out = if lower {
            spec_to_lower(letter)
        } else {
            letter
        };
        (SeparatedState { separate: false, first: true, last: false }, lead.push(out))
    } else if spec_is_lower(letter) {
        let lead: Seq<char> = if state.separate {
            seq![separator]
        } else {
            Seq::empty()
        };
        let out = if lower {
            letter
        } else {
            spec_to_upper(letter)
        };
        (SeparatedState { separate: false, first: true, last: true }, lead.push(out))
    } else if spec_is_separator(letter) {
        (SeparatedState { separate: state.first, first: state.first, last: false }, Seq::empty())
    } else {
        (SeparatedState { separate: false, first: false, last: false }, seq![letter])
    }
}

/// The separated-word conversion run over `source` from its start.
pub open spec fn separated_run(source: Seq<char>, separator: char, lower: bool) -> (
    SeparatedState,
    Seq<char>,
)
    decreases source.len(),
{
    if source.len() == 0 {
        (SeparatedState { separate: false, first: false, last: false }, Seq::empty())
    } else {
        let (state, out) = separated_run(source.drop_last(), separator, lower);
        let (next, emitted) = separated_step(state, source.last(), separator, lower);
        (next, out + emitted)
    }
}

/// The text that the separated-word conversion makes of `source`: words are
/// joined by `separator` (a word starts at a separator after a letter, or at a
/// capital after a small letter) and letters are all small (`lower`) or all
/// capital.
pub open spec fn spec_separated(source: Seq<char>, separator: char, lower: bool) -> Seq<char> {
    separated_run(source, separator, lower).1
}

pub fn to_pascal(source: &str) -> (target: String)
    ensures
        target@ == spec_continuous(source@, true),
{
    to_continuous(source, true)
}

pub fn to_pascal_in(source: &str, target: &mut String)
    ensures
        final(target)@ == old(target)@ + spec_continuous(source@, true),
{
    to_continuous_in(source, target, true)
}

pub fn to_camel(source: &str) -> (target: String)
    ensures
        target@ == spec_continuous(source@, false),
{
    to_continuous(source, false)
}

pub fn to_camel_in(source: &str, target: &mut String)
    ensures
        final(target)@ == old(target)@ + spec_continuous(source@, false),
{
    to_continuous_in(source, target, false)
}

pub fn to_snake(source: &str) -> (target: String)
    ensures
        target@ == spec_separated(source@, '_', true),
{
    to_separate(source, '_', true)
}

pub fn to_snake_in(source: &str, target: &mut String)
    ensures
        final(target)@ == old(target)@ + spec_separated(source@, '_', true),
{
    to_separate_in(source, target, '_', true)
}

pub fn to_kebab(source: &str) -> (target: String)
    ensures
        target@ == spec_separated(source@, '-', true),
{
    to_separate(source, '-', true)
}

pub fn to_kebab_in(source: &str, target: &mut String)
    ensures
        final(target)@ == old(target)@ + spec_separated(source@, '-', true),
{
    to_separate_in(source, target, '-', true)
}

pub fn to_screaming_snake(source: &str) -> (target: String)
    ensures
        target@ == spec_separated(source@, '_', false),
{
    to_separate(source, '_', false)
}

pub fn to_upper_snake_in(source: &str, target: &mut String)
    ensures
        final(target)@ == old(target)@ + spec_separated(source@, '_', false),
{
    to_separate_in(source, target, '_', false)
}

pub fn to_screaming_kebab(source: &str) -> (target: String)
    ensures
        target@ == spec_separated(source@, '-', false),
{
    to_separate(source, '-', false)
}

pub fn to_upper_kebab_in(source: &str, target: &mut String)
    ensures
        final(target)@ == old(target)@ + spec_separated(source@, '-', false),
{
    to_separate_in(source, target, '-', false)
}

fn to_continuous(source: &str, first: bool) -> (target: String)
    ensures
        target@ == spec_continuous(source@, first),
{
    let mut target = String::with_capacity(source.len());
    to_continuous_in(source, &mut target, first);
    target
}

fn to_continuous_in(source: &str, target: &mut String, first: bool)
    ensures
        final(target)@ == old(target)@ + spec_continuous(source@, first),
{
    let ghost start = target@;
    let mut first = first;
    let ghost initial = first;
    let mut upper = first;
    let mut last = true;
    for letter in iter: source.chars()
        invariant
            iter.seq() == source@,
            continuous_run(source@.take(iter.index() as int), initial).0 == (ContinuousState {
                upper,
                last,
                first,
            }),
            target@ == start + continuous_run(source@.take(iter.index() as int), initial).1,
    {
        let ghost before = source@.take(iter.index() as int);
        assert(source@.take(iter.index() + 1).drop_last() == before);
        if is_alphabetic(letter) {
            if upper {
                target.push(to_upper(letter));
                upper = false;
            } else if last {
                target.push(to_lower(letter));
            } else {
                target.push(letter);
            }
            last = is_upper(letter);
            first = true;
        } else if is_separator(letter) {
            upper = first;
        } else {
            upper = first;
            target.push(letter);
        }
        assert(target@ == start + continuous_run(before, initial).1 + continuous_step(
            continuous_run(before, initial).0,
            letter,
        ).1);
    }
    assert(source@.take(source@.len() as int) == source@);
}

fn to_separate(source: &str, separator: char, lower: bool) -> (target: String)
    ensures
        target@ == spec_separated(source@, separator, lower),
{
    let mut target = String::with_capacity(source.len());
    to_separate_in(source, &mut target, separator, lower);
    target
}

fn to_separate_in(source: &str, target: &mut String, separator: char, lower: bool)
    ensures
        final(target)@ == old(target)@ + spec_separated(source@, separator, lower),
{
    let ghost start = target@;
    let mut separate = false;
    let mut first = false;
    let mut last = false;
    for letter in iter: source.chars()
        invariant
            iter.seq() == source@,
            separated_run(source@.take(iter.index() as int), separator, lower).0
                == (SeparatedState { separate, first, last }),
            target@ == start + separated_run(
                source@.take(iter.index() as int),
                separator,
                lower,
            ).1,
    {
        let ghost before = source@.take(iter.index() as int);
        assert(source@.take(iter.index() + 1).drop_last() == before);
        if is_upper(letter) {
            if separate || last {
                target.push(separator);
                separate = false;
                last = false;
            }
            first = true;
            target.push(
                if lower {
                    to_lower(letter)
                } else {
                    letter
                },
            );
        } else if is_lower(letter) {
            if separate {
                target.push(separator);
                separate = false;
            }
            first = true;
            last = true;
            target.push(
                if lower {
                    letter
                } else {
                    to_upper(letter)
                },
            );
        } else if is_separator(letter) {
            separate = first;
            last = false;
        } else {
            target.push(letter);
            separate = false;
            first = false;
            last = false;
        }
        assert(target@ == start + separated_run(before, separator, lower).1 + separated_step(
            separated_run(before, separator, lower).0,
            letter,
            separator,
            lower,
        ).1);
    }
    assert(source@.take(source@.len() as int) == source@);
}

/// The state that the separated-word conversion reaches when it reads its own
/// output again.
pub open spec fn rerun_state(state: SeparatedState, lower: bool) -> SeparatedState {
    SeparatedState { separate: false, first: state.first, last: lower && state.first }
}

/// A pending separator or a small letter just read both mean that a word has
/// started.
pub open spec fn separated_state_ok(state: SeparatedState) -> bool {
    &&& state.separate ==> state.first
    &&& state.last ==> state.first
}

proof fn lemma_separated_rerun(source: Seq<char>, separator: char, lower: bool)
    requires
        spec_is_separator(separator),
    ensures
        separated_state_ok(separated_run(source, separator, lower).0),
        separated_run(separated_run(source, separator, lower).1, separator, lower) == (
        rerun_state(separated_run(source, separator, lower).0, lower),
        separated_run(source, separator, lower).1,
        ),
    decreases source.len(),
{
    if source.len() > 0 {
        let before = source.drop_last();
        let letter = source.last();
        lemma_separated_rerun(before, separator, lower);
        let (state, out) = separated_run(before, separator, lower);
        let (next, emitted) = separated_step(state, letter, separator, lower);
        let again = rerun_state(state, lower);
        lemma_case_change(letter);
        reveal_with_fuel(separated_run, 3);
        if emitted.len() == 1 {
            assert((out + emitted).drop_last() == out);
        } else if emitted.len() == 2 {
            assert((out + emitted).drop_last().drop_last() == out);
            assert((out + emitted).drop_last() == out.push(emitted[0]));
            assert(out.push(emitted[0]).drop_last() == out);
        } else {
            assert(out + emitted == out);
        }
    }
}

/// Converting to snake or kebab case (or any separated case whose separator
/// is itself a word separator) a second time changes nothing.
pub proof fn law_separated_idempotent(source: Seq<char>, separator: char, lower: bool)
    requires
        spec_is_separator(separator),
    ensures
        spec_separated(spec_separated(source, separator, lower), separator, lower)
            == spec_separated(source, separator, lower),
{
    lemma_separated_rerun(source, separator, lower);
}

/// Pascal and camel case hold no separator characters.
pub proof fn law_continuous_has_no_separator(source: Seq<char>, first: bool)
    ensures
        forall|k: int|
            0 <= k < spec_continuous(source, first).len() ==> !spec_is_separator(
                #[trigger] spec_continuous(source, first)[k],
            ),
    decreases source.len(),
{
    if source.len() > 0 {
        law_continuous_has_no_separator(source.drop_last(), first);
        let (state, out) = continuous_run(source.drop_last(), first);
        let emitted = continuous_step(state, source.last()).1;
        lemma_case_change(source.last());
        assert forall|k: int| 0 <= k < (out + emitted).len() implies !spec_is_separator(
            #[trigger] (out + emitted)[k],
        ) by {
            if k >= out.len() {
                assert((out + emitted)[k] == emitted[k - out.len()]);
            } else {
                assert((out + emitted)[k] == out[k]);
                assert(!spec_is_separator(spec_continuous(source.drop_last(), first)[k]));
            }
        }
    }
}

/// In small (capital) snake or kebab case, no ASCII letter is capital
/// (small), as long as the separator is no letter itself.
pub proof fn law_separated_letter_case(source: Seq<char>, separator: char, lower: bool)
    requires
        !spec_is_alphabetic(separator),
    ensures
        forall|k: int|
            0 <= k < spec_separated(source, separator, lower).len() ==> if lower {
                !spec_is_upper(#[trigger] spec_separated(source, separator, lower)[k])
            } else {
                !spec_is_lower(spec_separated(source, separator, lower)[k])
            },
    decreases source.len(),
{
    if source.len() > 0 {
        law_separated_letter_case(source.drop_last(), separator, lower);
        let (state, out) = separated_run(source.drop_last(), separator, lower);
        let emitted = separated_step(state, source.last(), separator, lower).1;
        lemma_case_change(source.last());
        assert forall|k: int| 0 <= k < (out + emitted).len() implies (if lower {
            !spec_is_upper(#[trigger] (out + emitted)[k])
        } else {
            !spec_is_lower((out + emitted)[k])
        }) by {
            if k >= out.len() {
                assert((out + emitted)[k] == emitted[k - out.len()]);
            } else {
                assert((out + emitted)[k] == out[k]);
                let earlier = spec_separated(source.drop_last(), separator, lower)[k];
                assert(if lower {
                    !spec_is_upper(earlier)
                } else {
                    !spec_is_lower(earlier)
                });
            }
        }
    }
}

/// `text` with every `from` written `to`.
pub open spec fn swap_separator(text: Seq<char>, from: char, to: char) -> Seq<char> {
    text.map_values(|c: char| if c == from { to } else { c })
}

/// The separated conversion runs the same way whatever its separator, and
/// writes the same text but for the separators.
proof fn lemma_separator_swap(source: Seq<char>, from: char, to: char, lower: bool)
    requires
        spec_is_separator(from),
    ensures
        separated_run(source, to, lower).0 == separated_run(source, from, lower).0,
        separated_run(source, to, lower).1 == swap_separator(
            separated_run(source, from, lower).1,
            from,
            to,
        ),
    decreases source.len(),
{
    if source.len() > 0 {
        lemma_separator_swap(source.drop_last(), from, to, lower);
        let (state, out) = separated_run(source.drop_last(), from, lower);
        let emitted = separated_step(state, source.last(), from, lower).1;
        let swapped = separated_step(state, source.last(), to, lower).1;
        lemma_case_change(source.last());
        assert(swapped =~= swap_separator(emitted, from, to));
        assert(swap_separator(out + emitted, from, to) =~= swap_separator(out, from, to)
            + swap_separator(emitted, from, to));
    }
}

/// Kebab case is snake case with a hyphen for each underscore; more
/// generally, changing the separator of a separated case changes the
/// separators and nothing else.
pub proof fn law_kebab_is_snake_with_hyphens(source: Seq<char>, from: char, to: char, lower: bool)
    requires
        spec_is_separator(from),
    ensures
        spec_separated(source, to, lower) == swap_separator(
            spec_separated(source, from, lower),
            from,
            to,
        ),
{
    lemma_separator_swap(source, from, to, lower);
}

/// Capital separated case runs the same way as the small one, and writes its
/// text in capitals.
proof fn lemma_screaming(source: Seq<char>, separator: char)
    requires
        !spec_is_lower(separator),
    ensures
        separated_run(source, separator, false).0 == separated_run(source, separator, true).0,
        separated_run(source, separator, false).1 == separated_run(
            source,
            separator,
            true,
        ).1.map_values(|c: char| spec_to_upper(c)),
    decreases source.len(),
{
    if source.len() > 0 {
        lemma_screaming(source.drop_last(), separator);
        let (state, out) = separated_run(source.drop_last(), separator, true);
        let small = separated_step(state, source.last(), separator, true).1;
        let capital = separated_step(state, source.last(), separator, false).1;
        lemma_case_change(source.last());
        lemma_case_change(separator);
        assert(capital =~= small.map_values(|c: char| spec_to_upper(c)));
        assert((out + small).map_values(|c: char| spec_to_upper(c)) =~= out.map_values(
            |c: char| spec_to_upper(c),
        ) + small.map_values(|c: char| spec_to_upper(c)));
    }
}

/// Screaming snake (kebab) case is snake (kebab) case in capitals.
pub proof fn law_screaming_is_capital_snake(source: Seq<char>, separator: char)
    requires
        !spec_is_lower(separator),
    ensures
        spec_separated(source, separator, false) == spec_separated(
            source,
            separator,
            true,
        ).map_values(|c: char| spec_to_upper(c)),
{
    lemma_screaming(source, separator);
}

/// The index of the first ASCII letter of `text`, if any.
pub open spec fn first_letter(text: Seq<char>) -> Option<int>
    decreases text.len(),
{
    if text.len() == 0 {
        None
    } else {
        match first_letter(text.drop_last()) {
            Some(index) => Some(index),
            None => if spec_is_alphabetic(text.last()) {
                Some(text.len() - 1)
            } else {
                None
            },
        }
    }
}

/// `text` with its first ASCII letter made small.
pub open spec fn lower_first_letter(text: Seq<char>) -> Seq<char> {
    match first_letter(text) {
        Some(index) => text.update(index, spec_to_lower(text[index])),
        None => text,
    }
}

/// Where the first letter stands, and that it is one.
proof fn lemma_first_letter(text: Seq<char>)
    ensures
        first_letter(text) matches Some(index) ==> 0 <= index < text.len() && spec_is_alphabetic(
            text[index],
        ),
    decreases text.len(),
{
    if text.len() > 0 {
        lemma_first_letter(text.drop_last());
    }
}

/// Camel case runs as pascal case once a letter has been met, and writes the
/// same text but for that first letter.
proof fn lemma_camel_pascal(source: Seq<char>)
    ensures
        ({
            let (pascal_state, pascal) = continuous_run(source, true);
            let (camel_state, camel) = continuous_run(source, false);
            &&& camel == lower_first_letter(pascal)
            &&& first_letter(pascal) is Some ==> camel_state == pascal_state
            &&& first_letter(pascal) is None ==> {
                &&& pascal_state == ContinuousState { upper: true, last: true, first: true }
                &&& camel_state == ContinuousState { upper: false, last: true, first: false }
            }
        }),
    decreases source.len(),
{
    if source.len() > 0 {
        let rest = source.drop_last();
        let letter = source.last();
        lemma_camel_pascal(rest);
        let (pascal_state, pascal) = continuous_run(rest, true);
        let (camel_state, camel) = continuous_run(rest, false);
        let pascal_emitted = continuous_step(pascal_state, letter).1;
        let camel_emitted = continuous_step(camel_state, letter).1;
        lemma_case_change(letter);
        lemma_first_letter(pascal);
        let whole = pascal + pascal_emitted;
        if pascal_emitted.len() == 0 {
            assert(whole =~= pascal);
            assert(camel + camel_emitted =~= camel);
        } else {
            assert(whole.drop_last() =~= pascal);
            assert(whole.last() == pascal_emitted[0]);
            if first_letter(pascal) is Some {
                assert(first_letter(whole) == first_letter(pascal));
                assert(camel + camel_emitted =~= lower_first_letter(whole));
            } else {
                assert(camel =~= pascal);
                if spec_is_alphabetic(letter) {
                    assert(first_letter(whole) == Some(pascal.len() as int));
                    assert(camel + camel_emitted =~= lower_first_letter(whole));
                } else {
                    assert(camel + camel_emitted =~= whole);
                }
            }
        }
    }
}

/// Camel case is pascal case with its first letter made small.
pub proof fn law_camel_is_pascal_with_small_start(source: Seq<char>)
    ensures
        spec_continuous(source, false) == lower_first_letter(spec_continuous(source, true)),
{
    lemma_camel_pascal(source);
}

} // verus!
