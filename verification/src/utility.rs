use vstd::prelude::*;

verus! {

/// The characters of `name` before its first `stop`, or all of them.
pub open spec fn before_first(name: Seq<char>, stop: char) -> Seq<char>
    decreases name.len(),
{
    if name.len() == 0 {
        name
    } else if name[0] == stop {
        Seq::empty()
    } else {
        seq![name[0]] + before_first(name.drop_first(), stop)
    }
}

/// The characters of `name` after its last `stop`, or all of them.
pub open spec fn after_last(name: Seq<char>, stop: char) -> Seq<char>
    decreases name.len(),
{
    if name.len() == 0 {
        name
    } else if name.last() == stop {
        Seq::empty()
    } else {
        after_last(name.drop_last(), stop).push(name.last())
    }
}

/// The short form of a type's full name: its generic arguments and its module
/// path are cut off.
pub open spec fn spec_short_name(name: Seq<char>) -> Seq<char> {
    after_last(before_first(name, '<'), ':')
}

/// A name without `stop` is its own part before the first `stop`.
proof fn lemma_before_first_whole(name: Seq<char>, stop: char)
    requires
        !name.contains(stop),
    ensures
        before_first(name, stop) == name,
    decreases name.len(),
{
    if name.len() > 0 {
        assert(name[0] != stop);
        assert(!name.drop_first().contains(stop)) by {
            if name.drop_first().contains(stop) {
                let k = choose|k: int| 0 <= k < name.drop_first().len() && name.drop_first()[k] == stop;
                assert(name[k + 1] == stop);
            }
        }
        lemma_before_first_whole(name.drop_first(), stop);
        assert(name == seq![name[0]] + name.drop_first());
    }
}

/// Where the first `stop` of `name` stands at `at`, the part before it is
/// the first `at` characters.
proof fn lemma_before_first_prefix(name: Seq<char>, at: int, stop: char)
    requires
        0 <= at < name.len(),
        name[at] == stop,
        !name.take(at).contains(stop),
    ensures
        before_first(name, stop) == name.take(at),
    decreases at,
{
    if at == 0 {
        assert(name.take(0) == Seq::<char>::empty());
    } else {
        assert(name.take(at)[0] == name[0]);
        assert(name[0] != stop);
        assert(name.drop_first().take(at - 1) == name.take(at).drop_first());
        let rest = name.drop_first().take(at - 1);
        assert(!rest.contains(stop)) by {
            if rest.contains(stop) {
                let k = choose|k: int| 0 <= k < rest.len() && #[trigger] rest[k] == stop;
                assert(name.take(at)[k + 1] == stop);
            }
        }
        lemma_before_first_prefix(name.drop_first(), at - 1, stop);
        assert(name.take(at) == seq![name[0]] + name.drop_first().take(at - 1));
    }
}

/// The short form of a type's full name, as `std::any::type_name` gives it
/// (see `spec_short_name`): `alloc::vec::Vec<u8>` becomes `Vec`.
pub fn short_type_name(name: &str) -> (short: String)
    ensures
        short@ == spec_short_name(name@),
        !short@.contains('<'),
        !short@.contains(':'),
{
    let mut short = String::new();
    for letter in iter: name.chars()
        invariant
            iter.seq() == name@,
            !name@.take(iter.index() as int).contains('<'),
            short@ == after_last(name@.take(iter.index() as int), ':'),
    {
        let ghost before = name@.take(iter.index() as int);
        assert(name@.take(iter.index() + 1) == before.push(letter));
        if letter == '<' {
            proof {
                lemma_before_first_prefix(name@, iter.index() as int, '<');
                lemma_short_name_clean(name@);
            }
            return short;
        }
        if letter == ':' {
            short = String::new();
        } else {
            short.push(letter);
        }
        assert(before.push(letter).drop_last() == before);
        assert(!before.push(letter).contains('<')) by {
            if before.push(letter).contains('<') {
                let k = choose|k: int| 0 <= k < before.len() + 1 && before.push(letter)[k] == '<';
                if k < before.len() {
                    assert(before[k] == '<');
                }
            }
        }
    }
    assert(name@.take(name@.len() as int) == name@);
    proof {
        lemma_before_first_whole(name@, '<');
        lemma_short_name_clean(name@);
    }
    short
}

proof fn lemma_before_first_clean(name: Seq<char>, stop: char)
    ensures
        !before_first(name, stop).contains(stop),
    decreases name.len(),
{
    if name.len() > 0 && name[0] != stop {
        lemma_before_first_clean(name.drop_first(), stop);
        let rest = before_first(name.drop_first(), stop);
        assert forall|k: int| 0 <= k < rest.len() + 1 implies (seq![name[0]] + rest)[k] != stop by {
            if k > 0 {
                assert((seq![name[0]] + rest)[k] == rest[k - 1]);
            }
        }
    }
}

proof fn lemma_after_last_clean(name: Seq<char>, stop: char, other: char)
    ensures
        !after_last(name, stop).contains(stop),
        after_last(name, stop).contains(other) ==> name.contains(other),
    decreases name.len(),
{
    if name.len() > 0 && name.last() != stop {
        lemma_after_last_clean(name.drop_last(), stop, other);
        let rest = after_last(name.drop_last(), stop);
        if after_last(name, stop).contains(other) {
            let k = choose|k: int| 0 <= k < rest.len() + 1 && rest.push(name.last())[k] == other;
            if k < rest.len() {
                assert(rest.contains(other));
                let j = choose|j: int| 0 <= j < name.drop_last().len() && name.drop_last()[j] == other;
                assert(name[j] == other);
            } else {
                assert(name[name.len() - 1] == other);
            }
        }
        assert forall|k: int| 0 <= k < rest.len() + 1 implies rest.push(name.last())[k] != stop by {
            if k < rest.len() {
                assert(rest.push(name.last())[k] == rest[k]);
            }
        }
    }
}

/// A short name holds no `<` and no `:`.
proof fn lemma_short_name_clean(name: Seq<char>)
    ensures
        !spec_short_name(name).contains('<'),
        !spec_short_name(name).contains(':'),
{
    lemma_before_first_clean(name, '<');
    lemma_after_last_clean(before_first(name, '<'), ':', '<');
}

/// The kinds of option values that are named by what they hold rather than by
/// their type (an optional value counts as its inner type).
#[derive(Clone, Copy, PartialEq, Eq, Structural)]
pub enum Kind {
    Boolean,
    Natural,
    Integer,
    Rational,
    Other,
}

/// The name shown for a value of `kind` whose type's full name is `name`.
pub open spec fn spec_kind_name(kind: Kind, name: Seq<char>) -> Seq<char> {
    match kind {
        Kind::Boolean => "boolean"@,
        Kind::Natural => "natural number"@,
        Kind::Integer => "integer number"@,
        Kind::Rational => "rational number"@,
        Kind::Other => spec_short_name(name),
    }
}

/// The name shown for a value of `kind` whose type's full name is `name`
/// (see `spec_kind_name`).
pub fn kind_name(kind: Kind, name: &str) -> (shown: String)
    ensures
        shown@ == spec_kind_name(kind, name@),
{
    match kind {
        Kind::Boolean => "boolean".to_string(),
        Kind::Natural => "natural number".to_string(),
        Kind::Integer => "integer number".to_string(),
        Kind::Rational => "rational number".to_string(),
        Kind::Other => short_type_name(name),
    }
}

} // verus!
