use vstd::prelude::*;

verus! {

/// Suggests the words of a dictionary that are close to a given word. The two
/// rows of the distance table are kept between calls so that their memory is
/// reused.
pub struct Spell(Vec<usize>, Vec<usize>);

/// The ASCII small form of a byte; every other byte is kept.
pub open spec fn spec_byte_lower(byte: u8) -> u8 {
    if 65 <= byte && byte <= 90 {
        (byte + 32) as u8
    } else {
        byte
    }
}

/// The cost of matching two bytes: nothing when they are equal without regard
/// to ASCII case, one otherwise.
pub open spec fn spec_cost(a: u8, b: u8) -> nat {
    if spec_byte_lower(a) == spec_byte_lower(b) {
        0
    } else {
        1
    }
}

pub open spec fn min3(a: nat, b: nat, c: nat) -> nat {
    let ab = if a <= b {
        a
    } else {
        b
    };
    if ab <= c {
        ab
    } else {
        c
    }
}

/// The distance table between the first `i` bytes of `rows` and the first `j`
/// bytes of `columns`: inserting or deleting a byte costs one and replacing a
/// byte costs `spec_cost`, except that any leading bytes of `columns` may be
/// skipped at no cost (the first row is all zeros).
pub open spec fn edit_table(rows: Seq<u8>, columns: Seq<u8>, i: nat, j: nat) -> nat
    decreases i, j,
{
    if i == 0 {
        0
    } else if j == 0 {
        i
    } else {
        min3(
            edit_table(rows, columns, i, (j - 1) as nat) + 1,
            edit_table(rows, columns, (i - 1) as nat, j) + 1,
            edit_table(rows, columns, (i - 1) as nat, (j - 1) as nat) + spec_cost(
                columns[j - 1],
                rows[i - 1],
            ),
        )
    }
}

/// The distance between two byte strings: the table is laid with the longer
/// one (or `right`, when the lengths are equal) along the rows.
pub open spec fn spec_distance(left: Seq<u8>, right: Seq<u8>) -> nat {
    if left.len() > right.len() {
        edit_table(left, right, left.len(), right.len())
    } else {
        edit_table(right, left, right.len(), left.len())
    }
}

/// A table entry never exceeds its row index.
pub proof fn lemma_edit_table_bound(rows: Seq<u8>, columns: Seq<u8>, i: nat, j: nat)
    ensures
        edit_table(rows, columns, i, j) <= i,
    decreases i, j,
{
    if i > 0 && j > 0 {
        lemma_edit_table_bound(rows, columns, (i - 1) as nat, j);
    }
}

proof fn lemma_edit_table_diagonal(bytes: Seq<u8>, i: nat)
    requires
        i <= bytes.len(),
    ensures
        edit_table(bytes, bytes, i, i) == 0,
    decreases i,
{
    if i > 0 {
        lemma_edit_table_diagonal(bytes, (i - 1) as nat);
    }
}

/// A word is at distance zero from itself.
pub proof fn law_distance_to_self(word: Seq<u8>)
    ensures
        spec_distance(word, word) == 0,
{
    lemma_edit_table_diagonal(word, word.len());
}

/// The ASCII small form of each byte.
pub open spec fn lowered(bytes: Seq<u8>) -> Seq<u8> {
    bytes.map_values(|byte: u8| spec_byte_lower(byte))
}

proof fn lemma_edit_table_lowered(rows: Seq<u8>, columns: Seq<u8>, i: nat, j: nat)
    requires
        i <= rows.len(),
        j <= columns.len(),
    ensures
        edit_table(rows, columns, i, j) == edit_table(lowered(rows), lowered(columns), i, j),
    decreases i, j,
{
    if i > 0 && j > 0 {
        lemma_edit_table_lowered(rows, columns, i, (j - 1) as nat);
        lemma_edit_table_lowered(rows, columns, (i - 1) as nat, j);
        lemma_edit_table_lowered(rows, columns, (i - 1) as nat, (j - 1) as nat);
        assert(lowered(columns)[j - 1] == spec_byte_lower(columns[j - 1]));
        assert(lowered(rows)[i - 1] == spec_byte_lower(rows[i - 1]));
    }
}

/// The distance does not see the difference between ASCII small and capital
/// letters.
pub proof fn law_distance_ignores_case(left: Seq<u8>, right: Seq<u8>)
    ensures
        spec_distance(left, right) == spec_distance(lowered(left), lowered(right)),
{
    lemma_edit_table_lowered(left, right, left.len(), right.len());
    lemma_edit_table_lowered(right, left, right.len(), left.len());
}

/// The distance never exceeds the length of the longer word.
pub proof fn law_distance_bound(left: Seq<u8>, right: Seq<u8>)
    ensures
        spec_distance(left, right) <= if left.len() > right.len() {
            left.len()
        } else {
            right.len()
        },
{
    lemma_edit_table_bound(left, right, left.len(), right.len());
    lemma_edit_table_bound(right, left, right.len(), left.len());
}

fn lower_byte(byte: u8) -> (r: u8)
    ensures
        r == spec_byte_lower(byte),
{
    if 65 <= byte && byte <= 90 {
        byte + 32
    } else {
        byte
    }
}

/// Whether a scored word has the distance `distance`.
pub open spec fn has_distance<T>(distance: usize) -> spec_fn((T, usize)) -> bool {
    |pair: (T, usize)| pair.1 == distance
}

/// Whether a scored word's distance is under `maximum`.
pub open spec fn under<T>(maximum: usize) -> spec_fn((T, usize)) -> bool {
    |pair: (T, usize)| pair.1 < maximum
}

/// Scored words in order of ascending distance.
pub open spec fn sorted_by_distance<T>(items: Seq<(T, usize)>) -> bool {
    forall|a: int, b: int| 0 <= a < b < items.len() ==> items[a].1 <= items[b].1
}

/// `sorted` is `items` sorted by ascending distance, and words of equal
/// distance keep the order they have in `items` (a stable sort).
pub open spec fn stably_sorted<T>(sorted: Seq<(T, usize)>, items: Seq<(T, usize)>) -> bool {
    &&& sorted_by_distance(sorted)
    &&& forall|distance: usize|
        #![trigger has_distance::<T>(distance)]
        sorted.filter(has_distance(distance)) == items.filter(has_distance(distance))
}

/// Each word of `dictionary` with its distance from `word`, in dictionary order.
pub open spec fn scored<'a>(word: &str, dictionary: Seq<&'a str>) -> Seq<(&'a str, usize)> {
    dictionary.map_values(
        |candidate: &'a str|
            (
                candidate,
                spec_distance(
                    vstd::utf8::encode_utf8(word@),
                    vstd::utf8::encode_utf8(candidate@),
                ) as usize,
            ),
    )
}

/// The suggestions for `word`: the words of `dictionary` whose distance is
/// under `maximum`, by ascending distance, in dictionary order among equals.
pub open spec fn spec_suggest<'a>(
    word: &str,
    dictionary: Seq<&'a str>,
    maximum: usize,
    suggestions: Seq<(&'a str, usize)>,
) -> bool {
    stably_sorted(suggestions, scored(word, dictionary).filter(under(maximum)))
}

/// Each word of `dictionary` with its distance from `word`, the words given
/// by their characters.
pub open spec fn scored_words(word: Seq<char>, dictionary: Seq<Seq<char>>) -> Seq<(Seq<char>, usize)> {
    dictionary.map_values(
        |candidate: Seq<char>|
            (
                candidate,
                spec_distance(
                    vstd::utf8::encode_utf8(word),
                    vstd::utf8::encode_utf8(candidate),
                ) as usize,
            ),
    )
}

/// The suggestions for `word` among `dictionary` (see `spec_suggest`), the
/// words given by their characters.
pub open spec fn suggested_words(
    word: Seq<char>,
    dictionary: Seq<Seq<char>>,
    maximum: usize,
    suggestions: Seq<(Seq<char>, usize)>,
) -> bool {
    stably_sorted(suggestions, scored_words(word, dictionary).filter(under(maximum)))
}

/// A scored word by the characters of the word.
pub open spec fn word_view<'a>(pair: (&'a str, usize)) -> (Seq<char>, usize) {
    (pair.0@, pair.1)
}

/// Filtering commutes with a map that keeps what the filter reads.
proof fn lemma_filter_map<A, B>(
    items: Seq<A>,
    map: spec_fn(A) -> B,
    keep: spec_fn(A) -> bool,
    mapped: spec_fn(B) -> bool,
)
    requires
        forall|item: A| #[trigger] mapped(map(item)) == keep(item),
    ensures
        items.map_values(map).filter(mapped) == items.filter(keep).map_values(map),
    decreases items.len(),
{
    reveal(Seq::filter);
    if items.len() == 0 {
        assert(items.map_values(map) =~= Seq::<B>::empty());
        assert(items.filter(keep) =~= Seq::<A>::empty());
        assert(items.filter(keep).map_values(map) =~= Seq::<B>::empty());
        assert(Seq::<B>::empty().filter(mapped) =~= Seq::<B>::empty());
    } else {
        let front = items.drop_last();
        lemma_filter_map(front, map, keep, mapped);
        assert(items.map_values(map).drop_last() =~= front.map_values(map));
        assert(items.map_values(map).last() == map(items.last()));
        if keep(items.last()) {
            assert(front.filter(keep).push(items.last()).map_values(map) =~= front.filter(
                keep,
            ).map_values(map).push(map(items.last())));
        }
    }
}

/// A stable sort by distance stays one when the words are replaced by their
/// characters.
proof fn lemma_stable_views<'a>(sorted: Seq<(&'a str, usize)>, items: Seq<(&'a str, usize)>)
    requires
        stably_sorted(sorted, items),
    ensures
        stably_sorted(
            sorted.map_values(|pair: (&'a str, usize)| word_view(pair)),
            items.map_values(|pair: (&'a str, usize)| word_view(pair)),
        ),
{
    let view = |pair: (&'a str, usize)| word_view(pair);
    assert forall|distance: usize|
        #![trigger has_distance::<Seq<char>>(distance)]
        sorted.map_values(view).filter(has_distance(distance)) == items.map_values(view).filter(
            has_distance(distance),
        ) by {
        lemma_filter_map(sorted, view, has_distance::<&'a str>(distance), has_distance(distance));
        lemma_filter_map(items, view, has_distance::<&'a str>(distance), has_distance(distance));
        assert(sorted.filter(has_distance::<&'a str>(distance)) == items.filter(
            has_distance::<&'a str>(distance),
        ));
    }
}

/// The suggestions of `Spell::suggest`, read by the characters of the words.
pub proof fn lemma_suggest_views<'a>(
    word: &str,
    dictionary: Seq<&'a str>,
    maximum: usize,
    suggestions: Seq<(&'a str, usize)>,
)
    requires
        spec_suggest(word, dictionary, maximum, suggestions),
    ensures
        suggested_words(
            word@,
            dictionary.map_values(|candidate: &'a str| candidate@),
            maximum,
            suggestions.map_values(|pair: (&'a str, usize)| word_view(pair)),
        ),
{
    let view = |pair: (&'a str, usize)| word_view(pair);
    let all = scored(word, dictionary);
    lemma_stable_views(suggestions, all.filter(under(maximum)));
    lemma_filter_map(all, view, under::<&'a str>(maximum), under(maximum));
    assert(all.map_values(view) =~= scored_words(
        word@,
        dictionary.map_values(|candidate: &'a str| candidate@),
    ));
}

/// A sequence whose items all fail `pred` filters to nothing.
proof fn lemma_filter_none<T>(items: Seq<T>, pred: spec_fn(T) -> bool)
    requires
        forall|k: int| 0 <= k < items.len() ==> !pred(#[trigger] items[k]),
    ensures
        items.filter(pred) == Seq::<T>::empty(),
    decreases items.len(),
{
    reveal(Seq::filter);
    if items.len() > 0 {
        lemma_filter_none(items.drop_last(), pred);
    }
}

/// Inserting `item` after every item of distance at most its own, and before
/// every item of greater distance, keeps a stable sort stable.
proof fn lemma_insert_stable<T>(
    sorted: Seq<(T, usize)>,
    items: Seq<(T, usize)>,
    position: int,
    item: (T, usize),
)
    requires
        stably_sorted(sorted, items),
        0 <= position <= sorted.len(),
        forall|k: int| 0 <= k < position ==> #[trigger] sorted[k].1 <= item.1,
        forall|k: int| position <= k < sorted.len() ==> #[trigger] sorted[k].1 > item.1,
    ensures
        stably_sorted(sorted.insert(position, item), items.push(item)),
{
    let inserted = sorted.insert(position, item);
    let front = sorted.take(position);
    let back = sorted.skip(position);
    assert(sorted == front + back);
    assert(inserted == front + seq![item] + back);
    assert forall|distance: usize|
        #![trigger has_distance::<T>(distance)]
        inserted.filter(has_distance(distance)) == items.push(item).filter(
            has_distance(distance),
        ) by {
        let pred = has_distance::<T>(distance);
        Seq::filter_distributes_over_add(front + seq![item], back, pred);
        Seq::filter_distributes_over_add(front, seq![item], pred);
        Seq::filter_distributes_over_add(front, back, pred);
        items.lemma_filter_push(item, pred);
        Seq::<(T, usize)>::empty().lemma_filter_push(item, pred);
        assert(seq![item] == Seq::<(T, usize)>::empty().push(item));
        lemma_filter_none(Seq::<(T, usize)>::empty(), pred);
        if item.1 == distance {
            lemma_filter_none(back, pred);
        }
    }
}

impl View for Spell {
    /// The two rows of the edit table that the speller keeps between calls.
    type V = (Seq<usize>, Seq<usize>);

    closed spec fn view(&self) -> (Seq<usize>, Seq<usize>) {
        (self.0@, self.1@)
    }
}

impl Spell {
    /// A speller whose two rows are empty.
    pub fn new() -> (spell: Self)
        ensures
            spell@ == (Seq::<usize>::empty(), Seq::<usize>::empty()),
    {
        Self(Vec::new(), Vec::new())
    }

    /// The words of `dictionary` whose distance from `word` is under
    /// `maximum`, each with its distance, by ascending distance and in
    /// dictionary order among equal distances.
    pub fn suggest<'a>(&mut self, word: &str, dictionary: &[&'a str], maximum: usize) -> (results: Vec<
        (&'a str, usize),
    >)
        requires
            vstd::utf8::encode_utf8(word@).len() < usize::MAX,
            forall|k: int|
                0 <= k < dictionary@.len() ==> vstd::utf8::encode_utf8(
                    (#[trigger] dictionary@[k])@,
                ).len() < usize::MAX,
        ensures
            spec_suggest(word, dictionary@, maximum, results@),
    {
        let ghost all = scored(word, dictionary@);
        let mut results: Vec<(&'a str, usize)> = Vec::with_capacity(dictionary.len());
        let mut index: usize = 0;
        proof {
            lemma_filter_none(all.take(0), under(maximum));
            assert forall|distance: usize|
                #![trigger has_distance::<&'a str>(distance)]
                results@.filter(has_distance(distance)) == all.take(0).filter(under(maximum)).filter(
                    has_distance(distance),
                ) by {
                lemma_filter_none(results@, has_distance::<&'a str>(distance));
                lemma_filter_none(
                    all.take(0).filter(under(maximum)),
                    has_distance::<&'a str>(distance),
                );
            }
        }
        while index < dictionary.len()
            invariant
                index <= dictionary@.len(),
                all == scored(word, dictionary@),
                vstd::utf8::encode_utf8(word@).len() < usize::MAX,
                forall|k: int|
                    0 <= k < dictionary@.len() ==> vstd::utf8::encode_utf8(
                        (#[trigger] dictionary@[k])@,
                    ).len() < usize::MAX,
                stably_sorted(results@, all.take(index as int).filter(under(maximum))),
            decreases dictionary@.len() - index,
        {
            let candidate = dictionary[index];
            let distance = self.distance(word.as_bytes(), candidate.as_bytes());
            let ghost item = (candidate, distance);
            let ghost before = all.take(index as int).filter(under(maximum));
            assert(all.take(index + 1) == all.take(index as int).push(item));
            proof {
                all.take(index as int).lemma_filter_push(item, under(maximum));
            }
            if distance < maximum {
                let mut position = results.len();
                while position > 0 && results[position - 1].1 > distance
                    invariant
                        position <= results@.len(),
                        sorted_by_distance(results@),
                        forall|k: int|
                            position <= k < results@.len() ==> #[trigger] results@[k].1 > distance,
                    decreases position,
                {
                    position = position - 1;
                }
                proof {
                    lemma_insert_stable(results@, before, position as int, item);
                }
                results.insert(position, (candidate, distance));
            }
            index = index + 1;
        }
        assert(all.take(dictionary@.len() as int) == all);
        results
    }

    /// The distance between `left` and `right` (see `spec_distance`): a
    /// function of the two words alone, whatever the speller's rows held
    /// from earlier calls.
    pub fn distance(&mut self, left: &[u8], right: &[u8]) -> (distance: usize)
        requires
            left@.len() < usize::MAX,
            right@.len() < usize::MAX,
        ensures
            distance == spec_distance(left@, right@),
        decreases (if left@.len() > right@.len() {
            1int
        } else {
            0int
        }),
    {
        let left_count = left.len();
        let right_count = right.len();
        if left_count > right_count {
            return self.distance(right, left);
        }
        let ghost rows = right@;
        let ghost columns = left@;
        let Spell(previous, current) = self;
        previous.clear();
        previous.resize(left_count + 1, 0);
        current.resize(left_count + 1, 0);
        assert forall|j: int| 0 <= j <= left_count implies previous@[j] == edit_table(
            rows,
            columns,
            0,
            j as nat,
        ) by {}
        let mut i: usize = 1;
        while i <= right_count
            invariant
                1 <= i <= right_count + 1,
                right_count == rows.len(),
                left_count == columns.len(),
                left_count <= right_count,
                right_count < usize::MAX,
                rows == right@,
                columns == left@,
                previous@.len() == left_count + 1,
                current@.len() == left_count + 1,
                forall|j: int|
                    0 <= j <= left_count ==> #[trigger] previous@[j] == edit_table(
                        rows,
                        columns,
                        (i - 1) as nat,
                        j as nat,
                    ),
            decreases right_count + 1 - i,
        {
            current[0] = i;
            let mut j: usize = 1;
            while j <= left_count
                invariant
                    1 <= i <= right_count,
                    1 <= j <= left_count + 1,
                    left_count <= right_count,
                    right_count == rows.len(),
                    left_count == columns.len(),
                    right_count < usize::MAX,
                    rows == right@,
                    columns == left@,
                    previous@.len() == left_count + 1,
                    current@.len() == left_count + 1,
                    forall|k: int|
                        0 <= k <= left_count ==> #[trigger] previous@[k] == edit_table(
                            rows,
                            columns,
                            (i - 1) as nat,
                            k as nat,
                        ),
                    forall|k: int|
                        0 <= k < j ==> #[trigger] current@[k] == edit_table(
                            rows,
                            columns,
                            i as nat,
                            k as nat,
                        ),
                decreases left_count + 1 - j,
            {
                proof {
                    lemma_edit_table_bound(rows, columns, i as nat, (j - 1) as nat);
                    lemma_edit_table_bound(rows, columns, (i - 1) as nat, j as nat);
                    lemma_edit_table_bound(rows, columns, (i - 1) as nat, (j - 1) as nat);
                }
                let left_letter = lower_byte(left[j - 1]);
                let right_letter = lower_byte(right[i - 1]);
                let insert = current[j - 1] + 1;
                let delete = previous[j] + 1;
                let replace = previous[j - 1] + if left_letter == right_letter {
                    0
                } else {
                    1
                };
                let smaller = if insert <= delete {
                    insert
                } else {
                    delete
                };
                current[j] = if smaller <= replace {
                    smaller
                } else {
                    replace
                };
                j = j + 1;
            }
            core::mem::swap(previous, current);
            i = i + 1;
        }
        previous[left_count]
    }
}

/// Every row beyond the columns costs one: an entry is at least its row index
/// less its column index.
proof fn lemma_edit_table_excess(rows: Seq<u8>, columns: Seq<u8>, i: nat, j: nat)
    ensures
        edit_table(rows, columns, i, j) >= i - j,
    decreases i, j,
{
    if i > 0 && j > 0 {
        lemma_edit_table_excess(rows, columns, i, (j - 1) as nat);
        lemma_edit_table_excess(rows, columns, (i - 1) as nat, j);
        lemma_edit_table_excess(rows, columns, (i - 1) as nat, (j - 1) as nat);
    }
}

/// On the diagonal, an entry is zero exactly when every byte so far matches
/// its counterpart up to ASCII case.
proof fn lemma_edit_table_zero(rows: Seq<u8>, columns: Seq<u8>, i: nat)
    requires
        i <= rows.len(),
        i <= columns.len(),
    ensures
        edit_table(rows, columns, i, i) == 0 <==> forall|k: int|
            0 <= k < i ==> spec_byte_lower(#[trigger] rows[k]) == spec_byte_lower(columns[k]),
    decreases i,
{
    if i > 0 {
        lemma_edit_table_zero(rows, columns, (i - 1) as nat);
        lemma_edit_table_excess(rows, columns, i, (i - 1) as nat);
        lemma_edit_table_excess(rows, columns, (i - 1) as nat, i);
        let k = i - 1;
        if edit_table(rows, columns, i, i) == 0 {
            assert forall|m: int| 0 <= m < i implies spec_byte_lower(#[trigger] rows[m])
                == spec_byte_lower(columns[m]) by {
                if m < k {
                } else {
                }
            }
        }
    }
}

/// The distance is at least the difference of the lengths, and it is zero
/// exactly when the two words have the same length and the same bytes up to
/// ASCII case: every byte that one word has beyond the other costs one, and
/// two different words are never at distance zero.
pub proof fn law_distance_zero_and_length(left: Seq<u8>, right: Seq<u8>)
    ensures
        spec_distance(left, right) >= left.len() - right.len(),
        spec_distance(left, right) >= right.len() - left.len(),
        spec_distance(left, right) == 0 <==> (left.len() == right.len() && lowered(left)
            == lowered(right)),
{
    lemma_edit_table_excess(left, right, left.len(), right.len());
    lemma_edit_table_excess(right, left, right.len(), left.len());
    if left.len() == right.len() {
        lemma_edit_table_zero(right, left, left.len());
        if lowered(left) == lowered(right) {
            assert forall|k: int| 0 <= k < left.len() implies spec_byte_lower(#[trigger] right[k])
                == spec_byte_lower(left[k]) by {
                assert(lowered(left)[k] == lowered(right)[k]);
            }
        }
        if spec_distance(left, right) == 0 {
            assert forall|k: int| 0 <= k < left.len() implies lowered(left)[k] == lowered(right)[k] by {
                assert(spec_byte_lower(right[k]) == spec_byte_lower(left[k]));
            }
            assert(lowered(left) =~= lowered(right));
        }
    }
}

} // verus!
