//! What holds of rows that are sorted key by key.
//!
//! The scan path sorts by the last ordering key first and then, stably, by
//! each earlier key in turn. The functions here say what a `SortBy` operator
//! and a `TopN` operator are to compute, over rows named by integers, and
//! the laws say what the sequence of sorts amounts to.

use vstd::prelude::*;
use vstd::set_lib::{lemma_int_range, lemma_len_subset, set_int_range};

verus! {

/// An ordering key: the rank of each row, and whether greater ranks come
/// first.
pub type Ranking = (spec_fn(int) -> int, bool);

/// Whether the two rows have the same rank.
pub open spec fn ties(key: Ranking, x: int, y: int) -> bool {
    (key.0)(x) == (key.0)(y)
}

/// Whether row `x` has to come before row `y`.
pub open spec fn ranks_before(key: Ranking, x: int, y: int) -> bool {
    if key.1 {
        (key.0)(x) > (key.0)(y)
    } else {
        (key.0)(x) < (key.0)(y)
    }
}

/// Whether `output` holds the rows of `input` in another arrangement:
/// `output[a]` is the row at position `origin[a]` of `input`, and every
/// position of `input` is the origin of exactly one position of `output`.
pub open spec fn arranges(input: Seq<int>, output: Seq<int>, origin: Seq<int>) -> bool {
    &&& output.len() == input.len()
    &&& origin.len() == input.len()
    &&& forall|a: int|
        0 <= a < output.len() ==> 0 <= #[trigger] origin[a] < input.len() && output[a]
            == input[origin[a]]
    &&& origin.no_duplicates()
    &&& forall|p: int| 0 <= p < input.len() ==> #[trigger] origin.contains(p)
}

/// Whether `output` is `input` sorted by `key`: no row comes after a row
/// that it has to come before. A stable sort keeps rows of equal rank in the
/// order of `input`.
pub open spec fn sorts(
    input: Seq<int>,
    output: Seq<int>,
    origin: Seq<int>,
    key: Ranking,
    stable: bool,
) -> bool {
    &&& arranges(input, output, origin)
    &&& forall|a: int, b: int|
        0 <= a < b < output.len() ==> !ranks_before(key, #[trigger] output[b], #[trigger] output[a])
    &&& stable ==> forall|a: int, b: int|
        0 <= a < b < output.len() && ties(key, output[a], output[b]) ==> #[trigger] origin[a]
            < #[trigger] origin[b]
}

/// Whether `output` is some sorting of `input` by `key`.
pub open spec fn sorted_by(input: Seq<int>, output: Seq<int>, key: Ranking, stable: bool) -> bool {
    exists|origin: Seq<int>| #[trigger] sorts(input, output, origin, key, stable)
}

/// Whether row `x` may come before row `y` in the lexicographic order of
/// the keys from position `start` on: at the first key where they differ,
/// `x` has to come before `y`.
pub open spec fn lex_ordered(keys: Seq<Ranking>, start: int, x: int, y: int) -> bool
    decreases keys.len() - start,
{
    if start >= keys.len() {
        true
    } else if ties(keys[start], x, y) {
        lex_ordered(keys, start + 1, x, y)
    } else {
        ranks_before(keys[start], x, y)
    }
}

/// The input of the sort by the key at position `j`: the rows as they are
/// for the last key, else the output of the sort by the next key.
pub open spec fn sort_input(keys: Seq<Ranking>, rows: Seq<int>, steps: Seq<Seq<int>>, j: int) -> Seq<
    int,
> {
    if j + 1 < keys.len() {
        steps[j + 1]
    } else {
        rows
    }
}

/// Whether `steps` are the outputs of sorting `rows` key by key, the last
/// key first: `steps[j]` is the output of the sort by the key at position
/// `j`, which is stable unless the key is the last one.
pub open spec fn sorted_key_by_key(keys: Seq<Ranking>, rows: Seq<int>, steps: Seq<Seq<int>>) -> bool {
    &&& steps.len() == keys.len()
    &&& forall|j: int|
        0 <= j < keys.len() ==> sorted_by(
            sort_input(keys, rows, steps, j),
            #[trigger] steps[j],
            keys[j],
            j + 1 < keys.len(),
        )
}

/// Sorting by the last key first and then stably by each earlier key leaves
/// the rows in the lexicographic order of the keys, first key first.
pub proof fn law_sorts_order_lexicographically(
    keys: Seq<Ranking>,
    rows: Seq<int>,
    steps: Seq<Seq<int>>,
    j: int,
    a: int,
    b: int,
)
    requires
        sorted_key_by_key(keys, rows, steps),
        0 <= j < keys.len(),
        0 <= a < b < steps[j].len(),
    ensures
        lex_ordered(keys, j, steps[j][a], steps[j][b]),
    decreases keys.len() - j,
{
    let input = sort_input(keys, rows, steps, j);
    let output = steps[j];
    let key = keys[j];
    let stable = j + 1 < keys.len();
    assert(sorted_by(input, output, key, stable));
    let origin = choose|origin: Seq<int>| #[trigger] sorts(input, output, origin, key, stable);
    assert(!ranks_before(keys[j], output[b], output[a]));
    if ties(keys[j], output[a], output[b]) {
        if j + 1 < keys.len() {
            assert(origin[a] < origin[b]);
            assert(output[a] == input[origin[a]]);
            assert(output[b] == input[origin[b]]);
            law_sorts_order_lexicographically(keys, rows, steps, j + 1, origin[a], origin[b]);
        }
        assert(lex_ordered(keys, j + 1, output[a], output[b]));
    }
}

/// Whether `output` holds the `limit` first rows of `input` by `key`, or all
/// of them where there are fewer: the rows are distinct rows of `input`, in
/// order, and no row that is left out has to come before a row that is in.
pub open spec fn selects_top(
    input: Seq<int>,
    output: Seq<int>,
    origin: Seq<int>,
    key: Ranking,
    limit: nat,
) -> bool {
    &&& output.len() == if limit <= input.len() {
        limit
    } else {
        input.len()
    }
    &&& origin.len() == output.len()
    &&& forall|a: int|
        0 <= a < output.len() ==> 0 <= #[trigger] origin[a] < input.len() && output[a]
            == input[origin[a]]
    &&& origin.no_duplicates()
    &&& forall|a: int, b: int|
        0 <= a < b < output.len() ==> !ranks_before(key, #[trigger] output[b], #[trigger] output[a])
    &&& forall|p: int, a: int|
        0 <= p < input.len() && !origin.contains(p) && 0 <= a < output.len() ==> !ranks_before(
            key,
            #[trigger] input[p],
            #[trigger] output[a],
        )
}

/// The first rows of a full sort are a partial sort: what sorting all rows
/// and taking the limit returns is one of the results that the partial sort
/// may return. The two may differ only in which rows of equal rank they
/// keep.
pub proof fn law_full_sort_then_limit_selects_top(
    input: Seq<int>,
    sorted: Seq<int>,
    origin: Seq<int>,
    key: Ranking,
    stable: bool,
    limit: nat,
)
    requires
        sorts(input, sorted, origin, key, stable),
    ensures
        selects_top(
            input,
            sorted.take(
                if limit <= input.len() {
                    limit as int
                } else {
                    input.len() as int
                },
            ),
            origin.take(
                if limit <= input.len() {
                    limit as int
                } else {
                    input.len() as int
                },
            ),
            key,
            limit,
        ),
{
    let m = if limit <= input.len() {
        limit as int
    } else {
        input.len() as int
    };
    let output = sorted.take(m);
    let kept = origin.take(m);
    assert forall|a: int| 0 <= a < output.len() implies 0 <= #[trigger] kept[a] < input.len()
        && output[a] == input[kept[a]] by {
        assert(kept[a] == origin[a]);
    }
    assert forall|a: int, b: int| 0 <= a < b < output.len() implies !ranks_before(
        key,
        #[trigger] output[b],
        #[trigger] output[a],
    ) by {
        assert(output[a] == sorted[a] && output[b] == sorted[b]);
    }
    assert forall|p: int, a: int|
        0 <= p < input.len() && !kept.contains(p) && 0 <= a < output.len() implies !ranks_before(
        key,
        #[trigger] input[p],
        #[trigger] output[a],
    ) by {
        assert(origin.contains(p));
        let c = choose|c: int| 0 <= c < origin.len() && origin[c] == p;
        if c < m {
            assert(kept[c] == p);
        }
        assert(sorted[c] == input[p]);
        assert(output[a] == sorted[a]);
    }
    assert(kept.no_duplicates());
}

proof fn lemma_pigeonhole(positions: Seq<int>, n: int)
    requires
        0 <= n,
        positions.no_duplicates(),
        forall|i: int| 0 <= i < positions.len() ==> 0 <= #[trigger] positions[i] < n,
    ensures
        positions.len() <= n,
{
    positions.unique_seq_to_set();
    lemma_int_range(0, n);
    assert forall|x: int| positions.to_set().contains(x) implies set_int_range(0, n).contains(
        x,
    ) by {
        assert(positions.contains(x));
        let i = choose|i: int| 0 <= i < positions.len() && positions[i] == x;
        assert(0 <= positions[i] < n);
    }
    lemma_len_subset(positions.to_set(), set_int_range(0, n));
}

proof fn lemma_no_better_selection(
    input: Seq<int>,
    first: Seq<int>,
    first_origin: Seq<int>,
    second: Seq<int>,
    second_origin: Seq<int>,
    key: Ranking,
    limit: nat,
    a: int,
)
    requires
        selects_top(input, first, first_origin, key, limit),
        selects_top(input, second, second_origin, key, limit),
        0 <= a < first.len(),
    ensures
        !ranks_before(key, first[a], second[a]),
{
    if ranks_before(key, first[a], second[a]) {
        let positions = Seq::new(
            (a + 1) as nat,
            |c: int| second_origin.index_of(first_origin[c]),
        );
        assert forall|c: int| 0 <= c <= a implies 0 <= #[trigger] positions[c] < a
            && second_origin[positions[c]] == first_origin[c] by {
            if c < a {
                assert(!ranks_before(key, first[a], first[c]));
            }
            assert(ranks_before(key, first[c], second[a]));
            assert(first[c] == input[first_origin[c]]);
            if !second_origin.contains(first_origin[c]) {
                assert(!ranks_before(key, input[first_origin[c]], second[a]));
            }
            let b = second_origin.index_of(first_origin[c]);
            assert(0 <= b < second_origin.len() && second_origin[b] == first_origin[c]);
            assert(second[b] == input[second_origin[b]]);
            if b > a {
                assert(!ranks_before(key, second[b], second[a]));
            }
        }
        assert(positions.no_duplicates()) by {
            assert forall|c: int, e: int| 0 <= c <= a && 0 <= e <= a && c != e implies positions[c]
                != positions[e] by {
                assert(second_origin[positions[c]] == first_origin[c]);
                assert(second_origin[positions[e]] == first_origin[e]);
                assert(first_origin[c] != first_origin[e]);
            }
        }
        lemma_pigeonhole(positions, a);
    }
}

/// Two partial sorts of the same rows with the same limit agree up to the
/// order inside ties: at every position their rows have the same rank. With
/// the law before, this holds of the partial sort and of the full sort
/// followed by the limit.
pub proof fn law_top_selections_agree(
    input: Seq<int>,
    first: Seq<int>,
    first_origin: Seq<int>,
    second: Seq<int>,
    second_origin: Seq<int>,
    key: Ranking,
    limit: nat,
    a: int,
)
    requires
        selects_top(input, first, first_origin, key, limit),
        selects_top(input, second, second_origin, key, limit),
        0 <= a < first.len(),
    ensures
        first.len() == second.len(),
        ties(key, first[a], second[a]),
{
    lemma_no_better_selection(
        input,
        first,
        first_origin,
        second,
        second_origin,
        key,
        limit,
        a,
    );
    lemma_no_better_selection(
        input,
        second,
        second_origin,
        first,
        first_origin,
        key,
        limit,
        a,
    );
}

} // verus!
