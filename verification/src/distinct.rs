//! Lists without repetition, in order of first occurrence.

use vstd::prelude::*;

verus! {

/// `acc`, with `item` appended unless it already occurs.
pub open spec fn insert_new<T>(acc: Seq<T>, item: T) -> Seq<T> {
    if acc.contains(item) {
        acc
    } else {
        acc.push(item)
    }
}

/// `acc`, with each of `items` appended in turn unless it already occurs.
pub open spec fn merge_new<T>(acc: Seq<T>, items: Seq<T>) -> Seq<T>
    decreases items.len(),
{
    if items.len() == 0 {
        acc
    } else {
        merge_new(insert_new(acc, items[0]), items.drop_first())
    }
}

/// Merging a single item inserts it.
pub proof fn lemma_merge_one<T>(acc: Seq<T>, item: T)
    ensures
        merge_new(acc, seq![item]) == insert_new(acc, item),
{
    let rest = seq![item].drop_first();
    assert(rest.len() == 0);
    assert(merge_new(insert_new(acc, item), rest) == insert_new(acc, item));
}

/// Merging a concatenation is merging its parts in turn.
pub proof fn lemma_merge_concat<T>(acc: Seq<T>, a: Seq<T>, b: Seq<T>)
    ensures
        merge_new(acc, a + b) == merge_new(merge_new(acc, a), b),
    decreases a.len(),
{
    if a.len() == 0 {
        assert(a + b == b);
    } else {
        assert((a + b)[0] == a[0]);
        assert((a + b).drop_first() == a.drop_first() + b);
        lemma_merge_concat(insert_new(acc, a[0]), a.drop_first(), b);
    }
}

/// Merging keeps what was there, adds exactly the new items, and introduces
/// no repetition.
pub proof fn lemma_merge_members<T>(acc: Seq<T>, items: Seq<T>)
    ensures
        forall|x: T| #[trigger]
            merge_new(acc, items).contains(x) <==> acc.contains(x) || items.contains(x),
        acc.no_duplicates() ==> merge_new(acc, items).no_duplicates(),
        acc.len() <= merge_new(acc, items).len(),
        merge_new(acc, items).subrange(0, acc.len() as int) == acc,
    decreases items.len(),
{
    if items.len() == 0 {
        assert(merge_new(acc, items).subrange(0, acc.len() as int) == acc);
    } else {
        let next = insert_new(acc, items[0]);
        lemma_merge_members(next, items.drop_first());
        let merged = merge_new(acc, items);
        assert(merged == merge_new(next, items.drop_first()));
        assert(next.subrange(0, acc.len() as int) == acc);
        assert(merged.subrange(0, acc.len() as int) == merged.subrange(
            0,
            next.len() as int,
        ).subrange(0, acc.len() as int));
        assert forall|x: T| #[trigger]
            merged.contains(x) <==> acc.contains(x) || items.contains(x) by {
            if next.contains(x) {
                if !acc.contains(x) {
                    let i = choose|i: int| 0 <= i < next.len() && next[i] == x;
                    assert(i == acc.len());
                    assert(items[0] == x);
                }
            }
            if acc.contains(x) {
                let i = choose|i: int| 0 <= i < acc.len() && acc[i] == x;
                assert(next[i] == x);
            }
            if items.contains(x) {
                let i = choose|i: int| 0 <= i < items.len() && items[i] == x;
                if i == 0 {
                    if acc.contains(x) {
                    } else {
                        assert(next[acc.len() as int] == x);
                    }
                    assert(next.contains(x));
                } else {
                    assert(items.drop_first()[i - 1] == x);
                }
            }
            if items.drop_first().contains(x) {
                let i = choose|i: int|
                    0 <= i < items.drop_first().len() && items.drop_first()[i] == x;
                assert(items[i + 1] == x);
            }
        }
        if acc.no_duplicates() {
            assert(next.no_duplicates());
        }
    }
}

} // verus!
