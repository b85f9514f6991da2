//! What holds of packed grouping keys.
//!
//! The planner packs the grouping columns with `Pack` operators and recovers
//! them with `Unpack` operators. The functions here say the same in numbers:
//! `key_of` is what the chain of `Pack` operators computes for one row, and
//! `column_of` is what the decode plan of one column computes for one key.

use vstd::prelude::*;
use vstd::arithmetic::div_mod::{lemma_div_denominator, lemma_fundamental_div_mod_converse};
use vstd::arithmetic::mul::lemma_mul_is_commutative;
use crate::grouping::{
    lemma_product_bounds, lemma_product_push, radices_positive, radix_product, KeyPart,
};

verus! {

/// Whether `values` holds one stored value per part, each within the bounds
/// of its part.
pub open spec fn within_bounds(values: Seq<int>, parts: Seq<KeyPart>) -> bool {
    &&& values.len() == parts.len()
    &&& forall|j: int|
        0 <= j < parts.len() ==> (#[trigger] parts[j]).min <= values[j] < parts[j].min
            + parts[j].radix
}

/// The key of the first `n` stored values of a row: each part appends its
/// digit, the stored value less the least one, in its own radix.
pub open spec fn key_of(values: Seq<int>, parts: Seq<KeyPart>, n: nat) -> int
    decreases n,
{
    if n == 0 {
        0
    } else {
        key_of(values, parts, (n - 1) as nat) * parts[n - 1].radix + (values[n - 1] - parts[n
            - 1].min)
    }
}

/// The stored value of part `i` that a key stands for: the key divided by
/// the radices of the later parts, modulo the part's own radix, plus the
/// least value.
pub open spec fn column_of(key: int, parts: Seq<KeyPart>, i: int) -> int {
    (key / radix_product(parts, i + 1)) % (parts[i].radix as int) + parts[i].min
}

proof fn lemma_prefix(values: Seq<int>, parts: Seq<KeyPart>, n: nat)
    requires
        within_bounds(values, parts),
        n <= parts.len(),
    ensures
        radices_positive(parts.take(n as int)),
        n > 0 ==> parts.take(n as int) == parts.take(n - 1).push(parts[n - 1]),
{
    assert forall|j: int| 0 <= j < n implies (#[trigger] parts.take(n as int)[j]).radix >= 1 by {
        assert(parts[j].min <= values[j]);
    }
}

proof fn lemma_key_bounds(values: Seq<int>, parts: Seq<KeyPart>, n: nat)
    requires
        within_bounds(values, parts),
        n <= parts.len(),
    ensures
        0 <= key_of(values, parts, n) < radix_product(parts.take(n as int), 0),
    decreases n,
{
    if n > 0 {
        lemma_key_bounds(values, parts, (n - 1) as nat);
        lemma_prefix(values, parts, n);
        lemma_product_push(parts.take(n - 1), parts[n - 1], 0);
        let before = key_of(values, parts, (n - 1) as nat);
        let product = radix_product(parts.take(n - 1), 0);
        let radix = parts[n - 1].radix as int;
        let digit = values[n - 1] - parts[n - 1].min;
        assert(0 <= before * radix + digit < product * radix) by (nonlinear_arith)
            requires
                0 <= before < product,
                0 <= digit < radix,
        ;
    }
}

proof fn lemma_digit(values: Seq<int>, parts: Seq<KeyPart>, n: nat, i: int)
    requires
        within_bounds(values, parts),
        0 <= i < n <= parts.len(),
    ensures
        (key_of(values, parts, n) / radix_product(parts.take(n as int), i + 1)) % (
        parts[i].radix as int) == values[i] - parts[i].min,
    decreases n,
{
    let key = key_of(values, parts, n);
    let before = key_of(values, parts, (n - 1) as nat);
    let radix = parts[n - 1].radix as int;
    let digit = values[n - 1] - parts[n - 1].min;
    lemma_key_bounds(values, parts, n);
    lemma_key_bounds(values, parts, (n - 1) as nat);
    lemma_prefix(values, parts, n);
    lemma_prefix(values, parts, (n - 1) as nat);
    lemma_fundamental_div_mod_converse(key, radix, before, digit);
    if i == n - 1 {
        assert(radix_product(parts.take(n as int), i + 1) == 1);
    } else {
        let later = radix_product(parts.take(n - 1), i + 1);
        lemma_product_push(parts.take(n - 1), parts[n - 1], i + 1);
        lemma_product_bounds(parts.take(n - 1), i + 1);
        lemma_div_denominator(key, radix, later);
        lemma_mul_is_commutative(radix, later);
        lemma_digit(values, parts, (n - 1) as nat, i);
    }
}

/// Decoding a packed key recovers the tuple that was packed: for stored
/// values within the bounds of their parts, every column of the key of a row
/// is the stored value of the row. The key is at least zero and below the
/// product of all radices.
pub proof fn law_group_key_round_trip(values: Seq<int>, parts: Seq<KeyPart>, i: int)
    requires
        within_bounds(values, parts),
        0 <= i < parts.len(),
    ensures
        column_of(key_of(values, parts, parts.len()), parts, i) == values[i],
        0 <= key_of(values, parts, parts.len()) < radix_product(parts, 0),
{
    assert(parts.take(parts.len() as int) == parts);
    lemma_key_bounds(values, parts, parts.len());
    lemma_digit(values, parts, parts.len(), i);
}

/// Rows with the same key have the same grouping columns, so that a group
/// holds the rows of one tuple and no others.
pub proof fn law_one_group_per_tuple(first: Seq<int>, second: Seq<int>, parts: Seq<KeyPart>)
    requires
        within_bounds(first, parts),
        within_bounds(second, parts),
        key_of(first, parts, parts.len()) == key_of(second, parts, parts.len()),
    ensures
        first == second,
{
    assert forall|i: int| 0 <= i < parts.len() implies first[i] == second[i] by {
        law_group_key_round_trip(first, parts, i);
        law_group_key_round_trip(second, parts, i);
    }
    assert(first =~= second);
}

} // verus!
