//! Names of synthetic and anonymous columns.
//!
//! Every such name is a fixed prefix followed by a counter in decimal.
//! The decimal rendering is injective, so two names with the same prefix
//! coincide only when their counters do.

use vstd::prelude::*;
use vstd::string::*;

verus! {

/// The character that stands for the decimal digit `d`.
pub open spec fn digit_char(d: nat) -> char
    recommends
        d < 10,
{
    if d == 0 {
        '0'
    } else if d == 1 {
        '1'
    } else if d == 2 {
        '2'
    } else if d == 3 {
        '3'
    } else if d == 4 {
        '4'
    } else if d == 5 {
        '5'
    } else if d == 6 {
        '6'
    } else if d == 7 {
        '7'
    } else if d == 8 {
        '8'
    } else {
        '9'
    }
}

/// The decimal rendering of `n`, most significant digit first, without
/// leading zeros.
pub open spec fn decimal(n: nat) -> Seq<char>
    decreases n,
{
    if n < 10 {
        seq![digit_char(n)]
    } else {
        decimal(n / 10).push(digit_char(n % 10))
    }
}

/// `_ca`, the prefix of columns that stand for extracted aggregates.
pub open spec fn aggregate_prefix() -> Seq<char> {
    seq!['_', 'c', 'a']
}

/// `_cs`, the prefix of columns that stand for intermediate scalar
/// projections.
pub open spec fn select_prefix() -> Seq<char> {
    seq!['_', 'c', 's']
}

/// `col_`, the prefix of unnamed projection columns in a result.
pub open spec fn anonymous_prefix() -> Seq<char> {
    seq!['c', 'o', 'l', '_']
}

/// `count_`, the prefix of count columns in a result.
pub open spec fn count_prefix() -> Seq<char> {
    seq!['c', 'o', 'u', 'n', 't', '_']
}

/// `sum_`, the prefix of sum columns in a result.
pub open spec fn sum_prefix() -> Seq<char> {
    seq!['s', 'u', 'm', '_']
}

/// Name of the column that replaces the `k`-th extracted aggregate.
pub open spec fn aggregate_column_name(k: nat) -> Seq<char> {
    aggregate_prefix() + decimal(k)
}

/// Name of the column that carries the `k`-th aggregate-free select
/// expression from the first stage to the second.
pub open spec fn select_column_name(k: nat) -> Seq<char> {
    select_prefix() + decimal(k)
}

/// Name of the `k`-th projection column that is not a bare column reference.
pub open spec fn anonymous_column_name(k: nat) -> Seq<char> {
    anonymous_prefix() + decimal(k)
}

/// Name of a count column at position `k` of the aggregate list.
pub open spec fn count_column_name(k: nat) -> Seq<char> {
    count_prefix() + decimal(k)
}

/// Name of a sum column at position `k` of the aggregate list.
pub open spec fn sum_column_name(k: nat) -> Seq<char> {
    sum_prefix() + decimal(k)
}

/// A rendering is never empty.
pub proof fn lemma_decimal_nonempty(n: nat)
    ensures
        decimal(n).len() >= 1,
        n >= 10 ==> decimal(n).len() >= 2,
    decreases n,
{
    if n >= 10 {
        lemma_decimal_nonempty(n / 10);
    }
}

/// Two numbers with the same decimal rendering are equal.
pub proof fn lemma_decimal_injective(a: nat, b: nat)
    requires
        decimal(a) == decimal(b),
    ensures
        a == b,
    decreases a,
{
    lemma_decimal_nonempty(a);
    lemma_decimal_nonempty(b);
    if a < 10 {
        assert(decimal(a)[0] == digit_char(a));
        assert(decimal(b)[0] == digit_char(b));
    } else {
        let x = decimal(a / 10);
        let y = decimal(b / 10);
        assert(decimal(a) == x.push(digit_char(a % 10)));
        assert(decimal(b) == y.push(digit_char(b % 10)));
        assert(x.push(digit_char(a % 10)).drop_last() == x);
        assert(y.push(digit_char(b % 10)).drop_last() == y);
        assert(x.push(digit_char(a % 10)).last() == digit_char(a % 10));
        assert(y.push(digit_char(b % 10)).last() == digit_char(b % 10));
        lemma_decimal_injective(a / 10, b / 10);
    }
}

/// Names built from one prefix and two counters coincide only when the
/// counters do.
pub proof fn lemma_prefixed_injective(prefix: Seq<char>, i: nat, j: nat)
    requires
        prefix + decimal(i) == prefix + decimal(j),
    ensures
        i == j,
{
    let a = prefix + decimal(i);
    let b = prefix + decimal(j);
    assert(a.subrange(prefix.len() as int, a.len() as int) == decimal(i));
    assert(b.subrange(prefix.len() as int, b.len() as int) == decimal(j));
    lemma_decimal_injective(i, j);
}

/// Every synthetic name of the normalizer starts with an underscore, and the
/// names of one family are pairwise distinct.
pub proof fn lemma_synthetic_names(i: nat, j: nat)
    ensures
        aggregate_column_name(i)[0] == '_',
        select_column_name(i)[0] == '_',
        aggregate_column_name(i) != select_column_name(j),
        aggregate_column_name(i) == aggregate_column_name(j) ==> i == j,
        select_column_name(i) == select_column_name(j) ==> i == j,
{
    assert(aggregate_column_name(i)[2] == 'a');
    assert(select_column_name(j)[2] == 's');
    if aggregate_column_name(i) == aggregate_column_name(j) {
        lemma_prefixed_injective(aggregate_prefix(), i, j);
    }
    if select_column_name(i) == select_column_name(j) {
        lemma_prefixed_injective(select_prefix(), i, j);
    }
}

fn digit_str(d: usize) -> (s: &'static str)
    requires
        d < 10,
    ensures
        s@ == seq![digit_char(d as nat)],
{
    proof {
        reveal_strlit("0");
        reveal_strlit("1");
        reveal_strlit("2");
        reveal_strlit("3");
        reveal_strlit("4");
        reveal_strlit("5");
        reveal_strlit("6");
        reveal_strlit("7");
        reveal_strlit("8");
        reveal_strlit("9");
    }
    if d == 0 {
        "0"
    } else if d == 1 {
        "1"
    } else if d == 2 {
        "2"
    } else if d == 3 {
        "3"
    } else if d == 4 {
        "4"
    } else if d == 5 {
        "5"
    } else if d == 6 {
        "6"
    } else if d == 7 {
        "7"
    } else if d == 8 {
        "8"
    } else {
        "9"
    }
}

/// Renders `n` in decimal.
pub fn decimal_string(n: usize) -> (s: String)
    ensures
        s@ == decimal(n as nat),
    decreases n,
{
    if n < 10 {
        String::from_str(digit_str(n))
    } else {
        let mut s = decimal_string(n / 10);
        s.append(digit_str(n % 10));
        s
    }
}

fn prefixed(prefix: &str, k: usize) -> (s: String)
    ensures
        s@ == prefix@ + decimal(k as nat),
{
    let mut s = String::from_str(prefix);
    let digits = decimal_string(k);
    s.append(digits.as_str());
    s
}

/// Builds the name `_ca{k}`.
pub fn aggregate_column(k: usize) -> (s: String)
    ensures
        s@ == aggregate_column_name(k as nat),
{
    proof {
        reveal_strlit("_ca");
    }
    assert("_ca"@ == aggregate_prefix());
    prefixed("_ca", k)
}

/// Builds the name `_cs{k}`.
pub fn select_column(k: usize) -> (s: String)
    ensures
        s@ == select_column_name(k as nat),
{
    proof {
        reveal_strlit("_cs");
    }
    assert("_cs"@ == select_prefix());
    prefixed("_cs", k)
}

/// Builds the name `col_{k}`.
pub fn anonymous_column(k: usize) -> (s: String)
    ensures
        s@ == anonymous_column_name(k as nat),
{
    proof {
        reveal_strlit("col_");
    }
    assert("col_"@ == anonymous_prefix());
    prefixed("col_", k)
}

/// Builds the name `count_{k}`.
pub fn count_column(k: usize) -> (s: String)
    ensures
        s@ == count_column_name(k as nat),
{
    proof {
        reveal_strlit("count_");
    }
    assert("count_"@ == count_prefix());
    prefixed("count_", k)
}

/// Builds the name `sum_{k}`.
pub fn sum_column(k: usize) -> (s: String)
    ensures
        s@ == sum_column_name(k as nat),
{
    proof {
        reveal_strlit("sum_");
    }
    assert("sum_"@ == sum_prefix());
    prefixed("sum_", k)
}

} // verus!
