//! What holds of compiled plans.

use vstd::prelude::*;
use crate::aggregate::{aggregate_all, aggregate_one, Aggregated};
use crate::expr::{Aggregator, ExprModel, Func1Type, Func2Type};
use crate::grouping::{adjust, grouping_key, key_range, pack_parts, part_of};
use crate::planner::{BufferRef, Operator, PlanModel};
use crate::query_plan::{
    apply_binary, apply_unary, compile, decode_if_encoded, make_order_preserving, Filter,
};
use crate::scan::{sort_keys, sort_step};
use crate::schedule_laws::{lemma_decode_parts_grows, lemma_grows_transitive, lemma_pack_grows};
use crate::types::{find_column, ColumnModel, EncodingType, QueryError, Type};

verus! {

/// Which rows a buffer has an entry for.
pub enum RowSet {
    /// A single value that stands for every row.
    Scalar,
    /// One entry per row of the partition.
    Partition,
    /// One entry per row that the ambient filter selects.
    Selected,
    /// Anything else.
    Unknown,
}

/// The rows of the result of a binary kernel: a scalar adapts to the other
/// operand, and two operands over the same rows give a result over these
/// rows.
pub open spec fn join(left: RowSet, right: RowSet) -> RowSet {
    if left is Scalar {
        right
    } else if right is Scalar {
        left
    } else if left == right {
        left
    } else {
        RowSet::Unknown
    }
}

/// The rows that the ambient filter selects.
pub open spec fn filter_rows(filter: Filter) -> RowSet {
    if filter is NoFilter {
        RowSet::Partition
    } else {
        RowSet::Selected
    }
}

/// The rows that the buffer at `id` has an entry for, under the ambient
/// filter `filter`. A column read covers the partition; applying the
/// ambient filter to data over the partition narrows it to the selected
/// rows; kernels keep the rows of their operands.
pub open spec fn visible_rows(plan: PlanModel, filter: Filter, id: int) -> RowSet
    decreases id,
{
    if id < 0 || id >= plan.nodes.len() {
        RowSet::Unknown
    } else {
        match plan.nodes[id].op {
            Operator::ReadColumn { .. } => RowSet::Partition,
            Operator::ScalarI64 { .. } => RowSet::Scalar,
            Operator::ScalarStr { .. } => RowSet::Scalar,
            Operator::ScalarNull => RowSet::Scalar,
            Operator::Filter { input, mask } => if filter == Filter::U8(mask) && input.id < id
                && visible_rows(plan, filter, input.id as int) is Partition {
                RowSet::Selected
            } else {
                RowSet::Unknown
            },
            Operator::NullableFilter { input, mask } => if filter == Filter::NullableU8(mask)
                && input.id < id && visible_rows(plan, filter, input.id as int) is Partition {
                RowSet::Selected
            } else {
                RowSet::Unknown
            },
            Operator::Select { input, indices } => if filter == Filter::Indices(indices)
                && input.id < id && visible_rows(plan, filter, input.id as int) is Partition {
                RowSet::Selected
            } else {
                RowSet::Unknown
            },
            Operator::Decode { input, .. } => if input.id < id {
                visible_rows(plan, filter, input.id as int)
            } else {
                RowSet::Unknown
            },
            Operator::Func1 { input, .. } => if input.id < id {
                visible_rows(plan, filter, input.id as int)
            } else {
                RowSet::Unknown
            },
            Operator::Func2 { left, right, .. } => if left.id < id && right.id < id {
                join(
                    visible_rows(plan, filter, left.id as int),
                    visible_rows(plan, filter, right.id as int),
                )
            } else {
                RowSet::Unknown
            },
            Operator::Pack { high, low, .. } => if high.id < id && low.id < id {
                join(
                    visible_rows(plan, filter, high.id as int),
                    visible_rows(plan, filter, low.id as int),
                )
            } else {
                RowSet::Unknown
            },
            _ => RowSet::Unknown,
        }
    }
}

/// Whether `later` has the operators of `plan` as its first operators.
pub open spec fn grows_to(plan: PlanModel, later: PlanModel) -> bool {
    &&& plan.nodes.len() <= later.nodes.len()
    &&& forall|i: int| 0 <= i < plan.nodes.len() ==> #[trigger] later.nodes[i] == plan.nodes[i]
}

/// Compiling an expression keeps the operators that the plan had.
pub proof fn lemma_compile_grows(
    e: ExprModel,
    filter: Filter,
    columns: Seq<ColumnModel>,
    plan: PlanModel,
)
    ensures
        compile(e, filter, columns, plan) matches Ok(r) ==> grows_to(plan, r.0),
    decreases e,
{
    match e {
        ExprModel::Const(_) => {},
        ExprModel::ColName(_) => {},
        ExprModel::Func1(op, child) => {
            lemma_compile_grows(*child, filter, columns, plan);
        },
        ExprModel::Func2(op, left, right) => {
            lemma_compile_grows(*left, filter, columns, plan);
            if let Ok(first) = compile(*left, filter, columns, plan) {
                lemma_compile_grows(*right, filter, columns, first.0);
                if let Ok(second) = compile(*right, filter, columns, first.0) {
                    let decoded = decode_if_encoded(second.0, first.1, first.2);
                    assert(grows_to(second.0, decoded.0));
                    assert(grows_to(
                        decoded.0,
                        decode_if_encoded(decoded.0, second.1, second.2).0,
                    ));
                }
            }
        },
        ExprModel::Aggregate(_, _) => {},
    }
}

proof fn lemma_rows_frame(plan: PlanModel, later: PlanModel, filter: Filter, id: int)
    requires
        grows_to(plan, later),
        0 <= id < plan.nodes.len(),
    ensures
        visible_rows(later, filter, id) == visible_rows(plan, filter, id),
    decreases id,
{
    assert(later.nodes[id] == plan.nodes[id]);
    match plan.nodes[id].op {
        Operator::Filter { input, .. } => {
            if input.id < id {
                lemma_rows_frame(plan, later, filter, input.id as int);
            }
        },
        Operator::NullableFilter { input, .. } => {
            if input.id < id {
                lemma_rows_frame(plan, later, filter, input.id as int);
            }
        },
        Operator::Select { input, .. } => {
            if input.id < id {
                lemma_rows_frame(plan, later, filter, input.id as int);
            }
        },
        Operator::Decode { input, .. } => {
            if input.id < id {
                lemma_rows_frame(plan, later, filter, input.id as int);
            }
        },
        Operator::Func1 { input, .. } => {
            if input.id < id {
                lemma_rows_frame(plan, later, filter, input.id as int);
            }
        },
        Operator::Func2 { left, right, .. } => {
            if left.id < id && right.id < id {
                lemma_rows_frame(plan, later, filter, left.id as int);
                lemma_rows_frame(plan, later, filter, right.id as int);
            }
        },
        Operator::Pack { high, low, .. } => {
            if high.id < id && low.id < id {
                lemma_rows_frame(plan, later, filter, high.id as int);
                lemma_rows_frame(plan, later, filter, low.id as int);
            }
        },
        _ => {},
    }
}

spec fn covers(plan: PlanModel, filter: Filter, buffer: BufferRef) -> bool {
    &&& buffer.id < plan.nodes.len()
    &&& visible_rows(plan, filter, buffer.id as int) is Scalar || visible_rows(
        plan,
        filter,
        buffer.id as int,
    ) == filter_rows(filter)
}

proof fn lemma_decode_covers(plan: PlanModel, filter: Filter, buffer: BufferRef, typ: Type)
    requires
        covers(plan, filter, buffer),
        decode_if_encoded(plan, buffer, typ).0.nodes.len() <= usize::MAX,
    ensures
        covers(
            decode_if_encoded(plan, buffer, typ).0,
            filter,
            decode_if_encoded(plan, buffer, typ).1,
        ),
{
    let decoded = decode_if_encoded(plan, buffer, typ);
    if typ.codec is Some {
        lemma_rows_frame(plan, decoded.0, filter, buffer.id as int);
    }
}

proof fn lemma_compile_covers(
    e: ExprModel,
    filter: Filter,
    columns: Seq<ColumnModel>,
    plan: PlanModel,
)
    requires
        compile(e, filter, columns, plan) is Ok,
        compile(e, filter, columns, plan)->Ok_0.0.nodes.len() <= usize::MAX,
    ensures
        covers(
            compile(e, filter, columns, plan)->Ok_0.0,
            filter,
            compile(e, filter, columns, plan)->Ok_0.1,
        ),
    decreases e,
{
    let result = compile(e, filter, columns, plan)->Ok_0;
    match e {
        ExprModel::Const(value) => {},
        ExprModel::ColName(name) => {
            let index = find_column(columns, name, columns.len())->Some_0;
            let read = plan.emit(
                Operator::ReadColumn { column: index },
                columns[index as int].encoding,
            );
            let data = plan.next(columns[index as int].encoding);
            assert(visible_rows(read, filter, data.id as int) is Partition);
            if !(filter is NoFilter) {
                lemma_rows_frame(read, result.0, filter, data.id as int);
            }
        },
        ExprModel::Func1(op, child) => {
            let operand = compile(*child, filter, columns, plan)->Ok_0;
            lemma_unary_length(operand.0, op, operand.1, operand.2);
            lemma_compile_covers(*child, filter, columns, plan);
            lemma_unary_covers(operand.0, filter, op, operand.1, operand.2);
        },
        ExprModel::Func2(op, left, right) => {
            let first = compile(*left, filter, columns, plan)->Ok_0;
            let second = compile(*right, filter, columns, first.0)->Ok_0;
            lemma_compile_grows(*right, filter, columns, first.0);
            lemma_binary_length(second.0, op, (first.1, first.2), (second.1, second.2));
            lemma_compile_covers(*left, filter, columns, plan);
            lemma_compile_covers(*right, filter, columns, first.0);
            lemma_rows_frame(first.0, second.0, filter, first.1.id as int);
            lemma_binary_covers(second.0, filter, op, (first.1, first.2), (second.1, second.2));
        },
        ExprModel::Aggregate(_, _) => {},
    }
}

proof fn lemma_unary_length(plan: PlanModel, op: Func1Type, buffer: BufferRef, typ: Type)
    ensures
        apply_unary(plan, op, buffer, typ) matches Ok(r) ==> plan.nodes.len() <= r.0.nodes.len(),
{
}

proof fn lemma_binary_length(
    plan: PlanModel,
    op: Func2Type,
    left: (BufferRef, Type),
    right: (BufferRef, Type),
)
    ensures
        apply_binary(plan, op, left, right) matches Ok(r) ==> plan.nodes.len()
            <= r.0.nodes.len(),
{
}

proof fn lemma_unary_covers(
    plan: PlanModel,
    filter: Filter,
    op: Func1Type,
    buffer: BufferRef,
    typ: Type,
)
    requires
        apply_unary(plan, op, buffer, typ) is Ok,
        apply_unary(plan, op, buffer, typ)->Ok_0.0.nodes.len() <= usize::MAX,
        covers(plan, filter, buffer),
    ensures
        covers(
            apply_unary(plan, op, buffer, typ)->Ok_0.0,
            filter,
            apply_unary(plan, op, buffer, typ)->Ok_0.1,
        ),
{
    let result = apply_unary(plan, op, buffer, typ)->Ok_0;
    let decoded = decode_if_encoded(plan, buffer, typ);
    assert(grows_to(plan, decoded.0));
    assert(grows_to(decoded.0, result.0));
    lemma_decode_covers(plan, filter, buffer, typ);
    lemma_rows_frame(decoded.0, result.0, filter, decoded.1.id as int);
}

proof fn lemma_binary_covers(
    plan: PlanModel,
    filter: Filter,
    op: Func2Type,
    left: (BufferRef, Type),
    right: (BufferRef, Type),
)
    requires
        apply_binary(plan, op, left, right) is Ok,
        apply_binary(plan, op, left, right)->Ok_0.0.nodes.len() <= usize::MAX,
        covers(plan, filter, left.0),
        covers(plan, filter, right.0),
    ensures
        covers(
            apply_binary(plan, op, left, right)->Ok_0.0,
            filter,
            apply_binary(plan, op, left, right)->Ok_0.1,
        ),
{
    let result = apply_binary(plan, op, left, right)->Ok_0;
    let one = decode_if_encoded(plan, left.0, left.1);
    let two = decode_if_encoded(one.0, right.0, right.1);
    assert(grows_to(plan, one.0));
    assert(grows_to(one.0, two.0));
    assert(grows_to(two.0, result.0));
    lemma_decode_covers(plan, filter, left.0, left.1);
    lemma_rows_frame(plan, one.0, filter, right.0.id as int);
    lemma_decode_covers(one.0, filter, right.0, right.1);
    lemma_rows_frame(one.0, two.0, filter, one.1.id as int);
    lemma_rows_frame(two.0, result.0, filter, one.1.id as int);
    lemma_rows_frame(two.0, result.0, filter, two.1.id as int);
}

/// The rows that an expression compiled under a filter is computed over are
/// the rows that the filter selects: the result has one entry per selected
/// row, or is a scalar. Every column read is narrowed by the filter, once,
/// and no operator above it sees any other row.
pub proof fn law_filter_reaches_every_column(
    e: ExprModel,
    filter: Filter,
    columns: Seq<ColumnModel>,
    plan: PlanModel,
)
    requires
        compile(e, filter, columns, plan) is Ok,
        compile(e, filter, columns, plan)->Ok_0.0.nodes.len() <= usize::MAX,
    ensures
        ({
            let result = compile(e, filter, columns, plan)->Ok_0;
            let rows = visible_rows(result.0, filter, result.1.id as int);
            rows is Scalar || rows == filter_rows(filter)
        }),
{
    lemma_compile_covers(e, filter, columns, plan);
}

proof fn lemma_pack_covers(
    exprs: Seq<ExprModel>,
    filter: Filter,
    columns: Seq<ColumnModel>,
    plan: PlanModel,
    n: nat,
)
    requires
        n >= 1,
        pack_parts(exprs, filter, columns, plan, n) is Ok,
        pack_parts(exprs, filter, columns, plan, n)->Ok_0.plan.nodes.len() <= usize::MAX,
    ensures
        pack_parts(exprs, filter, columns, plan, n)->Ok_0.key is Some,
        covers(
            pack_parts(exprs, filter, columns, plan, n)->Ok_0.plan,
            filter,
            pack_parts(exprs, filter, columns, plan, n)->Ok_0.key->Some_0,
        ),
    decreases n,
{
    let before = pack_parts(exprs, filter, columns, plan, (n - 1) as nat)->Ok_0;
    let state = pack_parts(exprs, filter, columns, plan, n)->Ok_0;
    let value = compile(exprs[n - 1], filter, columns, before.plan)->Ok_0;
    let part = part_of(value.1, value.2, key_range(value.0, columns, value.1.id as nat))->Some_0;
    let adjusted = adjust(value.0, part);
    lemma_compile_grows(exprs[n - 1], filter, columns, before.plan);
    assert(grows_to(value.0, adjusted.0));
    assert(grows_to(adjusted.0, state.plan));
    lemma_compile_covers(exprs[n - 1], filter, columns, before.plan);
    if part.min != 0 {
        let scalar = value.0.emit(
            Operator::ScalarI64 { value: part.min, positive: part.min >= 0 },
            EncodingType::ScalarI64,
        );
        assert(grows_to(value.0, scalar));
        assert(grows_to(scalar, adjusted.0));
        lemma_rows_frame(value.0, adjusted.0, filter, value.1.id as int);
        lemma_rows_frame(scalar, adjusted.0, filter, value.0.nodes.len() as int);
    }
    assert(covers(adjusted.0, filter, adjusted.1));
    lemma_pack_grows(exprs, filter, columns, plan, (n - 1) as nat);
    if n > 1 {
        lemma_pack_covers(exprs, filter, columns, plan, (n - 1) as nat);
        let high = before.key->Some_0;
        lemma_rows_frame(before.plan, value.0, filter, high.id as int);
        lemma_rows_frame(value.0, adjusted.0, filter, high.id as int);
        lemma_rows_frame(adjusted.0, state.plan, filter, high.id as int);
        lemma_rows_frame(adjusted.0, state.plan, filter, adjusted.1.id as int);
    }
}

/// The grouping key is computed over the rows that the filter selects, as
/// every aggregate argument is: a row that passes the filter has a key, and
/// so falls into exactly one group, and no other row has one. A query
/// without grouping columns is left out, since all its rows share one key.
pub proof fn law_grouping_key_covers_the_filter(
    exprs: Seq<ExprModel>,
    filter: Filter,
    columns: Seq<ColumnModel>,
    partition_length: usize,
    plan: PlanModel,
)
    requires
        exprs.len() >= 1,
        grouping_key(exprs, filter, columns, partition_length, plan) is Ok,
        grouping_key(exprs, filter, columns, partition_length, plan)->Ok_0.plan.nodes.len()
            <= usize::MAX,
    ensures
        ({
            let key = grouping_key(exprs, filter, columns, partition_length, plan)->Ok_0;
            let rows = visible_rows(key.plan, filter, key.key.id as int);
            rows is Scalar || rows == filter_rows(filter)
        }),
{
    let key = grouping_key(exprs, filter, columns, partition_length, plan)->Ok_0;
    let single = compile(exprs[0], filter, columns, plan)->Ok_0;
    let opaque = exprs.len() == 1 && part_of(
        single.1,
        single.2,
        key_range(single.0, columns, single.1.id as nat),
    ) is None;
    if opaque {
        let held = single.0.emit(Operator::Placeholder, single.1.tag);
        assert(grows_to(single.0, held));
        assert(grows_to(held, key.plan));
        lemma_grows_transitive(single.0, held, key.plan);
        lemma_compile_covers(exprs[0], filter, columns, plan);
        lemma_rows_frame(single.0, key.plan, filter, single.1.id as int);
    } else {
        let packed = pack_parts(exprs, filter, columns, plan, exprs.len())->Ok_0;
        let held = packed.plan.emit(Operator::Placeholder, packed.key.unwrap().tag);
        lemma_decode_parts_grows(held, key.placeholder, packed.parts, packed.parts.len());
        assert(grows_to(packed.plan, held));
        lemma_grows_transitive(packed.plan, held, key.plan);
        lemma_pack_covers(exprs, filter, columns, plan, exprs.len());
        lemma_rows_frame(packed.plan, key.plan, filter, key.key.id as int);
    }
}

/// Whether the operator sorts in the given direction and with the given
/// stability, a stable sort reordering the indices `previous`.
pub open spec fn sorts_as(op: Operator, desc: bool, stable: bool, previous: Option<BufferRef>) -> bool {
    match op {
        Operator::SortBy { indices, desc: direction, stable: stability, .. } => direction == desc
            && stability == stable && (stable ==> previous == Some(indices)),
        _ => false,
    }
}

/// Whether the operator sorts partially, in the given direction and with
/// the given limit.
pub open spec fn selects_as(op: Operator, desc: bool, limit: usize) -> bool {
    match op {
        Operator::TopN { limit: kept, desc: direction, .. } => direction == desc && kept == limit,
        _ => false,
    }
}

/// The scan sorts key by key, the last key first: the sort by the key that
/// is taken in at step `done` is the last operator recorded at that step. It
/// has the direction of its key. Without a partial sort, the first sort is
/// not stable, and every later sort is stable and reorders the indices of
/// the sort before.
pub proof fn law_scan_sorts_key_by_key(
    order_by: Seq<(ExprModel, bool)>,
    filter: Filter,
    columns: Seq<ColumnModel>,
    plan: PlanModel,
    top_n: Option<usize>,
    done: nat,
)
    requires
        1 <= done <= order_by.len(),
        sort_keys(order_by, filter, columns, plan, top_n, done) is Ok,
        sort_keys(order_by, filter, columns, plan, top_n, done)->Ok_0.0.nodes.len() <= usize::MAX,
    ensures
        ({
            let before = sort_keys(order_by, filter, columns, plan, top_n, (done - 1) as nat)->Ok_0;
            let after = sort_keys(order_by, filter, columns, plan, top_n, done)->Ok_0;
            let key = order_by[order_by.len() - done];
            let last = after.0.nodes[after.0.nodes.len() - 1].op;
            &&& after.1 matches Some(sorted)
            &&& sorted.id == after.0.nodes.len() - 1
            &&& done > 1 ==> before.1 is Some
            &&& match top_n {
                Some(limit) => selects_as(last, key.1, limit),
                None => sorts_as(last, key.1, done > 1, before.1),
            }
        }),
{
    let before = sort_keys(order_by, filter, columns, plan, top_n, (done - 1) as nat)->Ok_0;
    let key = order_by[order_by.len() - done];
    let rank = compile(key.0, filter, columns, before.0)->Ok_0;
    let ranking = make_order_preserving(rank.0, rank.1, rank.2);
    let sorted = sort_step(ranking.0, ranking.1, key.1, before.1, top_n);
    assert(sort_keys(order_by, filter, columns, plan, top_n, done) == Ok::<
        (PlanModel, Option<BufferRef>),
        QueryError,
    >((sorted.0, Some(sorted.1))));
    if done > 1 {
        let earlier = sort_keys(order_by, filter, columns, plan, top_n, (done - 2) as nat);
        assert(earlier is Ok);
        assert(before.1 is Some);
    }
}

/// The rows at which a mask is true.
pub open spec fn selected_rows(mask: Seq<bool>) -> Set<int> {
    Set::new(|i: int| 0 <= i < mask.len() && mask[i])
}

/// A stricter filter selects no row that a looser one does not select.
pub proof fn law_stricter_filter_selects_fewer(loose: Seq<bool>, strict: Seq<bool>)
    requires
        strict.len() == loose.len(),
        forall|i: int| 0 <= i < strict.len() && strict[i] ==> loose[i],
    ensures
        selected_rows(strict).subset_of(selected_rows(loose)),
{
}

proof fn lemma_aggregate_one(
    state: Aggregated,
    position: usize,
    aggregate: (Aggregator, ExprModel),
    filter: Filter,
    columns: Seq<ColumnModel>,
    grouping_key: BufferRef,
    cardinality: BufferRef,
)
    requires
        aggregate_one(state, position, aggregate, filter, columns, grouping_key, cardinality)
            is Ok,
        aggregate_one(
            state,
            position,
            aggregate,
            filter,
            columns,
            grouping_key,
            cardinality,
        )->Ok_0.plan.nodes.len() <= usize::MAX,
    ensures
        ({
            let next = aggregate_one(
                state,
                position,
                aggregate,
                filter,
                columns,
                grouping_key,
                cardinality,
            )->Ok_0;
            let reduced = next.results.last().1;
            &&& grows_to(state.plan, next.plan)
            &&& next.results == state.results.push(next.results.last())
            &&& reduced.id < next.plan.nodes.len()
            &&& next.plan.nodes[reduced.id as int].op matches Operator::Aggregate {
                aggregator: a,
                grouping_key: k,
                cardinality: c,
                ..
            }
            &&& a == aggregate.0
            &&& k == grouping_key
            &&& c == cardinality
        }),
{
    lemma_compile_grows(aggregate.1, filter, columns, state.plan);
    let value = compile(aggregate.1, filter, columns, state.plan)->Ok_0;
    let decoded = decode_if_encoded(value.0, value.1, value.2);
    assert(grows_to(value.0, decoded.0));
    let next = aggregate_one(
        state,
        position,
        aggregate,
        filter,
        columns,
        grouping_key,
        cardinality,
    )->Ok_0;
    assert(next.results == state.results.push(next.results.last()));
}

/// Every aggregate of a stage is reduced against the one grouping key and
/// the one cardinality of the stage, by its own aggregator: the rows of a
/// group are the same for all aggregates.
pub proof fn law_aggregates_share_the_grouping(
    aggregates: Seq<(Aggregator, ExprModel)>,
    filter: Filter,
    columns: Seq<ColumnModel>,
    plan: PlanModel,
    grouping_key: BufferRef,
    cardinality: BufferRef,
    n: nat,
    j: int,
)
    requires
        aggregate_all(aggregates, filter, columns, plan, grouping_key, cardinality, n) is Ok,
        aggregate_all(
            aggregates,
            filter,
            columns,
            plan,
            grouping_key,
            cardinality,
            n,
        )->Ok_0.plan.nodes.len() <= usize::MAX,
        n <= usize::MAX,
        0 <= j < n,
    ensures
        ({
            let state = aggregate_all(
                aggregates,
                filter,
                columns,
                plan,
                grouping_key,
                cardinality,
                n,
            )->Ok_0;
            &&& grows_to(plan, state.plan)
            &&& state.results.len() == n
            &&& state.results[j].1.id < state.plan.nodes.len()
            &&& state.plan.nodes[state.results[j].1.id as int].op matches Operator::Aggregate {
                aggregator: a,
                grouping_key: k,
                cardinality: c,
                ..
            }
            &&& a == aggregates[j].0
            &&& k == grouping_key
            &&& c == cardinality
        }),
    decreases n,
{
    let before = aggregate_all(
        aggregates,
        filter,
        columns,
        plan,
        grouping_key,
        cardinality,
        (n - 1) as nat,
    )->Ok_0;
    let state = aggregate_all(aggregates, filter, columns, plan, grouping_key, cardinality, n)->Ok_0;
    lemma_aggregate_one(
        before,
        (n - 1) as usize,
        aggregates[n - 1],
        filter,
        columns,
        grouping_key,
        cardinality,
    );
    lemma_aggregate_grows(aggregates, filter, columns, plan, grouping_key, cardinality, (n - 1) as nat);
    if j < n - 1 {
        law_aggregates_share_the_grouping(
            aggregates,
            filter,
            columns,
            plan,
            grouping_key,
            cardinality,
            (n - 1) as nat,
            j,
        );
        assert(state.results[j] == before.results[j]);
    }
}

/// Reducing aggregates keeps the operators that the plan had.
pub proof fn lemma_aggregate_grows(
    aggregates: Seq<(Aggregator, ExprModel)>,
    filter: Filter,
    columns: Seq<ColumnModel>,
    plan: PlanModel,
    grouping_key: BufferRef,
    cardinality: BufferRef,
    n: nat,
)
    ensures
        aggregate_all(aggregates, filter, columns, plan, grouping_key, cardinality, n) matches Ok(
            state,
        ) ==> grows_to(plan, state.plan) && state.results.len() == n,
    decreases n,
{
    if n > 0 {
        lemma_aggregate_grows(
            aggregates,
            filter,
            columns,
            plan,
            grouping_key,
            cardinality,
            (n - 1) as nat,
        );
        if let Ok(before) = aggregate_all(
            aggregates,
            filter,
            columns,
            plan,
            grouping_key,
            cardinality,
            (n - 1) as nat,
        ) {
            lemma_compile_grows(aggregates[n - 1].1, filter, columns, before.plan);
            if let Ok(value) = compile(aggregates[n - 1].1, filter, columns, before.plan) {
                let decoded = decode_if_encoded(value.0, value.1, value.2);
                assert(grows_to(value.0, decoded.0));
            }
        }
    }
}

} // verus!
