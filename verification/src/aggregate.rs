//! The aggregate path: planning a stage that groups and aggregates.
//!
//! The projections of the stage are the grouping columns. They are packed
//! into one grouping key. Where the key is a small integer that is at least
//! zero it addresses the groups directly; otherwise a hash table maps the
//! keys to dense positions. Each aggregate is reduced per group, the groups
//! that received no row are dropped, and the group columns are recovered
//! from the keys of the remaining groups.

use vstd::prelude::*;
use crate::batch::{collect_aliased, lays_out};
use crate::executor::valid_schedule;
use crate::schedule_laws::law_aggregate_plans_schedule;
use crate::expr::{aggregates_model, Aggregator, Expr, ExprModel};
use crate::grouping::{compile_grouping_key, grouping_key, key_compiled, CompiledKey};
use crate::pipeline::PartitionPlan;
use crate::planner::{
    lemma_extends_transitive, BufferRef, Operator, PlanModel, QueryPlanner,
};
use crate::query::{NormalFormQuery, StageModel};
use crate::query_plan::{
    compile, compile_expr, compiled, decode, decode_if_encoded, Filter, Lowered,
};
use crate::scan::{filter_from, mask_filter};
use crate::types::{columns_model, Column, ColumnModel, EncodingType, QueryError, Type};

verus! {

/// The greatest key that addresses groups directly.
pub const DENSE_LIMIT: i64 = 65536i64;

/// How the rows are assigned to groups.
pub struct Grouping {
    pub plan: PlanModel,
    /// The keys of the groups, where a hash table has collected them.
    pub encoded_column: Option<BufferRef>,
    /// For each row, the position of its group.
    pub key: BufferRef,
    pub key_type: Type,
    /// The number of group positions.
    pub cardinality: BufferRef,
}

/// Whether the raw grouping key addresses the groups directly: it is an
/// integer that is at least zero and stays below the dense limit.
pub open spec fn uses_dense(key_type: Type, max: i64) -> bool {
    max < DENSE_LIMIT && key_type.positive_integer()
}

/// Dense grouping: the raw key is the group position, and the number of
/// positions is the greatest key.
pub open spec fn dense_grouping(plan: PlanModel, key: BufferRef, key_type: Type, max: i64) -> Grouping {
    Grouping {
        plan: plan.emit(
            Operator::ScalarI64 { value: max, positive: true },
            EncodingType::ScalarI64,
        ),
        encoded_column: None,
        key,
        key_type,
        cardinality: plan.next(EncodingType::ScalarI64),
    }
}

/// The encodings that a hash table can take as keys.
pub open spec fn hashable(tag: EncodingType) -> bool {
    (tag.is_integer() && !tag.is_scalar()) || tag == EncodingType::Str
}

/// The type of the positions that a hash table assigns: integers that are at
/// least zero, in no meaningful order.
pub open spec fn hashed_type() -> Type {
    Type { encoding: EncodingType::U32, codec: None, order_preserving: false, positive: true }
}

/// The sizing hint for a hash table: the greatest key, as far as it fits.
pub open spec fn cardinality_hint(max: i64) -> usize {
    if max < 0 {
        0
    } else if max > usize::MAX {
        usize::MAX
    } else {
        max as usize
    }
}

/// Hash grouping: a table collects the distinct keys, maps every row to the
/// position of its key, and counts the keys. Fails with `TypeError` where
/// the key cannot be hashed.
pub open spec fn hashmap_grouping(plan: PlanModel, raw_key: BufferRef, max_cardinality: usize) -> Result<
    Grouping,
    QueryError,
> {
    if hashable(raw_key.tag) {
        let column = plan.emit(
            Operator::HashGroupColumn { raw_key, max_cardinality },
            raw_key.tag,
        );
        let key = column.emit(Operator::HashGroupKey { raw_key }, EncodingType::U32);
        let cardinality = key.emit(
            Operator::HashGroupCardinality { raw_key },
            EncodingType::ScalarI64,
        );
        Ok(
            Grouping {
                plan: cardinality,
                encoded_column: Some(plan.next(raw_key.tag)),
                key: column.next(EncodingType::U32),
                key_type: hashed_type(),
                cardinality: key.next(EncodingType::ScalarI64),
            },
        )
    } else {
        Err(QueryError::TypeError)
    }
}

/// Chooses the grouping strategy for a raw grouping key of the given type
/// and greatest value.
pub open spec fn group_rows(plan: PlanModel, key: BufferRef, key_type: Type, max: i64) -> Result<
    Grouping,
    QueryError,
> {
    if uses_dense(key_type, max) {
        Ok(dense_grouping(plan, key, key_type, max))
    } else {
        hashmap_grouping(plan, key, cardinality_hint(max))
    }
}

/// Reduces `input` per group. A count takes any input and is at least zero.
/// A sum decodes its input and takes integers, with or without nulls; any
/// other input gives `TypeError`.
pub open spec fn aggregation(
    plan: PlanModel,
    input: BufferRef,
    typ: Type,
    grouping_key: BufferRef,
    cardinality: BufferRef,
    aggregator: Aggregator,
) -> Result<Lowered, QueryError> {
    match aggregator {
        Aggregator::Count => Ok(
            (
                plan.emit(
                    Operator::Aggregate { aggregator, input, grouping_key, cardinality },
                    EncodingType::U32,
                ),
                plan.next(EncodingType::U32),
                Type::unsigned(EncodingType::U32),
            ),
        ),
        Aggregator::Sum => {
            let decoded = decode_if_encoded(plan, input, typ);
            if decoded.1.tag.is_integer() || decoded.1.tag.is_nullable_integer() {
                Ok(
                    (
                        decoded.0.emit(
                            Operator::Aggregate {
                                aggregator,
                                input: decoded.1,
                                grouping_key,
                                cardinality,
                            },
                            EncodingType::I64,
                        ),
                        decoded.0.next(EncodingType::I64),
                        Type::plain(EncodingType::I64),
                    ),
                )
            } else {
                Err(QueryError::TypeError)
            }
        },
    }
}

/// The aggregates reduced so far, and the selector among them: the last
/// count, with its position.
pub struct Aggregated {
    pub plan: PlanModel,
    pub results: Seq<(Aggregator, BufferRef, Type)>,
    pub selector: Option<(usize, BufferRef)>,
}

/// Compiles the argument of one aggregate under the filter and reduces it.
pub open spec fn aggregate_one(
    state: Aggregated,
    position: usize,
    aggregate: (Aggregator, ExprModel),
    filter: Filter,
    columns: Seq<ColumnModel>,
    grouping_key: BufferRef,
    cardinality: BufferRef,
) -> Result<Aggregated, QueryError> {
    match compile(aggregate.1, filter, columns, state.plan) {
        Ok(value) => match aggregation(
            value.0,
            value.1,
            value.2,
            grouping_key,
            cardinality,
            aggregate.0,
        ) {
            Ok(reduced) => Ok(
                Aggregated {
                    plan: reduced.0,
                    results: state.results.push((aggregate.0, reduced.1, reduced.2)),
                    selector: if aggregate.0 == Aggregator::Count {
                        Some((position, reduced.1))
                    } else {
                        state.selector
                    },
                },
            ),
            Err(e) => Err(e),
        },
        Err(e) => Err(e),
    }
}

/// Reduces the first `n` aggregates in turn.
pub open spec fn aggregate_all(
    aggregates: Seq<(Aggregator, ExprModel)>,
    filter: Filter,
    columns: Seq<ColumnModel>,
    plan: PlanModel,
    grouping_key: BufferRef,
    cardinality: BufferRef,
    n: nat,
) -> Result<Aggregated, QueryError>
    decreases n,
{
    if n == 0 {
        Ok(Aggregated { plan, results: seq![], selector: None })
    } else {
        match aggregate_all(
            aggregates,
            filter,
            columns,
            plan,
            grouping_key,
            cardinality,
            (n - 1) as nat,
        ) {
            Ok(state) => aggregate_one(
                state,
                (n - 1) as usize,
                aggregates[n - 1],
                filter,
                columns,
                grouping_key,
                cardinality,
            ),
            Err(e) => Err(e),
        }
    }
}

/// The selector: nonzero for the groups that received a row. A count serves
/// as it is; without one, a presence vector is computed.
pub open spec fn select_groups(
    plan: PlanModel,
    selector: Option<(usize, BufferRef)>,
    grouping_key: BufferRef,
    cardinality: BufferRef,
) -> (PlanModel, BufferRef) {
    match selector {
        Some(count) => (plan, count.1),
        None => (
            plan.emit(Operator::Exists { grouping_key, cardinality }, EncodingType::U8),
            plan.next(EncodingType::U8),
        ),
    }
}

/// The keys of the groups that received a row: what the hash table
/// collected, or else the positions at which the selector is nonzero, in
/// the encoding of the raw key.
pub open spec fn group_column(
    plan: PlanModel,
    encoded_column: Option<BufferRef>,
    selector: BufferRef,
    tag: EncodingType,
) -> (PlanModel, BufferRef) {
    match encoded_column {
        Some(column) => (plan, column),
        None => (plan.emit(Operator::NonzeroIndices { input: selector }, tag), plan.next(tag)),
    }
}

/// Drops the groups that received no row from one aggregate, and decodes the
/// rest where it is encoded. A count is its own selector.
pub open spec fn compact_one(
    plan: PlanModel,
    result: (Aggregator, BufferRef, Type),
    selector: BufferRef,
) -> (PlanModel, BufferRef) {
    let compacted = match result.0 {
        Aggregator::Sum => plan.emit(
            Operator::Compact { input: result.1, selector },
            result.1.tag,
        ),
        Aggregator::Count => plan.emit(Operator::NonzeroCompact { input: result.1 }, result.1.tag),
    };
    let decoded = decode_if_encoded(compacted, plan.next(result.1.tag), result.2);
    (decoded.0, decoded.1)
}

/// Compacts the first `n` aggregates in turn, leaving the one at `skip` out.
pub open spec fn compact_others(
    results: Seq<(Aggregator, BufferRef, Type)>,
    skip: Option<usize>,
    selector: BufferRef,
    plan: PlanModel,
    n: nat,
) -> (PlanModel, Seq<BufferRef>)
    decreases n,
{
    if n == 0 {
        (plan, seq![])
    } else {
        let before = compact_others(results, skip, selector, plan, (n - 1) as nat);
        if skip == Some((n - 1) as usize) {
            before
        } else {
            let compacted = compact_one(before.0, results[n - 1], selector);
            (compacted.0, before.1.push(compacted.1))
        }
    }
}

/// Compacts all aggregates: first those that are not the selector, in their
/// order, then the selector, which goes back to its own position.
pub open spec fn compact_all(
    results: Seq<(Aggregator, BufferRef, Type)>,
    chosen: Option<(usize, BufferRef)>,
    selector: BufferRef,
    plan: PlanModel,
) -> (PlanModel, Seq<BufferRef>) {
    match chosen {
        Some(count) => {
            let others = compact_others(results, Some(count.0), selector, plan, results.len());
            let own = compact_one(others.0, results[count.0 as int], selector);
            (own.0, others.1.insert(count.0 as int, own.1))
        },
        None => compact_others(results, None, selector, plan, results.len()),
    }
}

/// Gathers the first `n` buffers by `indices`.
pub open spec fn gather_all(plan: PlanModel, buffers: Seq<BufferRef>, indices: BufferRef, n: nat) -> (
    PlanModel,
    Seq<BufferRef>,
)
    decreases n,
{
    if n == 0 {
        (plan, seq![])
    } else {
        let before = gather_all(plan, buffers, indices, (n - 1) as nat);
        (
            before.0.emit(
                Operator::Select { input: buffers[n - 1], indices },
                buffers[n - 1].tag,
            ),
            before.1.push(before.0.next(buffers[n - 1].tag)),
        )
    }
}

/// The buffers of a list of typed buffers.
pub open spec fn plan_buffers(plans: Seq<(BufferRef, Type)>) -> Seq<BufferRef> {
    Seq::new(plans.len(), |i: int| plans[i].0)
}

/// The columns of a result: group columns and aggregates.
pub struct Columns {
    pub plan: PlanModel,
    pub groups: Seq<BufferRef>,
    pub aggregates: Seq<BufferRef>,
}

/// The buffer to sort the groups by where the grouping has lost their order:
/// the keys of the groups where the raw key preserves order, else the single
/// group column. With several group columns and a raw key that does not
/// preserve order there is none.
pub open spec fn sort_source(raw_type: Type, column: BufferRef, groups: Seq<BufferRef>) -> Option<
    BufferRef,
> {
    if raw_type.order_preserving {
        Some(column)
    } else if groups.len() == 1 {
        Some(groups[0])
    } else {
        None
    }
}

/// Restores the order of the groups. Where the grouping key preserves order
/// nothing is to be done. Otherwise the groups are sorted by the sort source
/// and every aggregate and group column is gathered in that order. Fails
/// with `NotImplemented` where there is no sort source.
pub open spec fn restore_order(
    columns: Columns,
    key_type: Type,
    raw_type: Type,
    column: BufferRef,
) -> Result<Columns, QueryError> {
    if key_type.order_preserving {
        Ok(columns)
    } else {
        match sort_source(raw_type, column, columns.groups) {
            Some(source) => {
                let indices = columns.plan.emit(
                    Operator::Indices { input: source },
                    EncodingType::USize,
                );
                let sorted = indices.emit(
                    Operator::SortBy {
                        ranking: source,
                        indices: columns.plan.next(EncodingType::USize),
                        desc: false,
                        stable: false,
                    },
                    EncodingType::USize,
                );
                let order = indices.next(EncodingType::USize);
                let aggregates = gather_all(
                    sorted,
                    columns.aggregates,
                    order,
                    columns.aggregates.len(),
                );
                let groups = gather_all(aggregates.0, columns.groups, order, columns.groups.len());
                Ok(Columns { plan: groups.0, groups: groups.1, aggregates: aggregates.1 })
            },
            None => Err(QueryError::NotImplemented),
        }
    }
}

/// The plan of an aggregation, with the buffers of its group columns and of
/// its aggregates.
pub struct AggregateModel {
    pub plan: PlanModel,
    pub projection: Seq<BufferRef>,
    pub aggregations: Seq<(BufferRef, Aggregator)>,
}

/// The aggregate buffers, each with the aggregator that produced it.
pub open spec fn with_aggregators(
    buffers: Seq<BufferRef>,
    aggregates: Seq<(Aggregator, ExprModel)>,
) -> Seq<(BufferRef, Aggregator)> {
    Seq::new(buffers.len(), |i: int| (buffers[i], aggregates[i].0))
}

/// What follows the reduction of the aggregates: the selector, the keys of
/// the groups, the connection of the placeholder, compaction, and the order
/// of the groups.
pub open spec fn assemble_groups(
    aggregates: Seq<(Aggregator, ExprModel)>,
    raw_key: (BufferRef, Type),
    decode_plans: Seq<(BufferRef, Type)>,
    placeholder: BufferRef,
    grouping: PreparedGrouping,
    aggregated: Aggregated,
) -> Result<AggregateModel, QueryError> {
    let selected = select_groups(aggregated.plan, aggregated.selector, grouping.1, grouping.3);
    let column = group_column(selected.0, grouping.0, selected.1, raw_key.0.tag);
    let connected = column.0.connect(column.1, placeholder);
    let compacted = compact_all(aggregated.results, aggregated.selector, selected.1, connected);
    let columns = Columns {
        plan: compacted.0,
        groups: plan_buffers(decode_plans),
        aggregates: compacted.1,
    };
    match restore_order(columns, grouping.2, raw_key.1, column.1) {
        Ok(ordered) => Ok(
            AggregateModel {
                plan: ordered.plan,
                projection: ordered.groups,
                aggregations: with_aggregators(ordered.aggregates, aggregates),
            },
        ),
        Err(e) => Err(e),
    }
}

/// The operators of an aggregation over one partition, or the first error
/// that compiling the filter, building the grouping key, choosing the
/// grouping, reducing the aggregates and ordering the groups runs into.
pub open spec fn aggregate_plan(
    stage: StageModel,
    columns: Seq<ColumnModel>,
    partition_length: usize,
) -> Result<AggregateModel, QueryError> {
    match compile(stage.filter, Filter::NoFilter, columns, PlanModel::empty()) {
        Ok(mask) => {
            let filter = mask_filter(mask.1);
            match grouping_key(stage.projection, filter, columns, partition_length, mask.0) {
                Ok(key) => match group_rows(key.plan, key.key, key.key_type, key.max) {
                    Ok(grouping) => match aggregate_all(
                        stage.aggregate,
                        filter,
                        columns,
                        grouping.plan,
                        grouping.key,
                        grouping.cardinality,
                        stage.aggregate.len(),
                    ) {
                        Ok(aggregated) => assemble_groups(
                            stage.aggregate,
                            (key.key, key.key_type),
                            key.decode_plans,
                            key.placeholder,
                            (
                                grouping.encoded_column,
                                grouping.key,
                                grouping.key_type,
                                grouping.cardinality,
                            ),
                            aggregated,
                        ),
                        Err(e) => Err(e),
                    },
                    Err(e) => Err(e),
                },
                Err(e) => Err(e),
            }
        },
        Err(e) => Err(e),
    }
}

/// The number of rows to run an aggregation over: the length of the first
/// column, or one where there is no column.
pub open spec fn aggregate_row_count(columns: Seq<ColumnModel>) -> usize {
    if columns.len() > 0 {
        columns[0].len
    } else {
        1
    }
}

/// Whether `job` is the planned work for the aggregation `model`.
pub open spec fn aggregate_job(
    job: PartitionPlan,
    model: AggregateModel,
    columns: Seq<ColumnModel>,
    explain: bool,
    show: bool,
    partition: usize,
) -> bool {
    &&& job.executor.plan() == model.plan
    &&& valid_schedule(model.plan.nodes, job.executor.schedule@)
    &&& job.executor.pinned@.len() == 0
    &&& lays_out(job.layout, model.projection, model.aggregations, seq![])
    &&& job.rows == aggregate_row_count(columns)
    &&& job.partition == partition
    &&& job.explain == explain
    &&& job.show == show
    &&& job.validated
}

/// What `prepare_hashmap_grouping` returns: the keys of the groups, where a
/// table collects them; the group position of every row, with its type; and
/// the number of positions.
pub type PreparedGrouping = (Option<BufferRef>, BufferRef, Type, BufferRef);

/// Whether every buffer of the list belongs to the plan.
pub open spec fn all_hold(plan: PlanModel, buffers: Seq<BufferRef>) -> bool {
    forall|i: int| 0 <= i < buffers.len() ==> plan.holds(#[trigger] buffers[i])
}

/// Buffers of a plan belong to every plan that extends it.
pub proof fn lemma_all_hold_extended(plan: PlanModel, later: PlanModel, buffers: Seq<BufferRef>)
    requires
        all_hold(plan, buffers),
        plan.extends_to(later),
    ensures
        all_hold(later, buffers),
{
    assert forall|i: int| 0 <= i < buffers.len() implies later.holds(#[trigger] buffers[i]) by {
        assert(plan.holds(buffers[i]));
    }
}

proof fn lemma_aggregate_fails(
    aggregates: Seq<(Aggregator, ExprModel)>,
    filter: Filter,
    columns: Seq<ColumnModel>,
    plan: PlanModel,
    grouping_key: BufferRef,
    cardinality: BufferRef,
    m: nat,
    n: nat,
)
    requires
        m <= n,
        aggregate_all(aggregates, filter, columns, plan, grouping_key, cardinality, m) is Err,
    ensures
        aggregate_all(aggregates, filter, columns, plan, grouping_key, cardinality, n)
            == aggregate_all(aggregates, filter, columns, plan, grouping_key, cardinality, m),
    decreases n,
{
    if m < n {
        lemma_aggregate_fails(
            aggregates,
            filter,
            columns,
            plan,
            grouping_key,
            cardinality,
            m,
            (n - 1) as nat,
        );
    }
}

fn hint(max: i64) -> (r: usize)
    ensures
        r == cardinality_hint(max),
{
    if max < 0 {
        0
    } else if max as u64 > usize::MAX as u64 {
        usize::MAX
    } else {
        max as usize
    }
}

fn can_hash(tag: EncodingType) -> (r: bool)
    ensures
        r == hashable(tag),
{
    match tag {
        EncodingType::Str => true,
        _ => tag.integer() && !tag.scalar(),
    }
}

/// Whether `prepared` is the compiled form of `grouping` in the plan `plan`.
pub open spec fn grouping_prepared(plan: PlanModel, prepared: PreparedGrouping, grouping: Grouping) -> bool {
    &&& plan == grouping.plan
    &&& prepared.0 == grouping.encoded_column
    &&& prepared.1 == grouping.key
    &&& prepared.2 == grouping.key_type
    &&& prepared.3 == grouping.cardinality
    &&& plan.holds(grouping.key)
    &&& plan.holds(grouping.cardinality)
    &&& grouping.encoded_column matches Some(column) ==> plan.holds(column)
}

/// Maps the raw grouping key to dense group positions through a hash table.
pub fn prepare_hashmap_grouping(
    raw_grouping_key: BufferRef,
    max_cardinality: usize,
    planner: &mut QueryPlanner,
) -> (r: Result<PreparedGrouping, QueryError>)
    requires
        old(planner).well_formed(),
        old(planner)@.holds(raw_grouping_key),
    ensures
        final(planner).well_formed(),
        old(planner)@.extends_to(final(planner)@),
        match hashmap_grouping(old(planner)@, raw_grouping_key, max_cardinality) {
            Ok(grouping) => {
                &&& r matches Ok(prepared)
                &&& grouping_prepared(final(planner)@, prepared, grouping)
                &&& grouping.encoded_column matches Some(column)
                &&& column.tag == raw_grouping_key.tag
                &&& column.id >= old(planner)@.nodes.len()
            },
            Err(e) => r matches Err(f) && f == e,
        },
{
    if !can_hash(raw_grouping_key.tag) {
        return Err(QueryError::TypeError);
    }
    let ghost start = planner@;
    let column = planner.hash_group_column(raw_grouping_key, max_cardinality);
    let ghost first = planner@;
    let key = planner.hash_group_key(raw_grouping_key);
    let ghost second = planner@;
    let cardinality = planner.hash_group_cardinality(raw_grouping_key);
    proof {
        lemma_extends_transitive(start, first, second);
        lemma_extends_transitive(start, second, planner@);
        lemma_extends_transitive(first, second, planner@);
    }
    Ok(
        (
            Some(column),
            key,
            Type {
                encoding: EncodingType::U32,
                codec: None,
                order_preserving: false,
                positive: true,
            },
            cardinality,
        ),
    )
}

/// Emits the reduction of one aggregate against the grouping key.
pub fn prepare_aggregation(
    plan: BufferRef,
    plan_type: Type,
    grouping_key: BufferRef,
    cardinality: BufferRef,
    aggregator: Aggregator,
    planner: &mut QueryPlanner,
) -> (r: Result<(BufferRef, Type), QueryError>)
    requires
        old(planner).well_formed(),
        old(planner)@.holds(plan),
        old(planner)@.holds(grouping_key),
        old(planner)@.holds(cardinality),
    ensures
        compiled(
            old(planner)@,
            final(planner)@,
            r,
            aggregation(old(planner)@, plan, plan_type, grouping_key, cardinality, aggregator),
        ),
{
    match aggregator {
        Aggregator::Count => {
            let reduced = planner.aggregate(
                aggregator,
                plan,
                grouping_key,
                cardinality,
                EncodingType::U32,
            );
            Ok((reduced, Type::new(EncodingType::U32, true)))
        },
        Aggregator::Sum => {
            let ghost start = planner@;
            let decoded = decode(planner, plan, plan_type);
            if decoded.0.tag.integer() || decoded.0.tag.nullable_integer() {
                let ghost middle = planner@;
                let reduced = planner.aggregate(
                    aggregator,
                    decoded.0,
                    grouping_key,
                    cardinality,
                    EncodingType::I64,
                );
                proof {
                    lemma_extends_transitive(start, middle, planner@);
                }
                Ok((reduced, Type::new(EncodingType::I64, false)))
            } else {
                Err(QueryError::TypeError)
            }
        },
    }
}

fn group(key: &CompiledKey, planner: &mut QueryPlanner) -> (r: Result<
    PreparedGrouping,
    QueryError,
>)
    requires
        old(planner).well_formed(),
        old(planner)@.holds(key.0.0),
        key.1 >= 0,
    ensures
        final(planner).well_formed(),
        old(planner)@.extends_to(final(planner)@),
        match group_rows(old(planner)@, key.0.0, key.0.1, key.1) {
            Ok(grouping) => {
                &&& r matches Ok(prepared)
                &&& grouping_prepared(final(planner)@, prepared, grouping)
                &&& grouping.encoded_column matches Some(column) ==> column.tag == key.0.0.tag
                    && column.id >= old(planner)@.nodes.len()
            },
            Err(e) => r matches Err(f) && f == e,
        },
{
    if key.1 < DENSE_LIMIT && key.0.1.is_positive_integer() {
        let cardinality = planner.scalar_i64(key.1, true);
        Ok((None, key.0.0, key.0.1, cardinality))
    } else {
        prepare_hashmap_grouping(key.0.0, hint(key.1), planner)
    }
}

/// The aggregates reduced so far.
struct Reduced {
    results: Vec<(Aggregator, BufferRef, Type)>,
    selector: Option<(usize, BufferRef)>,
}

impl Reduced {
    spec fn model(self, plan: PlanModel) -> Aggregated {
        Aggregated { plan, results: self.results@, selector: self.selector }
    }

    spec fn fits(self, plan: PlanModel) -> bool {
        &&& forall|j: int|
            0 <= j < self.results@.len() ==> plan.holds((#[trigger] self.results@[j]).1)
        &&& self.selector matches Some(count) ==> plan.holds(count.1) && count.0
            < self.results@.len()
    }
}

proof fn lemma_reduced_extended(state: Reduced, plan: PlanModel, later: PlanModel)
    requires
        state.fits(plan),
        plan.extends_to(later),
    ensures
        state.fits(later),
{
    assert forall|j: int| 0 <= j < state.results@.len() implies later.holds(
        (#[trigger] state.results@[j]).1,
    ) by {
        assert(plan.holds(state.results@[j].1));
    }
}

fn reduce_one(
    aggregate: &(Aggregator, Expr),
    position: usize,
    filter: Filter,
    columns: &Vec<Column>,
    grouping_key: BufferRef,
    cardinality: BufferRef,
    planner: &mut QueryPlanner,
    state: Reduced,
) -> (r: Result<Reduced, QueryError>)
    requires
        old(planner).well_formed(),
        filter.valid_in(old(planner)@),
        old(planner)@.holds(grouping_key),
        old(planner)@.holds(cardinality),
        state.fits(old(planner)@),
        position == state.results@.len(),
    ensures
        final(planner).well_formed(),
        old(planner)@.extends_to(final(planner)@),
        match aggregate_one(
            state.model(old(planner)@),
            position,
            (aggregate.0, aggregate.1@),
            filter,
            columns_model(columns@),
            grouping_key,
            cardinality,
        ) {
            Ok(next) => r matches Ok(reduced) && reduced.model(final(planner)@) == next
                && reduced.fits(final(planner)@),
            Err(e) => r matches Err(f) && f == e,
        },
{
    let ghost start = planner@;
    match compile_expr(&aggregate.1, filter, columns, planner) {
        Ok(value) => {
            let ghost middle = planner@;
            match prepare_aggregation(
                value.0,
                value.1,
                grouping_key,
                cardinality,
                aggregate.0,
                planner,
            ) {
                Ok(reduced) => {
                    proof {
                        lemma_extends_transitive(start, middle, planner@);
                        lemma_reduced_extended(state, start, planner@);
                    }
                    let selector = match aggregate.0 {
                        Aggregator::Count => Some((position, reduced.0)),
                        Aggregator::Sum => state.selector,
                    };
                    let mut results = state.results;
                    results.push((aggregate.0, reduced.0, reduced.1));
                    Ok(Reduced { results, selector })
                },
                Err(e) => {
                    proof {
                        lemma_extends_transitive(start, middle, planner@);
                    }
                    Err(e)
                },
            }
        },
        Err(e) => Err(e),
    }
}

fn reduce_all(
    aggregates: &Vec<(Aggregator, Expr)>,
    filter: Filter,
    columns: &Vec<Column>,
    grouping_key: BufferRef,
    cardinality: BufferRef,
    planner: &mut QueryPlanner,
) -> (r: Result<Reduced, QueryError>)
    requires
        old(planner).well_formed(),
        filter.valid_in(old(planner)@),
        old(planner)@.holds(grouping_key),
        old(planner)@.holds(cardinality),
    ensures
        final(planner).well_formed(),
        old(planner)@.extends_to(final(planner)@),
        match aggregate_all(
            aggregates_model(aggregates@),
            filter,
            columns_model(columns@),
            old(planner)@,
            grouping_key,
            cardinality,
            aggregates@.len(),
        ) {
            Ok(aggregated) => r matches Ok(reduced) && reduced.model(final(planner)@)
                == aggregated && reduced.fits(final(planner)@) && reduced.results@.len()
                == aggregates@.len(),
            Err(e) => r matches Err(f) && f == e,
        },
{
    let ghost model = aggregates_model(aggregates@);
    let ghost cols = columns_model(columns@);
    let ghost start = planner@;
    let mut state = Reduced { results: Vec::new(), selector: None };
    assert(state.model(start) == Aggregated { plan: start, results: seq![], selector: None });
    let mut i: usize = 0;
    while i < aggregates.len()
        invariant
            i <= aggregates.len(),
            model == aggregates_model(aggregates@),
            cols == columns_model(columns@),
            start == old(planner)@,
            planner.well_formed(),
            start.extends_to(planner@),
            filter.valid_in(planner@),
            planner@.holds(grouping_key),
            planner@.holds(cardinality),
            state.fits(planner@),
            state.results@.len() == i,
            aggregate_all(model, filter, cols, start, grouping_key, cardinality, i as nat) == Ok::<
                Aggregated,
                QueryError,
            >(state.model(planner@)),
        decreases aggregates.len() - i,
    {
        assert(model[i as int] == (aggregates@[i as int].0, aggregates@[i as int].1@));
        let ghost before = planner@;
        match reduce_one(
            &aggregates[i],
            i,
            filter,
            columns,
            grouping_key,
            cardinality,
            planner,
            state,
        ) {
            Ok(next) => {
                state = next;
                proof {
                    lemma_extends_transitive(start, before, planner@);
                }
            },
            Err(e) => {
                proof {
                    lemma_extends_transitive(start, before, planner@);
                    lemma_aggregate_fails(
                        model,
                        filter,
                        cols,
                        start,
                        grouping_key,
                        cardinality,
                        (i + 1) as nat,
                        aggregates@.len(),
                    );
                }
                return Err(e);
            },
        }
        i += 1;
    }
    Ok(state)
}

fn compact(
    planner: &mut QueryPlanner,
    result: (Aggregator, BufferRef, Type),
    selector: BufferRef,
) -> (r: BufferRef)
    requires
        old(planner).well_formed(),
        old(planner)@.holds(result.1),
        old(planner)@.holds(selector),
    ensures
        final(planner)@ == compact_one(old(planner)@, result, selector).0,
        r == compact_one(old(planner)@, result, selector).1,
        final(planner).well_formed(),
        final(planner)@.holds(r),
        old(planner)@.extends_to(final(planner)@),
{
    let ghost start = planner@;
    let compacted = match result.0 {
        Aggregator::Sum => planner.compact(result.1, selector),
        Aggregator::Count => planner.nonzero_compact(result.1),
    };
    let ghost middle = planner@;
    let decoded = decode(planner, compacted, result.2);
    proof {
        lemma_extends_transitive(start, middle, planner@);
    }
    decoded.0
}

fn compact_results(
    planner: &mut QueryPlanner,
    state: &Reduced,
    selector: BufferRef,
) -> (r: Vec<BufferRef>)
    requires
        old(planner).well_formed(),
        state.fits(old(planner)@),
        old(planner)@.holds(selector),
    ensures
        final(planner)@ == compact_all(state.results@, state.selector, selector, old(planner)@).0,
        r@ == compact_all(state.results@, state.selector, selector, old(planner)@).1,
        final(planner).well_formed(),
        old(planner)@.extends_to(final(planner)@),
        all_hold(final(planner)@, r@),
        r@.len() == state.results@.len(),
{
    let ghost start = planner@;
    let ghost results = state.results@;
    let skip: Option<usize> = match state.selector {
        Some(count) => Some(count.0),
        None => None,
    };
    let mut columns: Vec<BufferRef> = Vec::new();
    let mut i: usize = 0;
    while i < state.results.len()
        invariant
            i <= state.results.len(),
            results == state.results@,
            start == old(planner)@,
            planner.well_formed(),
            start.extends_to(planner@),
            state.fits(planner@),
            planner@.holds(selector),
            skip == match state.selector {
                Some(count) => Some(count.0),
                None => None::<usize>,
            },
            compact_others(results, skip, selector, start, i as nat) == (planner@, columns@),
            all_hold(planner@, columns@),
            columns@.len() == if skip matches Some(s) && s < i {
                i - 1
            } else {
                i as int
            },
        decreases state.results.len() - i,
    {
        let skipped = match skip {
            Some(s) => s == i,
            None => false,
        };
        if !skipped {
            let ghost before = planner@;
            let column = compact(planner, state.results[i], selector);
            proof {
                lemma_extends_transitive(start, before, planner@);
                lemma_all_hold_extended(before, planner@, columns@);
                lemma_reduced_extended(*state, before, planner@);
            }
            columns.push(column);
        }
        i += 1;
    }
    match state.selector {
        Some(count) => {
            let ghost before = planner@;
            let own = compact(planner, state.results[count.0], selector);
            proof {
                lemma_extends_transitive(start, before, planner@);
                lemma_all_hold_extended(before, planner@, columns@);
            }
            columns.insert(count.0, own);
        },
        None => {},
    }
    columns
}

fn gather(planner: &mut QueryPlanner, buffers: &Vec<BufferRef>, indices: BufferRef) -> (r: Vec<
    BufferRef,
>)
    requires
        old(planner).well_formed(),
        all_hold(old(planner)@, buffers@),
        old(planner)@.holds(indices),
        indices.tag == EncodingType::USize,
    ensures
        final(planner)@ == gather_all(old(planner)@, buffers@, indices, buffers@.len()).0,
        r@ == gather_all(old(planner)@, buffers@, indices, buffers@.len()).1,
        final(planner).well_formed(),
        old(planner)@.extends_to(final(planner)@),
        all_hold(final(planner)@, r@),
        r@.len() == buffers@.len(),
{
    let ghost start = planner@;
    let mut gathered: Vec<BufferRef> = Vec::new();
    let mut i: usize = 0;
    while i < buffers.len()
        invariant
            i <= buffers.len(),
            start == old(planner)@,
            planner.well_formed(),
            start.extends_to(planner@),
            all_hold(planner@, buffers@),
            planner@.holds(indices),
            indices.tag == EncodingType::USize,
            gather_all(start, buffers@, indices, i as nat) == (planner@, gathered@),
            all_hold(planner@, gathered@),
            gathered@.len() == i,
        decreases buffers.len() - i,
    {
        let ghost before = planner@;
        assert(before.holds(buffers@[i as int]));
        let buffer = planner.select(buffers[i], indices);
        proof {
            lemma_extends_transitive(start, before, planner@);
            lemma_all_hold_extended(before, planner@, buffers@);
            lemma_all_hold_extended(before, planner@, gathered@);
        }
        gathered.push(buffer);
        i += 1;
    }
    gathered
}

fn buffers_of(plans: &Vec<(BufferRef, Type)>) -> (r: Vec<BufferRef>)
    ensures
        r@ == plan_buffers(plans@),
{
    let mut buffers: Vec<BufferRef> = Vec::new();
    let mut i: usize = 0;
    while i < plans.len()
        invariant
            i <= plans.len(),
            buffers@.len() == i,
            forall|j: int| 0 <= j < i ==> buffers@[j] == plans@[j].0,
        decreases plans.len() - i,
    {
        buffers.push(plans[i].0);
        i += 1;
    }
    buffers
}

fn pair_aggregators(buffers: &Vec<BufferRef>, aggregates: &Vec<(Aggregator, Expr)>) -> (r: Vec<
    (BufferRef, Aggregator),
>)
    requires
        buffers@.len() == aggregates@.len(),
    ensures
        r@ == with_aggregators(buffers@, aggregates_model(aggregates@)),
{
    let mut pairs: Vec<(BufferRef, Aggregator)> = Vec::new();
    let mut i: usize = 0;
    while i < buffers.len()
        invariant
            i <= buffers.len(),
            buffers@.len() == aggregates@.len(),
            pairs@.len() == i,
            forall|j: int| 0 <= j < i ==> pairs@[j] == (buffers@[j], aggregates@[j].0),
        decreases buffers.len() - i,
    {
        pairs.push((buffers[i], aggregates[i].0));
        i += 1;
    }
    pairs
}

fn order_groups(
    planner: &mut QueryPlanner,
    groups: Vec<BufferRef>,
    aggregates: Vec<BufferRef>,
    key_type: Type,
    raw_type: Type,
    column: BufferRef,
) -> (r: Result<(Vec<BufferRef>, Vec<BufferRef>), QueryError>)
    requires
        old(planner).well_formed(),
        all_hold(old(planner)@, groups@),
        all_hold(old(planner)@, aggregates@),
        old(planner)@.holds(column),
    ensures
        final(planner).well_formed(),
        old(planner)@.extends_to(final(planner)@),
        match restore_order(
            Columns { plan: old(planner)@, groups: groups@, aggregates: aggregates@ },
            key_type,
            raw_type,
            column,
        ) {
            Ok(ordered) => r matches Ok(pair) && pair.0@ == ordered.groups && pair.1@
                == ordered.aggregates && final(planner)@ == ordered.plan && pair.1@.len()
                == aggregates@.len(),
            Err(e) => r matches Err(f) && f == e,
        },
{
    if key_type.is_order_preserving() {
        return Ok((groups, aggregates));
    }
    let source = if raw_type.is_order_preserving() {
        column
    } else if groups.len() == 1 {
        groups[0]
    } else {
        return Err(QueryError::NotImplemented);
    };
    let ghost start = planner@;
    assert(start.holds(source));
    let indices = planner.indices(source);
    let ghost first = planner@;
    let order = planner.sort_by(source, indices, false, false);
    let ghost second = planner@;
    proof {
        lemma_extends_transitive(start, first, second);
        lemma_all_hold_extended(start, second, aggregates@);
        lemma_all_hold_extended(start, second, groups@);
    }
    let sorted_aggregates = gather(planner, &aggregates, order);
    let ghost third = planner@;
    proof {
        lemma_extends_transitive(start, second, third);
        lemma_all_hold_extended(second, third, groups@);
    }
    let sorted_groups = gather(planner, &groups, order);
    proof {
        lemma_extends_transitive(start, third, planner@);
    }
    Ok((sorted_groups, sorted_aggregates))
}

fn assemble(
    planner: &mut QueryPlanner,
    aggregates: &Vec<(Aggregator, Expr)>,
    raw_key: (BufferRef, Type),
    decode_plans: &Vec<(BufferRef, Type)>,
    placeholder: BufferRef,
    grouping: PreparedGrouping,
    state: Reduced,
) -> (r: Result<(Vec<BufferRef>, Vec<(BufferRef, Aggregator)>), QueryError>)
    requires
        old(planner).well_formed(),
        old(planner)@.holds(grouping.1),
        old(planner)@.holds(grouping.3),
        grouping.0 matches Some(column) ==> old(planner)@.holds(column) && column.tag
            == raw_key.0.tag && column.id != placeholder.id,
        old(planner)@.holds(placeholder),
        placeholder.tag == raw_key.0.tag,
        all_hold(old(planner)@, plan_buffers(decode_plans@)),
        state.fits(old(planner)@),
        state.results@.len() == aggregates@.len(),
    ensures
        final(planner).well_formed(),
        match assemble_groups(
            aggregates_model(aggregates@),
            raw_key,
            decode_plans@,
            placeholder,
            grouping,
            state.model(old(planner)@),
        ) {
            Ok(model) => {
                &&& r matches Ok(pair)
                &&& pair.0@ == model.projection
                &&& pair.1@ == model.aggregations
                &&& final(planner)@ == model.plan
            },
            Err(e) => r matches Err(f) && f == e,
        },
{
    let ghost start = planner@;
    let selector = match state.selector {
        Some(count) => count.1,
        None => planner.key_exists(grouping.1, grouping.3),
    };
    let ghost selected = planner@;
    let column = match grouping.0 {
        Some(column) => column,
        None => planner.nonzero_indices(selector, raw_key.0.tag),
    };
    let ghost found = planner@;
    proof {
        lemma_extends_transitive(start, selected, found);
    }
    planner.connect(column, placeholder);
    let ghost connected = planner@;
    proof {
        lemma_extends_transitive(start, found, connected);
        lemma_reduced_extended(state, start, connected);
        lemma_all_hold_extended(start, connected, plan_buffers(decode_plans@));
    }
    let compacted = compact_results(planner, &state, selector);
    let ghost compact_plan = planner@;
    let groups = buffers_of(decode_plans);
    proof {
        lemma_all_hold_extended(connected, compact_plan, groups@);
    }
    match order_groups(planner, groups, compacted, grouping.2, raw_key.1, column) {
        Ok(pair) => {
            let aggregations = pair_aggregators(&pair.1, aggregates);
            Ok((pair.0, aggregations))
        },
        Err(e) => Err(e),
    }
}

/// The number of rows to run an aggregation over.
pub fn aggregate_rows_of(columns: &Vec<Column>) -> (rows: usize)
    ensures
        rows == aggregate_row_count(columns_model(columns@)),
{
    if columns.len() > 0 {
        columns[0].len
    } else {
        1
    }
}

impl NormalFormQuery {
    /// Plans a stage that groups by its projections and aggregates, for one
    /// partition. The ordering keys of the stage play no part.
    ///
    /// Returns the first error of planning, in the order filter, grouping
    /// key, grouping, aggregates, order of the groups. Where all of it
    /// succeeds, returns the planned work.
    pub fn run_aggregate(
        &self,
        columns: &Vec<Column>,
        explain: bool,
        show: bool,
        partition: usize,
        partition_length: usize,
    ) -> (r: Result<PartitionPlan, QueryError>)
        ensures
            match aggregate_plan(self@, columns_model(columns@), partition_length) {
                Ok(model) => r matches Ok(job) && aggregate_job(
                    job,
                    model,
                    columns_model(columns@),
                    explain,
                    show,
                    partition,
                ),
                Err(e) => r matches Err(f) && f == e,
            },
    {
        let mut planner = QueryPlanner::new();
        let ghost cols = columns_model(columns@);

        let mask = match compile_expr(&self.filter, Filter::NoFilter, columns, &mut planner) {
            Ok(mask) => mask,
            Err(e) => {
                return Err(e);
            },
        };
        let filter = filter_from(mask.0);
        let ghost masked = planner@;

        let key = match compile_grouping_key(
            &self.projection,
            filter,
            columns,
            partition_length,
            &mut planner,
        ) {
            Ok(key) => key,
            Err(e) => {
                return Err(e);
            },
        };
        let ghost keyed = planner@;
        let ghost key_model = grouping_key(
            self@.projection,
            filter,
            cols,
            partition_length,
            masked,
        )->Ok_0;
        assert(key_compiled(keyed, key, key_model));

        let grouping = match group(&key, &mut planner) {
            Ok(grouping) => grouping,
            Err(e) => {
                return Err(e);
            },
        };
        let ghost grouped = planner@;
        proof {
            lemma_extends_transitive(masked, keyed, grouped);
            lemma_all_hold_extended(keyed, grouped, plan_buffers(key.2@));
        }

        let reduced = match reduce_all(
            &self.aggregate,
            filter,
            columns,
            grouping.1,
            grouping.3,
            &mut planner,
        ) {
            Ok(reduced) => reduced,
            Err(e) => {
                return Err(e);
            },
        };
        let ghost aggregated = planner@;
        proof {
            lemma_extends_transitive(keyed, grouped, aggregated);
            lemma_all_hold_extended(grouped, aggregated, plan_buffers(key.2@));
        }

        let (groups, aggregations) = match assemble(
            &mut planner,
            &self.aggregate,
            key.0,
            &key.2,
            key.3,
            grouping,
            reduced,
        ) {
            Ok(columns) => columns,
            Err(e) => {
                return Err(e);
            },
        };

        let order_by: Vec<(BufferRef, bool)> = Vec::new();
        let layout = collect_aliased(&groups, &aggregations, &order_by);
        let rows = aggregate_rows_of(columns);
        let _ = planner.nodes.len();
        proof {
            assert(aggregate_plan(self@, cols, partition_length) is Ok);
            assert(aggregate_plan(self@, cols, partition_length)->Ok_0.plan == planner@);
            law_aggregate_plans_schedule(self@, cols, partition_length);
        }
        match planner.prepare(Vec::new()) {
            Ok(executor) => Ok(
                PartitionPlan { executor, layout, rows, partition, explain, show, validated: true },
            ),
            Err(e) => Err(e),
        }
    }
}

} // verus!
