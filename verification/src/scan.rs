//! The scan path: planning a stage that does not aggregate.
//!
//! The filter is compiled first. Ordering keys are then sorted from the last
//! to the first, each sort after the first being stable, so that the first
//! key ends up as the primary one. A single key with a small limit takes a
//! partial sort instead. The sort order and the filter are fused into one
//! index list, under which projections and ordering keys are materialized.

use vstd::prelude::*;
use crate::batch::{collect_aliased, lays_out};
use crate::executor::{lemma_direct_schedulable, valid_schedule};
use crate::expr::{exprs_model, order_model, Aggregator, Expr, ExprModel};
use crate::pipeline::PartitionPlan;
use crate::planner::{BufferRef, Operator, PlanModel, QueryPlanner};
use crate::query::{order_exprs, LimitClause, NormalFormQuery, StageModel};
use crate::query_plan::{
    compile, compile_expr, compiled, decode, decode_if_encoded, make_order_preserving,
    order_preserving, Filter,
};
use crate::types::{columns_model, Column, ColumnModel, EncodingType, QueryError};

verus! {

/// The filter that a compiled filter expression stands for: a mask selects
/// rows, anything else narrows nothing.
pub open spec fn mask_filter(buffer: BufferRef) -> Filter {
    match buffer.tag {
        EncodingType::U8 => Filter::U8(buffer),
        EncodingType::NullableU8 => Filter::NullableU8(buffer),
        _ => Filter::NoFilter,
    }
}

/// How many rows a partial sort has to keep, where one is used: where there
/// is a single ordering key and limit plus offset is less than half the
/// partition.
pub open spec fn top_n_limit(limit: LimitClause, keys: nat, partition_length: usize) -> Option<
    usize,
> {
    if keys == 1 && limit.limit + limit.offset < partition_length / 2 {
        Some((limit.limit + limit.offset) as usize)
    } else {
        None
    }
}

/// Sorts by one more key. A partial sort ranks the rows itself; the first
/// full sort orders fresh indices and need not be stable; every further sort
/// reorders the indices of the one before and is stable.
pub open spec fn sort_step(
    plan: PlanModel,
    ranking: BufferRef,
    desc: bool,
    previous: Option<BufferRef>,
    top_n: Option<usize>,
) -> (PlanModel, BufferRef) {
    match top_n {
        Some(limit) => (
            plan.emit(Operator::TopN { ranking, limit, desc }, EncodingType::USize),
            plan.next(EncodingType::USize),
        ),
        None => match previous {
            None => {
                let fresh = plan.emit(Operator::Indices { input: ranking }, EncodingType::USize);
                (
                    fresh.emit(
                        Operator::SortBy {
                            ranking,
                            indices: plan.next(EncodingType::USize),
                            desc,
                            stable: false,
                        },
                        EncodingType::USize,
                    ),
                    fresh.next(EncodingType::USize),
                )
            },
            Some(indices) => (
                plan.emit(
                    Operator::SortBy { ranking, indices, desc, stable: true },
                    EncodingType::USize,
                ),
                plan.next(EncodingType::USize),
            ),
        },
    }
}

/// Compiles one ordering key under the filter, makes sure that its encoding
/// preserves order, and sorts by it.
pub open spec fn sort_by_key(
    key: (ExprModel, bool),
    filter: Filter,
    columns: Seq<ColumnModel>,
    plan: PlanModel,
    previous: Option<BufferRef>,
    top_n: Option<usize>,
) -> Result<(PlanModel, BufferRef), QueryError> {
    match compile(key.0, filter, columns, plan) {
        Ok(rank) => {
            let ranking = make_order_preserving(rank.0, rank.1, rank.2);
            Ok(sort_step(ranking.0, ranking.1, key.1, previous, top_n))
        },
        Err(e) => Err(e),
    }
}

/// The plan and the sort indices after the last `done` ordering keys have
/// been sorted by, the last key first.
pub open spec fn sort_keys(
    order_by: Seq<(ExprModel, bool)>,
    filter: Filter,
    columns: Seq<ColumnModel>,
    plan: PlanModel,
    top_n: Option<usize>,
    done: nat,
) -> Result<(PlanModel, Option<BufferRef>), QueryError>
    decreases done,
{
    if done == 0 {
        Ok((plan, None))
    } else {
        match sort_keys(order_by, filter, columns, plan, top_n, (done - 1) as nat) {
            Ok(before) => match sort_by_key(
                order_by[order_by.len() - done],
                filter,
                columns,
                before.0,
                before.1,
                top_n,
            ) {
                Ok(sorted) => Ok((sorted.0, Some(sorted.1))),
                Err(e) => Err(e),
            },
            Err(e) => Err(e),
        }
    }
}

/// The row indices `0`, `1`, ... of a partition of the given length, as two
/// operators: a placeholder of that length and its indices.
pub open spec fn identity_indices(plan: PlanModel, partition_length: usize) -> (
    PlanModel,
    BufferRef,
) {
    let rows = plan.emit(Operator::NullVec { len: partition_length }, EncodingType::Null);
    (
        rows.emit(Operator::Indices { input: plan.next(EncodingType::Null) }, EncodingType::USize),
        rows.next(EncodingType::USize),
    )
}

/// Fuses the filter with the sort order. Without a sort the filter stays. A
/// mask is applied to the identity index list and the survivors are gathered
/// in sort order; without a mask the sort indices are the index list.
pub open spec fn fuse(
    plan: PlanModel,
    filter: Filter,
    sort_indices: Option<BufferRef>,
    partition_length: usize,
) -> (PlanModel, Filter) {
    match sort_indices {
        None => (plan, filter),
        Some(sorted) => match filter {
            Filter::U8(mask) => {
                let identity = identity_indices(plan, partition_length);
                let kept = identity.0.emit(
                    Operator::Filter { input: identity.1, mask },
                    EncodingType::USize,
                );
                (
                    kept.emit(
                        Operator::Select {
                            input: identity.0.next(EncodingType::USize),
                            indices: sorted,
                        },
                        EncodingType::USize,
                    ),
                    Filter::Indices(kept.next(EncodingType::USize)),
                )
            },
            Filter::NullableU8(mask) => {
                let identity = identity_indices(plan, partition_length);
                let kept = identity.0.emit(
                    Operator::NullableFilter { input: identity.1, mask },
                    EncodingType::USize,
                );
                (
                    kept.emit(
                        Operator::Select {
                            input: identity.0.next(EncodingType::USize),
                            indices: sorted,
                        },
                        EncodingType::USize,
                    ),
                    Filter::Indices(kept.next(EncodingType::USize)),
                )
            },
            Filter::NoFilter => (plan, Filter::Indices(sorted)),
            Filter::Indices(_) => (plan, filter),
        },
    }
}

/// Compiles `e` under `filter` and decodes the result where it is encoded.
pub open spec fn materialize(
    e: ExprModel,
    filter: Filter,
    columns: Seq<ColumnModel>,
    plan: PlanModel,
) -> Result<(PlanModel, BufferRef), QueryError> {
    match compile(e, filter, columns, plan) {
        Ok(value) => {
            let decoded = decode_if_encoded(value.0, value.1, value.2);
            Ok((decoded.0, decoded.1))
        },
        Err(e) => Err(e),
    }
}

/// Materializes the first `n` expressions in turn.
pub open spec fn materialize_all(
    exprs: Seq<ExprModel>,
    filter: Filter,
    columns: Seq<ColumnModel>,
    plan: PlanModel,
    n: nat,
) -> Result<(PlanModel, Seq<BufferRef>), QueryError>
    decreases n,
{
    if n == 0 {
        Ok((plan, seq![]))
    } else {
        match materialize_all(exprs, filter, columns, plan, (n - 1) as nat) {
            Ok(before) => match materialize(exprs[n - 1], filter, columns, before.0) {
                Ok(value) => Ok((value.0, before.1.push(value.1))),
                Err(e) => Err(e),
            },
            Err(e) => Err(e),
        }
    }
}

/// The buffers of ordering keys, each with the direction of its key.
pub open spec fn with_directions(buffers: Seq<BufferRef>, order_by: Seq<(ExprModel, bool)>) -> Seq<
    (BufferRef, bool),
> {
    Seq::new(buffers.len(), |i: int| (buffers[i], order_by[i].1))
}

/// The plan of a scan, with the buffers of its projections and of its
/// ordering keys.
pub struct ScanModel {
    pub plan: PlanModel,
    pub projection: Seq<BufferRef>,
    pub order_by: Seq<(BufferRef, bool)>,
}

/// The operators of a scan of one partition, or the first error that
/// compiling the filter, the ordering keys from last to first, the
/// projections and again the ordering keys runs into.
pub open spec fn scan_plan(stage: StageModel, columns: Seq<ColumnModel>, partition_length: usize) -> Result<
    ScanModel,
    QueryError,
> {
    let top_n = top_n_limit(stage.limit, stage.order_by.len(), partition_length);
    match compile(stage.filter, Filter::NoFilter, columns, PlanModel::empty()) {
        Ok(mask) => {
            let filter = mask_filter(mask.1);
            match sort_keys(stage.order_by, filter, columns, mask.0, top_n, stage.order_by.len()) {
                Ok(sorted) => {
                    let fused = fuse(sorted.0, filter, sorted.1, partition_length);
                    match materialize_all(
                        stage.projection,
                        fused.1,
                        columns,
                        fused.0,
                        stage.projection.len(),
                    ) {
                        Ok(projected) => match materialize_all(
                            order_exprs(stage.order_by),
                            fused.1,
                            columns,
                            projected.0,
                            stage.order_by.len(),
                        ) {
                            Ok(ordered) => Ok(
                                ScanModel {
                                    plan: ordered.0,
                                    projection: projected.1,
                                    order_by: with_directions(ordered.1, stage.order_by),
                                },
                            ),
                            Err(e) => Err(e),
                        },
                        Err(e) => Err(e),
                    }
                },
                Err(e) => Err(e),
            }
        },
        Err(e) => Err(e),
    }
}

/// The number of rows to run over: the length of the first column, or the
/// partition length where there is no column.
pub open spec fn row_count(columns: Seq<ColumnModel>, partition_length: usize) -> usize {
    if columns.len() > 0 {
        columns[0].len
    } else {
        partition_length
    }
}

/// Whether `job` is the planned work for the scan `scan`.
pub open spec fn scan_job(
    job: PartitionPlan,
    scan: ScanModel,
    columns: Seq<ColumnModel>,
    explain: bool,
    show: bool,
    partition: usize,
    partition_length: usize,
) -> bool {
    &&& job.executor.plan() == scan.plan
    &&& valid_schedule(scan.plan.nodes, job.executor.schedule@)
    &&& job.executor.pinned@.len() == 0
    &&& lays_out(job.layout, scan.projection, seq![], scan.order_by)
    &&& job.rows == row_count(columns, partition_length)
    &&& job.partition == partition
    &&& job.explain == explain
    &&& job.show == show
    &&& !job.validated
}

proof fn lemma_sort_keys_fails(
    order_by: Seq<(ExprModel, bool)>,
    filter: Filter,
    columns: Seq<ColumnModel>,
    plan: PlanModel,
    top_n: Option<usize>,
    m: nat,
    n: nat,
)
    requires
        m <= n,
        sort_keys(order_by, filter, columns, plan, top_n, m) is Err,
    ensures
        sort_keys(order_by, filter, columns, plan, top_n, n) == sort_keys(
            order_by,
            filter,
            columns,
            plan,
            top_n,
            m,
        ),
    decreases n,
{
    if m < n {
        lemma_sort_keys_fails(order_by, filter, columns, plan, top_n, m, (n - 1) as nat);
    }
}

proof fn lemma_materialize_fails(
    exprs: Seq<ExprModel>,
    filter: Filter,
    columns: Seq<ColumnModel>,
    plan: PlanModel,
    m: nat,
    n: nat,
)
    requires
        m <= n,
        materialize_all(exprs, filter, columns, plan, m) is Err,
    ensures
        materialize_all(exprs, filter, columns, plan, n) == materialize_all(
            exprs,
            filter,
            columns,
            plan,
            m,
        ),
    decreases n,
{
    if m < n {
        lemma_materialize_fails(exprs, filter, columns, plan, m, (n - 1) as nat);
    }
}

/// The filter that a compiled filter expression stands for.
pub fn filter_from(buffer: BufferRef) -> (filter: Filter)
    ensures
        filter == mask_filter(buffer),
{
    match buffer.tag {
        EncodingType::U8 => Filter::U8(buffer),
        EncodingType::NullableU8 => Filter::NullableU8(buffer),
        _ => Filter::NoFilter,
    }
}

fn top_n_hint(limit: LimitClause, keys: usize, partition_length: usize) -> (r: Option<usize>)
    ensures
        r == top_n_limit(limit, keys as nat, partition_length),
{
    if keys != 1 {
        return None;
    }
    let half: usize = partition_length / 2;
    if limit.limit > u64::MAX - limit.offset {
        return None;
    }
    let sum: u64 = limit.limit + limit.offset;
    if sum < half as u64 {
        Some(sum as usize)
    } else {
        None
    }
}

fn sort(
    planner: &mut QueryPlanner,
    ranking: BufferRef,
    desc: bool,
    previous: Option<BufferRef>,
    top_n: Option<usize>,
) -> (r: BufferRef)
    requires
        old(planner).well_formed(),
        old(planner)@.holds(ranking),
        previous matches Some(indices) ==> old(planner)@.holds(indices) && indices.tag
            == EncodingType::USize,
    ensures
        final(planner)@ == sort_step(old(planner)@, ranking, desc, previous, top_n).0,
        r == sort_step(old(planner)@, ranking, desc, previous, top_n).1,
        final(planner).well_formed(),
        final(planner)@.holds(r),
        r.tag == EncodingType::USize,
        old(planner)@.extends_to(final(planner)@),
        old(planner)@.direct() ==> final(planner)@.direct(),
{
    match top_n {
        Some(limit) => planner.top_n(ranking, limit, desc),
        None => match previous {
            None => {
                let indices = planner.indices(ranking);
                planner.sort_by(ranking, indices, desc, false)
            },
            Some(indices) => planner.sort_by(ranking, indices, desc, true),
        },
    }
}

fn sort_key(
    key: &Expr,
    desc: bool,
    filter: Filter,
    columns: &Vec<Column>,
    planner: &mut QueryPlanner,
    previous: Option<BufferRef>,
    top_n: Option<usize>,
) -> (r: Result<BufferRef, QueryError>)
    requires
        old(planner).well_formed(),
        filter.valid_in(old(planner)@),
        previous matches Some(indices) ==> old(planner)@.holds(indices) && indices.tag
            == EncodingType::USize,
    ensures
        final(planner).well_formed(),
        old(planner)@.extends_to(final(planner)@),
        old(planner)@.direct() ==> final(planner)@.direct(),
        match sort_by_key(
            (key@, desc),
            filter,
            columns_model(columns@),
            old(planner)@,
            previous,
            top_n,
        ) {
            Ok(sorted) => {
                &&& r == Ok::<BufferRef, QueryError>(sorted.1)
                &&& final(planner)@ == sorted.0
                &&& final(planner)@.holds(sorted.1)
                &&& sorted.1.tag == EncodingType::USize
            },
            Err(e) => r == Err::<BufferRef, QueryError>(e),
        },
{
    match compile_expr(key, filter, columns, planner) {
        Ok(rank) => {
            let ranking = order_preserving(rank, planner);
            Ok(sort(planner, ranking.0, desc, previous, top_n))
        },
        Err(e) => Err(e),
    }
}

fn sort_by_keys(
    order_by: &Vec<(Expr, bool)>,
    filter: Filter,
    columns: &Vec<Column>,
    planner: &mut QueryPlanner,
    top_n: Option<usize>,
) -> (r: Result<Option<BufferRef>, QueryError>)
    requires
        old(planner).well_formed(),
        filter.valid_in(old(planner)@),
    ensures
        final(planner).well_formed(),
        old(planner)@.extends_to(final(planner)@),
        old(planner)@.direct() ==> final(planner)@.direct(),
        match sort_keys(
            order_model(order_by@),
            filter,
            columns_model(columns@),
            old(planner)@,
            top_n,
            order_by@.len(),
        ) {
            Ok(sorted) => {
                &&& r == Ok::<Option<BufferRef>, QueryError>(sorted.1)
                &&& final(planner)@ == sorted.0
                &&& sorted.1 matches Some(indices) ==> final(planner)@.holds(indices)
                    && indices.tag == EncodingType::USize
            },
            Err(e) => r == Err::<Option<BufferRef>, QueryError>(e),
        },
{
    let ghost keys = order_model(order_by@);
    let ghost cols = columns_model(columns@);
    let ghost start = planner@;
    let n = order_by.len();
    let mut sort_indices: Option<BufferRef> = None;
    let mut done: usize = 0;
    while done < n
        invariant
            done <= n,
            n == order_by@.len(),
            keys == order_model(order_by@),
            cols == columns_model(columns@),
            planner.well_formed(),
            start == old(planner)@,
            start.extends_to(planner@),
            start.direct() ==> planner@.direct(),
            filter.valid_in(planner@),
            sort_keys(keys, filter, cols, start, top_n, done as nat) == Ok::<
                (PlanModel, Option<BufferRef>),
                QueryError,
            >((planner@, sort_indices)),
            sort_indices matches Some(indices) ==> planner@.holds(indices) && indices.tag
                == EncodingType::USize,
        decreases n - done,
    {
        let index = n - 1 - done;
        let desc = order_by[index].1;
        assert(keys[index as int] == (order_by@[index as int].0@, desc));
        match sort_key(&order_by[index].0, desc, filter, columns, planner, sort_indices, top_n) {
            Ok(sorted) => {
                sort_indices = Some(sorted);
            },
            Err(e) => {
                proof {
                    lemma_sort_keys_fails(keys, filter, cols, start, top_n, (done + 1) as nat, n as nat);
                }
                return Err(e);
            },
        }
        done += 1;
    }
    Ok(sort_indices)
}

fn identity(planner: &mut QueryPlanner, partition_length: usize) -> (r: BufferRef)
    requires
        old(planner).well_formed(),
    ensures
        final(planner)@ == identity_indices(old(planner)@, partition_length).0,
        r == identity_indices(old(planner)@, partition_length).1,
        final(planner).well_formed(),
        final(planner)@.holds(r),
        r.tag == EncodingType::USize,
        old(planner)@.extends_to(final(planner)@),
        old(planner)@.direct() ==> final(planner)@.direct(),
{
    let buffer = planner.null_vec(partition_length, EncodingType::Null);
    planner.indices(buffer)
}

/// Fuses the filter with the sort order, where there is one. The filter is
/// one that a compiled filter expression stands for, never an index list.
pub fn fuse_filter(
    planner: &mut QueryPlanner,
    filter: Filter,
    sort_indices: Option<BufferRef>,
    partition_length: usize,
) -> (r: Filter)
    requires
        old(planner).well_formed(),
        filter.valid_in(old(planner)@),
        !(filter is Indices),
        sort_indices matches Some(indices) ==> old(planner)@.holds(indices) && indices.tag
            == EncodingType::USize,
    ensures
        final(planner)@ == fuse(old(planner)@, filter, sort_indices, partition_length).0,
        r == fuse(old(planner)@, filter, sort_indices, partition_length).1,
        final(planner).well_formed(),
        r.valid_in(final(planner)@),
        old(planner)@.extends_to(final(planner)@),
        old(planner)@.direct() ==> final(planner)@.direct(),
{
    match sort_indices {
        None => filter,
        Some(sorted) => match filter {
            Filter::U8(mask) => {
                let indices = identity(planner, partition_length);
                let kept = planner.filter(indices, mask);
                Filter::Indices(planner.select(kept, sorted))
            },
            Filter::NullableU8(mask) => {
                let indices = identity(planner, partition_length);
                let kept = planner.nullable_filter(indices, mask);
                Filter::Indices(planner.select(kept, sorted))
            },
            Filter::NoFilter => Filter::Indices(sorted),
            Filter::Indices(_) => filter,
        },
    }
}

fn materialize_expr(
    expr: &Expr,
    filter: Filter,
    columns: &Vec<Column>,
    planner: &mut QueryPlanner,
) -> (r: Result<BufferRef, QueryError>)
    requires
        old(planner).well_formed(),
        filter.valid_in(old(planner)@),
    ensures
        final(planner).well_formed(),
        old(planner)@.extends_to(final(planner)@),
        old(planner)@.direct() ==> final(planner)@.direct(),
        match materialize(expr@, filter, columns_model(columns@), old(planner)@) {
            Ok(value) => {
                &&& r == Ok::<BufferRef, QueryError>(value.1)
                &&& final(planner)@ == value.0
                &&& final(planner)@.holds(value.1)
            },
            Err(e) => r == Err::<BufferRef, QueryError>(e),
        },
{
    match compile_expr(expr, filter, columns, planner) {
        Ok(value) => {
            let decoded = decode(planner, value.0, value.1);
            Ok(decoded.0)
        },
        Err(e) => Err(e),
    }
}

fn materialize_projection(
    exprs: &Vec<Expr>,
    filter: Filter,
    columns: &Vec<Column>,
    planner: &mut QueryPlanner,
) -> (r: Result<Vec<BufferRef>, QueryError>)
    requires
        old(planner).well_formed(),
        filter.valid_in(old(planner)@),
    ensures
        final(planner).well_formed(),
        old(planner)@.extends_to(final(planner)@),
        old(planner)@.direct() ==> final(planner)@.direct(),
        match materialize_all(
            exprs_model(exprs@),
            filter,
            columns_model(columns@),
            old(planner)@,
            exprs@.len(),
        ) {
            Ok(values) => {
                &&& r matches Ok(buffers)
                &&& buffers@ == values.1
                &&& final(planner)@ == values.0
            },
            Err(e) => r matches Err(f) && f == e,
        },
{
    let ghost model = exprs_model(exprs@);
    let ghost cols = columns_model(columns@);
    let ghost start = planner@;
    let mut buffers: Vec<BufferRef> = Vec::new();
    let mut i: usize = 0;
    while i < exprs.len()
        invariant
            i <= exprs.len(),
            model == exprs_model(exprs@),
            cols == columns_model(columns@),
            planner.well_formed(),
            start == old(planner)@,
            start.extends_to(planner@),
            start.direct() ==> planner@.direct(),
            filter.valid_in(planner@),
            materialize_all(model, filter, cols, start, i as nat) == Ok::<
                (PlanModel, Seq<BufferRef>),
                QueryError,
            >((planner@, buffers@)),
        decreases exprs.len() - i,
    {
        assert(model[i as int] == exprs@[i as int]@);
        match materialize_expr(&exprs[i], filter, columns, planner) {
            Ok(buffer) => {
                buffers.push(buffer);
            },
            Err(e) => {
                proof {
                    lemma_materialize_fails(
                        model,
                        filter,
                        cols,
                        start,
                        (i + 1) as nat,
                        exprs@.len(),
                    );
                }
                return Err(e);
            },
        }
        i += 1;
    }
    Ok(buffers)
}

fn materialize_order(
    order_by: &Vec<(Expr, bool)>,
    filter: Filter,
    columns: &Vec<Column>,
    planner: &mut QueryPlanner,
) -> (r: Result<Vec<(BufferRef, bool)>, QueryError>)
    requires
        old(planner).well_formed(),
        filter.valid_in(old(planner)@),
    ensures
        final(planner).well_formed(),
        old(planner)@.extends_to(final(planner)@),
        old(planner)@.direct() ==> final(planner)@.direct(),
        match materialize_all(
            order_exprs(order_model(order_by@)),
            filter,
            columns_model(columns@),
            old(planner)@,
            order_by@.len(),
        ) {
            Ok(values) => {
                &&& r matches Ok(slots)
                &&& slots@ == with_directions(values.1, order_model(order_by@))
                &&& final(planner)@ == values.0
            },
            Err(e) => r matches Err(f) && f == e,
        },
{
    let ghost keys = order_model(order_by@);
    let ghost model = order_exprs(keys);
    let ghost cols = columns_model(columns@);
    let ghost start = planner@;
    let ghost mut buffers: Seq<BufferRef> = Seq::empty();
    let mut slots: Vec<(BufferRef, bool)> = Vec::new();
    let mut i: usize = 0;
    while i < order_by.len()
        invariant
            i <= order_by.len(),
            keys == order_model(order_by@),
            model == order_exprs(keys),
            cols == columns_model(columns@),
            planner.well_formed(),
            start == old(planner)@,
            start.extends_to(planner@),
            start.direct() ==> planner@.direct(),
            filter.valid_in(planner@),
            materialize_all(model, filter, cols, start, i as nat) == Ok::<
                (PlanModel, Seq<BufferRef>),
                QueryError,
            >((planner@, buffers)),
            buffers.len() == i,
            slots@ == with_directions(buffers, keys),
        decreases order_by.len() - i,
    {
        assert(model[i as int] == order_by@[i as int].0@);
        match materialize_expr(&order_by[i].0, filter, columns, planner) {
            Ok(buffer) => {
                slots.push((buffer, order_by[i].1));
                proof {
                    buffers = buffers.push(buffer);
                }
                assert(slots@ == with_directions(buffers, keys));
            },
            Err(e) => {
                proof {
                    lemma_materialize_fails(
                        model,
                        filter,
                        cols,
                        start,
                        (i + 1) as nat,
                        order_by@.len(),
                    );
                }
                return Err(e);
            },
        }
        i += 1;
    }
    Ok(slots)
}

/// The number of rows to run over.
pub fn rows_of(columns: &Vec<Column>, partition_length: usize) -> (rows: usize)
    ensures
        rows == row_count(columns_model(columns@), partition_length),
{
    if columns.len() > 0 {
        columns[0].len
    } else {
        partition_length
    }
}

impl NormalFormQuery {
    /// Plans a stage without aggregates for one partition. The aggregates of
    /// the stage, if it has any, play no part.
    ///
    /// Returns the first error of compilation, in the order filter, ordering
    /// keys from last to first, projections, ordering keys. Where all
    /// expressions compile, returns the planned work.
    pub fn run(
        &self,
        columns: &Vec<Column>,
        explain: bool,
        show: bool,
        partition: usize,
        partition_length: usize,
    ) -> (r: Result<PartitionPlan, QueryError>)
        ensures
            match scan_plan(self@, columns_model(columns@), partition_length) {
                Ok(scan) => r matches Ok(job) && scan_job(
                    job,
                    scan,
                    columns_model(columns@),
                    explain,
                    show,
                    partition,
                    partition_length,
                ),
                Err(e) => r matches Err(f) && f == e,
            },
    {
        let top_n = top_n_hint(self.limit, self.order_by.len(), partition_length);
        let mut planner = QueryPlanner::new();

        let mask = match compile_expr(&self.filter, Filter::NoFilter, columns, &mut planner) {
            Ok(mask) => mask,
            Err(e) => {
                return Err(e);
            },
        };
        let filter = filter_from(mask.0);

        let sort_indices = match sort_by_keys(&self.order_by, filter, columns, &mut planner, top_n) {
            Ok(sort_indices) => sort_indices,
            Err(e) => {
                return Err(e);
            },
        };
        let filter = fuse_filter(&mut planner, filter, sort_indices, partition_length);

        let select = match materialize_projection(&self.projection, filter, columns, &mut planner) {
            Ok(select) => select,
            Err(e) => {
                return Err(e);
            },
        };
        let order_by = match materialize_order(&self.order_by, filter, columns, &mut planner) {
            Ok(order_by) => order_by,
            Err(e) => {
                return Err(e);
            },
        };

        let aggregations: Vec<(BufferRef, Aggregator)> = Vec::new();
        let layout = collect_aliased(&select, &aggregations, &order_by);
        let rows = rows_of(columns, partition_length);
        let _ = planner.nodes.len();
        proof {
            lemma_direct_schedulable(planner@);
        }
        match planner.prepare(Vec::new()) {
            Ok(executor) => Ok(
                PartitionPlan {
                    executor,
                    layout,
                    rows,
                    partition,
                    explain,
                    show,
                    validated: false,
                },
            ),
            Err(e) => Err(e),
        }
    }
}

} // verus!
