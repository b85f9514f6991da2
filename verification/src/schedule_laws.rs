//! Why the plans of the aggregate path can be scheduled.
//!
//! The grouping key is compiled with a placeholder that stands for the keys
//! of the groups, and the plans that recover the group columns read it. The
//! producer of these keys is recorded later. A schedule therefore takes a
//! detour: it runs the operators up to the placeholder, then the operators
//! between the decode plans and the producer, then the placeholder and the
//! decode plans, then the rest. This works because no operator between the
//! decode plans and the producer reads the placeholder or a decode plan.

use vstd::prelude::*;
use crate::aggregate::{
    aggregate_all, aggregate_plan, compact_all, compact_one, compact_others, gather_all,
    group_column, group_rows, plan_buffers, restore_order, select_groups, sort_source,
    uses_dense, Columns,
};
use crate::executor::{inputs_met, schedulable, scheduled_before, valid_schedule};
use crate::expr::{Aggregator, ExprModel, Func1Type, Func2Type};
use crate::grouping::{
    adjust, cast_back, decode_parts, grouping_key, key_range, pack_part, pack_parts, part_of,
    shift_back, unpack, GroupingKeyModel, KeyPart,
};
use crate::plan_laws::{grows_to, lemma_aggregate_grows, lemma_compile_grows};
use crate::planner::{BufferRef, Operator, PlanModel};
use crate::query::StageModel;
use crate::query_plan::{apply_binary, apply_unary, compile, decode_if_encoded, Filter};
use crate::scan::mask_filter;
use crate::types::{ColumnModel, EncodingType, Type};

verus! {

/// Whether the operator at `i` is no placeholder and reads no buffer at a
/// position from `lo` up to, but not including, `hi`.
pub open spec fn clear_at(plan: PlanModel, i: int, lo: int, hi: int) -> bool {
    &&& !(plan.nodes[i].op is Placeholder)
    &&& !(plan.nodes[i].op is Alias)
    &&& forall|k: int|
        0 <= k < plan.nodes[i].op.inputs().len() ==> !(lo <= (
        #[trigger] plan.nodes[i].op.inputs()[k]).id < hi)
}

/// Whether the operators at the positions from `from` up to, but not
/// including, `to` are clear of the zone from `lo` to `hi`.
pub open spec fn clear(plan: PlanModel, from: int, to: int, lo: int, hi: int) -> bool {
    forall|i: int| from <= i < to && 0 <= i < plan.nodes.len() ==> #[trigger] clear_at(plan, i, lo, hi)
}

/// Whether the buffer lies outside the zone from `lo` to `hi`.
pub open spec fn outside(buffer: BufferRef, lo: int, hi: int) -> bool {
    !(lo <= buffer.id < hi)
}

/// Whether the buffer of the filter, if it has one, lies outside the zone.
pub open spec fn filter_outside(filter: Filter, lo: int, hi: int) -> bool {
    match filter {
        Filter::NoFilter => true,
        Filter::U8(mask) => outside(mask, lo, hi),
        Filter::NullableU8(mask) => outside(mask, lo, hi),
        Filter::Indices(indices) => outside(indices, lo, hi),
    }
}

/// The operator that runs at position `q` of the detour around the decode
/// plans: the placeholder is at `p`, the last decode plan at `d`, and the
/// producer of the placeholder at `s`.
pub open spec fn detour(p: int, d: int, s: int, q: int) -> int {
    if q < p {
        q
    } else if q < p + (s - d) {
        d + 1 + (q - p)
    } else if q == p + (s - d) {
        p
    } else if q <= s {
        q - (s - d)
    } else {
        q
    }
}

/// The position of the operator `i` in the detour.
pub open spec fn detour_position(p: int, d: int, s: int, i: int) -> int {
    if i < p {
        i
    } else if i == p {
        p + (s - d)
    } else if i <= d {
        (s - d) + i
    } else if i <= s {
        p + (i - d - 1)
    } else {
        i
    }
}

/// A well-formed plan whose single placeholder is connected to a later
/// operator can be scheduled, provided that no operator after the decode
/// plans up to the producer reads the placeholder or a decode plan.
pub proof fn lemma_detour_schedulable(plan: PlanModel, p: int, d: int, s: int)
    requires
        plan.well_formed(),
        plan.nodes.len() <= usize::MAX,
        0 <= p <= d < s < plan.nodes.len(),
        plan.nodes[p].op matches Operator::Alias { source } && source.id == s,
        forall|i: int|
            0 <= i < plan.nodes.len() && i != p ==> !((#[trigger] plan.nodes[i]).op is Placeholder)
                && !(plan.nodes[i].op is Alias),
        clear(plan, d + 1, s + 1, p, d + 1),
    ensures
        schedulable(plan.nodes),
{
    let nodes = plan.nodes;
    let n = nodes.len() as int;
    let schedule = Seq::new(nodes.len(), |q: int| detour(p, d, s, q) as usize);
    assert forall|q: int| 0 <= q < n implies 0 <= detour(p, d, s, q) < n && detour_position(
        p,
        d,
        s,
        detour(p, d, s, q),
    ) == q by {}
    assert forall|i: int| 0 <= i < n implies 0 <= detour_position(p, d, s, i) < n && detour(
        p,
        d,
        s,
        detour_position(p, d, s, i),
    ) == i by {}
    assert forall|i: usize| i < nodes.len() implies #[trigger] schedule.contains(i) by {
        assert(schedule[detour_position(p, d, s, i as int)] == i);
    }
    assert(schedule.no_duplicates()) by {
        assert forall|a: int, b: int| 0 <= a < n && 0 <= b < n && a != b implies schedule[a]
            != schedule[b] by {
            assert(detour_position(p, d, s, detour(p, d, s, a)) == a);
            assert(detour_position(p, d, s, detour(p, d, s, b)) == b);
        }
    }
    assert forall|q: int| 0 <= q < schedule.len() implies #[trigger] inputs_met(
        nodes,
        schedule,
        q,
    ) by {
        let i = detour(p, d, s, q);
        assert(schedule[q] == i);
        let inputs = nodes[i].op.inputs();
        assert(plan.admits(i, nodes[i].op, nodes[i].tag));
        assert forall|k: int| 0 <= k < inputs.len() implies scheduled_before(
            schedule,
            (#[trigger] inputs[k]).id,
            q,
        ) by {
            let b = inputs[k].id as int;
            if i == p {
                assert(b == s);
            } else {
                assert(plan.precedes(inputs[k], i));
                if d < i <= s {
                    assert(clear_at(plan, i, p, d + 1));
                }
            }
            let at = detour_position(p, d, s, b);
            assert(detour(p, d, s, at) == b);
            assert(schedule[at] == inputs[k].id);
            assert(at < q);
        }
    }
    assert forall|i: int| 0 <= i < nodes.len() implies !((#[trigger] nodes[i]).op is Placeholder) by {}
    assert(valid_schedule(nodes, schedule));
}

/// Operators that are clear of a zone stay clear in every plan that keeps
/// them.
pub proof fn lemma_clear_grows(
    plan: PlanModel,
    later: PlanModel,
    from: int,
    to: int,
    lo: int,
    hi: int,
)
    requires
        grows_to(plan, later),
        clear(plan, from, to, lo, hi),
        to <= plan.nodes.len(),
    ensures
        clear(later, from, to, lo, hi),
{
    assert forall|i: int| from <= i < to && 0 <= i < later.nodes.len() implies #[trigger] clear_at(
        later,
        i,
        lo,
        hi,
    ) by {
        assert(later.nodes[i] == plan.nodes[i]);
        assert(clear_at(plan, i, lo, hi));
    }
}

/// Decoding a buffer outside the zone records at most one operator, which is
/// clear of the zone, and gives a buffer outside the zone.
pub proof fn lemma_decode_clear(plan: PlanModel, buffer: BufferRef, typ: Type, lo: int, hi: int)
    requires
        outside(buffer, lo, hi),
        buffer.id < plan.nodes.len(),
        hi <= plan.nodes.len(),
        decode_if_encoded(plan, buffer, typ).0.nodes.len() <= usize::MAX,
    ensures
        ({
            let decoded = decode_if_encoded(plan, buffer, typ);
            &&& grows_to(plan, decoded.0)
            &&& clear(decoded.0, plan.nodes.len() as int, decoded.0.nodes.len() as int, lo, hi)
            &&& outside(decoded.1, lo, hi)
            &&& decoded.1.id < decoded.0.nodes.len()
        }),
{
    let decoded = decode_if_encoded(plan, buffer, typ);
    if typ.codec is Some {
        assert(clear_at(decoded.0, plan.nodes.len() as int, lo, hi));
    }
}

proof fn lemma_unary_grows(plan: PlanModel, op: Func1Type, buffer: BufferRef, typ: Type)
    ensures
        apply_unary(plan, op, buffer, typ) matches Ok(r) ==> grows_to(plan, r.0),
{
    let decoded = decode_if_encoded(plan, buffer, typ);
    assert(grows_to(plan, decoded.0));
}

proof fn lemma_binary_grows(
    plan: PlanModel,
    op: Func2Type,
    left: (BufferRef, Type),
    right: (BufferRef, Type),
)
    ensures
        apply_binary(plan, op, left, right) matches Ok(r) ==> grows_to(plan, r.0),
{
    let one = decode_if_encoded(plan, left.0, left.1);
    let two = decode_if_encoded(one.0, right.0, right.1);
    assert(grows_to(plan, one.0));
    assert(grows_to(one.0, two.0));
}

proof fn lemma_unary_clear(
    plan: PlanModel,
    op: Func1Type,
    buffer: BufferRef,
    typ: Type,
    lo: int,
    hi: int,
)
    requires
        apply_unary(plan, op, buffer, typ) is Ok,
        apply_unary(plan, op, buffer, typ)->Ok_0.0.nodes.len() <= usize::MAX,
        outside(buffer, lo, hi),
        buffer.id < plan.nodes.len(),
        hi <= plan.nodes.len(),
    ensures
        ({
            let result = apply_unary(plan, op, buffer, typ)->Ok_0;
            &&& clear(result.0, plan.nodes.len() as int, result.0.nodes.len() as int, lo, hi)
            &&& plan.nodes.len() <= result.1.id < result.0.nodes.len()
        }),
{
    let result = apply_unary(plan, op, buffer, typ)->Ok_0;
    let decoded = decode_if_encoded(plan, buffer, typ);
    assert(grows_to(plan, decoded.0));
    assert(grows_to(decoded.0, result.0));
    lemma_decode_clear(plan, buffer, typ, lo, hi);
    lemma_clear_grows(
        decoded.0,
        result.0,
        plan.nodes.len() as int,
        decoded.0.nodes.len() as int,
        lo,
        hi,
    );
    assert(clear_at(result.0, decoded.0.nodes.len() as int, lo, hi));
}

proof fn lemma_binary_clear(
    plan: PlanModel,
    op: Func2Type,
    left: (BufferRef, Type),
    right: (BufferRef, Type),
    lo: int,
    hi: int,
)
    requires
        apply_binary(plan, op, left, right) is Ok,
        apply_binary(plan, op, left, right)->Ok_0.0.nodes.len() <= usize::MAX,
        outside(left.0, lo, hi),
        outside(right.0, lo, hi),
        left.0.id < plan.nodes.len(),
        right.0.id < plan.nodes.len(),
        hi <= plan.nodes.len(),
    ensures
        ({
            let result = apply_binary(plan, op, left, right)->Ok_0;
            &&& clear(result.0, plan.nodes.len() as int, result.0.nodes.len() as int, lo, hi)
            &&& plan.nodes.len() <= result.1.id < result.0.nodes.len()
        }),
{
    let result = apply_binary(plan, op, left, right)->Ok_0;
    let one = decode_if_encoded(plan, left.0, left.1);
    let two = decode_if_encoded(one.0, right.0, right.1);
    assert(grows_to(plan, one.0));
    assert(grows_to(one.0, two.0));
    assert(grows_to(two.0, result.0));
    lemma_decode_clear(plan, left.0, left.1, lo, hi);
    lemma_decode_clear(one.0, right.0, right.1, lo, hi);
    lemma_clear_grows(one.0, two.0, plan.nodes.len() as int, one.0.nodes.len() as int, lo, hi);
    lemma_clear_grows(two.0, result.0, plan.nodes.len() as int, two.0.nodes.len() as int, lo, hi);
    assert(clear_at(result.0, two.0.nodes.len() as int, lo, hi));
}

/// Compiling an expression under a filter outside the zone records only
/// operators that are clear of the zone, and gives a buffer that one of them
/// writes.
pub proof fn lemma_compile_clear(
    e: ExprModel,
    filter: Filter,
    columns: Seq<ColumnModel>,
    plan: PlanModel,
    lo: int,
    hi: int,
)
    requires
        compile(e, filter, columns, plan) is Ok,
        compile(e, filter, columns, plan)->Ok_0.0.nodes.len() <= usize::MAX,
        filter_outside(filter, lo, hi),
        hi <= plan.nodes.len(),
    ensures
        ({
            let result = compile(e, filter, columns, plan)->Ok_0;
            &&& grows_to(plan, result.0)
            &&& clear(result.0, plan.nodes.len() as int, result.0.nodes.len() as int, lo, hi)
            &&& plan.nodes.len() <= result.1.id < result.0.nodes.len()
        }),
    decreases e,
{
    let result = compile(e, filter, columns, plan)->Ok_0;
    let start = plan.nodes.len() as int;
    match e {
        ExprModel::Const(value) => {
            assert(clear_at(result.0, start, lo, hi));
        },
        ExprModel::ColName(name) => {
            assert(clear_at(result.0, start, lo, hi));
            if !(filter is NoFilter) {
                assert(clear_at(result.0, start + 1, lo, hi));
            }
        },
        ExprModel::Func1(op, child) => {
            let operand = compile(*child, filter, columns, plan)->Ok_0;
            lemma_compile_grows(*child, filter, columns, plan);
            lemma_unary_grows(operand.0, op, operand.1, operand.2);
            lemma_compile_clear(*child, filter, columns, plan, lo, hi);
            lemma_unary_clear(operand.0, op, operand.1, operand.2, lo, hi);
            lemma_clear_grows(operand.0, result.0, start, operand.0.nodes.len() as int, lo, hi);
        },
        ExprModel::Func2(op, left, right) => {
            let first = compile(*left, filter, columns, plan)->Ok_0;
            let second = compile(*right, filter, columns, first.0)->Ok_0;
            lemma_compile_grows(*left, filter, columns, plan);
            lemma_compile_grows(*right, filter, columns, first.0);
            lemma_binary_grows(second.0, op, (first.1, first.2), (second.1, second.2));
            lemma_compile_clear(*right, filter, columns, first.0, lo, hi);
            lemma_compile_clear(*left, filter, columns, plan, lo, hi);
            lemma_binary_clear(second.0, op, (first.1, first.2), (second.1, second.2), lo, hi);
            lemma_clear_grows(first.0, second.0, start, first.0.nodes.len() as int, lo, hi);
            lemma_clear_grows(second.0, result.0, start, second.0.nodes.len() as int, lo, hi);
            lemma_grows_transitive(first.0, second.0, result.0);
            lemma_grows_transitive(plan, first.0, result.0);
        },
        ExprModel::Aggregate(_, _) => {},
    }
}

/// Whether none of the operators at the positions from `from` up to, but
/// not including, `to` is a placeholder.
pub open spec fn normal(plan: PlanModel, from: int, to: int) -> bool {
    forall|i: int|
        from <= i < to && 0 <= i < plan.nodes.len() ==> !((#[trigger] plan.nodes[i]).op
            is Placeholder) && !(plan.nodes[i].op is Alias)
}

proof fn lemma_clear_normal(plan: PlanModel, from: int, to: int, lo: int, hi: int)
    requires
        clear(plan, from, to, lo, hi),
    ensures
        normal(plan, from, to),
{
    assert forall|i: int| from <= i < to && 0 <= i < plan.nodes.len() implies !((
    #[trigger] plan.nodes[i]).op is Placeholder) && !(plan.nodes[i].op is Alias) by {
        assert(clear_at(plan, i, lo, hi));
    }
}

proof fn lemma_normal_grows(plan: PlanModel, later: PlanModel, from: int, to: int)
    requires
        grows_to(plan, later),
        normal(plan, from, to),
        to <= plan.nodes.len(),
    ensures
        normal(later, from, to),
{
    assert forall|i: int| from <= i < to && 0 <= i < later.nodes.len() implies !((
    #[trigger] later.nodes[i]).op is Placeholder) && !(later.nodes[i].op is Alias) by {
        assert(later.nodes[i] == plan.nodes[i]);
        assert(!(plan.nodes[i].op is Placeholder));
    }
}

/// Keeping operators is transitive.
pub proof fn lemma_grows_transitive(first: PlanModel, second: PlanModel, third: PlanModel)
    requires
        grows_to(first, second),
        grows_to(second, third),
    ensures
        grows_to(first, third),
{
    assert forall|i: int| 0 <= i < first.nodes.len() implies #[trigger] third.nodes[i]
        == first.nodes[i] by {
        assert(second.nodes[i] == first.nodes[i]);
    }
}

/// Packing grouping expressions records operators on top of those that the
/// plan had, none of them a placeholder, and gives a key that one of them
/// writes.
pub proof fn lemma_pack_grows(
    exprs: Seq<ExprModel>,
    filter: Filter,
    columns: Seq<ColumnModel>,
    plan: PlanModel,
    n: nat,
)
    ensures
        pack_parts(exprs, filter, columns, plan, n) matches Ok(state) ==> grows_to(
            plan,
            state.plan,
        ) && normal(state.plan, plan.nodes.len() as int, state.plan.nodes.len() as int) && (
        state.key matches Some(key) ==> key.id < state.plan.nodes.len() || state.plan.nodes.len()
            > usize::MAX) && (n > 0 ==> state.key is Some),
    decreases n,
{
    if n > 0 {
        lemma_pack_grows(exprs, filter, columns, plan, (n - 1) as nat);
        if let Ok(before) = pack_parts(exprs, filter, columns, plan, (n - 1) as nat) {
            lemma_compile_grows(exprs[n - 1], filter, columns, before.plan);
            if let Ok(value) = compile(exprs[n - 1], filter, columns, before.plan) {
                if let Ok(state) = pack_part(before, exprs[n - 1], filter, columns) {
                    let part = part_of(
                        value.1,
                        value.2,
                        key_range(value.0, columns, value.1.id as nat),
                    )->Some_0;
                    let adjusted = adjust(value.0, part);
                    assert(grows_to(value.0, adjusted.0));
                    assert(grows_to(adjusted.0, state.plan));
                    lemma_grows_transitive(before.plan, value.0, adjusted.0);
                    lemma_grows_transitive(before.plan, adjusted.0, state.plan);
                    lemma_grows_transitive(plan, before.plan, state.plan);
                    if state.plan.nodes.len() <= usize::MAX {
                        lemma_compile_clear(exprs[n - 1], filter, columns, before.plan, 0, 0);
                        lemma_clear_normal(
                            value.0,
                            before.plan.nodes.len() as int,
                            value.0.nodes.len() as int,
                            0,
                            0,
                        );
                    } else {
                        lemma_compile_normal(exprs[n - 1], filter, columns, before.plan);
                    }
                    lemma_normal_grows(
                        before.plan,
                        state.plan,
                        plan.nodes.len() as int,
                        before.plan.nodes.len() as int,
                    );
                    lemma_normal_grows(
                        value.0,
                        state.plan,
                        before.plan.nodes.len() as int,
                        value.0.nodes.len() as int,
                    );
                    assert forall|i: int|
                        value.0.nodes.len() <= i < state.plan.nodes.len() implies !((
                    #[trigger] state.plan.nodes[i]).op is Placeholder) && !(state.plan.nodes[i].op
                        is Alias) by {}
                }
            }
        }
    }
}

proof fn lemma_compile_normal(
    e: ExprModel,
    filter: Filter,
    columns: Seq<ColumnModel>,
    plan: PlanModel,
)
    ensures
        compile(e, filter, columns, plan) matches Ok(r) ==> normal(
            r.0,
            plan.nodes.len() as int,
            r.0.nodes.len() as int,
        ),
    decreases e,
{
    match e {
        ExprModel::Const(_) => {},
        ExprModel::ColName(_) => {},
        ExprModel::Func1(op, child) => {
            lemma_compile_normal(*child, filter, columns, plan);
            lemma_compile_grows(*child, filter, columns, plan);
            if let Ok(operand) = compile(*child, filter, columns, plan) {
                if let Ok(r) = compile(e, filter, columns, plan) {
                    let decoded = decode_if_encoded(operand.0, operand.1, operand.2);
                    assert(grows_to(operand.0, decoded.0));
                    assert(grows_to(decoded.0, r.0));
                    lemma_grows_transitive(operand.0, decoded.0, r.0);
                    lemma_normal_grows(
                        operand.0,
                        r.0,
                        plan.nodes.len() as int,
                        operand.0.nodes.len() as int,
                    );
                }
            }
        },
        ExprModel::Func2(op, left, right) => {
            lemma_compile_normal(*left, filter, columns, plan);
            lemma_compile_grows(*left, filter, columns, plan);
            if let Ok(first) = compile(*left, filter, columns, plan) {
                lemma_compile_normal(*right, filter, columns, first.0);
                lemma_compile_grows(*right, filter, columns, first.0);
                if let Ok(second) = compile(*right, filter, columns, first.0) {
                    if let Ok(r) = compile(e, filter, columns, plan) {
                        let one = decode_if_encoded(second.0, first.1, first.2);
                        let two = decode_if_encoded(one.0, second.1, second.2);
                        assert(grows_to(second.0, one.0));
                        assert(grows_to(one.0, two.0));
                        assert(grows_to(two.0, r.0));
                        lemma_grows_transitive(second.0, one.0, two.0);
                        lemma_grows_transitive(second.0, two.0, r.0);
                        lemma_grows_transitive(first.0, second.0, r.0);
                        lemma_normal_grows(
                            first.0,
                            r.0,
                            plan.nodes.len() as int,
                            first.0.nodes.len() as int,
                        );
                        lemma_normal_grows(
                            second.0,
                            r.0,
                            first.0.nodes.len() as int,
                            second.0.nodes.len() as int,
                        );
                    }
                }
            }
        },
        ExprModel::Aggregate(_, _) => {},
    }
}

/// The decode plans are recorded on top of the operators that the plan
/// had, and none of them is a placeholder.
pub proof fn lemma_decode_parts_grows(
    plan: PlanModel,
    placeholder: BufferRef,
    parts: Seq<KeyPart>,
    n: nat,
)
    ensures
        grows_to(plan, decode_parts(plan, placeholder, parts, n).0),
        normal(
            decode_parts(plan, placeholder, parts, n).0,
            plan.nodes.len() as int,
            decode_parts(plan, placeholder, parts, n).0.nodes.len() as int,
        ),
    decreases n,
{
    if n > 0 {
        lemma_decode_parts_grows(plan, placeholder, parts, (n - 1) as nat);
        let before = decode_parts(plan, placeholder, parts, (n - 1) as nat);
        let after = decode_parts(plan, placeholder, parts, n);
        let unpacked = unpack(before.0, placeholder, parts, n - 1);
        let shifted = shift_back(unpacked.0, unpacked.1, parts[n - 1].min);
        let cast = cast_back(shifted.0, shifted.1, parts[n - 1].buffer.tag);
        assert(grows_to(before.0, unpacked.0));
        assert(grows_to(unpacked.0, shifted.0));
        assert(grows_to(shifted.0, cast.0));
        assert(grows_to(cast.0, after.0));
        lemma_grows_transitive(before.0, unpacked.0, shifted.0);
        lemma_grows_transitive(before.0, shifted.0, cast.0);
        lemma_grows_transitive(before.0, cast.0, after.0);
        lemma_grows_transitive(plan, before.0, after.0);
        lemma_normal_grows(
            before.0,
            after.0,
            plan.nodes.len() as int,
            before.0.nodes.len() as int,
        );
        assert forall|i: int| before.0.nodes.len() <= i < after.0.nodes.len() implies !((
        #[trigger] after.0.nodes[i]).op is Placeholder) && !(after.0.nodes[i].op is Alias) by {
            if i < unpacked.0.nodes.len() {
                assert(after.0.nodes[i] == unpacked.0.nodes[i]);
            } else if i < shifted.0.nodes.len() {
                assert(after.0.nodes[i] == shifted.0.nodes[i]);
            } else if i < cast.0.nodes.len() {
                assert(after.0.nodes[i] == cast.0.nodes[i]);
            }
        }
    }
}

/// Where the placeholder of a compiled grouping key stands, and what stands
/// around it: the operators of the key before it, none of them a
/// placeholder, and the decode plans after it, none of them a placeholder
/// either. The raw key is written before the placeholder.
pub proof fn lemma_grouping_key_shape(
    exprs: Seq<ExprModel>,
    filter: Filter,
    columns: Seq<ColumnModel>,
    partition_length: usize,
    plan: PlanModel,
)
    requires
        grouping_key(exprs, filter, columns, partition_length, plan) is Ok,
        grouping_key(exprs, filter, columns, partition_length, plan)->Ok_0.plan.nodes.len()
            <= usize::MAX,
    ensures
        ({
            let key = grouping_key(exprs, filter, columns, partition_length, plan)->Ok_0;
            let p = key.placeholder.id as int;
            &&& grows_to(plan, key.plan)
            &&& plan.nodes.len() <= p < key.plan.nodes.len()
            &&& key.plan.nodes[p].op is Placeholder
            &&& normal(key.plan, plan.nodes.len() as int, p)
            &&& normal(key.plan, p + 1, key.plan.nodes.len() as int)
            &&& key.key.id < p
        }),
{
    let key = grouping_key(exprs, filter, columns, partition_length, plan)->Ok_0;
    if exprs.len() == 0 {
    } else {
        let single = compile(exprs[0], filter, columns, plan)->Ok_0;
        let opaque = exprs.len() == 1 && part_of(
            single.1,
            single.2,
            key_range(single.0, columns, single.1.id as nat),
        ) is None;
        if opaque {
            let value = single;
            let held = value.0.emit(Operator::Placeholder, value.1.tag);
            lemma_compile_grows(exprs[0], filter, columns, plan);
            assert(grows_to(value.0, held));
            assert(grows_to(held, key.plan));
            lemma_grows_transitive(value.0, held, key.plan);
            lemma_grows_transitive(plan, value.0, key.plan);
            lemma_compile_clear(exprs[0], filter, columns, plan, 0, 0);
            lemma_clear_normal(value.0, plan.nodes.len() as int, value.0.nodes.len() as int, 0, 0);
            lemma_normal_grows(
                value.0,
                key.plan,
                plan.nodes.len() as int,
                value.0.nodes.len() as int,
            );
        } else {
            let packed = pack_parts(exprs, filter, columns, plan, exprs.len())->Ok_0;
            let held = packed.plan.emit(Operator::Placeholder, packed.key.unwrap().tag);
            lemma_pack_grows(exprs, filter, columns, plan, exprs.len());
            lemma_decode_parts_grows(held, key.placeholder, packed.parts, packed.parts.len());
            assert(grows_to(packed.plan, held));
            lemma_grows_transitive(packed.plan, held, key.plan);
            lemma_grows_transitive(plan, packed.plan, key.plan);
            lemma_normal_grows(
                packed.plan,
                key.plan,
                plan.nodes.len() as int,
                packed.plan.nodes.len() as int,
            );
        }
    }
}

/// Choosing the grouping records only operators that are clear of a zone
/// which the raw key lies outside of.
pub proof fn lemma_group_rows_clear(
    plan: PlanModel,
    key: BufferRef,
    key_type: Type,
    max: i64,
    lo: int,
    hi: int,
)
    requires
        group_rows(plan, key, key_type, max) is Ok,
        group_rows(plan, key, key_type, max)->Ok_0.plan.nodes.len() <= usize::MAX,
        outside(key, lo, hi),
        key.id < plan.nodes.len(),
        hi <= plan.nodes.len(),
    ensures
        ({
            let grouping = group_rows(plan, key, key_type, max)->Ok_0;
            &&& grows_to(plan, grouping.plan)
            &&& clear(grouping.plan, plan.nodes.len() as int, grouping.plan.nodes.len() as int, lo, hi)
            &&& outside(grouping.key, lo, hi)
            &&& grouping.key.id < grouping.plan.nodes.len()
            &&& outside(grouping.cardinality, lo, hi)
            &&& grouping.cardinality.id < grouping.plan.nodes.len()
            &&& grouping.encoded_column matches Some(column) ==> column.id == plan.nodes.len()
        }),
{
    let grouping = group_rows(plan, key, key_type, max)->Ok_0;
    let start = plan.nodes.len() as int;
    assert(clear_at(grouping.plan, start, lo, hi));
    if !uses_dense(key_type, max) {
        assert(clear_at(grouping.plan, start + 1, lo, hi));
        assert(clear_at(grouping.plan, start + 2, lo, hi));
    }
}

/// Reducing the aggregates records only operators that are clear of a zone
/// which the filter, the grouping key and the cardinality lie outside of.
pub proof fn lemma_aggregate_all_clear(
    aggregates: Seq<(Aggregator, ExprModel)>,
    filter: Filter,
    columns: Seq<ColumnModel>,
    plan: PlanModel,
    grouping_key: BufferRef,
    cardinality: BufferRef,
    n: nat,
    lo: int,
    hi: int,
)
    requires
        aggregate_all(aggregates, filter, columns, plan, grouping_key, cardinality, n) is Ok,
        aggregate_all(
            aggregates,
            filter,
            columns,
            plan,
            grouping_key,
            cardinality,
            n,
        )->Ok_0.plan.nodes.len() <= usize::MAX,
        filter_outside(filter, lo, hi),
        outside(grouping_key, lo, hi),
        outside(cardinality, lo, hi),
        hi <= plan.nodes.len(),
    ensures
        ({
            let state = aggregate_all(
                aggregates,
                filter,
                columns,
                plan,
                grouping_key,
                cardinality,
                n,
            )->Ok_0;
            &&& grows_to(plan, state.plan)
            &&& clear(state.plan, plan.nodes.len() as int, state.plan.nodes.len() as int, lo, hi)
            &&& state.selector matches Some(count) ==> plan.nodes.len() <= count.1.id
                < state.plan.nodes.len()
        }),
    decreases n,
{
    if n > 0 {
        let before = aggregate_all(
            aggregates,
            filter,
            columns,
            plan,
            grouping_key,
            cardinality,
            (n - 1) as nat,
        )->Ok_0;
        let state = aggregate_all(
            aggregates,
            filter,
            columns,
            plan,
            grouping_key,
            cardinality,
            n,
        )->Ok_0;
        let value = compile(aggregates[n - 1].1, filter, columns, before.plan)->Ok_0;
        let decoded = decode_if_encoded(value.0, value.1, value.2);
        lemma_compile_grows(aggregates[n - 1].1, filter, columns, before.plan);
        assert(grows_to(value.0, decoded.0));
        let reduced = if aggregates[n - 1].0 == Aggregator::Sum {
            decoded.0
        } else {
            value.0
        };
        assert(grows_to(value.0, reduced));
        assert(grows_to(reduced, state.plan));
        lemma_grows_transitive(value.0, reduced, state.plan);
        lemma_grows_transitive(before.plan, value.0, state.plan);
        lemma_aggregate_all_clear(
            aggregates,
            filter,
            columns,
            plan,
            grouping_key,
            cardinality,
            (n - 1) as nat,
            lo,
            hi,
        );
        lemma_grows_transitive(plan, before.plan, state.plan);
        lemma_compile_clear(aggregates[n - 1].1, filter, columns, before.plan, lo, hi);
        lemma_clear_grows(
            before.plan,
            state.plan,
            plan.nodes.len() as int,
            before.plan.nodes.len() as int,
            lo,
            hi,
        );
        lemma_clear_grows(
            value.0,
            state.plan,
            before.plan.nodes.len() as int,
            value.0.nodes.len() as int,
            lo,
            hi,
        );
        if aggregates[n - 1].0 == Aggregator::Sum {
            lemma_decode_clear(value.0, value.1, value.2, lo, hi);
            lemma_clear_grows(
                decoded.0,
                state.plan,
                value.0.nodes.len() as int,
                decoded.0.nodes.len() as int,
                lo,
                hi,
            );
        }
        assert(clear_at(state.plan, reduced.nodes.len() as int, lo, hi));
    }
}

proof fn lemma_compact_others_grows(
    results: Seq<(Aggregator, BufferRef, Type)>,
    skip: Option<usize>,
    selector: BufferRef,
    plan: PlanModel,
    n: nat,
)
    ensures
        grows_to(plan, compact_others(results, skip, selector, plan, n).0),
        normal(
            compact_others(results, skip, selector, plan, n).0,
            plan.nodes.len() as int,
            compact_others(results, skip, selector, plan, n).0.nodes.len() as int,
        ),
    decreases n,
{
    if n > 0 {
        lemma_compact_others_grows(results, skip, selector, plan, (n - 1) as nat);
        let before = compact_others(results, skip, selector, plan, (n - 1) as nat);
        let after = compact_others(results, skip, selector, plan, n);
        if skip != Some((n - 1) as usize) {
            lemma_compact_one_grows(before.0, results[n - 1], selector);
            lemma_grows_transitive(plan, before.0, after.0);
            lemma_normal_grows(
                before.0,
                after.0,
                plan.nodes.len() as int,
                before.0.nodes.len() as int,
            );
        }
    }
}

proof fn lemma_compact_one_grows(
    plan: PlanModel,
    result: (Aggregator, BufferRef, Type),
    selector: BufferRef,
)
    ensures
        grows_to(plan, compact_one(plan, result, selector).0),
        normal(
            compact_one(plan, result, selector).0,
            plan.nodes.len() as int,
            compact_one(plan, result, selector).0.nodes.len() as int,
        ),
{
    let compacted = match result.0 {
        Aggregator::Sum => plan.emit(
            Operator::Compact { input: result.1, selector },
            result.1.tag,
        ),
        Aggregator::Count => plan.emit(Operator::NonzeroCompact { input: result.1 }, result.1.tag),
    };
    let after = compact_one(plan, result, selector).0;
    assert(grows_to(plan, compacted));
    assert(grows_to(compacted, after));
    lemma_grows_transitive(plan, compacted, after);
    assert forall|i: int| plan.nodes.len() <= i < after.nodes.len() implies !((
    #[trigger] after.nodes[i]).op is Placeholder) && !(after.nodes[i].op is Alias) by {
        if i < compacted.nodes.len() {
            assert(after.nodes[i] == compacted.nodes[i]);
        }
    }
}

proof fn lemma_gather_grows(plan: PlanModel, buffers: Seq<BufferRef>, indices: BufferRef, n: nat)
    ensures
        grows_to(plan, gather_all(plan, buffers, indices, n).0),
        normal(
            gather_all(plan, buffers, indices, n).0,
            plan.nodes.len() as int,
            gather_all(plan, buffers, indices, n).0.nodes.len() as int,
        ),
    decreases n,
{
    if n > 0 {
        lemma_gather_grows(plan, buffers, indices, (n - 1) as nat);
        let before = gather_all(plan, buffers, indices, (n - 1) as nat);
        let after = gather_all(plan, buffers, indices, n);
        assert(grows_to(before.0, after.0));
        lemma_grows_transitive(plan, before.0, after.0);
        lemma_normal_grows(before.0, after.0, plan.nodes.len() as int, before.0.nodes.len() as int);
    }
}

/// The plan up to the producer of the group keys, and the producer.
pub open spec fn producer(
    aggregates: Seq<(Aggregator, ExprModel)>,
    filter: Filter,
    columns: Seq<ColumnModel>,
    key: GroupingKeyModel,
) -> (PlanModel, BufferRef) {
    let grouping = group_rows(key.plan, key.key, key.key_type, key.max)->Ok_0;
    let aggregated = aggregate_all(
        aggregates,
        filter,
        columns,
        grouping.plan,
        grouping.key,
        grouping.cardinality,
        aggregates.len(),
    )->Ok_0;
    let selected = select_groups(
        aggregated.plan,
        aggregated.selector,
        grouping.key,
        grouping.cardinality,
    );
    group_column(selected.0, grouping.encoded_column, selected.1, key.key.tag)
}

/// Between the decode plans and the producer of the group keys, the
/// producer included, every operator is clear of a zone which the filter
/// and the raw key lie outside of.
pub proof fn lemma_producer_clear(
    aggregates: Seq<(Aggregator, ExprModel)>,
    filter: Filter,
    columns: Seq<ColumnModel>,
    key: GroupingKeyModel,
    lo: int,
    hi: int,
)
    requires
        group_rows(key.plan, key.key, key.key_type, key.max) is Ok,
        aggregate_all(
            aggregates,
            filter,
            columns,
            group_rows(key.plan, key.key, key.key_type, key.max)->Ok_0.plan,
            group_rows(key.plan, key.key, key.key_type, key.max)->Ok_0.key,
            group_rows(key.plan, key.key, key.key_type, key.max)->Ok_0.cardinality,
            aggregates.len(),
        ) is Ok,
        producer(aggregates, filter, columns, key).0.nodes.len() <= usize::MAX,
        filter_outside(filter, lo, hi),
        outside(key.key, lo, hi),
        key.key.id < key.plan.nodes.len(),
        hi <= key.plan.nodes.len(),
    ensures
        ({
            let made = producer(aggregates, filter, columns, key);
            &&& grows_to(key.plan, made.0)
            &&& clear(made.0, key.plan.nodes.len() as int, made.0.nodes.len() as int, lo, hi)
            &&& key.plan.nodes.len() <= made.1.id < made.0.nodes.len()
        }),
{
    let start = key.plan.nodes.len() as int;
    let grouping = group_rows(key.plan, key.key, key.key_type, key.max)->Ok_0;
    let aggregated = aggregate_all(
        aggregates,
        filter,
        columns,
        grouping.plan,
        grouping.key,
        grouping.cardinality,
        aggregates.len(),
    )->Ok_0;
    let selected = select_groups(
        aggregated.plan,
        aggregated.selector,
        grouping.key,
        grouping.cardinality,
    );
    let made = group_column(selected.0, grouping.encoded_column, selected.1, key.key.tag);
    assert(grows_to(aggregated.plan, selected.0));
    assert(grows_to(selected.0, made.0));
    lemma_grows_transitive(aggregated.plan, selected.0, made.0);
    lemma_aggregate_grows(
        aggregates,
        filter,
        columns,
        grouping.plan,
        grouping.key,
        grouping.cardinality,
        aggregates.len(),
    );
    lemma_grows_transitive(grouping.plan, aggregated.plan, made.0);
    lemma_group_rows_clear(key.plan, key.key, key.key_type, key.max, lo, hi);
    lemma_grows_transitive(key.plan, grouping.plan, made.0);
    lemma_aggregate_all_clear(
        aggregates,
        filter,
        columns,
        grouping.plan,
        grouping.key,
        grouping.cardinality,
        aggregates.len(),
        lo,
        hi,
    );
    lemma_clear_grows(
        grouping.plan,
        made.0,
        start,
        grouping.plan.nodes.len() as int,
        lo,
        hi,
    );
    lemma_clear_grows(
        aggregated.plan,
        made.0,
        grouping.plan.nodes.len() as int,
        aggregated.plan.nodes.len() as int,
        lo,
        hi,
    );
    assert forall|i: int| aggregated.plan.nodes.len() <= i < made.0.nodes.len() implies #[trigger] clear_at(
        made.0,
        i,
        lo,
        hi,
    ) by {
        if i < selected.0.nodes.len() {
            assert(made.0.nodes[i] == selected.0.nodes[i]);
        }
    }
}

/// The plans of the aggregate path can be scheduled: connecting the
/// placeholder of the grouping key to the keys of the groups closes no
/// cycle.
pub proof fn law_aggregate_plans_schedule(
    stage: StageModel,
    columns: Seq<ColumnModel>,
    partition_length: usize,
)
    requires
        aggregate_plan(stage, columns, partition_length) is Ok,
        aggregate_plan(stage, columns, partition_length)->Ok_0.plan.well_formed(),
        aggregate_plan(stage, columns, partition_length)->Ok_0.plan.nodes.len() <= usize::MAX,
    ensures
        schedulable(aggregate_plan(stage, columns, partition_length)->Ok_0.plan.nodes),
{
    let last = aggregate_plan(stage, columns, partition_length)->Ok_0.plan;
    let mask = compile(stage.filter, Filter::NoFilter, columns, PlanModel::empty())->Ok_0;
    let filter = mask_filter(mask.1);
    let key = grouping_key(stage.projection, filter, columns, partition_length, mask.0)->Ok_0;
    let grouping = group_rows(key.plan, key.key, key.key_type, key.max)->Ok_0;
    let aggregated = aggregate_all(
        stage.aggregate,
        filter,
        columns,
        grouping.plan,
        grouping.key,
        grouping.cardinality,
        stage.aggregate.len(),
    )->Ok_0;
    let selected = select_groups(
        aggregated.plan,
        aggregated.selector,
        grouping.key,
        grouping.cardinality,
    );
    let made = producer(stage.aggregate, filter, columns, key);
    let connected = made.0.connect(made.1, key.placeholder);
    lemma_finish_grows(
        aggregated.results,
        aggregated.selector,
        selected.1,
        connected,
        plan_buffers(key.decode_plans),
        grouping.key_type,
        key.key_type,
        made.1,
    );
    assert(grows_to(aggregated.plan, selected.0));
    assert(grows_to(selected.0, made.0));
    lemma_aggregate_grows(
        stage.aggregate,
        filter,
        columns,
        grouping.plan,
        grouping.key,
        grouping.cardinality,
        stage.aggregate.len(),
    );
    assert(grows_to(key.plan, grouping.plan));
    lemma_grouping_key_shape(stage.projection, filter, columns, partition_length, mask.0);
    lemma_compile_clear(stage.filter, Filter::NoFilter, columns, PlanModel::empty(), 0, 0);
    let p = key.placeholder.id as int;
    let d = key.plan.nodes.len() - 1;
    let s = made.1.id as int;
    lemma_producer_clear(stage.aggregate, filter, columns, key, p, d + 1);
    assert(connected.nodes[p].op == Operator::Alias { source: made.1 });
    lemma_clear_normal(mask.0, 0, mask.0.nodes.len() as int, 0, 0);
    lemma_clear_normal(made.0, d + 1, made.0.nodes.len() as int, p, d + 1);
    assert forall|i: int| 0 <= i < last.nodes.len() && i != p implies !((
    #[trigger] last.nodes[i]).op is Placeholder) && !(last.nodes[i].op is Alias) by {
        if i < connected.nodes.len() {
            assert(last.nodes[i] == connected.nodes[i]);
            assert(connected.nodes[i] == made.0.nodes[i]);
            if i <= d {
                assert(made.0.nodes[i] == key.plan.nodes[i]);
                if i < mask.0.nodes.len() {
                    assert(key.plan.nodes[i] == mask.0.nodes[i]);
                }
            }
        }
    }
    assert forall|i: int| d + 1 <= i < s + 1 && 0 <= i < last.nodes.len() implies #[trigger] clear_at(
        last,
        i,
        p,
        d + 1,
    ) by {
        assert(last.nodes[i] == connected.nodes[i]);
        assert(connected.nodes[i] == made.0.nodes[i]);
        assert(clear_at(made.0, i, p, d + 1));
    }
    assert(last.nodes[p] == connected.nodes[p]);
    lemma_detour_schedulable(last, p, d, s);
}

/// Compacting the aggregates and ordering the groups records only operators
/// that are no placeholders, on top of the operators that the plan had.
pub proof fn lemma_finish_grows(
    results: Seq<(Aggregator, BufferRef, Type)>,
    chosen: Option<(usize, BufferRef)>,
    selector: BufferRef,
    plan: PlanModel,
    groups: Seq<BufferRef>,
    key_type: Type,
    raw_type: Type,
    column: BufferRef,
)
    requires
        restore_order(
            Columns {
                plan: compact_all(results, chosen, selector, plan).0,
                groups,
                aggregates: compact_all(results, chosen, selector, plan).1,
            },
            key_type,
            raw_type,
            column,
        ) is Ok,
    ensures
        ({
            let compacted = compact_all(results, chosen, selector, plan);
            let ordered = restore_order(
                Columns { plan: compacted.0, groups, aggregates: compacted.1 },
                key_type,
                raw_type,
                column,
            )->Ok_0;
            &&& grows_to(plan, ordered.plan)
            &&& normal(ordered.plan, plan.nodes.len() as int, ordered.plan.nodes.len() as int)
        }),
{
    let compacted = compact_all(results, chosen, selector, plan);
    let columns = Columns { plan: compacted.0, groups, aggregates: compacted.1 };
    let ordered = restore_order(columns, key_type, raw_type, column)->Ok_0;
    match chosen {
        Some(count) => {
            let others = compact_others(results, Some(count.0), selector, plan, results.len());
            lemma_compact_others_grows(results, Some(count.0), selector, plan, results.len());
            lemma_compact_one_grows(others.0, results[count.0 as int], selector);
            lemma_grows_transitive(plan, others.0, compacted.0);
            lemma_normal_grows(
                others.0,
                compacted.0,
                plan.nodes.len() as int,
                others.0.nodes.len() as int,
            );
        },
        None => {
            lemma_compact_others_grows(results, None, selector, plan, results.len());
        },
    }
    if !key_type.order_preserving {
        let source = sort_source(raw_type, column, groups)->Some_0;
        let indices = compacted.0.emit(Operator::Indices { input: source }, EncodingType::USize);
        let sorted = indices.emit(
            Operator::SortBy {
                ranking: source,
                indices: compacted.0.next(EncodingType::USize),
                desc: false,
                stable: false,
            },
            EncodingType::USize,
        );
        let order = indices.next(EncodingType::USize);
        let aggregates = gather_all(sorted, compacted.1, order, compacted.1.len());
        lemma_gather_grows(sorted, compacted.1, order, compacted.1.len());
        lemma_gather_grows(aggregates.0, groups, order, groups.len());
        assert(grows_to(compacted.0, indices));
        assert(grows_to(indices, sorted));
        lemma_grows_transitive(compacted.0, indices, sorted);
        lemma_grows_transitive(compacted.0, sorted, aggregates.0);
        lemma_grows_transitive(compacted.0, aggregates.0, ordered.plan);
        lemma_grows_transitive(sorted, aggregates.0, ordered.plan);
        lemma_grows_transitive(plan, compacted.0, ordered.plan);
        lemma_normal_grows(
            compacted.0,
            ordered.plan,
            plan.nodes.len() as int,
            compacted.0.nodes.len() as int,
        );
        lemma_normal_grows(
            aggregates.0,
            ordered.plan,
            sorted.nodes.len() as int,
            aggregates.0.nodes.len() as int,
        );
        assert forall|i: int| compacted.0.nodes.len() <= i < sorted.nodes.len() implies !((
        #[trigger] ordered.plan.nodes[i]).op is Placeholder) && !(ordered.plan.nodes[i].op
            is Alias) by {
            assert(ordered.plan.nodes[i] == sorted.nodes[i]);
        }
    }
}

} // verus!
