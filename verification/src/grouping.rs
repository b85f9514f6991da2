//! The grouping key: all grouping columns packed into one integer.
//!
//! A grouping column whose stored values are integers between known bounds
//! `min` and `max` contributes the digit `value - min` in the radix
//! `max - min + 1`. The key is the number that these digits spell, first
//! column first. The group columns are recovered from a key by dividing by
//! the radices of the later columns and reducing modulo the column's own.
//!
//! A single column without known bounds is its own key, of unknown size.

use vstd::prelude::*;
use vstd::arithmetic::mul::{lemma_mul_is_associative, lemma_mul_strictly_positive};
use crate::expr::{exprs_model, Expr, ExprModel, Func2Type};
use crate::planner::{lemma_extends_transitive, BufferRef, Operator, PlanModel, QueryPlanner};
use crate::query_plan::{
    apply_filter, compile, compile_expr, compiled, decode, decode_if_encoded, filter_data,
    Filter, Lowered,
};
use crate::types::{columns_model, Column, ColumnModel, EncodingType, QueryError, Type};

verus! {

/// One grouping column as it enters the key.
#[derive(Clone, Copy, Debug, PartialEq, Eq, Structural)]
pub struct KeyPart {
    /// The compiled column.
    pub buffer: BufferRef,
    pub typ: Type,
    /// The least stored value.
    pub min: i64,
    /// The number of possible stored values.
    pub radix: i64,
}

/// The greatest key of a single column without known bounds.
pub const UNBOUNDED_KEY: i64 = 4611686018427387904i64;

/// The bounds of the stored values of the buffer at `id`: those of the
/// column that the buffer reads, directly or through filters, provided that
/// the column stores integers.
pub open spec fn key_range(plan: PlanModel, columns: Seq<ColumnModel>, id: nat) -> Option<
    (i64, i64),
>
    decreases id,
{
    if id >= plan.nodes.len() {
        None
    } else {
        match plan.nodes[id as int].op {
            Operator::ReadColumn { column } => if column < columns.len()
                && columns[column as int].encoding.is_integer() {
                columns[column as int].range
            } else {
                None
            },
            Operator::Filter { input, .. } => if input.id < id {
                key_range(plan, columns, input.id as nat)
            } else {
                None
            },
            Operator::NullableFilter { input, .. } => if input.id < id {
                key_range(plan, columns, input.id as nat)
            } else {
                None
            },
            Operator::Select { input, .. } => if input.id < id {
                key_range(plan, columns, input.id as nat)
            } else {
                None
            },
            _ => None,
        }
    }
}

/// The part that a column with the given bounds contributes, where the
/// bounds are known, in order, and span fewer values than fit.
pub open spec fn part_of(buffer: BufferRef, typ: Type, range: Option<(i64, i64)>) -> Option<
    KeyPart,
> {
    match range {
        Some(bounds) => if bounds.0 <= bounds.1 && bounds.1 - bounds.0 < i64::MAX {
            Some(KeyPart { buffer, typ, min: bounds.0, radix: (bounds.1 - bounds.0 + 1) as i64 })
        } else {
            None
        },
        None => None,
    }
}

/// The product of the radices of the parts from position `from` on.
pub open spec fn radix_product(parts: Seq<KeyPart>, from: int) -> int
    decreases parts.len() - from,
{
    if from >= parts.len() {
        1
    } else {
        parts[from].radix * radix_product(parts, from + 1)
    }
}

/// Whether every part has at least one possible value.
pub open spec fn radices_positive(parts: Seq<KeyPart>) -> bool {
    forall|i: int| 0 <= i < parts.len() ==> (#[trigger] parts[i]).radix >= 1
}

/// Whether the stored order of every part is its logical order.
pub open spec fn parts_order_preserving(parts: Seq<KeyPart>) -> bool {
    forall|i: int| 0 <= i < parts.len() ==> (#[trigger] parts[i]).typ.order_preserving
}

/// The key so far: the plan, the buffer of the packed key, and the parts
/// that it is made of.
pub struct Packed {
    pub plan: PlanModel,
    pub key: Option<BufferRef>,
    pub parts: Seq<KeyPart>,
}

/// The digit of a part: its values less the least one.
pub open spec fn adjust(plan: PlanModel, part: KeyPart) -> (PlanModel, BufferRef) {
    if part.min == 0 {
        (plan, part.buffer)
    } else {
        let scalar = plan.emit(
            Operator::ScalarI64 { value: part.min, positive: part.min >= 0 },
            EncodingType::ScalarI64,
        );
        (
            scalar.emit(
                Operator::Func2 {
                    binary: Func2Type::Subtract,
                    left: part.buffer,
                    right: plan.next(EncodingType::ScalarI64),
                },
                EncodingType::I64,
            ),
            scalar.next(EncodingType::I64),
        )
    }
}

/// Appends a digit to the key.
pub open spec fn combine(plan: PlanModel, key: Option<BufferRef>, low: BufferRef, radix: i64) -> (
    PlanModel,
    BufferRef,
) {
    match key {
        Some(high) => (
            plan.emit(Operator::Pack { high, low, radix }, EncodingType::I64),
            plan.next(EncodingType::I64),
        ),
        None => (plan, low),
    }
}

/// Takes one compiled part into the key. Fails with `NotImplemented` where
/// the greatest key would no longer fit.
pub open spec fn pack_value(state: Packed, plan: PlanModel, part: KeyPart) -> Result<
    Packed,
    QueryError,
> {
    if radix_product(state.parts.push(part), 0) > i64::MAX {
        Err(QueryError::NotImplemented)
    } else {
        let adjusted = adjust(plan, part);
        let combined = combine(adjusted.0, state.key, adjusted.1, part.radix);
        Ok(Packed { plan: combined.0, key: Some(combined.1), parts: state.parts.push(part) })
    }
}

/// Compiles one grouping expression and takes it into the key. Fails with
/// `NotImplemented` where the bounds of the expression are not known.
pub open spec fn pack_part(
    state: Packed,
    e: ExprModel,
    filter: Filter,
    columns: Seq<ColumnModel>,
) -> Result<Packed, QueryError> {
    match compile(e, filter, columns, state.plan) {
        Ok(value) => match part_of(
            value.1,
            value.2,
            key_range(value.0, columns, value.1.id as nat),
        ) {
            Some(part) => pack_value(state, value.0, part),
            None => Err(QueryError::NotImplemented),
        },
        Err(e) => Err(e),
    }
}

/// The key of the first `n` grouping expressions.
pub open spec fn pack_parts(
    exprs: Seq<ExprModel>,
    filter: Filter,
    columns: Seq<ColumnModel>,
    plan: PlanModel,
    n: nat,
) -> Result<Packed, QueryError>
    decreases n,
{
    if n == 0 {
        Ok(Packed { plan, key: None, parts: seq![] })
    } else {
        match pack_parts(exprs, filter, columns, plan, (n - 1) as nat) {
            Ok(state) => pack_part(state, exprs[n - 1], filter, columns),
            Err(e) => Err(e),
        }
    }
}

/// The digit of part `i` in a key: the key itself where it has one part,
/// else the key divided by the radices of the later parts, modulo the
/// part's own radix.
pub open spec fn unpack(plan: PlanModel, placeholder: BufferRef, parts: Seq<KeyPart>, i: int) -> (
    PlanModel,
    BufferRef,
) {
    if parts.len() == 1 {
        (plan, placeholder)
    } else {
        (
            plan.emit(
                Operator::Unpack {
                    input: placeholder,
                    divisor: radix_product(parts, i + 1) as i64,
                    radix: parts[i].radix,
                },
                EncodingType::I64,
            ),
            plan.next(EncodingType::I64),
        )
    }
}

/// The stored value for a digit: the digit plus the least value.
pub open spec fn shift_back(plan: PlanModel, digit: BufferRef, min: i64) -> (
    PlanModel,
    BufferRef,
) {
    if min == 0 {
        (plan, digit)
    } else {
        let scalar = plan.emit(
            Operator::ScalarI64 { value: min, positive: min >= 0 },
            EncodingType::ScalarI64,
        );
        (
            scalar.emit(
                Operator::Func2 {
                    binary: Func2Type::Add,
                    left: digit,
                    right: plan.next(EncodingType::ScalarI64),
                },
                EncodingType::I64,
            ),
            scalar.next(EncodingType::I64),
        )
    }
}

/// The value in the encoding `tag`.
pub open spec fn cast_back(plan: PlanModel, value: BufferRef, tag: EncodingType) -> (
    PlanModel,
    BufferRef,
) {
    if value.tag == tag {
        (plan, value)
    } else {
        (plan.emit(Operator::Cast { input: value }, tag), plan.next(tag))
    }
}

/// Recovers the group column of part `i` from the keys in `placeholder`:
/// unpacks the digit, adds the least value, restores the stored encoding
/// and decodes.
pub open spec fn decode_part(
    plan: PlanModel,
    placeholder: BufferRef,
    parts: Seq<KeyPart>,
    i: int,
) -> Lowered {
    let unpacked = unpack(plan, placeholder, parts, i);
    let shifted = shift_back(unpacked.0, unpacked.1, parts[i].min);
    let cast = cast_back(shifted.0, shifted.1, parts[i].buffer.tag);
    decode_if_encoded(cast.0, cast.1, parts[i].typ)
}

/// Recovers the group columns of the first `n` parts.
pub open spec fn decode_parts(
    plan: PlanModel,
    placeholder: BufferRef,
    parts: Seq<KeyPart>,
    n: nat,
) -> (PlanModel, Seq<(BufferRef, Type)>)
    decreases n,
{
    if n == 0 {
        (plan, seq![])
    } else {
        let before = decode_parts(plan, placeholder, parts, (n - 1) as nat);
        let part = decode_part(before.0, placeholder, parts, n - 1);
        (part.0, before.1.push((part.1, part.2)))
    }
}

/// The type of a packed key. A single part that needs no adjustment is the
/// key, with its own type. Any other key is an integer that is at least
/// zero, and preserves order where all its parts do.
pub open spec fn packed_type(parts: Seq<KeyPart>) -> Type {
    if parts.len() == 1 && parts[0].min == 0 {
        parts[0].typ
    } else {
        Type {
            encoding: EncodingType::I64,
            codec: None,
            order_preserving: parts_order_preserving(parts),
            positive: true,
        }
    }
}

/// A compiled grouping key.
pub struct GroupingKeyModel {
    pub plan: PlanModel,
    /// The raw grouping key and its type.
    pub key: BufferRef,
    pub key_type: Type,
    /// The greatest value that the key can take.
    pub max: i64,
    /// The group columns as computed from the buffer `placeholder`.
    pub decode_plans: Seq<(BufferRef, Type)>,
    /// Stands for the keys of the groups; to be connected once they are
    /// known.
    pub placeholder: BufferRef,
}

/// The key of a query without grouping columns: every row has key zero.
pub open spec fn empty_key(plan: PlanModel, filter: Filter, partition_length: usize) -> GroupingKeyModel {
    let rows = plan.emit(Operator::NullVec { len: partition_length }, EncodingType::U8);
    let filtered = apply_filter(rows, plan.next(EncodingType::U8), filter);
    GroupingKeyModel {
        plan: filtered.0.emit(Operator::Placeholder, EncodingType::U8),
        key: filtered.1,
        key_type: Type::unsigned(EncodingType::U8),
        max: 0,
        decode_plans: seq![],
        placeholder: filtered.0.next(EncodingType::U8),
    }
}

/// The key of a single column without known bounds: the column itself.
pub open spec fn opaque_key(value: Lowered) -> GroupingKeyModel {
    let held = value.0.emit(Operator::Placeholder, value.1.tag);
    let placeholder = value.0.next(value.1.tag);
    let decoded = decode_if_encoded(held, placeholder, value.2);
    GroupingKeyModel {
        plan: decoded.0,
        key: value.1,
        key_type: value.2,
        max: UNBOUNDED_KEY,
        decode_plans: seq![(decoded.1, decoded.2)],
        placeholder,
    }
}

/// The key that the parts of `packed` spell, with the plans that recover
/// the group columns from it.
pub open spec fn packed_key(packed: Packed) -> GroupingKeyModel {
    let key = packed.key.unwrap();
    let held = packed.plan.emit(Operator::Placeholder, key.tag);
    let placeholder = packed.plan.next(key.tag);
    let decoded = decode_parts(held, placeholder, packed.parts, packed.parts.len());
    GroupingKeyModel {
        plan: decoded.0,
        key,
        key_type: packed_type(packed.parts),
        max: (radix_product(packed.parts, 0) - 1) as i64,
        decode_plans: decoded.1,
        placeholder,
    }
}

/// The key of all grouping expressions, packed.
pub open spec fn pack_all(
    exprs: Seq<ExprModel>,
    filter: Filter,
    columns: Seq<ColumnModel>,
    plan: PlanModel,
) -> Result<GroupingKeyModel, QueryError> {
    match pack_parts(exprs, filter, columns, plan, exprs.len()) {
        Ok(packed) => Ok(packed_key(packed)),
        Err(e) => Err(e),
    }
}

/// The grouping key of a list of expressions under a filter.
///
/// Fails with the first error of compiling an expression. With two or more
/// expressions it fails with `NotImplemented` at the first expression
/// whose bounds are not known, or at which the greatest key no longer fits.
pub open spec fn grouping_key(
    exprs: Seq<ExprModel>,
    filter: Filter,
    columns: Seq<ColumnModel>,
    partition_length: usize,
    plan: PlanModel,
) -> Result<GroupingKeyModel, QueryError> {
    if exprs.len() == 0 {
        Ok(empty_key(plan, filter, partition_length))
    } else if exprs.len() == 1 {
        match compile(exprs[0], filter, columns, plan) {
            Ok(value) => if part_of(
                value.1,
                value.2,
                key_range(value.0, columns, value.1.id as nat),
            ) is None {
                Ok(opaque_key(value))
            } else {
                pack_all(exprs, filter, columns, plan)
            },
            Err(e) => Err(e),
        }
    } else {
        pack_all(exprs, filter, columns, plan)
    }
}

/// Appending a part multiplies every product of radices by its radix.
pub proof fn lemma_product_push(parts: Seq<KeyPart>, part: KeyPart, from: int)
    requires
        0 <= from <= parts.len(),
    ensures
        radix_product(parts.push(part), from) == radix_product(parts, from) * part.radix,
    decreases parts.len() - from,
{
    let longer = parts.push(part);
    if from == parts.len() {
        assert(radix_product(longer, from + 1) == 1);
        assert(longer[from] == part);
        assert(radix_product(longer, from) == part.radix * 1);
    } else {
        lemma_product_push(parts, part, from + 1);
        assert(longer[from] == parts[from]);
        lemma_mul_is_associative(
            parts[from].radix as int,
            radix_product(parts, from + 1),
            part.radix as int,
        );
    }
}

/// With positive radices, products are positive and shrink towards the end.
pub proof fn lemma_product_bounds(parts: Seq<KeyPart>, from: int)
    requires
        0 <= from <= parts.len(),
        radices_positive(parts),
    ensures
        1 <= radix_product(parts, from) <= radix_product(parts, 0),
    decreases from,
{
    lemma_product_positive(parts, from);
    if from > 0 {
        lemma_product_bounds(parts, from - 1);
        lemma_product_positive(parts, from - 1);
        let rest = radix_product(parts, from);
        let radix = parts[from - 1].radix as int;
        assert(radix * rest >= rest) by (nonlinear_arith)
            requires
                radix >= 1,
                rest >= 1,
        ;
    }
}

proof fn lemma_product_positive(parts: Seq<KeyPart>, from: int)
    requires
        0 <= from <= parts.len(),
        radices_positive(parts),
    ensures
        1 <= radix_product(parts, from),
    decreases parts.len() - from,
{
    if from < parts.len() {
        lemma_product_positive(parts, from + 1);
        lemma_mul_strictly_positive(parts[from].radix as int, radix_product(parts, from + 1));
    }
}

proof fn lemma_pack_fails(
    exprs: Seq<ExprModel>,
    filter: Filter,
    columns: Seq<ColumnModel>,
    plan: PlanModel,
    m: nat,
    n: nat,
)
    requires
        m <= n,
        pack_parts(exprs, filter, columns, plan, m) is Err,
    ensures
        pack_parts(exprs, filter, columns, plan, n) == pack_parts(exprs, filter, columns, plan, m),
    decreases n,
{
    if m < n {
        lemma_pack_fails(exprs, filter, columns, plan, m, (n - 1) as nat);
    }
}

/// The bounds of the stored values of a buffer.
pub fn range_of(planner: &QueryPlanner, columns: &Vec<Column>, buffer: BufferRef) -> (r: Option<
    (i64, i64),
>)
    ensures
        r == key_range(planner@, columns_model(columns@), buffer.id as nat),
{
    let ghost plan = planner@;
    let ghost cols = columns_model(columns@);
    let mut id: usize = buffer.id;
    loop
        invariant
            plan == planner@,
            cols == columns_model(columns@),
            key_range(plan, cols, id as nat) == key_range(plan, cols, buffer.id as nat),
        decreases id,
    {
        if id >= planner.nodes.len() {
            return None;
        }
        match planner.nodes[id].op {
            Operator::ReadColumn { column } => {
                if column < columns.len() && columns[column].encoding.integer() {
                    return columns[column].range;
                } else {
                    return None;
                }
            },
            Operator::Filter { input, .. } => {
                if input.id < id {
                    id = input.id;
                } else {
                    return None;
                }
            },
            Operator::NullableFilter { input, .. } => {
                if input.id < id {
                    id = input.id;
                } else {
                    return None;
                }
            },
            Operator::Select { input, .. } => {
                if input.id < id {
                    id = input.id;
                } else {
                    return None;
                }
            },
            _ => {
                return None;
            },
        }
    }
}

fn make_part(buffer: BufferRef, typ: Type, range: Option<(i64, i64)>) -> (r: Option<KeyPart>)
    ensures
        r == part_of(buffer, typ, range),
{
    match range {
        Some(bounds) => {
            if bounds.0 <= bounds.1 {
                match bounds.1.checked_sub(bounds.0) {
                    Some(span) => {
                        if span < i64::MAX {
                            Some(KeyPart { buffer, typ, min: bounds.0, radix: span + 1 })
                        } else {
                            None
                        }
                    },
                    None => None,
                }
            } else {
                None
            }
        },
        None => None,
    }
}

/// The key under construction.
struct PackState {
    key: Option<BufferRef>,
    parts: Vec<KeyPart>,
    product: i64,
}

impl PackState {
    spec fn model(self, plan: PlanModel) -> Packed {
        Packed { plan, key: self.key, parts: self.parts@ }
    }

    spec fn fits(self, plan: PlanModel) -> bool {
        &&& self.product == radix_product(self.parts@, 0)
        &&& radices_positive(self.parts@)
        &&& self.key matches Some(key) ==> plan.holds(key)
        &&& self.key is Some <==> self.parts@.len() > 0
    }
}

fn adjust_part(planner: &mut QueryPlanner, part: KeyPart) -> (r: BufferRef)
    requires
        old(planner).well_formed(),
        old(planner)@.holds(part.buffer),
    ensures
        final(planner)@ == adjust(old(planner)@, part).0,
        r == adjust(old(planner)@, part).1,
        final(planner).well_formed(),
        final(planner)@.holds(r),
        old(planner)@.extends_to(final(planner)@),
{
    if part.min == 0 {
        part.buffer
    } else {
        let scalar = planner.scalar_i64(part.min, part.min >= 0);
        planner.func2(Func2Type::Subtract, part.buffer, scalar, EncodingType::I64)
    }
}

fn combine_key(planner: &mut QueryPlanner, key: Option<BufferRef>, low: BufferRef, radix: i64) -> (r:
    BufferRef)
    requires
        old(planner).well_formed(),
        old(planner)@.holds(low),
        key matches Some(high) ==> old(planner)@.holds(high),
    ensures
        final(planner)@ == combine(old(planner)@, key, low, radix).0,
        r == combine(old(planner)@, key, low, radix).1,
        final(planner).well_formed(),
        final(planner)@.holds(r),
        old(planner)@.extends_to(final(planner)@),
{
    match key {
        Some(high) => planner.pack(high, low, radix),
        None => low,
    }
}

fn pack(planner: &mut QueryPlanner, state: PackState, part: KeyPart) -> (r: Result<
    PackState,
    QueryError,
>)
    requires
        old(planner).well_formed(),
        old(planner)@.holds(part.buffer),
        part.radix >= 1,
        state.key matches Some(key) ==> old(planner)@.holds(key),
        state.product == radix_product(state.parts@, 0),
        radices_positive(state.parts@),
        state.key is Some <==> state.parts@.len() > 0,
    ensures
        final(planner).well_formed(),
        old(planner)@.extends_to(final(planner)@),
        match pack_value(
            Packed { plan: old(planner)@, key: state.key, parts: state.parts@ },
            old(planner)@,
            part,
        ) {
            Ok(packed) => r matches Ok(next) && next.model(final(planner)@) == packed && next.fits(
                final(planner)@,
            ),
            Err(e) => r matches Err(f) && f == e,
        },
{
    proof {
        lemma_product_push(state.parts@, part, 0);
    }
    match state.product.checked_mul(part.radix) {
        Some(product) => {
            let low = adjust_part(planner, part);
            let key = combine_key(planner, state.key, low, part.radix);
            let mut parts = state.parts;
            parts.push(part);
            Ok(PackState { key: Some(key), parts, product })
        },
        None => {
            proof {
                lemma_product_positive(state.parts@, 0);
                lemma_mul_strictly_positive(state.product as int, part.radix as int);
            }
            Err(QueryError::NotImplemented)
        },
    }
}

fn shift_value(planner: &mut QueryPlanner, digit: BufferRef, min: i64) -> (r: BufferRef)
    requires
        old(planner).well_formed(),
        old(planner)@.holds(digit),
    ensures
        final(planner)@ == shift_back(old(planner)@, digit, min).0,
        r == shift_back(old(planner)@, digit, min).1,
        final(planner).well_formed(),
        final(planner)@.holds(r),
        old(planner)@.extends_to(final(planner)@),
{
    if min == 0 {
        digit
    } else {
        let scalar = planner.scalar_i64(min, min >= 0);
        planner.func2(Func2Type::Add, digit, scalar, EncodingType::I64)
    }
}

fn cast_value(planner: &mut QueryPlanner, value: BufferRef, tag: EncodingType) -> (r: BufferRef)
    requires
        old(planner).well_formed(),
        old(planner)@.holds(value),
    ensures
        final(planner)@ == cast_back(old(planner)@, value, tag).0,
        r == cast_back(old(planner)@, value, tag).1,
        final(planner).well_formed(),
        final(planner)@.holds(r),
        old(planner)@.extends_to(final(planner)@),
{
    if value.tag == tag {
        value
    } else {
        planner.cast(value, tag)
    }
}

fn decode_one(
    planner: &mut QueryPlanner,
    placeholder: BufferRef,
    parts: &Vec<KeyPart>,
    i: usize,
    divisor: i64,
) -> (r: (BufferRef, Type))
    requires
        old(planner).well_formed(),
        old(planner)@.holds(placeholder),
        i < parts@.len(),
        divisor == radix_product(parts@, i + 1),
    ensures
        compiled(
            old(planner)@,
            final(planner)@,
            Ok(r),
            Ok(decode_part(old(planner)@, placeholder, parts@, i as int)),
        ),
{
    let part = parts[i];
    let unpacked = if parts.len() == 1 {
        placeholder
    } else {
        planner.unpack(placeholder, divisor, part.radix)
    };
    let shifted = shift_value(planner, unpacked, part.min);
    let cast = cast_value(planner, shifted, part.buffer.tag);
    decode(planner, cast, part.typ)
}

fn divisors_of(parts: &Vec<KeyPart>) -> (divisors: Vec<i64>)
    requires
        radices_positive(parts@),
        radix_product(parts@, 0) <= i64::MAX,
    ensures
        divisors@.len() == parts@.len(),
        forall|i: int|
            0 <= i < parts@.len() ==> (#[trigger] divisors@[i]) == radix_product(parts@, i + 1),
{
    let n = parts.len();
    let mut divisors: Vec<i64> = Vec::new();
    let mut k: usize = 0;
    while k < n
        invariant
            k <= n,
            divisors@.len() == k,
            forall|j: int| 0 <= j < k ==> divisors@[j] == 1,
        decreases n - k,
    {
        divisors.push(1);
        k += 1;
    }
    if n == 0 {
        return divisors;
    }
    let mut i: usize = n - 1;
    let mut product: i64 = 1;
    assert(radix_product(parts@, n as int) == 1);
    while i > 0
        invariant
            i < n,
            n == parts@.len(),
            divisors@.len() == n,
            radices_positive(parts@),
            radix_product(parts@, 0) <= i64::MAX,
            product == radix_product(parts@, i + 1),
            divisors@[i as int] == product,
            forall|j: int| i < j < n ==> (#[trigger] divisors@[j]) == radix_product(parts@, j + 1),
        decreases i,
    {
        proof {
            lemma_product_bounds(parts@, i as int);
        }
        product = parts[i].radix * product;
        i -= 1;
        divisors.set(i, product);
    }
    divisors
}

fn decode_all(planner: &mut QueryPlanner, placeholder: BufferRef, parts: &Vec<KeyPart>) -> (r: Vec<
    (BufferRef, Type),
>)
    requires
        old(planner).well_formed(),
        old(planner)@.holds(placeholder),
        radices_positive(parts@),
        radix_product(parts@, 0) <= i64::MAX,
    ensures
        final(planner)@ == decode_parts(old(planner)@, placeholder, parts@, parts@.len()).0,
        r@ == decode_parts(old(planner)@, placeholder, parts@, parts@.len()).1,
        final(planner).well_formed(),
        old(planner)@.extends_to(final(planner)@),
        forall|j: int| 0 <= j < r@.len() ==> final(planner)@.holds((#[trigger] r@[j]).0),
{
    let divisors = divisors_of(parts);
    let ghost start = planner@;
    let mut plans: Vec<(BufferRef, Type)> = Vec::new();
    let mut i: usize = 0;
    while i < parts.len()
        invariant
            i <= parts.len(),
            divisors@.len() == parts@.len(),
            forall|j: int|
                0 <= j < parts@.len() ==> (#[trigger] divisors@[j]) == radix_product(
                    parts@,
                    j + 1,
                ),
            planner.well_formed(),
            start == old(planner)@,
            start.extends_to(planner@),
            planner@.holds(placeholder),
            decode_parts(start, placeholder, parts@, i as nat) == (planner@, plans@),
            forall|j: int| 0 <= j < plans@.len() ==> planner@.holds((#[trigger] plans@[j]).0),
        decreases parts.len() - i,
    {
        let plan = decode_one(planner, placeholder, parts, i, divisors[i]);
        plans.push(plan);
        i += 1;
    }
    plans
}

fn all_order_preserving(parts: &Vec<KeyPart>) -> (r: bool)
    ensures
        r == parts_order_preserving(parts@),
{
    let mut i: usize = 0;
    while i < parts.len()
        invariant
            i <= parts.len(),
            forall|j: int| 0 <= j < i ==> (#[trigger] parts@[j]).typ.order_preserving,
        decreases parts.len() - i,
    {
        if !parts[i].typ.is_order_preserving() {
            return false;
        }
        i += 1;
    }
    true
}

fn type_of_key(parts: &Vec<KeyPart>) -> (t: Type)
    requires
        parts@.len() >= 1,
    ensures
        t == packed_type(parts@),
{
    if parts.len() == 1 && parts[0].min == 0 {
        parts[0].typ
    } else {
        Type {
            encoding: EncodingType::I64,
            codec: None,
            order_preserving: all_order_preserving(parts),
            positive: true,
        }
    }
}

/// What `compile_grouping_key` returns: the raw grouping key with its type,
/// the greatest key, the plans that recover the group columns, and the
/// placeholder that stands for the keys of the groups.
pub type CompiledKey = ((BufferRef, Type), i64, Vec<(BufferRef, Type)>, BufferRef);

/// Whether `key` is the compiled form of `model` in the plan `plan`: the
/// parts agree, every buffer belongs to the plan, and the placeholder is
/// unconnected and encoded as the key.
pub open spec fn key_compiled(plan: PlanModel, key: CompiledKey, model: GroupingKeyModel) -> bool {
    &&& plan == model.plan
    &&& key.0 == (model.key, model.key_type)
    &&& key.1 == model.max
    &&& key.2@ == model.decode_plans
    &&& key.3 == model.placeholder
    &&& plan.holds(model.key)
    &&& plan.holds(model.placeholder)
    &&& model.placeholder.tag == model.key.tag
    &&& model.key.id != model.placeholder.id
    &&& model.max >= 0
    &&& forall|j: int|
        0 <= j < model.decode_plans.len() ==> plan.holds((#[trigger] model.decode_plans[j]).0)
}

fn finish_key(planner: &mut QueryPlanner, state: PackState) -> (r: CompiledKey)
    requires
        old(planner).well_formed(),
        state.fits(old(planner)@),
        state.parts@.len() >= 1,
        state.product <= i64::MAX,
    ensures
        final(planner).well_formed(),
        old(planner)@.extends_to(final(planner)@),
        key_compiled(final(planner)@, r, packed_key(state.model(old(planner)@))),
{
    proof {
        lemma_product_positive(state.parts@, 0);
    }
    let key = state.key.unwrap();
    let placeholder = planner.placeholder(key.tag);
    let decode_plans = decode_all(planner, placeholder, &state.parts);
    let key_type = type_of_key(&state.parts);
    ((key, key_type), state.product - 1, decode_plans, placeholder)
}

fn opaque(planner: &mut QueryPlanner, value: (BufferRef, Type)) -> (r: CompiledKey)
    requires
        old(planner).well_formed(),
        old(planner)@.holds(value.0),
    ensures
        final(planner).well_formed(),
        old(planner)@.extends_to(final(planner)@),
        key_compiled(final(planner)@, r, opaque_key((old(planner)@, value.0, value.1))),
{
    let placeholder = planner.placeholder(value.0.tag);
    let decoded = decode(planner, placeholder, value.1);
    let mut decode_plans: Vec<(BufferRef, Type)> = Vec::new();
    decode_plans.push(decoded);
    (value, UNBOUNDED_KEY, decode_plans, placeholder)
}

fn empty(planner: &mut QueryPlanner, filter: Filter, partition_length: usize) -> (r: CompiledKey)
    requires
        old(planner).well_formed(),
        filter.valid_in(old(planner)@),
    ensures
        final(planner).well_formed(),
        old(planner)@.extends_to(final(planner)@),
        key_compiled(final(planner)@, r, empty_key(old(planner)@, filter, partition_length)),
{
    let rows = planner.null_vec(partition_length, EncodingType::U8);
    let key = filter_data(planner, rows, filter);
    let placeholder = planner.placeholder(EncodingType::U8);
    ((key, Type::new(EncodingType::U8, true)), 0, Vec::new(), placeholder)
}

fn pack_expr(
    expr: &Expr,
    filter: Filter,
    columns: &Vec<Column>,
    planner: &mut QueryPlanner,
    state: PackState,
) -> (r: Result<PackState, QueryError>)
    requires
        old(planner).well_formed(),
        filter.valid_in(old(planner)@),
        state.fits(old(planner)@),
    ensures
        final(planner).well_formed(),
        old(planner)@.extends_to(final(planner)@),
        match pack_part(state.model(old(planner)@), expr@, filter, columns_model(columns@)) {
            Ok(packed) => r matches Ok(next) && next.model(final(planner)@) == packed && next.fits(
                final(planner)@,
            ),
            Err(e) => r matches Err(f) && f == e,
        },
{
    match compile_expr(expr, filter, columns, planner) {
        Ok(value) => {
            let range = range_of(planner, columns, value.0);
            match make_part(value.0, value.1, range) {
                Some(part) => pack(planner, state, part),
                None => Err(QueryError::NotImplemented),
            }
        },
        Err(e) => Err(e),
    }
}

/// Combines the grouping expressions into one packed integer key.
pub fn compile_grouping_key(
    exprs: &Vec<Expr>,
    filter: Filter,
    columns: &Vec<Column>,
    partition_length: usize,
    planner: &mut QueryPlanner,
) -> (r: Result<CompiledKey, QueryError>)
    requires
        old(planner).well_formed(),
        filter.valid_in(old(planner)@),
    ensures
        final(planner).well_formed(),
        old(planner)@.extends_to(final(planner)@),
        match grouping_key(
            exprs_model(exprs@),
            filter,
            columns_model(columns@),
            partition_length,
            old(planner)@,
        ) {
            Ok(model) => r matches Ok(key) && key_compiled(final(planner)@, key, model),
            Err(e) => r matches Err(f) && f == e,
        },
{
    if exprs.len() == 0 {
        Ok(empty(planner, filter, partition_length))
    } else if exprs.len() == 1 {
        assert(exprs_model(exprs@)[0] == exprs@[0]@);
        single_key(exprs, filter, columns, planner)
    } else {
        pack_exprs(exprs, filter, columns, planner)
    }
}

fn single_key(
    exprs: &Vec<Expr>,
    filter: Filter,
    columns: &Vec<Column>,
    planner: &mut QueryPlanner,
) -> (r: Result<CompiledKey, QueryError>)
    requires
        old(planner).well_formed(),
        filter.valid_in(old(planner)@),
        exprs@.len() == 1,
    ensures
        final(planner).well_formed(),
        old(planner)@.extends_to(final(planner)@),
        match compile(exprs@[0]@, filter, columns_model(columns@), old(planner)@) {
            Ok(value) => if part_of(
                value.1,
                value.2,
                key_range(value.0, columns_model(columns@), value.1.id as nat),
            ) is None {
                r matches Ok(key) && key_compiled(final(planner)@, key, opaque_key(value))
            } else {
                match pack_all(
                    exprs_model(exprs@),
                    filter,
                    columns_model(columns@),
                    old(planner)@,
                ) {
                    Ok(model) => r matches Ok(key) && key_compiled(final(planner)@, key, model),
                    Err(e) => r matches Err(f) && f == e,
                }
            },
            Err(e) => r matches Err(f) && f == e,
        },
{
    let ghost model = exprs_model(exprs@);
    let ghost cols = columns_model(columns@);
    let ghost start = planner@;
    let state = PackState { key: None, parts: Vec::new(), product: 1 };
    assert(model[0] == exprs@[0]@);
    assert(pack_parts(model, filter, cols, start, 0) == Ok::<Packed, QueryError>(
        state.model(start),
    ));
    assert(pack_parts(model, filter, cols, start, 1) == pack_part(
        state.model(start),
        model[0],
        filter,
        cols,
    ));
    match compile_expr(&exprs[0], filter, columns, planner) {
        Ok(value) => {
            let range = range_of(planner, columns, value.0);
            match make_part(value.0, value.1, range) {
                Some(part) => {
                    let ghost compiled_plan = planner@;
                    match pack(planner, state, part) {
                        Ok(next) => {
                            let ghost packed_plan = planner@;
                            let key = finish_key(planner, next);
                            proof {
                                lemma_extends_transitive(start, compiled_plan, packed_plan);
                                lemma_extends_transitive(start, packed_plan, planner@);
                            }
                            Ok(key)
                        },
                        Err(e) => {
                            proof {
                                lemma_extends_transitive(start, compiled_plan, planner@);
                            }
                            Err(e)
                        },
                    }
                },
                None => {
                    let ghost compiled_plan = planner@;
                    let key = opaque(planner, value);
                    proof {
                        lemma_extends_transitive(start, compiled_plan, planner@);
                    }
                    Ok(key)
                },
            }
        },
        Err(e) => Err(e),
    }
}

fn pack_exprs(
    exprs: &Vec<Expr>,
    filter: Filter,
    columns: &Vec<Column>,
    planner: &mut QueryPlanner,
) -> (r: Result<CompiledKey, QueryError>)
    requires
        old(planner).well_formed(),
        filter.valid_in(old(planner)@),
        exprs@.len() >= 1,
    ensures
        final(planner).well_formed(),
        old(planner)@.extends_to(final(planner)@),
        match pack_all(exprs_model(exprs@), filter, columns_model(columns@), old(planner)@) {
            Ok(model) => r matches Ok(key) && key_compiled(final(planner)@, key, model),
            Err(e) => r matches Err(f) && f == e,
        },
{
    let ghost model = exprs_model(exprs@);
    let ghost cols = columns_model(columns@);
    let ghost start = planner@;
    let mut state = PackState { key: None, parts: Vec::new(), product: 1 };
    assert(state.model(start) == Packed { plan: start, key: None, parts: seq![] });
    assert(state.fits(start));
    let mut i: usize = 0;
    while i < exprs.len()
        invariant
            i <= exprs.len(),
            model == exprs_model(exprs@),
            cols == columns_model(columns@),
            start == old(planner)@,
            planner.well_formed(),
            start.extends_to(planner@),
            filter.valid_in(planner@),
            state.fits(planner@),
            state.parts@.len() == i,
            pack_parts(model, filter, cols, start, i as nat) == Ok::<Packed, QueryError>(
                state.model(planner@),
            ),
        decreases exprs.len() - i,
    {
        assert(model[i as int] == exprs@[i as int]@);
        let ghost before = planner@;
        match pack_expr(&exprs[i], filter, columns, planner, state) {
            Ok(next) => {
                state = next;
                proof {
                    lemma_extends_transitive(start, before, planner@);
                }
            },
            Err(e) => {
                proof {
                    lemma_extends_transitive(start, before, planner@);
                    lemma_pack_fails(model, filter, cols, start, (i + 1) as nat, exprs@.len());
                }
                return Err(e);
            },
        }
        i += 1;
    }
    let ghost packed_plan = planner@;
    let ghost packed = state.model(packed_plan);
    assert(pack_all(model, filter, cols, start) == Ok::<GroupingKeyModel, QueryError>(
        packed_key(packed),
    ));
    let key = finish_key(planner, state);
    proof {
        lemma_extends_transitive(start, packed_plan, planner@);
    }
    Ok(key)
}

} // verus!
