//! Lowering expressions to operators.
//!
//! An expression is compiled under an ambient filter, which says which rows
//! take part. The filter is applied once, where a column is read; operators
//! above the read see the filtered rows and apply no filter of their own.

use vstd::prelude::*;
use crate::expr::{Expr, ExprModel, Func1Type, Func2Type, RawVal, RawValModel};
use crate::planner::{BufferRef, Operator, PlanModel, QueryPlanner};
use crate::types::{
    columns_model, find_column, lemma_find_column, lookup, Codec, Column, ColumnModel,
    EncodingType, QueryError, Type,
};

verus! {

/// The rows that take part in a computation.
#[derive(Clone, Copy, Debug, PartialEq, Eq, Structural)]
pub enum Filter {
    /// Every row.
    NoFilter,
    /// The rows at which the mask is nonzero.
    U8(BufferRef),
    /// The rows at which the mask is neither zero nor null.
    NullableU8(BufferRef),
    /// The rows that the index list names, in its order.
    Indices(BufferRef),
}

impl Filter {
    /// Whether the buffer of the filter belongs to the plan and is encoded
    /// as the variant says.
    pub open spec fn valid_in(self, plan: PlanModel) -> bool {
        match self {
            Filter::NoFilter => true,
            Filter::U8(mask) => plan.holds(mask) && mask.tag == EncodingType::U8,
            Filter::NullableU8(mask) => plan.holds(mask) && mask.tag == EncodingType::NullableU8,
            Filter::Indices(indices) => plan.holds(indices) && indices.tag == EncodingType::USize,
        }
    }
}

/// A plan, a buffer of it, and the buffer's type.
pub type Lowered = (PlanModel, BufferRef, Type);

/// What holds after a compilation step that was to produce `expected`: the
/// plan is well formed and has kept its buffers, and either the step
/// succeeded with the expected plan, buffer and type, or it failed with the
/// expected error.
pub open spec fn compiled(
    before: PlanModel,
    after: PlanModel,
    outcome: Result<(BufferRef, Type), QueryError>,
    expected: Result<Lowered, QueryError>,
) -> bool {
    &&& after.well_formed()
    &&& before.extends_to(after)
    &&& before.direct() ==> after.direct()
    &&& match expected {
        Ok((plan, buffer, typ)) => {
            &&& outcome == Ok::<(BufferRef, Type), QueryError>((buffer, typ))
            &&& after == plan
            &&& after.holds(buffer)
        },
        Err(e) => outcome == Err::<(BufferRef, Type), QueryError>(e),
    }
}

/// The type of the result of a kernel that writes `tag`: masks are known to
/// be at least zero, of other results nothing is known.
pub open spec fn kernel_type(tag: EncodingType) -> Type {
    if tag == EncodingType::U8 {
        Type::unsigned(tag)
    } else {
        Type::plain(tag)
    }
}

/// The encoding that the kernel of a unary operator writes for an operand,
/// or `None` where there is no such kernel.
pub open spec fn unary_kernel(op: Func1Type, operand: EncodingType) -> Option<EncodingType> {
    match op {
        Func1Type::Negate => if operand.is_integer() && !operand.is_scalar() {
            Some(EncodingType::I64)
        } else if operand.is_nullable_integer() {
            Some(EncodingType::NullableI64)
        } else {
            None
        },
        Func1Type::Not => if operand.is_mask() {
            Some(operand)
        } else {
            None
        },
        Func1Type::IsNull => if operand.is_scalar() {
            None
        } else {
            Some(EncodingType::U8)
        },
        Func1Type::IsNotNull => if operand.is_scalar() {
            None
        } else {
            Some(EncodingType::U8)
        },
    }
}

/// Whether the operator compares its operands.
pub open spec fn is_comparison(op: Func2Type) -> bool {
    op == Func2Type::Equals || op == Func2Type::NotEquals || op == Func2Type::LT || op
        == Func2Type::LTE || op == Func2Type::GT || op == Func2Type::GTE
}

/// Whether the operator is a boolean connective.
pub open spec fn is_connective(op: Func2Type) -> bool {
    op == Func2Type::And || op == Func2Type::Or
}

/// The encoding that the kernel of a binary operator writes for a pair of
/// operands, or `None` where there is no such kernel. Comparisons take two
/// integer or two string operands and write a mask; connectives take two
/// masks and write a mask; arithmetic takes two integer operands and writes
/// integers. The result has nulls where an operand has. No kernel takes two
/// scalars.
pub open spec fn binary_kernel(op: Func2Type, left: EncodingType, right: EncodingType) -> Option<
    EncodingType,
> {
    let integers = (left.is_integer() || left.is_nullable_integer()) && (right.is_integer()
        || right.is_nullable_integer());
    let strings = (left.is_string() || left == EncodingType::NullableStr) && (right.is_string()
        || right == EncodingType::NullableStr);
    let nullable = left.is_nullable_integer() || right.is_nullable_integer() || left
        == EncodingType::NullableStr || right == EncodingType::NullableStr;
    if left.is_scalar() && right.is_scalar() {
        None
    } else if is_comparison(op) {
        if integers || strings {
            Some(
                if nullable {
                    EncodingType::NullableU8
                } else {
                    EncodingType::U8
                },
            )
        } else {
            None
        }
    } else if is_connective(op) {
        if left.is_mask() && right.is_mask() {
            Some(
                if left == EncodingType::U8 && right == EncodingType::U8 {
                    EncodingType::U8
                } else {
                    EncodingType::NullableU8
                },
            )
        } else {
            None
        }
    } else {
        if integers {
            Some(
                if nullable {
                    EncodingType::NullableI64
                } else {
                    EncodingType::I64
                },
            )
        } else {
            None
        }
    }
}

/// Applies the ambient filter to the data of a column: a mask selects, an
/// index list gathers, and no filter passes the data through.
pub open spec fn apply_filter(plan: PlanModel, data: BufferRef, filter: Filter) -> (
    PlanModel,
    BufferRef,
) {
    match filter {
        Filter::NoFilter => (plan, data),
        Filter::U8(mask) => (
            plan.emit(Operator::Filter { input: data, mask }, data.tag),
            plan.next(data.tag),
        ),
        Filter::NullableU8(mask) => (
            plan.emit(Operator::NullableFilter { input: data, mask }, data.tag),
            plan.next(data.tag),
        ),
        Filter::Indices(indices) => (
            plan.emit(Operator::Select { input: data, indices }, data.tag),
            plan.next(data.tag),
        ),
    }
}

/// Reads the column at `index` and applies the ambient filter.
pub open spec fn compile_column(
    plan: PlanModel,
    index: usize,
    column: ColumnModel,
    filter: Filter,
) -> Lowered {
    let read = plan.emit(Operator::ReadColumn { column: index }, column.encoding);
    let filtered = apply_filter(read, plan.next(column.encoding), filter);
    (filtered.0, filtered.1, column.stored_type(index))
}

/// Emits a scalar for a literal. A boolean is the integer one or zero, as in
/// a mask.
pub open spec fn compile_constant(plan: PlanModel, value: RawValModel) -> Lowered {
    match value {
        RawValModel::Int(v) => (
            plan.emit(
                Operator::ScalarI64 { value: v, positive: v >= 0 },
                EncodingType::ScalarI64,
            ),
            plan.next(EncodingType::ScalarI64),
            if v >= 0 {
                Type::unsigned(EncodingType::ScalarI64)
            } else {
                Type::plain(EncodingType::ScalarI64)
            },
        ),
        RawValModel::Bool(b) => (
            plan.emit(
                Operator::ScalarI64 { value: if b { 1i64 } else { 0i64 }, positive: true },
                EncodingType::ScalarI64,
            ),
            plan.next(EncodingType::ScalarI64),
            Type::unsigned(EncodingType::ScalarI64),
        ),
        RawValModel::Str(s) => (
            plan.with_constant(s).emit(
                Operator::ScalarStr { constant: plan.constants.len() as usize },
                EncodingType::ScalarStr,
            ),
            plan.next(EncodingType::ScalarStr),
            Type::plain(EncodingType::ScalarStr),
        ),
        RawValModel::Null => (
            plan.emit(Operator::ScalarNull, EncodingType::Null),
            plan.next(EncodingType::Null),
            Type::plain(EncodingType::Null),
        ),
    }
}

/// Decodes the buffer where its type carries a codec.
pub open spec fn decode_if_encoded(plan: PlanModel, buffer: BufferRef, typ: Type) -> Lowered {
    match typ.codec {
        Some(codec) => (
            plan.emit(Operator::Decode { input: buffer, codec }, codec.decoded),
            plan.next(codec.decoded),
            typ.decoded_type(),
        ),
        None => (plan, buffer, typ),
    }
}

/// Decodes the buffer where its encoding does not preserve order and a
/// codec is at hand.
pub open spec fn make_order_preserving(plan: PlanModel, buffer: BufferRef, typ: Type) -> Lowered {
    if typ.order_preserving {
        (plan, buffer, typ)
    } else {
        decode_if_encoded(plan, buffer, typ)
    }
}

/// Decodes the operand and applies the kernel of a unary operator to it.
pub open spec fn apply_unary(plan: PlanModel, op: Func1Type, buffer: BufferRef, typ: Type) -> Result<
    Lowered,
    QueryError,
> {
    let operand = decode_if_encoded(plan, buffer, typ);
    match unary_kernel(op, operand.1.tag) {
        Some(tag) => Ok(
            (
                operand.0.emit(Operator::Func1 { unary: op, input: operand.1 }, tag),
                operand.0.next(tag),
                kernel_type(tag),
            ),
        ),
        None => Err(QueryError::TypeError),
    }
}

/// Decodes both operands, left first, and applies the kernel of a binary
/// operator to them.
pub open spec fn apply_binary(
    plan: PlanModel,
    op: Func2Type,
    left: (BufferRef, Type),
    right: (BufferRef, Type),
) -> Result<Lowered, QueryError> {
    let first = decode_if_encoded(plan, left.0, left.1);
    let second = decode_if_encoded(first.0, right.0, right.1);
    match binary_kernel(op, first.1.tag, second.1.tag) {
        Some(tag) => Ok(
            (
                second.0.emit(
                    Operator::Func2 { binary: op, left: first.1, right: second.1 },
                    tag,
                ),
                second.0.next(tag),
                kernel_type(tag),
            ),
        ),
        None => Err(QueryError::TypeError),
    }
}

/// The operators that compute `e` over the rows of `filter`, appended to
/// `plan`, with the buffer that holds the result and its type.
///
/// A column that the partition lacks gives `NoSuchColumn`; operands for
/// which an operator has no kernel give `TypeError`; an aggregate, which
/// normalization should have removed, gives `FatalError`. Of two failing
/// operands the left one decides.
pub open spec fn compile(
    e: ExprModel,
    filter: Filter,
    columns: Seq<ColumnModel>,
    plan: PlanModel,
) -> Result<Lowered, QueryError>
    decreases e,
{
    match e {
        ExprModel::Const(value) => Ok(compile_constant(plan, value)),
        ExprModel::ColName(name) => match find_column(columns, name, columns.len()) {
            Some(index) => Ok(compile_column(plan, index, columns[index as int], filter)),
            None => Err(QueryError::NoSuchColumn),
        },
        ExprModel::Func1(op, child) => match compile(*child, filter, columns, plan) {
            Ok(operand) => apply_unary(operand.0, op, operand.1, operand.2),
            Err(e) => Err(e),
        },
        ExprModel::Func2(op, left, right) => match compile(*left, filter, columns, plan) {
            Ok(first) => match compile(*right, filter, columns, first.0) {
                Ok(second) => apply_binary(
                    second.0,
                    op,
                    (first.1, first.2),
                    (second.1, second.2),
                ),
                Err(e) => Err(e),
            },
            Err(e) => Err(e),
        },
        ExprModel::Aggregate(_, _) => Err(QueryError::FatalError),
    }
}

fn find_unary_kernel(op: Func1Type, operand: EncodingType) -> (r: Option<EncodingType>)
    ensures
        r == unary_kernel(op, operand),
{
    match op {
        Func1Type::Negate => {
            if operand.integer() && !operand.scalar() {
                Some(EncodingType::I64)
            } else if operand.nullable_integer() {
                Some(EncodingType::NullableI64)
            } else {
                None
            }
        },
        Func1Type::Not => {
            if operand.mask() {
                Some(operand)
            } else {
                None
            }
        },
        Func1Type::IsNull => {
            if operand.scalar() {
                None
            } else {
                Some(EncodingType::U8)
            }
        },
        Func1Type::IsNotNull => {
            if operand.scalar() {
                None
            } else {
                Some(EncodingType::U8)
            }
        },
    }
}

fn comparison(op: Func2Type) -> (r: bool)
    ensures
        r == is_comparison(op),
{
    match op {
        Func2Type::Equals => true,
        Func2Type::NotEquals => true,
        Func2Type::LT => true,
        Func2Type::LTE => true,
        Func2Type::GT => true,
        Func2Type::GTE => true,
        _ => false,
    }
}

fn connective(op: Func2Type) -> (r: bool)
    ensures
        r == is_connective(op),
{
    match op {
        Func2Type::And => true,
        Func2Type::Or => true,
        _ => false,
    }
}

fn nullable_string(tag: EncodingType) -> (r: bool)
    ensures
        r == (tag == EncodingType::NullableStr),
{
    match tag {
        EncodingType::NullableStr => true,
        _ => false,
    }
}

fn plain_mask(tag: EncodingType) -> (r: bool)
    ensures
        r == (tag == EncodingType::U8),
{
    match tag {
        EncodingType::U8 => true,
        _ => false,
    }
}

fn find_binary_kernel(op: Func2Type, left: EncodingType, right: EncodingType) -> (r: Option<
    EncodingType,
>)
    ensures
        r == binary_kernel(op, left, right),
{
    let integers = (left.integer() || left.nullable_integer()) && (right.integer()
        || right.nullable_integer());
    let strings = (left.string() || nullable_string(left)) && (right.string() || nullable_string(
        right,
    ));
    let nullable = left.nullable_integer() || right.nullable_integer() || nullable_string(left)
        || nullable_string(right);
    if left.scalar() && right.scalar() {
        None
    } else if comparison(op) {
        if integers || strings {
            if nullable {
                Some(EncodingType::NullableU8)
            } else {
                Some(EncodingType::U8)
            }
        } else {
            None
        }
    } else if connective(op) {
        if left.mask() && right.mask() {
            if plain_mask(left) && plain_mask(right) {
                Some(EncodingType::U8)
            } else {
                Some(EncodingType::NullableU8)
            }
        } else {
            None
        }
    } else {
        if integers {
            if nullable {
                Some(EncodingType::NullableI64)
            } else {
                Some(EncodingType::I64)
            }
        } else {
            None
        }
    }
}

fn type_of_kernel(tag: EncodingType) -> (t: Type)
    ensures
        t == kernel_type(tag),
{
    Type::new(tag, plain_mask(tag))
}

/// The type of the column at position `index` as it is stored.
pub fn stored_type(column: &Column, index: usize) -> (t: Type)
    ensures
        t == column@.stored_type(index),
{
    Type {
        encoding: column.encoding,
        codec: match column.decoded {
            Some(decoded) => Some(Codec { column: index, decoded }),
            None => None,
        },
        order_preserving: column.order_preserving,
        positive: match column.range {
            Some(range) => range.0 >= 0,
            None => false,
        },
    }
}

/// Applies the ambient filter to the data of a column.
pub fn filter_data(planner: &mut QueryPlanner, data: BufferRef, filter: Filter) -> (r: BufferRef)
    requires
        old(planner).well_formed(),
        old(planner)@.holds(data),
        filter.valid_in(old(planner)@),
    ensures
        final(planner)@ == apply_filter(old(planner)@, data, filter).0,
        r == apply_filter(old(planner)@, data, filter).1,
        final(planner).well_formed(),
        final(planner)@.holds(r),
        r.tag == data.tag,
        old(planner)@.extends_to(final(planner)@),
        old(planner)@.direct() ==> final(planner)@.direct(),
{
    match filter {
        Filter::NoFilter => data,
        Filter::U8(mask) => planner.filter(data, mask),
        Filter::NullableU8(mask) => planner.nullable_filter(data, mask),
        Filter::Indices(indices) => planner.select(data, indices),
    }
}

fn constant(planner: &mut QueryPlanner, value: &RawVal) -> (r: (BufferRef, Type))
    requires
        old(planner).well_formed(),
    ensures
        compiled(
            old(planner)@,
            final(planner)@,
            Ok(r),
            Ok(compile_constant(old(planner)@, value@)),
        ),
{
    match value {
        RawVal::Int(v) => {
            let buffer = planner.scalar_i64(*v, *v >= 0);
            (buffer, Type::new(EncodingType::ScalarI64, *v >= 0))
        },
        RawVal::Bool(b) => {
            let buffer = planner.scalar_i64(if *b { 1 } else { 0 }, true);
            (buffer, Type::new(EncodingType::ScalarI64, true))
        },
        RawVal::Str(s) => {
            let buffer = planner.scalar_str(s.clone());
            (buffer, Type::new(EncodingType::ScalarStr, false))
        },
        RawVal::Null => {
            let buffer = planner.scalar_null();
            (buffer, Type::new(EncodingType::Null, false))
        },
    }
}

/// Decodes the buffer where its type carries a codec.
pub fn decode(planner: &mut QueryPlanner, buffer: BufferRef, typ: Type) -> (r: (BufferRef, Type))
    requires
        old(planner).well_formed(),
        old(planner)@.holds(buffer),
    ensures
        compiled(
            old(planner)@,
            final(planner)@,
            Ok(r),
            Ok(decode_if_encoded(old(planner)@, buffer, typ)),
        ),
{
    match typ.codec {
        Some(codec) => {
            let decoded = planner.decode(buffer, codec);
            (decoded, typ.decoded())
        },
        None => (buffer, typ),
    }
}

/// Makes sure that sorting the buffer sorts the logical values: an encoding
/// that breaks the order is decoded.
pub fn order_preserving(plan: (BufferRef, Type), planner: &mut QueryPlanner) -> (r: (
    BufferRef,
    Type,
))
    requires
        old(planner).well_formed(),
        old(planner)@.holds(plan.0),
    ensures
        compiled(
            old(planner)@,
            final(planner)@,
            Ok(r),
            Ok(make_order_preserving(old(planner)@, plan.0, plan.1)),
        ),
{
    if plan.1.is_order_preserving() {
        plan
    } else {
        decode(planner, plan.0, plan.1)
    }
}

fn unary(planner: &mut QueryPlanner, op: Func1Type, buffer: BufferRef, typ: Type) -> (r: Result<
    (BufferRef, Type),
    QueryError,
>)
    requires
        old(planner).well_formed(),
        old(planner)@.holds(buffer),
    ensures
        compiled(
            old(planner)@,
            final(planner)@,
            r,
            apply_unary(old(planner)@, op, buffer, typ),
        ),
{
    let operand = decode(planner, buffer, typ);
    match find_unary_kernel(op, operand.0.tag) {
        Some(tag) => {
            let result = planner.func1(op, operand.0, tag);
            Ok((result, type_of_kernel(tag)))
        },
        None => Err(QueryError::TypeError),
    }
}

fn binary(
    planner: &mut QueryPlanner,
    op: Func2Type,
    left: (BufferRef, Type),
    right: (BufferRef, Type),
) -> (r: Result<(BufferRef, Type), QueryError>)
    requires
        old(planner).well_formed(),
        old(planner)@.holds(left.0),
        old(planner)@.holds(right.0),
    ensures
        compiled(
            old(planner)@,
            final(planner)@,
            r,
            apply_binary(old(planner)@, op, left, right),
        ),
{
    let first = decode(planner, left.0, left.1);
    let second = decode(planner, right.0, right.1);
    match find_binary_kernel(op, first.0.tag, second.0.tag) {
        Some(tag) => {
            let result = planner.func2(op, first.0, second.0, tag);
            Ok((result, type_of_kernel(tag)))
        },
        None => Err(QueryError::TypeError),
    }
}

/// Lowers `expr` under the ambient `filter`: emits the operators that
/// compute it and returns the buffer that holds the result, with its type.
pub fn compile_expr(
    expr: &Expr,
    filter: Filter,
    columns: &Vec<Column>,
    planner: &mut QueryPlanner,
) -> (r: Result<(BufferRef, Type), QueryError>)
    requires
        old(planner).well_formed(),
        filter.valid_in(old(planner)@),
    ensures
        compiled(
            old(planner)@,
            final(planner)@,
            r,
            compile(expr@, filter, columns_model(columns@), old(planner)@),
        ),
    decreases expr,
{
    match expr {
        Expr::Const(value) => Ok(constant(planner, value)),
        Expr::ColName(name) => {
            let count = columns.len();
            proof {
                lemma_find_column(columns_model(columns@), name@, count as nat);
            }
            match lookup(columns, name) {
                Some(index) => {
                    let column = &columns[index];
                    let data = planner.read_column(index, column.encoding);
                    let buffer = filter_data(planner, data, filter);
                    Ok((buffer, stored_type(column, index)))
                },
                None => Err(QueryError::NoSuchColumn),
            }
        },
        Expr::Func1(op, child) => {
            match compile_expr(child, filter, columns, planner) {
                Ok(operand) => unary(planner, *op, operand.0, operand.1),
                Err(e) => Err(e),
            }
        },
        Expr::Func2(op, left, right) => {
            match compile_expr(left, filter, columns, planner) {
                Ok(first) => {
                    match compile_expr(right, filter, columns, planner) {
                        Ok(second) => binary(planner, *op, first, second),
                        Err(e) => Err(e),
                    }
                },
                Err(e) => Err(e),
            }
        },
        Expr::Aggregate(_, _) => Err(QueryError::FatalError),
    }
}

} // verus!
