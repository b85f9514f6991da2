use query_planning::batch::{collect_aliased, BatchResult, BufferData, ResultLayout};
use query_planning::executor::Executor;
use query_planning::expr::{Aggregator, Func1Type, Func2Type};
use query_planning::names::{
    aggregate_column, anonymous_column, count_column, decimal_string, select_column, sum_column,
};
use query_planning::pipeline::PartitionPlan;
use query_planning::planner::{BufferRef, Node, Operator, QueryPlanner};
use query_planning::query_plan::{decode, filter_data, stored_type, Filter};
use query_planning::scan::{filter_from, fuse_filter, rows_of};
use query_planning::types::EncodingType::{
    Null, NullableI64, NullableStr, NullableU8, ScalarI64, ScalarStr, Str, USize, I64, U16, U32,
    U64, U8,
};
use query_planning::types::{lookup, Codec, Column, EncodingType, QueryError, Type};

fn buf(id: usize, tag: EncodingType) -> BufferRef {
    BufferRef { id, tag }
}

fn node(op: Operator, tag: EncodingType) -> Node {
    Node { op, tag }
}

fn column(name: &str, range: Option<(i64, i64)>) -> Column {
    Column {
        name: name.to_string(),
        len: 8,
        encoding: EncodingType::U16,
        decoded: Some(EncodingType::I64),
        order_preserving: true,
        range,
    }
}

#[test]
fn decimal_rendering() {
    assert_eq!(decimal_string(0), "0");
    assert_eq!(decimal_string(7), "7");
    assert_eq!(decimal_string(10), "10");
    assert_eq!(decimal_string(99), "99");
    assert_eq!(decimal_string(100), "100");
    assert_eq!(decimal_string(1203405), "1203405");
    assert_eq!(decimal_string(usize::MAX), usize::MAX.to_string());
}

#[test]
fn names_are_prefix_and_counter() {
    assert_eq!(aggregate_column(0), "_ca0");
    assert_eq!(aggregate_column(12), "_ca12");
    assert_eq!(select_column(3), "_cs3");
    assert_eq!(anonymous_column(0), "col_0");
    assert_eq!(count_column(4), "count_4");
    assert_eq!(sum_column(21), "sum_21");
}

#[test]
fn narrowing_accessors_fail_on_mismatch() {
    let mask = buf(0, EncodingType::U8);
    assert_eq!(mask.u8(), Ok(mask));
    assert_eq!(mask.nullable_u8(), Err(QueryError::FatalError));
    assert_eq!(mask.usize(), Err(QueryError::FatalError));
    let nullable = buf(1, EncodingType::NullableU8);
    assert_eq!(nullable.nullable_u8(), Ok(nullable));
    assert_eq!(nullable.u8(), Err(QueryError::FatalError));
    let indices = buf(2, EncodingType::USize);
    assert_eq!(indices.usize(), Ok(indices));
}

#[test]
fn encodings_are_classified() {
    assert!(ScalarI64.scalar() && ScalarStr.scalar() && !I64.scalar() && !Null.scalar());
    assert!(U8.integer() && U16.integer() && U32.integer() && U64.integer());
    assert!(I64.integer() && USize.integer() && ScalarI64.integer());
    assert!(!Str.integer() && !NullableI64.integer() && !Null.integer());
    assert!(NullableU8.nullable_integer() && NullableI64.nullable_integer());
    assert!(!NullableStr.nullable_integer() && !U8.nullable_integer());
    assert!(Str.string() && ScalarStr.string() && !NullableStr.string());
    assert!(U8.mask() && NullableU8.mask() && !U16.mask());
}

#[test]
fn types_answer_for_their_flags() {
    let codec = Codec { column: 3, decoded: EncodingType::Str };
    let encoded = Type {
        encoding: EncodingType::U8,
        codec: Some(codec),
        order_preserving: false,
        positive: true,
    };
    assert_eq!(encoded.encoding_type(), EncodingType::U8);
    assert!(encoded.is_encoded());
    assert!(!encoded.is_order_preserving());
    assert!(encoded.is_positive_integer());
    assert_eq!(
        encoded.decoded(),
        Type {
            encoding: EncodingType::Str,
            codec: None,
            order_preserving: true,
            positive: false
        }
    );
    let plain = Type::new(EncodingType::Str, true);
    assert!(!plain.is_encoded());
    assert!(!plain.is_positive_integer());
    assert_eq!(plain.decoded(), plain);
}

#[test]
fn stored_type_of_a_column() {
    let c = column("x", Some((0, 9)));
    assert_eq!(
        stored_type(&c, 5),
        Type {
            encoding: EncodingType::U16,
            codec: Some(Codec { column: 5, decoded: EncodingType::I64 }),
            order_preserving: true,
            positive: true
        }
    );
    assert!(!stored_type(&column("x", Some((-1, 9))), 0).positive);
    assert!(!stored_type(&column("x", None), 0).positive);
}

#[test]
fn lookup_finds_the_first_column_of_a_name() {
    let columns = vec![column("x", None), column("y", None), column("x", None)];
    assert_eq!(lookup(&columns, &"x".to_string()), Some(0));
    assert_eq!(lookup(&columns, &"y".to_string()), Some(1));
    assert_eq!(lookup(&columns, &"z".to_string()), None);
    assert_eq!(lookup(&vec![], &"x".to_string()), None);
}

#[test]
fn builders_record_operators() {
    let mut p = QueryPlanner::new();
    let data = p.read_column(0, I64);
    let mask = p.read_column(1, U8);
    let nullable = p.read_column(2, EncodingType::NullableU8);
    let rows = p.null_vec(9, Null);
    let indices = p.indices(rows);
    let kept = p.filter(indices, mask);
    let kept_nullable = p.nullable_filter(indices, nullable);
    let gathered = p.select(data, kept);
    let sorted = p.sort_by(data, indices, true, true);
    let top = p.top_n(data, 4, false);
    let compacted = p.compact(data, mask);
    let nonzero = p.nonzero_compact(data);
    let one = p.scalar_i64(1, true);
    let present = p.key_exists(data, one);
    let positions = p.nonzero_indices(present, U32);
    let text = p.scalar_str("abc".to_string());
    let null = p.scalar_null();
    let cast = p.cast(data, U32);
    let negated = p.func1(Func1Type::Negate, data, I64);
    let summed = p.func2(Func2Type::Add, data, one, I64);
    let packed = p.pack(data, data, 5);
    let unpacked = p.unpack(packed, 5, 5);
    let total = p.aggregate(Aggregator::Sum, data, data, one, I64);
    let codec = Codec { column: 0, decoded: Str };
    let decoded = p.decode(data, codec);
    assert_eq!(
        vec![
            data,
            mask,
            nullable,
            rows,
            indices,
            kept,
            kept_nullable,
            gathered,
            sorted,
            top,
            compacted,
            nonzero,
            one,
            present,
            positions,
            text,
            null,
            cast,
            negated,
            summed,
            packed,
            unpacked,
            total,
            decoded
        ],
        vec![
            buf(0, I64),
            buf(1, U8),
            buf(2, EncodingType::NullableU8),
            buf(3, Null),
            buf(4, USize),
            buf(5, USize),
            buf(6, USize),
            buf(7, I64),
            buf(8, USize),
            buf(9, USize),
            buf(10, I64),
            buf(11, I64),
            buf(12, ScalarI64),
            buf(13, U8),
            buf(14, U32),
            buf(15, ScalarStr),
            buf(16, Null),
            buf(17, U32),
            buf(18, I64),
            buf(19, I64),
            buf(20, I64),
            buf(21, I64),
            buf(22, I64),
            buf(23, Str)
        ]
    );
    assert_eq!(p.nodes[5], node(Operator::Filter { input: indices, mask }, USize));
    assert_eq!(
        p.nodes[6],
        node(Operator::NullableFilter { input: indices, mask: nullable }, USize)
    );
    assert_eq!(p.nodes[7], node(Operator::Select { input: data, indices: kept }, I64));
    assert_eq!(
        p.nodes[8],
        node(
            Operator::SortBy { ranking: data, indices, desc: true, stable: true },
            USize
        )
    );
    assert_eq!(p.nodes[13], node(Operator::Exists { grouping_key: data, cardinality: one }, U8));
    assert_eq!(p.nodes[15], node(Operator::ScalarStr { constant: 0 }, ScalarStr));
    assert_eq!(p.nodes[21], node(Operator::Unpack { input: packed, divisor: 5, radix: 5 }, I64));
    assert_eq!(p.constants, vec!["abc"]);
    for (i, n) in p.nodes.iter().enumerate() {
        for input in n.op.input_buffers() {
            assert!(input.id < i);
            assert_eq!(p.nodes[input.id].tag, input.tag);
        }
    }
}

#[test]
fn prepare_keeps_emission_order_without_placeholders() {
    let mut p = QueryPlanner::new();
    let a = p.read_column(0, EncodingType::I64);
    let b = p.scalar_i64(2, true);
    let c = p.func2(Func2Type::Multiply, a, b, EncodingType::I64);
    let executor = p.prepare(vec![c]).unwrap();
    assert_eq!(executor.schedule, vec![0, 1, 2]);
    assert_eq!(executor.pinned, vec![c]);
    assert_eq!(executor.nodes.len(), 3);
}

#[test]
fn prepare_runs_a_placeholder_after_its_producer() {
    let mut p = QueryPlanner::new();
    let placeholder = p.placeholder(EncodingType::I64);
    let reader = p.func1(Func1Type::Negate, placeholder, EncodingType::I64);
    let producer = p.read_column(0, EncodingType::I64);
    p.connect(producer, placeholder);
    assert_eq!(
        p.nodes[0],
        node(Operator::Alias { source: producer }, EncodingType::I64)
    );
    let executor = p.prepare(vec![]).unwrap();
    assert_eq!(executor.schedule, vec![2, 0, 1]);
    assert_eq!(reader, buf(1, EncodingType::I64));
}

#[test]
fn prepare_rejects_an_unconnected_placeholder() {
    let mut p = QueryPlanner::new();
    let _ = p.read_column(0, EncodingType::I64);
    let _ = p.placeholder(EncodingType::I64);
    assert_eq!(p.prepare(vec![]).err(), Some(QueryError::FatalError));
}

#[test]
fn prepare_rejects_a_cycle() {
    let mut p = QueryPlanner::new();
    let placeholder = p.placeholder(EncodingType::I64);
    let reader = p.func1(Func1Type::Negate, placeholder, EncodingType::I64);
    p.connect(reader, placeholder);
    assert_eq!(p.prepare(vec![]).err(), Some(QueryError::FatalError));
}

#[test]
fn default_planner_is_empty() {
    let planner = QueryPlanner::default();
    assert!(planner.nodes.is_empty());
    assert!(planner.constants.is_empty());
}

#[test]
fn prepare_of_nothing_is_an_empty_schedule() {
    let executor: Executor = QueryPlanner::new().prepare(vec![]).unwrap();
    assert!(executor.schedule.is_empty());
    assert!(executor.nodes.is_empty());
}

#[test]
fn aliased_slots_share_a_column() {
    let x = buf(4, EncodingType::I64);
    let y = buf(2, EncodingType::U32);
    let z = buf(9, EncodingType::Str);
    let layout = collect_aliased(
        &vec![x, y, x],
        &vec![(y, Aggregator::Sum)],
        &vec![(z, true), (x, false)],
    );
    assert_eq!(layout.buffers, vec![x, y, z]);
    assert_eq!(layout.projection, vec![0, 1, 0]);
    assert_eq!(layout.aggregations, vec![(1, Aggregator::Sum)]);
    assert_eq!(layout.order_by, vec![(2, true), (0, false)]);
}

#[test]
fn buffers_with_one_position_and_two_encodings_are_distinct() {
    let layout = collect_aliased(
        &vec![buf(1, EncodingType::I64), buf(1, EncodingType::U8)],
        &vec![],
        &vec![],
    );
    assert_eq!(layout.buffers.len(), 2);
    assert_eq!(layout.projection, vec![0, 1]);
}

#[test]
fn empty_slots_lay_out_nothing() {
    let layout = collect_aliased(&vec![], &vec![], &vec![]);
    assert!(layout.buffers.is_empty());
    assert!(layout.projection.is_empty());
}

fn batch(columns: Vec<BufferData>, projection: Vec<usize>) -> BatchResult {
    BatchResult {
        columns,
        projection,
        aggregations: vec![(0, Aggregator::Count)],
        order_by: vec![],
        level: 0,
        batch_count: 1,
        show: false,
        unsafe_referenced_buffers: vec![],
    }
}

#[test]
fn batches_of_equal_length_columns_are_valid() {
    let b = batch(
        vec![
            BufferData::Int(vec![1, 2]),
            BufferData::Str(vec!["x".to_string(), "y".to_string()]),
            BufferData::Null(2),
            BufferData::Int(vec![1, 2, 3]),
        ],
        vec![1, 2, 1],
    );
    assert_eq!(b.validate(), Ok(()));
    assert_eq!(BufferData::Null(5).len(), 5);
    assert_eq!(BufferData::Int(vec![]).len(), 0);
}

#[test]
fn batches_of_unequal_columns_are_invalid() {
    let b = batch(
        vec![BufferData::Int(vec![1, 2]), BufferData::Int(vec![1, 2, 3])],
        vec![1],
    );
    assert_eq!(b.validate(), Err(QueryError::FatalError));
    let mut b = batch(
        vec![BufferData::Int(vec![1, 2]), BufferData::Int(vec![1, 2, 3])],
        vec![0],
    );
    assert_eq!(b.validate(), Ok(()));
    b.order_by = vec![(1, false)];
    assert_eq!(b.validate(), Err(QueryError::FatalError));
}

#[test]
fn batches_that_point_outside_are_invalid() {
    let b = batch(vec![BufferData::Int(vec![1, 2])], vec![1]);
    assert_eq!(b.validate(), Err(QueryError::FatalError));
    let mut b = batch(vec![], vec![]);
    assert_eq!(b.validate(), Err(QueryError::FatalError));
    b.aggregations = vec![];
    assert_eq!(b.validate(), Ok(()));
}

fn plan(explain: bool, validated: bool) -> PartitionPlan {
    let mut p = QueryPlanner::new();
    let a = p.read_column(0, EncodingType::I64);
    let b = p.read_column(1, EncodingType::I64);
    let layout: ResultLayout = collect_aliased(&vec![a, b, a], &vec![], &vec![(b, true)]);
    PartitionPlan {
        executor: p.prepare(vec![]).unwrap(),
        layout,
        rows: 3,
        partition: 0,
        explain,
        show: true,
        validated,
    }
}

#[test]
fn finish_assembles_the_batch() {
    let columns = vec![BufferData::Int(vec![1, 2, 3]), BufferData::Int(vec![4, 5, 6])];
    let pinned = vec![BufferData::Null(1)];
    let (batch, explanation) = plan(true, true)
        .finish(columns, pinned, "the plan".to_string())
        .unwrap();
    assert_eq!(
        batch.columns,
        vec![BufferData::Int(vec![1, 2, 3]), BufferData::Int(vec![4, 5, 6])]
    );
    assert_eq!(batch.projection, vec![0, 1, 0]);
    assert!(batch.aggregations.is_empty());
    assert_eq!(batch.order_by, vec![(1, true)]);
    assert_eq!(batch.level, 0);
    assert_eq!(batch.batch_count, 1);
    assert!(batch.show);
    assert_eq!(batch.unsafe_referenced_buffers, vec![BufferData::Null(1)]);
    assert_eq!(explanation, Some("the plan".to_string()));
}

#[test]
fn finish_explains_only_on_request() {
    let columns = vec![BufferData::Int(vec![1]), BufferData::Int(vec![4])];
    let (_, explanation) = plan(false, false)
        .finish(columns, vec![], "the plan".to_string())
        .unwrap();
    assert_eq!(explanation, None);
}

#[test]
fn finish_wants_one_column_per_buffer() {
    let columns = vec![BufferData::Int(vec![1])];
    assert_eq!(
        plan(false, false).finish(columns, vec![], String::new()).err(),
        Some(QueryError::FatalError)
    );
}

#[test]
fn finish_validates_where_asked() {
    let ragged = || vec![BufferData::Int(vec![1, 2]), BufferData::Int(vec![4])];
    assert_eq!(
        plan(false, true).finish(ragged(), vec![], String::new()).err(),
        Some(QueryError::FatalError)
    );
    assert!(plan(false, false).finish(ragged(), vec![], String::new()).is_ok());
}

#[test]
fn filters_come_from_masks_only() {
    assert_eq!(
        filter_from(buf(3, EncodingType::U8)),
        Filter::U8(buf(3, EncodingType::U8))
    );
    assert_eq!(
        filter_from(buf(3, EncodingType::NullableU8)),
        Filter::NullableU8(buf(3, EncodingType::NullableU8))
    );
    assert_eq!(filter_from(buf(3, EncodingType::ScalarI64)), Filter::NoFilter);
    assert_eq!(filter_from(buf(3, EncodingType::I64)), Filter::NoFilter);
}

#[test]
fn fusing_without_sort_keeps_the_filter() {
    let mut p = QueryPlanner::new();
    let mask = p.read_column(0, EncodingType::U8);
    assert_eq!(fuse_filter(&mut p, Filter::U8(mask), None, 100), Filter::U8(mask));
    assert_eq!(fuse_filter(&mut p, Filter::NoFilter, None, 100), Filter::NoFilter);
    assert_eq!(p.nodes.len(), 1);
    let sorted = p.read_column(1, EncodingType::USize);
    assert_eq!(
        fuse_filter(&mut p, Filter::NoFilter, Some(sorted), 100),
        Filter::Indices(sorted)
    );
    assert_eq!(p.nodes.len(), 2);
    let nullable = p.read_column(2, EncodingType::NullableU8);
    let fused = fuse_filter(&mut p, Filter::NullableU8(nullable), Some(sorted), 100);
    assert_eq!(fused, Filter::Indices(buf(6, EncodingType::USize)));
    assert_eq!(
        p.nodes[5],
        node(
            Operator::NullableFilter { input: buf(4, EncodingType::USize), mask: nullable },
            EncodingType::USize
        )
    );
}

#[test]
fn filter_data_gathers_through_indices() {
    let mut p = QueryPlanner::new();
    let data = p.read_column(0, EncodingType::Str);
    let indices = p.read_column(1, EncodingType::USize);
    let gathered = filter_data(&mut p, data, Filter::Indices(indices));
    assert_eq!(gathered, buf(2, EncodingType::Str));
    assert_eq!(
        p.nodes[2],
        node(Operator::Select { input: data, indices }, EncodingType::Str)
    );
    assert_eq!(filter_data(&mut p, data, Filter::NoFilter), data);
    assert_eq!(p.nodes.len(), 3);
}

#[test]
fn decode_leaves_plain_buffers_alone() {
    let mut p = QueryPlanner::new();
    let data = p.read_column(0, EncodingType::I64);
    let plain = Type::new(EncodingType::I64, false);
    assert_eq!(decode(&mut p, data, plain), (data, plain));
    assert_eq!(p.nodes.len(), 1);
}

#[test]
fn rows_come_from_the_first_column() {
    assert_eq!(rows_of(&vec![column("x", None)], 100), 8);
    assert_eq!(rows_of(&vec![], 100), 100);
}
