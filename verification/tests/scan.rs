use query_planning::expr::{Aggregator, Expr, Func1Type, Func2Type, RawVal};
use query_planning::planner::{BufferRef, Node, Operator, QueryPlanner};
use query_planning::query::{LimitClause, NormalFormQuery, Query};
use query_planning::query_plan::{compile_expr, order_preserving, Filter};
use query_planning::types::EncodingType::{
    Null, NullableI64, NullableStr, NullableU8, ScalarI64, ScalarStr, Str, USize, I64, U16, U32,
    U64, U8,
};
use query_planning::types::{Codec, Column, EncodingType, QueryError, Type};

fn col(name: &str) -> Expr {
    Expr::ColName(name.to_string())
}

fn lit(v: i64) -> Expr {
    Expr::Const(RawVal::Int(v))
}

fn func2(op: Func2Type, left: Expr, right: Expr) -> Expr {
    Expr::Func2(op, Box::new(left), Box::new(right))
}

fn buf(id: usize, tag: EncodingType) -> BufferRef {
    BufferRef { id, tag }
}

fn node(op: Operator, tag: EncodingType) -> Node {
    Node { op, tag }
}

fn int_column(name: &str, min: i64, max: i64) -> Column {
    Column {
        name: name.to_string(),
        len: 1000,
        encoding: EncodingType::I64,
        decoded: None,
        order_preserving: true,
        range: Some((min, max)),
    }
}

fn table() -> Vec<Column> {
    vec![int_column("a", 1, 4), int_column("b", 10, 20)]
}

fn stage(
    projection: Vec<Expr>,
    filter: Expr,
    order_by: Vec<(Expr, bool)>,
    limit: u64,
    offset: u64,
) -> NormalFormQuery {
    NormalFormQuery {
        projection,
        filter,
        aggregate: vec![],
        order_by,
        limit: LimitClause { limit, offset },
    }
}

#[test]
fn projection_with_filter_masks_the_column() {
    let q = Query {
        select: vec![col("a")],
        table: "t".to_string(),
        filter: func2(Func2Type::Equals, col("b"), lit(10)),
        order_by: vec![],
        limit: LimitClause { limit: 5, offset: 0 },
    };
    let (first, second) = q.normalize();
    assert!(second.is_none());
    assert!(first.aggregate.is_empty());
    let job = first.run(&table(), false, false, 3, 1000).unwrap();
    assert_eq!(
        job.executor.nodes,
        vec![
            node(Operator::ReadColumn { column: 1 }, I64),
            node(Operator::ScalarI64 { value: 10, positive: true }, ScalarI64),
            node(
                Operator::Func2 {
                    binary: Func2Type::Equals,
                    left: buf(0, I64),
                    right: buf(1, ScalarI64)
                },
                U8
            ),
            node(Operator::ReadColumn { column: 0 }, I64),
            node(Operator::Filter { input: buf(3, I64), mask: buf(2, U8) }, I64),
        ]
    );
    assert_eq!(job.executor.schedule, vec![0, 1, 2, 3, 4]);
    assert_eq!(job.layout.buffers, vec![buf(4, I64)]);
    assert_eq!(job.layout.projection, vec![0]);
    assert!(job.layout.aggregations.is_empty());
    assert!(job.layout.order_by.is_empty());
    assert_eq!(job.rows, 1000);
    assert_eq!(job.partition, 3);
    assert!(!job.explain);
    assert!(!job.show);
    assert!(!job.validated);
}

#[test]
fn single_key_with_small_limit_takes_top_n() {
    let q = stage(vec![col("a")], lit(1), vec![(col("a"), true)], 3, 0);
    let job = q.run(&table(), true, true, 0, 1000).unwrap();
    assert_eq!(
        job.executor.nodes,
        vec![
            node(Operator::ScalarI64 { value: 1, positive: true }, ScalarI64),
            node(Operator::ReadColumn { column: 0 }, I64),
            node(Operator::TopN { ranking: buf(1, I64), limit: 3, desc: true }, USize),
            node(Operator::ReadColumn { column: 0 }, I64),
            node(Operator::Select { input: buf(3, I64), indices: buf(2, USize) }, I64),
            node(Operator::ReadColumn { column: 0 }, I64),
            node(Operator::Select { input: buf(5, I64), indices: buf(2, USize) }, I64),
        ]
    );
    assert_eq!(job.layout.buffers, vec![buf(4, I64), buf(6, I64)]);
    assert_eq!(job.layout.projection, vec![0]);
    assert_eq!(job.layout.order_by, vec![(1, true)]);
    assert!(job.explain);
    assert!(job.show);
}

#[test]
fn top_n_overshoots_by_the_offset() {
    let q = stage(vec![col("a")], lit(1), vec![(col("a"), false)], 3, 4);
    let job = q.run(&table(), false, false, 0, 1000).unwrap();
    assert_eq!(
        job.executor.nodes[2],
        node(
            Operator::TopN { ranking: buf(1, EncodingType::I64), limit: 7, desc: false },
            EncodingType::USize
        )
    );
}

#[test]
fn limit_of_half_the_partition_sorts_fully() {
    let q = stage(vec![col("a")], lit(1), vec![(col("a"), false)], 400, 100);
    let job = q.run(&table(), false, false, 0, 1000).unwrap();
    assert_eq!(
        job.executor.nodes[2],
        node(Operator::Indices { input: buf(1, I64) }, USize)
    );
    assert_eq!(
        job.executor.nodes[3],
        node(
            Operator::SortBy {
                ranking: buf(1, I64),
                indices: buf(2, USize),
                desc: false,
                stable: false
            },
            USize
        )
    );
    let just_below = stage(vec![col("a")], lit(1), vec![(col("a"), false)], 400, 99);
    let job = just_below.run(&table(), false, false, 0, 1000).unwrap();
    assert_eq!(
        job.executor.nodes[2],
        node(Operator::TopN { ranking: buf(1, I64), limit: 499, desc: false }, USize)
    );
}

#[test]
fn huge_limit_does_not_wrap_into_top_n() {
    let q = stage(
        vec![col("a")],
        lit(1),
        vec![(col("a"), false)],
        u64::MAX,
        2,
    );
    let job = q.run(&table(), false, false, 0, 1000).unwrap();
    assert_eq!(
        job.executor.nodes[2],
        node(
            Operator::Indices { input: buf(1, EncodingType::I64) },
            EncodingType::USize
        )
    );
}

#[test]
fn several_keys_sort_last_key_first_then_stably() {
    let q = stage(
        vec![col("a")],
        func2(Func2Type::Equals, col("b"), lit(10)),
        vec![(col("a"), false), (col("b"), true)],
        1,
        0,
    );
    let job = q.run(&table(), false, false, 0, 1000).unwrap();
    assert_eq!(
        job.executor.nodes,
        vec![
            node(Operator::ReadColumn { column: 1 }, I64),
            node(Operator::ScalarI64 { value: 10, positive: true }, ScalarI64),
            node(
                Operator::Func2 {
                    binary: Func2Type::Equals,
                    left: buf(0, I64),
                    right: buf(1, ScalarI64)
                },
                U8
            ),
            node(Operator::ReadColumn { column: 1 }, I64),
            node(Operator::Filter { input: buf(3, I64), mask: buf(2, U8) }, I64),
            node(Operator::Indices { input: buf(4, I64) }, USize),
            node(
                Operator::SortBy {
                    ranking: buf(4, I64),
                    indices: buf(5, USize),
                    desc: true,
                    stable: false
                },
                USize
            ),
            node(Operator::ReadColumn { column: 0 }, I64),
            node(Operator::Filter { input: buf(7, I64), mask: buf(2, U8) }, I64),
            node(
                Operator::SortBy {
                    ranking: buf(8, I64),
                    indices: buf(6, USize),
                    desc: false,
                    stable: true
                },
                USize
            ),
            node(Operator::NullVec { len: 1000 }, Null),
            node(Operator::Indices { input: buf(10, Null) }, USize),
            node(Operator::Filter { input: buf(11, USize), mask: buf(2, U8) }, USize),
            node(Operator::Select { input: buf(12, USize), indices: buf(9, USize) }, USize),
            node(Operator::ReadColumn { column: 0 }, I64),
            node(Operator::Select { input: buf(14, I64), indices: buf(13, USize) }, I64),
            node(Operator::ReadColumn { column: 0 }, I64),
            node(Operator::Select { input: buf(16, I64), indices: buf(13, USize) }, I64),
            node(Operator::ReadColumn { column: 1 }, I64),
            node(Operator::Select { input: buf(18, I64), indices: buf(13, USize) }, I64),
        ]
    );
    assert_eq!(
        job.layout.buffers,
        vec![buf(15, I64), buf(17, I64), buf(19, I64)]
    );
    assert_eq!(job.layout.projection, vec![0]);
    assert_eq!(job.layout.order_by, vec![(1, false), (2, true)]);
    let schedule: Vec<usize> = (0..20).collect();
    assert_eq!(job.executor.schedule, schedule);
}

#[test]
fn nullable_mask_filters_with_nulls() {
    let mut columns = table();
    columns.push(Column {
        name: "n".to_string(),
        len: 1000,
        encoding: EncodingType::NullableI64,
        decoded: None,
        order_preserving: true,
        range: None,
    });
    let q = stage(
        vec![col("a")],
        func2(Func2Type::GT, col("n"), lit(0)),
        vec![],
        10,
        0,
    );
    let job = q.run(&columns, false, false, 0, 1000).unwrap();
    assert_eq!(
        job.executor.nodes[2],
        node(
            Operator::Func2 {
                binary: Func2Type::GT,
                left: buf(0, NullableI64),
                right: buf(1, ScalarI64)
            },
            NullableU8
        )
    );
    assert_eq!(
        job.executor.nodes[4],
        node(
            Operator::NullableFilter { input: buf(3, I64), mask: buf(2, NullableU8) },
            I64
        )
    );
}

#[test]
fn encoded_columns_are_decoded_for_the_result() {
    let columns = vec![Column {
        name: "s".to_string(),
        len: 10,
        encoding: EncodingType::U8,
        decoded: Some(EncodingType::Str),
        order_preserving: false,
        range: Some((0, 200)),
    }];
    let q = stage(vec![col("s")], lit(1), vec![(col("s"), false)], 100, 0);
    let job = q.run(&columns, false, false, 0, 10).unwrap();
    let codec = Codec { column: 0, decoded: Str };
    assert_eq!(
        job.executor.nodes,
        vec![
            node(Operator::ScalarI64 { value: 1, positive: true }, ScalarI64),
            node(Operator::ReadColumn { column: 0 }, U8),
            node(Operator::Decode { input: buf(1, U8), codec }, Str),
            node(Operator::Indices { input: buf(2, Str) }, USize),
            node(
                Operator::SortBy {
                    ranking: buf(2, Str),
                    indices: buf(3, USize),
                    desc: false,
                    stable: false
                },
                USize
            ),
            node(Operator::ReadColumn { column: 0 }, U8),
            node(Operator::Select { input: buf(5, U8), indices: buf(4, USize) }, U8),
            node(Operator::Decode { input: buf(6, U8), codec }, Str),
            node(Operator::ReadColumn { column: 0 }, U8),
            node(Operator::Select { input: buf(8, U8), indices: buf(4, USize) }, U8),
            node(Operator::Decode { input: buf(9, U8), codec }, Str),
        ]
    );
    assert_eq!(job.layout.buffers, vec![buf(7, Str), buf(10, Str)]);
    assert_eq!(job.rows, 10);
}

#[test]
fn order_preserving_encoding_is_sorted_as_stored() {
    let mut planner = QueryPlanner::new();
    let stored = planner.read_column(0, EncodingType::U16);
    let typ = Type {
        encoding: EncodingType::U16,
        codec: Some(Codec { column: 0, decoded: EncodingType::I64 }),
        order_preserving: true,
        positive: true,
    };
    let kept = order_preserving((stored, typ), &mut planner);
    assert_eq!(kept, (stored, typ));
    assert_eq!(planner.nodes.len(), 1);
    let broken = Type { order_preserving: false, ..typ };
    let decoded = order_preserving((stored, broken), &mut planner);
    assert_eq!(decoded.0, buf(1, EncodingType::I64));
    assert_eq!(
        decoded.1,
        Type {
            encoding: EncodingType::I64,
            codec: None,
            order_preserving: true,
            positive: false
        }
    );
    assert_eq!(planner.nodes.len(), 2);
}

#[test]
fn missing_column_is_reported() {
    let q = stage(vec![col("zzz")], lit(1), vec![], 10, 0);
    assert_eq!(
        q.run(&table(), false, false, 0, 1000).err(),
        Some(QueryError::NoSuchColumn)
    );
    let q = stage(vec![col("a")], col("zzz"), vec![], 10, 0);
    assert_eq!(
        q.run(&table(), false, false, 0, 1000).err(),
        Some(QueryError::NoSuchColumn)
    );
    let q = stage(vec![col("a")], lit(1), vec![(col("zzz"), false)], 10, 0);
    assert_eq!(
        q.run(&table(), false, false, 0, 1000).err(),
        Some(QueryError::NoSuchColumn)
    );
}

#[test]
fn operands_without_kernel_are_a_type_error() {
    let text = Expr::Const(RawVal::Str("x".to_string()));
    let q = stage(
        vec![func2(Func2Type::Add, col("a"), text)],
        lit(1),
        vec![],
        10,
        0,
    );
    assert_eq!(
        q.run(&table(), false, false, 0, 1000).err(),
        Some(QueryError::TypeError)
    );
    let q = stage(vec![func2(Func2Type::Add, lit(1), lit(2))], lit(1), vec![], 10, 0);
    assert_eq!(
        q.run(&table(), false, false, 0, 1000).err(),
        Some(QueryError::TypeError)
    );
    let q = stage(
        vec![Expr::Func1(Func1Type::Not, Box::new(col("a")))],
        lit(1),
        vec![],
        10,
        0,
    );
    assert_eq!(
        q.run(&table(), false, false, 0, 1000).err(),
        Some(QueryError::TypeError)
    );
}

#[test]
fn left_operand_fails_first() {
    let text = Expr::Const(RawVal::Str("x".to_string()));
    let bad_types = func2(Func2Type::Add, col("a"), text);
    let q = stage(
        vec![func2(Func2Type::Add, bad_types, col("zzz"))],
        lit(1),
        vec![],
        10,
        0,
    );
    assert_eq!(
        q.run(&table(), false, false, 0, 1000).err(),
        Some(QueryError::TypeError)
    );
}

#[test]
fn aggregate_in_a_scan_is_fatal() {
    let q = stage(
        vec![Expr::Aggregate(Aggregator::Sum, Box::new(col("a")))],
        lit(1),
        vec![],
        10,
        0,
    );
    assert_eq!(
        q.run(&table(), false, false, 0, 1000).err(),
        Some(QueryError::FatalError)
    );
}

#[test]
fn constants_compile_to_scalars() {
    let mut planner = QueryPlanner::new();
    let columns = table();
    let negative = compile_expr(&lit(-5), Filter::NoFilter, &columns, &mut planner).unwrap();
    assert_eq!(negative.0, buf(0, EncodingType::ScalarI64));
    assert!(!negative.1.positive);
    let truth = compile_expr(
        &Expr::Const(RawVal::Bool(true)),
        Filter::NoFilter,
        &columns,
        &mut planner,
    )
    .unwrap();
    assert_eq!(truth.0, buf(1, EncodingType::ScalarI64));
    assert!(truth.1.positive);
    let text = compile_expr(
        &Expr::Const(RawVal::Str("hello".to_string())),
        Filter::NoFilter,
        &columns,
        &mut planner,
    )
    .unwrap();
    assert_eq!(text.0, buf(2, EncodingType::ScalarStr));
    let null = compile_expr(
        &Expr::Const(RawVal::Null),
        Filter::NoFilter,
        &columns,
        &mut planner,
    )
    .unwrap();
    assert_eq!(null.0, buf(3, EncodingType::Null));
    assert_eq!(
        planner.nodes,
        vec![
            node(
                Operator::ScalarI64 { value: -5, positive: false },
                EncodingType::ScalarI64
            ),
            node(
                Operator::ScalarI64 { value: 1, positive: true },
                EncodingType::ScalarI64
            ),
            node(Operator::ScalarStr { constant: 0 }, EncodingType::ScalarStr),
            node(Operator::ScalarNull, EncodingType::Null),
        ]
    );
    assert_eq!(planner.constants, vec!["hello"]);
}

#[test]
fn filter_is_applied_once_at_each_column() {
    let mut planner = QueryPlanner::new();
    let columns = table();
    let mask = planner.read_column(7, EncodingType::U8);
    let e = func2(
        Func2Type::Add,
        col("a"),
        func2(Func2Type::Multiply, col("b"), lit(2)),
    );
    let (result, typ) = compile_expr(&e, Filter::U8(mask), &columns, &mut planner).unwrap();
    assert_eq!(
        planner.nodes,
        vec![
            node(Operator::ReadColumn { column: 7 }, U8),
            node(Operator::ReadColumn { column: 0 }, I64),
            node(Operator::Filter { input: buf(1, I64), mask: buf(0, U8) }, I64),
            node(Operator::ReadColumn { column: 1 }, I64),
            node(Operator::Filter { input: buf(3, I64), mask: buf(0, U8) }, I64),
            node(Operator::ScalarI64 { value: 2, positive: true }, ScalarI64),
            node(
                Operator::Func2 {
                    binary: Func2Type::Multiply,
                    left: buf(4, I64),
                    right: buf(5, ScalarI64)
                },
                I64
            ),
            node(
                Operator::Func2 {
                    binary: Func2Type::Add,
                    left: buf(2, I64),
                    right: buf(6, I64)
                },
                I64
            ),
        ]
    );
    assert_eq!(result, buf(7, I64));
    assert_eq!(
        typ,
        Type { encoding: I64, codec: None, order_preserving: true, positive: false }
    );
}

#[test]
fn scan_without_columns_runs_over_the_partition_length() {
    let q = stage(vec![lit(7)], lit(1), vec![], 10, 0);
    let job = q.run(&vec![], false, false, 0, 250).unwrap();
    assert_eq!(job.rows, 250);
    let job = q.run(&table(), false, false, 0, 250).unwrap();
    assert_eq!(job.rows, 1000);
}

#[test]
fn first_column_of_a_name_is_used() {
    let mut columns = table();
    columns.push(Column {
        name: "a".to_string(),
        len: 1000,
        encoding: EncodingType::Str,
        decoded: None,
        order_preserving: true,
        range: None,
    });
    let q = stage(vec![col("a")], lit(1), vec![], 10, 0);
    let job = q.run(&columns, false, false, 0, 1000).unwrap();
    assert_eq!(
        job.executor.nodes[1],
        node(Operator::ReadColumn { column: 0 }, EncodingType::I64)
    );
}
