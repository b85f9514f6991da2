use query_planning::aggregate::{prepare_aggregation, prepare_hashmap_grouping};
use query_planning::expr::{Aggregator, Expr, Func2Type, RawVal};
use query_planning::grouping::{compile_grouping_key, range_of};
use query_planning::planner::{BufferRef, Node, Operator, QueryPlanner};
use query_planning::query::{LimitClause, NormalFormQuery, Query};
use query_planning::query_plan::Filter;
use query_planning::types::EncodingType::{
    Null, NullableI64, NullableStr, NullableU8, ScalarI64, ScalarStr, Str, USize, I64, U16, U32,
    U64, U8,
};
use query_planning::types::{Codec, Column, EncodingType, QueryError, Type};

fn col(name: &str) -> Expr {
    Expr::ColName(name.to_string())
}

fn lit(v: i64) -> Expr {
    Expr::Const(RawVal::Int(v))
}

fn agg(aggregator: Aggregator, arg: Expr) -> Expr {
    Expr::Aggregate(aggregator, Box::new(arg))
}

fn buf(id: usize, tag: EncodingType) -> BufferRef {
    BufferRef { id, tag }
}

fn node(op: Operator, tag: EncodingType) -> Node {
    Node { op, tag }
}

fn int_column(name: &str, min: i64, max: i64) -> Column {
    Column {
        name: name.to_string(),
        len: 1000,
        encoding: EncodingType::I64,
        decoded: None,
        order_preserving: true,
        range: Some((min, max)),
    }
}

fn text_column(name: &str) -> Column {
    Column {
        name: name.to_string(),
        len: 1000,
        encoding: EncodingType::U8,
        decoded: Some(EncodingType::Str),
        order_preserving: false,
        range: None,
    }
}

fn table() -> Vec<Column> {
    vec![int_column("a", 1, 4), int_column("b", 10, 20)]
}

fn grouped(projection: Vec<Expr>, aggregate: Vec<(Aggregator, Expr)>) -> NormalFormQuery {
    NormalFormQuery {
        projection,
        filter: lit(1),
        aggregate,
        order_by: vec![],
        limit: LimitClause { limit: 100, offset: 0 },
    }
}

#[test]
fn count_and_sum_by_one_column_group_densely() {
    let q = Query {
        select: vec![
            col("b"),
            agg(Aggregator::Count, lit(1)),
            agg(Aggregator::Sum, col("a")),
        ],
        table: "t".to_string(),
        filter: lit(1),
        order_by: vec![],
        limit: LimitClause { limit: 100, offset: 0 },
    };
    let (first, second) = q.normalize();
    assert!(second.is_none());
    assert_eq!(first.projection, vec![col("b")]);
    assert_eq!(
        first.aggregate,
        vec![(Aggregator::Count, lit(1)), (Aggregator::Sum, col("a"))]
    );
    let job = first.run_aggregate(&table(), false, false, 2, 1000).unwrap();
    assert_eq!(
        job.executor.nodes,
        vec![
            node(Operator::ScalarI64 { value: 1, positive: true }, ScalarI64),
            node(Operator::ReadColumn { column: 1 }, I64),
            node(Operator::ScalarI64 { value: 10, positive: true }, ScalarI64),
            node(
                Operator::Func2 {
                    binary: Func2Type::Subtract,
                    left: buf(1, I64),
                    right: buf(2, ScalarI64)
                },
                I64
            ),
            node(Operator::Alias { source: buf(12, I64) }, I64),
            node(Operator::ScalarI64 { value: 10, positive: true }, ScalarI64),
            node(
                Operator::Func2 {
                    binary: Func2Type::Add,
                    left: buf(4, I64),
                    right: buf(5, ScalarI64)
                },
                I64
            ),
            node(Operator::ScalarI64 { value: 10, positive: true }, ScalarI64),
            node(Operator::ScalarI64 { value: 1, positive: true }, ScalarI64),
            node(
                Operator::Aggregate {
                    aggregator: Aggregator::Count,
                    input: buf(8, ScalarI64),
                    grouping_key: buf(3, I64),
                    cardinality: buf(7, ScalarI64)
                },
                U32
            ),
            node(Operator::ReadColumn { column: 0 }, I64),
            node(
                Operator::Aggregate {
                    aggregator: Aggregator::Sum,
                    input: buf(10, I64),
                    grouping_key: buf(3, I64),
                    cardinality: buf(7, ScalarI64)
                },
                I64
            ),
            node(Operator::NonzeroIndices { input: buf(9, U32) }, I64),
            node(Operator::Compact { input: buf(11, I64), selector: buf(9, U32) }, I64),
            node(Operator::NonzeroCompact { input: buf(9, U32) }, U32),
        ]
    );
    assert_eq!(
        job.executor.schedule,
        vec![0, 1, 2, 3, 5, 7, 8, 9, 10, 11, 12, 13, 14, 4, 6]
    );
    assert_eq!(job.layout.buffers, vec![buf(6, I64), buf(14, U32), buf(13, I64)]);
    assert_eq!(job.layout.projection, vec![0]);
    assert_eq!(
        job.layout.aggregations,
        vec![(1, Aggregator::Count), (2, Aggregator::Sum)]
    );
    assert!(job.layout.order_by.is_empty());
    assert!(job.validated);
    assert_eq!(job.rows, 1000);
    assert_eq!(job.partition, 2);
}

#[test]
fn aggregates_without_grouping_columns_form_one_group() {
    let q = Query {
        select: vec![
            agg(Aggregator::Count, lit(1)),
            agg(Aggregator::Sum, col("a")),
        ],
        table: "t".to_string(),
        filter: lit(1),
        order_by: vec![],
        limit: LimitClause { limit: 100, offset: 0 },
    };
    let (first, second) = q.normalize();
    assert!(second.is_none());
    assert!(first.projection.is_empty());
    let job = first.run_aggregate(&table(), false, false, 0, 1000).unwrap();
    assert_eq!(
        job.executor.nodes[1],
        node(Operator::NullVec { len: 1000 }, U8)
    );
    assert_eq!(
        job.executor.nodes[3],
        node(Operator::ScalarI64 { value: 0, positive: true }, ScalarI64)
    );
    assert_eq!(job.layout.projection, Vec::<usize>::new());
    assert_eq!(
        job.layout.aggregations,
        vec![(0, Aggregator::Count), (1, Aggregator::Sum)]
    );
}

#[test]
fn sum_without_count_computes_a_presence_vector() {
    let q = grouped(vec![col("b")], vec![(Aggregator::Sum, col("a"))]);
    let job = q.run_aggregate(&table(), false, false, 0, 1000).unwrap();
    assert_eq!(
        job.executor.nodes[10],
        node(
            Operator::Exists { grouping_key: buf(3, I64), cardinality: buf(7, ScalarI64) },
            U8
        )
    );
    assert_eq!(
        job.executor.nodes[11],
        node(Operator::NonzeroIndices { input: buf(10, U8) }, I64)
    );
    assert_eq!(
        job.executor.nodes[12],
        node(Operator::Compact { input: buf(9, I64), selector: buf(10, U8) }, I64)
    );
}

#[test]
fn last_count_is_the_selector_and_keeps_its_place() {
    let q = grouped(
        vec![col("b")],
        vec![
            (Aggregator::Count, lit(1)),
            (Aggregator::Sum, col("a")),
            (Aggregator::Count, col("a")),
            (Aggregator::Sum, col("b")),
        ],
    );
    let job = q.run_aggregate(&table(), false, false, 0, 1000).unwrap();
    let nodes = &job.executor.nodes;
    assert_eq!(nodes.len(), 21);
    assert_eq!(nodes[16], node(Operator::NonzeroIndices { input: buf(13, U32) }, I64));
    assert_eq!(nodes[17], node(Operator::NonzeroCompact { input: buf(9, U32) }, U32));
    assert_eq!(
        nodes[18],
        node(Operator::Compact { input: buf(11, I64), selector: buf(13, U32) }, I64)
    );
    assert_eq!(
        nodes[19],
        node(Operator::Compact { input: buf(15, I64), selector: buf(13, U32) }, I64)
    );
    assert_eq!(nodes[20], node(Operator::NonzeroCompact { input: buf(13, U32) }, U32));
    assert_eq!(
        job.layout.buffers,
        vec![buf(6, I64), buf(17, U32), buf(18, I64), buf(20, U32), buf(19, I64)]
    );
    assert_eq!(
        job.layout.aggregations,
        vec![
            (1, Aggregator::Count),
            (2, Aggregator::Sum),
            (3, Aggregator::Count),
            (4, Aggregator::Sum)
        ]
    );
}

#[test]
fn many_groups_take_the_hash_table_and_are_sorted() {
    let columns = vec![int_column("a", 0, 999), int_column("b", 0, 999)];
    let q = grouped(vec![col("a"), col("b")], vec![]);
    let job = q.run_aggregate(&columns, false, false, 0, 1000).unwrap();
    assert_eq!(
        job.executor.nodes,
        vec![
            node(Operator::ScalarI64 { value: 1, positive: true }, ScalarI64),
            node(Operator::ReadColumn { column: 0 }, I64),
            node(Operator::ReadColumn { column: 1 }, I64),
            node(Operator::Pack { high: buf(1, I64), low: buf(2, I64), radix: 1000 }, I64),
            node(Operator::Alias { source: buf(7, I64) }, I64),
            node(Operator::Unpack { input: buf(4, I64), divisor: 1000, radix: 1000 }, I64),
            node(Operator::Unpack { input: buf(4, I64), divisor: 1, radix: 1000 }, I64),
            node(
                Operator::HashGroupColumn { raw_key: buf(3, I64), max_cardinality: 999999 },
                I64
            ),
            node(Operator::HashGroupKey { raw_key: buf(3, I64) }, U32),
            node(Operator::HashGroupCardinality { raw_key: buf(3, I64) }, ScalarI64),
            node(
                Operator::Exists { grouping_key: buf(8, U32), cardinality: buf(9, ScalarI64) },
                U8
            ),
            node(Operator::Indices { input: buf(7, I64) }, USize),
            node(
                Operator::SortBy {
                    ranking: buf(7, I64),
                    indices: buf(11, USize),
                    desc: false,
                    stable: false
                },
                USize
            ),
            node(Operator::Select { input: buf(5, I64), indices: buf(12, USize) }, I64),
            node(Operator::Select { input: buf(6, I64), indices: buf(12, USize) }, I64),
        ]
    );
    assert_eq!(
        job.executor.schedule,
        vec![0, 1, 2, 3, 7, 8, 9, 10, 11, 12, 4, 5, 6, 13, 14]
    );
    assert_eq!(job.layout.buffers, vec![buf(13, I64), buf(14, I64)]);
    assert_eq!(job.layout.projection, vec![0, 1]);
}

#[test]
fn few_groups_of_two_columns_group_densely() {
    let q = grouped(vec![col("a"), col("b")], vec![(Aggregator::Count, lit(1))]);
    let job = q.run_aggregate(&table(), false, false, 0, 1000).unwrap();
    let nodes = &job.executor.nodes;
    assert_eq!(
        nodes[3],
        node(
            Operator::Func2 {
                binary: Func2Type::Subtract,
                left: buf(1, I64),
                right: buf(2, ScalarI64)
            },
            I64
        )
    );
    assert_eq!(
        nodes[7],
        node(Operator::Pack { high: buf(3, I64), low: buf(6, I64), radix: 11 }, I64)
    );
    assert_eq!(
        nodes[9],
        node(Operator::Unpack { input: buf(8, I64), divisor: 11, radix: 4 }, I64)
    );
    assert_eq!(
        nodes[12],
        node(Operator::Unpack { input: buf(8, I64), divisor: 1, radix: 11 }, I64)
    );
    assert_eq!(
        nodes[15],
        node(Operator::ScalarI64 { value: 43, positive: true }, ScalarI64)
    );
}

#[test]
fn single_text_column_is_hashed_and_sorted_by_its_values() {
    let columns = vec![text_column("s")];
    let q = grouped(vec![col("s")], vec![(Aggregator::Count, lit(1))]);
    let job = q.run_aggregate(&columns, false, false, 0, 1000).unwrap();
    let codec = Codec { column: 0, decoded: Str };
    assert_eq!(
        job.executor.nodes,
        vec![
            node(Operator::ScalarI64 { value: 1, positive: true }, ScalarI64),
            node(Operator::ReadColumn { column: 0 }, U8),
            node(Operator::Alias { source: buf(4, U8) }, U8),
            node(Operator::Decode { input: buf(2, U8), codec }, Str),
            node(
                Operator::HashGroupColumn {
                    raw_key: buf(1, U8),
                    max_cardinality: 4611686018427387904
                },
                U8
            ),
            node(Operator::HashGroupKey { raw_key: buf(1, U8) }, U32),
            node(Operator::HashGroupCardinality { raw_key: buf(1, U8) }, ScalarI64),
            node(Operator::ScalarI64 { value: 1, positive: true }, ScalarI64),
            node(
                Operator::Aggregate {
                    aggregator: Aggregator::Count,
                    input: buf(7, ScalarI64),
                    grouping_key: buf(5, U32),
                    cardinality: buf(6, ScalarI64)
                },
                U32
            ),
            node(Operator::NonzeroCompact { input: buf(8, U32) }, U32),
            node(Operator::Indices { input: buf(3, Str) }, USize),
            node(
                Operator::SortBy {
                    ranking: buf(3, Str),
                    indices: buf(10, USize),
                    desc: false,
                    stable: false
                },
                USize
            ),
            node(Operator::Select { input: buf(9, U32), indices: buf(11, USize) }, U32),
            node(Operator::Select { input: buf(3, Str), indices: buf(11, USize) }, Str),
        ]
    );
    assert_eq!(job.layout.buffers, vec![buf(13, Str), buf(12, U32)]);
    assert_eq!(job.layout.projection, vec![0]);
    assert_eq!(job.layout.aggregations, vec![(1, Aggregator::Count)]);
}

#[test]
fn several_columns_without_bounds_are_not_implemented() {
    let columns = vec![text_column("s"), int_column("a", 1, 4)];
    let q = grouped(vec![col("a"), col("s")], vec![(Aggregator::Count, lit(1))]);
    assert_eq!(
        q.run_aggregate(&columns, false, false, 0, 1000).err(),
        Some(QueryError::NotImplemented)
    );
}

#[test]
fn unordered_hashed_groups_of_several_columns_are_not_implemented() {
    let mut a = int_column("a", 0, 999);
    a.order_preserving = false;
    let columns = vec![a, int_column("b", 0, 999)];
    let q = grouped(vec![col("a"), col("b")], vec![]);
    assert_eq!(
        q.run_aggregate(&columns, false, false, 0, 1000).err(),
        Some(QueryError::NotImplemented)
    );
}

#[test]
fn key_that_does_not_fit_is_not_implemented() {
    let columns = vec![
        int_column("a", 0, i64::MAX - 1),
        int_column("b", 0, 1),
    ];
    let q = grouped(vec![col("a"), col("b")], vec![]);
    assert_eq!(
        q.run_aggregate(&columns, false, false, 0, 1000).err(),
        Some(QueryError::NotImplemented)
    );
    let q = grouped(vec![col("a")], vec![]);
    assert!(q.run_aggregate(&columns, false, false, 0, 1000).is_ok());
}

#[test]
fn sum_of_text_is_a_type_error() {
    let columns = vec![text_column("s"), int_column("a", 1, 4)];
    let q = grouped(vec![col("a")], vec![(Aggregator::Sum, col("s"))]);
    assert_eq!(
        q.run_aggregate(&columns, false, false, 0, 1000).err(),
        Some(QueryError::TypeError)
    );
    let q = grouped(vec![col("a")], vec![(Aggregator::Count, col("s"))]);
    assert!(q.run_aggregate(&columns, false, false, 0, 1000).is_ok());
}

#[test]
fn missing_grouping_column_is_reported() {
    let q = grouped(vec![col("zzz")], vec![(Aggregator::Count, lit(1))]);
    assert_eq!(
        q.run_aggregate(&table(), false, false, 0, 1000).err(),
        Some(QueryError::NoSuchColumn)
    );
    let q = grouped(vec![col("a")], vec![(Aggregator::Sum, col("zzz"))]);
    assert_eq!(
        q.run_aggregate(&table(), false, false, 0, 1000).err(),
        Some(QueryError::NoSuchColumn)
    );
}

#[test]
fn aggregation_without_columns_runs_over_one_row() {
    let q = grouped(vec![], vec![(Aggregator::Count, lit(1))]);
    let job = q.run_aggregate(&vec![], false, false, 0, 250).unwrap();
    assert_eq!(job.rows, 1);
}

#[test]
fn filtered_aggregation_masks_key_and_arguments() {
    let mut q = grouped(vec![col("b")], vec![(Aggregator::Sum, col("a"))]);
    q.filter = Expr::Func2(Func2Type::GT, Box::new(col("a")), Box::new(lit(2)));
    let job = q.run_aggregate(&table(), false, false, 0, 1000).unwrap();
    let nodes = &job.executor.nodes;
    assert_eq!(nodes[3], node(Operator::ReadColumn { column: 1 }, I64));
    assert_eq!(
        nodes[4],
        node(Operator::Filter { input: buf(3, I64), mask: buf(2, U8) }, I64)
    );
    assert_eq!(nodes[11], node(Operator::ReadColumn { column: 0 }, I64));
    assert_eq!(
        nodes[12],
        node(Operator::Filter { input: buf(11, I64), mask: buf(2, U8) }, I64)
    );
}

#[test]
fn range_is_read_through_filters() {
    let columns = table();
    let mut planner = QueryPlanner::new();
    let mask = planner.read_column(9, EncodingType::U8);
    let data = planner.read_column(1, EncodingType::I64);
    let kept = planner.filter(data, mask);
    let negated = planner.func1(
        query_planning::expr::Func1Type::Negate,
        kept,
        EncodingType::I64,
    );
    assert_eq!(range_of(&planner, &columns, data), Some((10, 20)));
    assert_eq!(range_of(&planner, &columns, kept), Some((10, 20)));
    assert_eq!(range_of(&planner, &columns, negated), None);
    assert_eq!(range_of(&planner, &columns, mask), None);
    assert_eq!(range_of(&planner, &columns, buf(77, EncodingType::I64)), None);
}

#[test]
fn grouping_key_of_one_bounded_column_from_zero_is_the_column() {
    let columns = vec![int_column("a", 0, 9)];
    let mut planner = QueryPlanner::new();
    let ((key, key_type), max, decode_plans, placeholder) = compile_grouping_key(
        &vec![col("a")],
        Filter::NoFilter,
        &columns,
        1000,
        &mut planner,
    )
    .unwrap();
    assert_eq!(key, buf(0, EncodingType::I64));
    assert_eq!(
        key_type,
        Type {
            encoding: EncodingType::I64,
            codec: None,
            order_preserving: true,
            positive: true
        }
    );
    assert_eq!(max, 9);
    assert_eq!(placeholder, buf(1, EncodingType::I64));
    assert_eq!(decode_plans, vec![(buf(1, EncodingType::I64), key_type)]);
    assert_eq!(planner.nodes.len(), 2);
    assert_eq!(
        planner.nodes[1],
        node(Operator::Placeholder, EncodingType::I64)
    );
}

#[test]
fn hash_grouping_rejects_keys_it_cannot_hash() {
    let mut planner = QueryPlanner::new();
    let nullable = planner.read_column(0, EncodingType::NullableI64);
    assert_eq!(
        prepare_hashmap_grouping(nullable, 10, &mut planner).err(),
        Some(QueryError::TypeError)
    );
    let scalar = planner.scalar_i64(1, true);
    assert_eq!(
        prepare_hashmap_grouping(scalar, 10, &mut planner).err(),
        Some(QueryError::TypeError)
    );
    let text = planner.read_column(1, EncodingType::Str);
    let (column, key, key_type, cardinality) =
        prepare_hashmap_grouping(text, 10, &mut planner).unwrap();
    assert_eq!(column, Some(buf(3, EncodingType::Str)));
    assert_eq!(key, buf(4, EncodingType::U32));
    assert_eq!(cardinality, buf(5, EncodingType::ScalarI64));
    assert!(!key_type.order_preserving);
    assert!(key_type.positive);
}

#[test]
fn sum_decodes_its_argument() {
    let mut planner = QueryPlanner::new();
    let key = planner.read_column(0, EncodingType::U8);
    let cardinality = planner.scalar_i64(5, true);
    let stored = planner.read_column(1, EncodingType::U16);
    let codec = Codec { column: 1, decoded: EncodingType::I64 };
    let typ = Type {
        encoding: EncodingType::U16,
        codec: Some(codec),
        order_preserving: true,
        positive: true,
    };
    let (sum, sum_type) =
        prepare_aggregation(stored, typ, key, cardinality, Aggregator::Sum, &mut planner).unwrap();
    assert_eq!(sum, buf(4, EncodingType::I64));
    assert_eq!(
        sum_type,
        Type {
            encoding: EncodingType::I64,
            codec: None,
            order_preserving: true,
            positive: false
        }
    );
    assert_eq!(
        planner.nodes[3],
        node(
            Operator::Decode { input: buf(2, EncodingType::U16), codec },
            EncodingType::I64
        )
    );
    let (count, count_type) =
        prepare_aggregation(stored, typ, key, cardinality, Aggregator::Count, &mut planner)
            .unwrap();
    assert_eq!(count, buf(5, EncodingType::U32));
    assert!(count_type.positive);
    assert_eq!(
        planner.nodes[5],
        node(
            Operator::Aggregate {
                aggregator: Aggregator::Count,
                input: buf(2, EncodingType::U16),
                grouping_key: buf(0, EncodingType::U8),
                cardinality: buf(1, EncodingType::ScalarI64)
            },
            EncodingType::U32
        )
    );
}

#[test]
fn sorted_aggregate_runs_in_two_stages() {
    let q = Query {
        select: vec![col("b"), agg(Aggregator::Sum, col("a"))],
        table: "t".to_string(),
        filter: lit(1),
        order_by: vec![(agg(Aggregator::Sum, col("a")), true)],
        limit: LimitClause { limit: 100, offset: 0 },
    };
    let (first, second) = q.normalize();
    let second = second.unwrap();
    assert!(first.run_aggregate(&table(), false, false, 0, 1000).is_ok());
    assert_eq!(
        first.result_column_names(),
        vec!["b", "sum_0", "sum_1"]
    );
    let produced = vec![
        int_column("_cs0", 10, 20),
        Column {
            name: "_ca0".to_string(),
            len: 2,
            encoding: EncodingType::I64,
            decoded: None,
            order_preserving: true,
            range: None,
        },
        Column {
            name: "_ca1".to_string(),
            len: 2,
            encoding: EncodingType::I64,
            decoded: None,
            order_preserving: true,
            range: None,
        },
    ];
    let job = second.run(&produced, false, false, 0, 2).unwrap();
    let nodes = &job.executor.nodes;
    assert_eq!(nodes[1], node(Operator::ReadColumn { column: 2 }, I64));
    assert_eq!(nodes[2], node(Operator::Indices { input: buf(1, I64) }, USize));
    assert_eq!(
        nodes[3],
        node(
            Operator::SortBy {
                ranking: buf(1, I64),
                indices: buf(2, USize),
                desc: true,
                stable: false
            },
            USize
        )
    );
    assert_eq!(job.layout.projection, vec![0, 1]);
    assert_eq!(job.layout.order_by, vec![(2, true)]);
}

#[test]
fn expression_over_aggregate_is_computed_in_the_second_stage() {
    let q = Query {
        select: vec![
            col("b"),
            Expr::Func2(
                Func2Type::Add,
                Box::new(agg(Aggregator::Sum, col("a"))),
                Box::new(lit(1)),
            ),
        ],
        table: "t".to_string(),
        filter: lit(1),
        order_by: vec![],
        limit: LimitClause { limit: 100, offset: 0 },
    };
    let (first, second) = q.normalize();
    let second = second.unwrap();
    assert_eq!(first.aggregate, vec![(Aggregator::Sum, col("a"))]);
    let produced = vec![
        int_column("_cs0", 10, 20),
        Column {
            name: "_ca0".to_string(),
            len: 2,
            encoding: EncodingType::I64,
            decoded: None,
            order_preserving: true,
            range: None,
        },
    ];
    let job = second.run(&produced, false, false, 0, 2).unwrap();
    assert_eq!(
        job.executor.nodes,
        vec![
            node(Operator::ScalarI64 { value: 1, positive: true }, ScalarI64),
            node(Operator::ReadColumn { column: 0 }, I64),
            node(Operator::ReadColumn { column: 1 }, I64),
            node(Operator::ScalarI64 { value: 1, positive: true }, ScalarI64),
            node(
                Operator::Func2 {
                    binary: Func2Type::Add,
                    left: buf(2, I64),
                    right: buf(3, ScalarI64)
                },
                I64
            ),
        ]
    );
    assert_eq!(job.layout.buffers, vec![buf(1, I64), buf(4, I64)]);
}
