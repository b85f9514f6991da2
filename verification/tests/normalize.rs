use query_planning::expr::{Aggregator, Expr, Func1Type, Func2Type, RawVal};
use query_planning::query::{LimitClause, NormalFormQuery, Query};

fn col(name: &str) -> Expr {
    Expr::ColName(name.to_string())
}

fn lit(v: i64) -> Expr {
    Expr::Const(RawVal::Int(v))
}

fn func2(op: Func2Type, left: Expr, right: Expr) -> Expr {
    Expr::Func2(op, Box::new(left), Box::new(right))
}

fn agg(aggregator: Aggregator, arg: Expr) -> Expr {
    Expr::Aggregate(aggregator, Box::new(arg))
}

fn query(select: Vec<Expr>, filter: Expr, order_by: Vec<(Expr, bool)>, limit: u64) -> Query {
    Query {
        select,
        table: "t".to_string(),
        filter,
        order_by,
        limit: LimitClause { limit, offset: 0 },
    }
}

#[test]
fn projection_with_filter_is_one_stage() {
    let q = query(
        vec![col("a")],
        func2(Func2Type::Equals, col("b"), lit(10)),
        vec![],
        5,
    );
    let (first, second) = q.normalize();
    assert!(second.is_none());
    assert_eq!(first.projection, vec![col("a")]);
    assert!(first.aggregate.is_empty());
    assert!(first.order_by.is_empty());
    assert_eq!(first.filter, func2(Func2Type::Equals, col("b"), lit(10)));
    assert_eq!(first.limit, LimitClause { limit: 5, offset: 0 });
}

#[test]
fn order_without_aggregate_is_one_stage() {
    let q = query(vec![col("a")], lit(1), vec![(col("a"), true)], 3);
    let (first, second) = q.normalize();
    assert!(second.is_none());
    assert_eq!(first.projection, vec![col("a")]);
    assert_eq!(first.order_by, vec![(col("a"), true)]);
    assert!(first.aggregate.is_empty());
}

#[test]
fn simple_aggregate_is_one_stage() {
    let q = query(
        vec![agg(Aggregator::Count, lit(1)), agg(Aggregator::Sum, col("a"))],
        lit(1),
        vec![],
        100,
    );
    let (first, second) = q.normalize();
    assert!(second.is_none());
    assert!(first.projection.is_empty());
    assert_eq!(
        first.aggregate,
        vec![(Aggregator::Count, lit(1)), (Aggregator::Sum, col("a"))]
    );
    assert!(first.order_by.is_empty());
}

#[test]
fn aggregate_with_order_takes_two_stages() {
    let q = query(
        vec![col("b"), agg(Aggregator::Sum, col("a"))],
        lit(1),
        vec![(agg(Aggregator::Sum, col("a")), true)],
        100,
    );
    let (first, second) = q.normalize();
    let second = second.expect("a final pass");
    assert_eq!(first.projection, vec![col("b")]);
    assert_eq!(
        first.aggregate,
        vec![(Aggregator::Sum, col("a")), (Aggregator::Sum, col("a"))]
    );
    assert!(first.order_by.is_empty());
    assert_eq!(first.filter, lit(1));
    assert_eq!(second.projection, vec![col("_cs0"), col("_ca0")]);
    assert_eq!(second.order_by, vec![(col("_ca1"), true)]);
    assert!(second.aggregate.is_empty());
    assert_eq!(second.filter, lit(1));
}

#[test]
fn expression_over_aggregate_takes_two_stages() {
    let q = query(
        vec![
            col("b"),
            func2(Func2Type::Add, agg(Aggregator::Sum, col("a")), lit(1)),
        ],
        func2(Func2Type::GT, col("a"), lit(0)),
        vec![],
        100,
    );
    let (first, second) = q.normalize();
    let second = second.expect("a final pass");
    assert_eq!(first.projection, vec![col("b")]);
    assert_eq!(first.aggregate, vec![(Aggregator::Sum, col("a"))]);
    assert_eq!(first.filter, func2(Func2Type::GT, col("a"), lit(0)));
    assert_eq!(
        second.projection,
        vec![col("_cs0"), func2(Func2Type::Add, col("_ca0"), lit(1))]
    );
    assert_eq!(second.filter, lit(1));
    assert!(second.order_by.is_empty());
}

#[test]
fn order_key_without_aggregate_joins_first_stage() {
    let q = query(
        vec![agg(Aggregator::Count, lit(1))],
        lit(1),
        vec![(col("b"), false)],
        10,
    );
    let (first, second) = q.normalize();
    let second = second.expect("a final pass");
    assert_eq!(first.projection, vec![col("b")]);
    assert_eq!(first.aggregate, vec![(Aggregator::Count, lit(1))]);
    assert_eq!(second.projection, vec![col("_ca0")]);
    assert_eq!(second.order_by, vec![(col("_cs0"), false)]);
}

#[test]
fn extraction_numbers_aggregates_left_to_right() {
    let e = func2(
        Func2Type::Divide,
        agg(Aggregator::Sum, col("a")),
        Expr::Func1(
            Func1Type::Negate,
            Box::new(agg(Aggregator::Count, col("b"))),
        ),
    );
    let mut names = vec!["_ca0".to_string(), "_ca1".to_string()];
    let (shell, aggregates) = Query::extract_aggregators(&e, &mut names);
    assert_eq!(
        shell,
        func2(
            Func2Type::Divide,
            col("_ca2"),
            Expr::Func1(Func1Type::Negate, Box::new(col("_ca3")))
        )
    );
    assert_eq!(
        aggregates,
        vec![(Aggregator::Sum, col("a")), (Aggregator::Count, col("b"))]
    );
    assert_eq!(names, vec!["_ca0", "_ca1", "_ca2", "_ca3"]);
}

#[test]
fn extraction_leaves_plain_expressions_alone() {
    let e = func2(Func2Type::Add, col("a"), lit(7));
    let mut names = Vec::new();
    let (shell, aggregates) = Query::extract_aggregators(&e, &mut names);
    assert_eq!(shell, e);
    assert!(aggregates.is_empty());
    assert!(names.is_empty());
}

#[test]
fn synthetic_names_count_in_decimal() {
    let mut names: Vec<String> = Vec::new();
    for _ in 0..12 {
        let _ = Query::extract_aggregators(&agg(Aggregator::Sum, col("a")), &mut names);
    }
    assert_eq!(names[9], "_ca9");
    assert_eq!(names[10], "_ca10");
    assert_eq!(names[11], "_ca11");
}

#[test]
fn select_star_is_recognized() {
    assert!(query(vec![col("*")], lit(1), vec![], 1).is_select_star());
    assert!(!query(vec![col("a")], lit(1), vec![], 1).is_select_star());
    assert!(!query(vec![col("**")], lit(1), vec![], 1).is_select_star());
    assert!(!query(vec![col("*"), col("a")], lit(1), vec![], 1).is_select_star());
    assert!(!query(vec![], lit(1), vec![], 1).is_select_star());
    assert!(!query(vec![lit(1)], lit(1), vec![], 1).is_select_star());
}

#[test]
fn referenced_columns_are_found_once_each() {
    let q = query(
        vec![
            func2(Func2Type::Add, col("a"), col("b")),
            agg(Aggregator::Sum, col("c")),
        ],
        func2(Func2Type::Equals, col("d"), col("a")),
        vec![(col("e"), false), (col("b"), true)],
        10,
    );
    assert_eq!(q.find_referenced_cols(), vec!["a", "b", "c", "e", "d"]);
}

#[test]
fn referenced_columns_of_constant_query_are_none() {
    let q = query(vec![lit(1)], lit(1), vec![], 10);
    assert!(q.find_referenced_cols().is_empty());
}

#[test]
fn result_columns_are_named() {
    let stage = NormalFormQuery {
        projection: vec![
            col("a"),
            func2(Func2Type::Add, col("a"), lit(1)),
            col("b"),
            lit(3),
        ],
        filter: lit(1),
        aggregate: vec![
            (Aggregator::Count, lit(1)),
            (Aggregator::Sum, col("a")),
            (Aggregator::Count, col("b")),
        ],
        order_by: vec![],
        limit: LimitClause { limit: 1, offset: 0 },
    };
    let names = stage.result_column_names();
    assert_eq!(
        names,
        vec!["a", "col_0", "b", "col_1", "count_0", "sum_1", "count_2"]
    );
    assert_eq!(names.len(), stage.projection.len() + stage.aggregate.len());
}

#[test]
fn nested_aggregate_is_extracted_whole() {
    let e = agg(Aggregator::Sum, agg(Aggregator::Count, col("a")));
    let mut names = Vec::new();
    let (shell, aggregates) = Query::extract_aggregators(&e, &mut names);
    assert_eq!(shell, col("_ca0"));
    assert_eq!(
        aggregates,
        vec![(Aggregator::Sum, agg(Aggregator::Count, col("a")))]
    );
}
