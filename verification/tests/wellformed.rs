use query_planning::expr::{Aggregator, Expr, Func1Type, Func2Type, RawVal};
use query_planning::query::{LimitClause, NormalFormQuery, Query};

fn col(name: &str) -> Expr {
    Expr::ColName(name.to_string())
}

fn lit(v: i64) -> Expr {
    Expr::Const(RawVal::Int(v))
}

fn func2(op: Func2Type, left: Expr, right: Expr) -> Expr {
    Expr::Func2(op, Box::new(left), Box::new(right))
}

fn agg(aggregator: Aggregator, arg: Expr) -> Expr {
    Expr::Aggregate(aggregator, Box::new(arg))
}

fn query(select: Vec<Expr>, filter: Expr, order_by: Vec<(Expr, bool)>) -> Query {
    Query {
        select,
        table: "t".to_string(),
        filter,
        order_by,
        limit: LimitClause { limit: 10, offset: 0 },
    }
}

#[test]
fn aggregates_are_found_anywhere() {
    assert!(!col("a").has_aggregate());
    assert!(!lit(1).has_aggregate());
    assert!(!func2(Func2Type::Add, col("a"), lit(1)).has_aggregate());
    assert!(agg(Aggregator::Sum, col("a")).has_aggregate());
    assert!(func2(Func2Type::Add, lit(1), agg(Aggregator::Sum, col("a"))).has_aggregate());
    assert!(Expr::Func1(
        Func1Type::Negate,
        Box::new(func2(Func2Type::Add, agg(Aggregator::Count, lit(1)), lit(1)))
    )
    .has_aggregate());
}

#[test]
fn nesting_is_found() {
    let sum = agg(Aggregator::Sum, col("a"));
    assert!(sum.is_nesting_free());
    assert!(func2(Func2Type::Add, sum.clone(), sum.clone()).is_nesting_free());
    assert!(col("a").is_nesting_free());
    assert!(!agg(Aggregator::Count, sum.clone()).is_nesting_free());
    assert!(!agg(
        Aggregator::Count,
        func2(Func2Type::Add, lit(1), sum.clone())
    )
    .is_nesting_free());
    assert!(!func2(
        Func2Type::Add,
        col("a"),
        agg(Aggregator::Sum, Expr::Func1(Func1Type::Negate, Box::new(sum)))
    )
    .is_nesting_free());
}

#[test]
fn well_formed_queries_are_recognized() {
    let sum = agg(Aggregator::Sum, col("a"));
    let nested = agg(Aggregator::Count, sum.clone());
    assert!(query(vec![col("a")], lit(1), vec![]).is_well_formed());
    assert!(query(vec![], lit(1), vec![]).is_well_formed());
    assert!(query(vec![sum.clone()], lit(1), vec![(sum.clone(), true)]).is_well_formed());
    assert!(query(vec![col("a")], lit(1), vec![(col("b"), true)]).is_well_formed());
    assert!(!query(vec![col("a")], sum.clone(), vec![]).is_well_formed());
    assert!(!query(vec![nested.clone()], lit(1), vec![]).is_well_formed());
    assert!(!query(vec![sum.clone()], lit(1), vec![(nested, true)]).is_well_formed());
    assert!(!query(vec![col("a")], lit(1), vec![(sum, true)]).is_well_formed());
}

fn stage_is_well_formed(stage: &NormalFormQuery) -> bool {
    stage.projection.iter().all(|e| !e.has_aggregate())
        && !stage.filter.has_aggregate()
        && stage.aggregate.iter().all(|(_, e)| !e.has_aggregate())
        && stage.order_by.iter().all(|(e, _)| !e.has_aggregate())
        && (stage.aggregate.is_empty() || stage.order_by.is_empty())
}

#[test]
fn well_formed_queries_have_well_formed_stages() {
    let sum = agg(Aggregator::Sum, col("a"));
    let count = agg(Aggregator::Count, func2(Func2Type::Multiply, col("a"), col("b")));
    let selects = vec![
        vec![col("a"), sum.clone()],
        vec![func2(Func2Type::Divide, sum.clone(), count.clone()), col("c")],
        vec![col("a"), col("b")],
    ];
    let orders = vec![
        vec![],
        vec![(col("c"), true)],
        vec![(sum.clone(), false), (col("a"), true)],
        vec![(func2(Func2Type::Add, count, lit(1)), false)],
    ];
    let mut seen = 0;
    for select in &selects {
        for order_by in &orders {
            let q = query(select.clone(), func2(Func2Type::GT, col("a"), lit(0)), order_by.clone());
            if q.is_well_formed() {
                seen += 1;
                let (first, second) = q.normalize();
                assert!(stage_is_well_formed(&first));
                if let Some(second) = second {
                    assert!(stage_is_well_formed(&second));
                }
            }
        }
    }
    assert_eq!(seen, 10);
}

#[test]
fn made_up_result_names_differ() {
    let stage = NormalFormQuery {
        projection: vec![
            lit(1),
            col("count_1"),
            func2(Func2Type::Add, col("a"), lit(1)),
            col("col_0"),
            lit(2),
        ],
        filter: lit(1),
        aggregate: vec![
            (Aggregator::Count, lit(1)),
            (Aggregator::Count, col("a")),
            (Aggregator::Sum, col("a")),
        ],
        order_by: vec![],
        limit: LimitClause { limit: 1, offset: 0 },
    };
    let names = stage.result_column_names();
    assert_eq!(
        names,
        vec!["col_0", "count_1", "col_1", "col_0", "col_2", "count_0", "count_1", "sum_2"]
    );
    let made_up = [0, 2, 4, 5, 6, 7];
    for i in made_up {
        for j in made_up {
            if i != j {
                assert_ne!(names[i], names[j]);
            }
        }
    }
}

#[test]
fn clones_are_equal() {
    let q = query(
        vec![col("a"), agg(Aggregator::Sum, col("b"))],
        func2(Func2Type::LT, col("a"), lit(3)),
        vec![(col("a"), true)],
    );
    let copy = q.clone();
    assert_eq!(copy.select, q.select);
    assert_eq!(copy.table, q.table);
    assert_eq!(copy.filter, q.filter);
    assert_eq!(copy.order_by, q.order_by);
    assert_eq!(copy.limit, q.limit);
    let (first, _) = q.normalize();
    let copy = first.clone();
    assert_eq!(copy.projection, first.projection);
    assert_eq!(copy.aggregate, first.aggregate);
    assert_eq!(copy.filter, first.filter);
    assert_eq!(copy.order_by, first.order_by);
}
