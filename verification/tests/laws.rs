use query_planning::expr::{Aggregator, Expr, Func1Type, Func2Type, RawVal};
use query_planning::planner::{Node, Operator};
use query_planning::query::{LimitClause, NormalFormQuery, Query};
use query_planning::types::{Column, EncodingType};

fn col(name: &str) -> Expr {
    Expr::ColName(name.to_string())
}

fn lit(v: i64) -> Expr {
    Expr::Const(RawVal::Int(v))
}

fn func2(op: Func2Type, left: Expr, right: Expr) -> Expr {
    Expr::Func2(op, Box::new(left), Box::new(right))
}

fn agg(aggregator: Aggregator, arg: Expr) -> Expr {
    Expr::Aggregate(aggregator, Box::new(arg))
}

fn has_aggregate(e: &Expr) -> bool {
    match e {
        Expr::ColName(_) | Expr::Const(_) => false,
        Expr::Func1(_, child) => has_aggregate(child),
        Expr::Func2(_, left, right) => has_aggregate(left) || has_aggregate(right),
        Expr::Aggregate(_, _) => true,
    }
}

fn column_names(e: &Expr, names: &mut Vec<String>) {
    match e {
        Expr::ColName(name) => names.push(name.clone()),
        Expr::Const(_) => {}
        Expr::Func1(_, child) | Expr::Aggregate(_, child) => column_names(child, names),
        Expr::Func2(_, left, right) => {
            column_names(left, names);
            column_names(right, names);
        }
    }
}

fn well_formed(stage: &NormalFormQuery) -> bool {
    stage.projection.iter().all(|e| !has_aggregate(e))
        && !has_aggregate(&stage.filter)
        && stage.aggregate.iter().all(|(_, e)| !has_aggregate(e))
        && stage.order_by.iter().all(|(e, _)| !has_aggregate(e))
        && (stage.aggregate.is_empty() || stage.order_by.is_empty())
}

fn queries() -> Vec<Query> {
    let selects = vec![
        vec![col("a")],
        vec![col("a"), lit(3)],
        vec![agg(Aggregator::Count, lit(1))],
        vec![col("b"), agg(Aggregator::Sum, col("a"))],
        vec![
            col("b"),
            func2(Func2Type::Add, agg(Aggregator::Sum, col("a")), lit(1)),
        ],
        vec![func2(
            Func2Type::Divide,
            agg(Aggregator::Sum, func2(Func2Type::Multiply, col("a"), col("b"))),
            agg(Aggregator::Count, col("a")),
        )],
        vec![
            Expr::Func1(Func1Type::Negate, Box::new(col("a"))),
            agg(Aggregator::Count, col("c")),
            col("d"),
        ],
    ];
    let orders = vec![
        vec![],
        vec![(col("a"), false)],
        vec![(col("b"), true), (func2(Func2Type::Add, col("a"), lit(1)), false)],
    ];
    let filters = vec![lit(1), func2(Func2Type::GT, col("a"), col("e"))];
    let mut all = Vec::new();
    for select in &selects {
        for order_by in &orders {
            for filter in &filters {
                all.push(Query {
                    select: select.clone(),
                    table: "t".to_string(),
                    filter: filter.clone(),
                    order_by: order_by.clone(),
                    limit: LimitClause { limit: 10, offset: 1 },
                });
            }
        }
    }
    all
}

#[test]
fn normal_forms_are_well_formed() {
    for q in queries() {
        let (first, second) = q.normalize();
        assert!(well_formed(&first), "{:?}", q);
        if let Some(second) = second {
            assert!(well_formed(&second), "{:?}", q);
            assert!(second.aggregate.is_empty());
            assert!(first.order_by.is_empty());
        }
        assert_eq!(first.limit, q.limit);
        assert_eq!(first.filter, q.filter);
    }
}

#[test]
fn ordering_by_an_aggregate_forces_a_final_pass_only_with_aggregates_selected() {
    let sorted_by_sum = vec![(agg(Aggregator::Sum, col("b")), false)];
    let q = Query {
        select: vec![agg(Aggregator::Count, lit(1))],
        table: "t".to_string(),
        filter: lit(1),
        order_by: sorted_by_sum.clone(),
        limit: LimitClause { limit: 10, offset: 0 },
    };
    let (first, second) = q.normalize();
    assert!(well_formed(&first));
    assert!(well_formed(&second.unwrap()));
    let q = Query { select: vec![col("a")], ..q };
    let (first, second) = q.normalize();
    assert!(second.is_none());
    assert_eq!(first.order_by, sorted_by_sum);
}

#[test]
fn referenced_columns_cover_every_column_of_the_query() {
    for q in queries() {
        let referenced = q.find_referenced_cols();
        let mut names = Vec::new();
        for e in &q.select {
            column_names(e, &mut names);
        }
        column_names(&q.filter, &mut names);
        for (e, _) in &q.order_by {
            column_names(e, &mut names);
        }
        for name in &names {
            assert!(referenced.contains(name));
        }
        for name in &referenced {
            assert!(names.contains(name));
            assert_eq!(referenced.iter().filter(|n| *n == name).count(), 1);
        }
    }
}

#[test]
fn result_has_one_name_per_projection_and_aggregate() {
    for q in queries() {
        let (first, second) = q.normalize();
        assert_eq!(
            first.result_column_names().len(),
            first.projection.len() + first.aggregate.len()
        );
        if let Some(second) = second {
            assert_eq!(second.result_column_names().len(), q.select.len());
        }
    }
}

#[test]
fn shell_keeps_the_shape_and_lists_aggregates_in_preorder() {
    let sum = agg(Aggregator::Sum, col("a"));
    let count = agg(Aggregator::Count, col("b"));
    let other = agg(Aggregator::Sum, func2(Func2Type::Add, col("c"), lit(1)));
    let e = func2(
        Func2Type::Add,
        func2(Func2Type::Multiply, sum, col("x")),
        Expr::Func1(
            Func1Type::Negate,
            Box::new(func2(Func2Type::Subtract, count, other)),
        ),
    );
    let mut names = Vec::new();
    let (shell, aggregates) = Query::extract_aggregators(&e, &mut names);
    assert_eq!(
        shell,
        func2(
            Func2Type::Add,
            func2(Func2Type::Multiply, col("_ca0"), col("x")),
            Expr::Func1(
                Func1Type::Negate,
                Box::new(func2(Func2Type::Subtract, col("_ca1"), col("_ca2"))),
            ),
        )
    );
    assert_eq!(
        aggregates,
        vec![
            (Aggregator::Sum, col("a")),
            (Aggregator::Count, col("b")),
            (Aggregator::Sum, func2(Func2Type::Add, col("c"), lit(1))),
        ]
    );
    assert!(!has_aggregate(&shell));
}

fn int_column(name: &str, min: i64, max: i64) -> Column {
    Column {
        name: name.to_string(),
        len: 1000,
        encoding: EncodingType::I64,
        decoded: None,
        order_preserving: true,
        range: Some((min, max)),
    }
}

fn grouped(projection: Vec<Expr>, aggregate: Vec<(Aggregator, Expr)>) -> NormalFormQuery {
    NormalFormQuery {
        projection,
        filter: lit(1),
        aggregate,
        order_by: vec![],
        limit: LimitClause { limit: 100, offset: 0 },
    }
}

fn packs(nodes: &[Node]) -> Vec<i64> {
    nodes
        .iter()
        .filter_map(|n| match n.op {
            Operator::Pack { radix, .. } => Some(radix),
            _ => None,
        })
        .collect()
}

fn unpacks(nodes: &[Node]) -> Vec<(i64, i64)> {
    nodes
        .iter()
        .filter_map(|n| match n.op {
            Operator::Unpack { divisor, radix, .. } => Some((divisor, radix)),
            _ => None,
        })
        .collect()
}

#[test]
fn unpacking_a_packed_key_gives_the_columns_back() {
    let bounds = [(-3i64, 3i64), (10, 20), (0, 0), (5, 9)];
    let columns: Vec<Column> = bounds
        .iter()
        .enumerate()
        .map(|(i, (min, max))| int_column(&format!("c{}", i), *min, *max))
        .collect();
    let projection: Vec<Expr> = (0..bounds.len()).map(|i| col(&format!("c{}", i))).collect();
    let job = grouped(projection, vec![])
        .run_aggregate(&columns, false, false, 0, 1000)
        .unwrap();
    let radices = packs(&job.executor.nodes);
    let decoders = unpacks(&job.executor.nodes);
    assert_eq!(radices, vec![11, 1, 5]);
    assert_eq!(decoders, vec![(55, 7), (5, 11), (5, 1), (1, 5)]);
    let mut greatest = 0;
    for a in -3..=3 {
        for b in 10..=20 {
            for d in 5..=9 {
                let values = [a, b, 0, d];
                let mut key = values[0] - bounds[0].0;
                for i in 1..values.len() {
                    key = key * radices[i - 1] + (values[i] - bounds[i].0);
                }
                assert!(key >= 0);
                greatest = greatest.max(key);
                for i in 0..values.len() {
                    let (divisor, radix) = decoders[i];
                    assert_eq!((key / divisor) % radix + bounds[i].0, values[i]);
                }
            }
        }
    }
    assert_eq!(greatest, 7 * 11 * 5 - 1);
    let cardinality = job.executor.nodes.iter().find_map(|n| match n.op {
        Operator::ScalarI64 { value, positive: true } if value == greatest => Some(value),
        _ => None,
    });
    assert_eq!(cardinality, Some(384));
}

#[test]
fn all_aggregates_reduce_against_one_key() {
    let columns = vec![int_column("a", 1, 4), int_column("b", 10, 20)];
    let job = grouped(
        vec![col("a"), col("b")],
        vec![
            (Aggregator::Sum, col("a")),
            (Aggregator::Count, col("b")),
            (Aggregator::Sum, func2(Func2Type::Add, col("a"), col("b"))),
        ],
    )
    .run_aggregate(&columns, false, false, 0, 1000)
    .unwrap();
    let reductions: Vec<_> = job
        .executor
        .nodes
        .iter()
        .filter_map(|n| match n.op {
            Operator::Aggregate { aggregator, grouping_key, cardinality, .. } => {
                Some((aggregator, grouping_key, cardinality))
            }
            _ => None,
        })
        .collect();
    assert_eq!(reductions.len(), 3);
    assert_eq!(
        reductions.iter().map(|r| r.0).collect::<Vec<_>>(),
        vec![Aggregator::Sum, Aggregator::Count, Aggregator::Sum]
    );
    assert!(reductions.iter().all(|r| r.1 == reductions[0].1 && r.2 == reductions[0].2));
    assert!(matches!(
        job.executor.nodes[reductions[0].1.id].op,
        Operator::Pack { .. }
    ));
}

#[test]
fn stable_sorts_from_the_last_key_order_lexicographically() {
    let columns = vec![int_column("a", 0, 2), int_column("b", 0, 2), int_column("c", 0, 2)];
    let stage = NormalFormQuery {
        projection: vec![col("a")],
        filter: lit(1),
        aggregate: vec![],
        order_by: vec![(col("b"), true), (col("a"), false), (col("c"), true)],
        limit: LimitClause { limit: 1000, offset: 0 },
    };
    let job = stage.run(&columns, false, false, 0, 27).unwrap();
    let data: Vec<[i64; 3]> = (0..27).map(|i| [(i / 3) % 3, i % 3, (i * 7 / 9) % 3]).collect();
    let mut order: Vec<usize> = (0..data.len()).collect();
    let mut sorts = 0;
    for n in &job.executor.nodes {
        if let Operator::SortBy { ranking, desc, stable, .. } = n.op {
            let column = match job.executor.nodes[ranking.id].op {
                Operator::ReadColumn { column } => column,
                _ => panic!("a ranking that is no column"),
            };
            assert_eq!(stable, sorts > 0);
            if desc {
                order.sort_by_key(|x| -data[*x][column]);
            } else {
                order.sort_by_key(|x| data[*x][column]);
            }
            sorts += 1;
        }
    }
    assert_eq!(sorts, 3);
    for pair in order.windows(2) {
        let (x, y) = (data[pair[0]], data[pair[1]]);
        let key = |r: [i64; 3]| (-r[1], r[0], -r[2]);
        assert!(key(x) <= key(y));
    }
}
