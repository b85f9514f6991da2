//! Queries, normal-form stages and the normalizer.
//!
//! A query may mix scalar projections with aggregates. Normalization splits
//! it into a first stage that filters, groups and aggregates, and, where
//! needed, a second stage that projects and orders the first stage's output
//! through synthetic column names.

use vstd::prelude::*;
use vstd::string::*;
use crate::distinct::{lemma_merge_concat, lemma_merge_members, merge_new};
use crate::laws::aggregates_well_placed;
use crate::expr::{
    aggregates_model, exprs_model, names_model, order_model, Aggregator, Expr, ExprModel, RawVal,
    RawValModel,
};
use crate::names::{
    aggregate_column, aggregate_column_name, anonymous_column, anonymous_column_name,
    count_column, count_column_name, select_column, select_column_name, sum_column,
    sum_column_name,
};

verus! {

/// How many rows to return, after skipping how many.
#[derive(Clone, Copy, Debug, PartialEq, Eq, Structural)]
pub struct LimitClause {
    pub limit: u64,
    pub offset: u64,
}

/// A request as the user shaped it.
#[derive(Debug)]
pub struct Query {
    pub select: Vec<Expr>,
    pub table: String,
    pub filter: Expr,
    pub order_by: Vec<(Expr, bool)>,
    pub limit: LimitClause,
}

/// The view of a query.
pub struct QueryModel {
    pub select: Seq<ExprModel>,
    pub table: Seq<char>,
    pub filter: ExprModel,
    pub order_by: Seq<(ExprModel, bool)>,
    pub limit: LimitClause,
}

impl View for Query {
    type V = QueryModel;

    open spec fn view(&self) -> QueryModel {
        QueryModel {
            select: exprs_model(self.select@),
            table: self.table@,
            filter: self.filter@,
            order_by: order_model(self.order_by@),
            limit: self.limit,
        }
    }
}

/// One stage of a normalized query. A stage that the normalizer produces
/// from a well-formed query holds no aggregate application in any
/// expression, and uses at most one of `aggregate` and `order_by`.
#[derive(Debug)]
pub struct NormalFormQuery {
    pub projection: Vec<Expr>,
    pub filter: Expr,
    pub aggregate: Vec<(Aggregator, Expr)>,
    pub order_by: Vec<(Expr, bool)>,
    pub limit: LimitClause,
}

/// The view of a stage.
pub struct StageModel {
    pub projection: Seq<ExprModel>,
    pub filter: ExprModel,
    pub aggregate: Seq<(Aggregator, ExprModel)>,
    pub order_by: Seq<(ExprModel, bool)>,
    pub limit: LimitClause,
}

impl View for NormalFormQuery {
    type V = StageModel;

    open spec fn view(&self) -> StageModel {
        StageModel {
            projection: exprs_model(self.projection@),
            filter: self.filter@,
            aggregate: aggregates_model(self.aggregate@),
            order_by: order_model(self.order_by@),
            limit: self.limit,
        }
    }
}

/// The view of an optional stage.
pub open spec fn stage_option_model(stage: Option<NormalFormQuery>) -> Option<StageModel> {
    match stage {
        Some(s) => Some(s@),
        None => None,
    }
}

/// The names `_ca{k}`, `_ca{k + 1}`, ..., `n` of them.
pub open spec fn fresh_names(k: nat, n: nat) -> Seq<Seq<char>> {
    Seq::new(n, |i: int| aggregate_column_name((k + i) as nat))
}

/// What the normalizer has gathered after some of the expressions.
pub struct Lowering {
    /// What the second stage evaluates: one entry per select expression.
    pub shells: Seq<ExprModel>,
    /// What the first stage projects: the aggregate-free expressions.
    pub scalars: Seq<ExprModel>,
    /// What the first stage aggregates.
    pub aggregates: Seq<(Aggregator, ExprModel)>,
    /// The ordering keys of the second stage.
    pub keys: Seq<(ExprModel, bool)>,
}

/// What stands for `e` in the second stage: a reference to `_cs{k}` where
/// `e` holds no aggregate and becomes the `k`-th projection of the first
/// stage, and otherwise the shell of `e` over the aggregates that follow
/// those gathered so far.
pub open spec fn second_stage_expr(state: Lowering, e: ExprModel) -> ExprModel {
    if e.aggregates().len() == 0 {
        ExprModel::ColName(select_column_name(state.scalars.len()))
    } else {
        e.shell(state.aggregates.len())
    }
}

/// The first stage's projections after `e` has been taken in.
pub open spec fn scalars_with(state: Lowering, e: ExprModel) -> Seq<ExprModel> {
    if e.aggregates().len() == 0 {
        state.scalars.push(e)
    } else {
        state.scalars
    }
}

/// Takes one select expression in.
pub open spec fn lower_select(state: Lowering, e: ExprModel) -> Lowering {
    Lowering {
        shells: state.shells.push(second_stage_expr(state, e)),
        scalars: scalars_with(state, e),
        aggregates: state.aggregates + e.aggregates(),
        keys: state.keys,
    }
}

/// Takes one ordering key in.
pub open spec fn lower_order(state: Lowering, key: (ExprModel, bool)) -> Lowering {
    Lowering {
        shells: state.shells,
        scalars: scalars_with(state, key.0),
        aggregates: state.aggregates + key.0.aggregates(),
        keys: state.keys.push((second_stage_expr(state, key.0), key.1)),
    }
}

/// The state after the first `n` select expressions.
pub open spec fn lower_selects(select: Seq<ExprModel>, n: nat) -> Lowering
    decreases n,
{
    if n == 0 {
        Lowering { shells: seq![], scalars: seq![], aggregates: seq![], keys: seq![] }
    } else {
        lower_select(lower_selects(select, (n - 1) as nat), select[n - 1])
    }
}

/// The state after all select expressions and the first `n` ordering keys.
pub open spec fn lower_orders(
    select: Seq<ExprModel>,
    order_by: Seq<(ExprModel, bool)>,
    n: nat,
) -> Lowering
    decreases n,
{
    if n == 0 {
        lower_selects(select, select.len())
    } else {
        lower_order(lower_orders(select, order_by, (n - 1) as nat), order_by[n - 1])
    }
}

/// Whether some expression of the list is not a bare column reference.
pub open spec fn some_not_column(exprs: Seq<ExprModel>) -> bool {
    exists|i: int| 0 <= i < exprs.len() && !(#[trigger] exprs[i] is ColName)
}

/// Whether a second stage is needed: some select expression applies a
/// function to an aggregate, or the query both aggregates and orders.
pub open spec fn requires_final_pass(q: QueryModel) -> bool {
    let s = lower_selects(q.select, q.select.len());
    (s.aggregates.len() > 0 && q.order_by.len() > 0) || some_not_column(s.shells)
}

/// The filter of a second stage: the constant that holds of every row.
pub open spec fn constant_true() -> ExprModel {
    ExprModel::Const(RawValModel::Int(1))
}

/// The normal form of a query.
pub open spec fn normal_form(q: QueryModel) -> (StageModel, Option<StageModel>) {
    if requires_final_pass(q) {
        let s = lower_orders(q.select, q.order_by, q.order_by.len());
        (
            StageModel {
                projection: s.scalars,
                filter: q.filter,
                aggregate: s.aggregates,
                order_by: seq![],
                limit: q.limit,
            },
            Some(
                StageModel {
                    projection: s.shells,
                    filter: constant_true(),
                    aggregate: seq![],
                    order_by: s.keys,
                    limit: q.limit,
                },
            ),
        )
    } else {
        let s = lower_selects(q.select, q.select.len());
        (
            StageModel {
                projection: s.scalars,
                filter: q.filter,
                aggregate: s.aggregates,
                order_by: q.order_by,
                limit: q.limit,
            },
            None,
        )
    }
}

/// How many of the first `n` expressions are not bare column references.
pub open spec fn anonymous_before(projection: Seq<ExprModel>, n: nat) -> nat
    decreases n,
{
    if n == 0 {
        0
    } else {
        let before = anonymous_before(projection, (n - 1) as nat);
        if projection[n - 1] is ColName {
            before
        } else {
            before + 1
        }
    }
}

/// The result name of the projection at position `i`: the column's own name
/// for a bare reference, else `col_{k}` where `k` counts the earlier
/// projections that are not bare references.
pub open spec fn projection_name(projection: Seq<ExprModel>, i: int) -> Seq<char> {
    match projection[i] {
        ExprModel::ColName(name) => name,
        _ => anonymous_column_name(anonymous_before(projection, i as nat)),
    }
}

/// The result name of the aggregate at position `i`.
pub open spec fn aggregate_name(aggregate: Seq<(Aggregator, ExprModel)>, i: int) -> Seq<char> {
    match aggregate[i].0 {
        Aggregator::Count => count_column_name(i as nat),
        Aggregator::Sum => sum_column_name(i as nat),
    }
}

/// The names of a stage's result columns: projections first, then
/// aggregates.
pub open spec fn result_names(stage: StageModel) -> Seq<Seq<char>> {
    Seq::new(stage.projection.len(), |i: int| projection_name(stage.projection, i)) + Seq::new(
        stage.aggregate.len(),
        |i: int| aggregate_name(stage.aggregate, i),
    )
}

/// The column names in the first `n` expressions, one entry per occurrence.
pub open spec fn column_lists(exprs: Seq<ExprModel>, n: nat) -> Seq<Seq<char>>
    decreases n,
{
    if n == 0 {
        seq![]
    } else {
        column_lists(exprs, (n - 1) as nat) + exprs[n - 1].column_list()
    }
}

/// The expressions of a list of ordering keys.
pub open spec fn order_exprs(order_by: Seq<(ExprModel, bool)>) -> Seq<ExprModel> {
    Seq::new(order_by.len(), |i: int| order_by[i].0)
}

/// Every occurrence of a column name in a query: select list first, then
/// ordering keys, then the filter.
pub open spec fn referenced_column_list(q: QueryModel) -> Seq<Seq<char>> {
    column_lists(q.select, q.select.len()) + column_lists(
        order_exprs(q.order_by),
        q.order_by.len(),
    ) + q.filter.column_list()
}

/// An expression without aggregates is its own shell.
pub proof fn lemma_shell_identity(e: ExprModel, k: nat)
    requires
        e.aggregates().len() == 0,
    ensures
        e.shell(k) == e,
        !e.has_aggregate(),
    decreases e,
{
    match e {
        ExprModel::ColName(_) => {},
        ExprModel::Const(_) => {},
        ExprModel::Func1(_, child) => {
            lemma_shell_identity(*child, k);
        },
        ExprModel::Func2(_, left, right) => {
            lemma_shell_identity(*left, k);
            lemma_shell_identity(*right, k);
        },
        ExprModel::Aggregate(_, _) => {},
    }
}

/// Select expressions contribute no ordering key.
pub proof fn lemma_selects_have_no_keys(select: Seq<ExprModel>, n: nat)
    ensures
        lower_selects(select, n).keys == Seq::<(ExprModel, bool)>::empty(),
        lower_selects(select, n).shells.len() == n,
    decreases n,
{
    if n > 0 {
        lemma_selects_have_no_keys(select, (n - 1) as nat);
    }
}

fn clone_order(keys: &Vec<(Expr, bool)>) -> (r: Vec<(Expr, bool)>)
    ensures
        order_model(r@) == order_model(keys@),
{
    let mut out: Vec<(Expr, bool)> = Vec::new();
    let mut i: usize = 0;
    while i < keys.len()
        invariant
            i <= keys.len(),
            out@.len() == i,
            forall|j: int| 0 <= j < i ==> out@[j].0@ == keys@[j].0@ && out@[j].1 == keys@[j].1,
        decreases keys.len() - i,
    {
        out.push((keys[i].0.clone(), keys[i].1));
        i += 1;
    }
    out
}

fn clone_exprs(exprs: &Vec<Expr>) -> (r: Vec<Expr>)
    ensures
        exprs_model(r@) == exprs_model(exprs@),
{
    let mut out: Vec<Expr> = Vec::new();
    let mut i: usize = 0;
    while i < exprs.len()
        invariant
            i <= exprs.len(),
            out@.len() == i,
            forall|j: int| 0 <= j < i ==> out@[j]@ == exprs@[j]@,
        decreases exprs.len() - i,
    {
        out.push(exprs[i].clone());
        i += 1;
    }
    out
}

fn clone_aggregates(aggregates: &Vec<(Aggregator, Expr)>) -> (r: Vec<(Aggregator, Expr)>)
    ensures
        aggregates_model(r@) == aggregates_model(aggregates@),
{
    let mut out: Vec<(Aggregator, Expr)> = Vec::new();
    let mut i: usize = 0;
    while i < aggregates.len()
        invariant
            i <= aggregates.len(),
            out@.len() == i,
            forall|j: int|
                0 <= j < i ==> out@[j].0 == aggregates@[j].0 && out@[j].1@ == aggregates@[j].1@,
        decreases aggregates.len() - i,
    {
        out.push((aggregates[i].0, aggregates[i].1.clone()));
        i += 1;
    }
    out
}

impl Clone for Query {
    fn clone(&self) -> (r: Self)
        ensures
            r@ == self@,
    {
        Query {
            select: clone_exprs(&self.select),
            table: self.table.clone(),
            filter: self.filter.clone(),
            order_by: clone_order(&self.order_by),
            limit: self.limit,
        }
    }
}

impl Clone for NormalFormQuery {
    fn clone(&self) -> (r: Self)
        ensures
            r@ == self@,
    {
        NormalFormQuery {
            projection: clone_exprs(&self.projection),
            filter: self.filter.clone(),
            aggregate: clone_aggregates(&self.aggregate),
            order_by: clone_order(&self.order_by),
            limit: self.limit,
        }
    }
}

fn any_not_column(exprs: &Vec<Expr>) -> (r: bool)
    ensures
        r == some_not_column(exprs_model(exprs@)),
{
    let mut i: usize = 0;
    while i < exprs.len()
        invariant
            i <= exprs.len(),
            forall|j: int| 0 <= j < i ==> exprs_model(exprs@)[j] is ColName,
        decreases exprs.len() - i,
    {
        match &exprs[i] {
            Expr::ColName(_) => {},
            _ => {
                assert(!(exprs_model(exprs@)[i as int] is ColName));
                return true;
            },
        }
        i += 1;
    }
    false
}

impl NormalFormQuery {
    /// The names of the result columns: one per projection, then one per
    /// aggregate.
    pub fn result_column_names(&self) -> (names: Vec<String>)
        ensures
            names_model(names@) == result_names(self@),
            names@.len() == self.projection@.len() + self.aggregate@.len(),
    {
        let mut names: Vec<String> = Vec::new();
        let mut anonymous: usize = 0;
        let ghost projection = self@.projection;
        let mut i: usize = 0;
        while i < self.projection.len()
            invariant
                i <= self.projection.len(),
                projection == exprs_model(self.projection@),
                anonymous == anonymous_before(projection, i as nat),
                anonymous <= i,
                names_model(names@) == Seq::new(i as nat, |j: int| projection_name(projection, j)),
            decreases self.projection.len() - i,
        {
            let ghost before = names_model(names@);
            match &self.projection[i] {
                Expr::ColName(name) => {
                    names.push(name.clone());
                },
                _ => {
                    names.push(anonymous_column(anonymous));
                    anonymous += 1;
                },
            }
            assert(names_model(names@) == before.push(projection_name(projection, i as int)));
            i += 1;
        }
        let ghost first = names_model(names@);
        let ghost aggregate = self@.aggregate;
        let mut k: usize = 0;
        while k < self.aggregate.len()
            invariant
                k <= self.aggregate.len(),
                aggregate == aggregates_model(self.aggregate@),
                first.len() == self.projection@.len(),
                names_model(names@) == first + Seq::new(
                    k as nat,
                    |j: int| aggregate_name(aggregate, j),
                ),
            decreases self.aggregate.len() - k,
        {
            let ghost before = names_model(names@);
            match self.aggregate[k].0 {
                Aggregator::Count => {
                    names.push(count_column(k));
                },
                Aggregator::Sum => {
                    names.push(sum_column(k));
                },
            }
            assert(names_model(names@) == before.push(aggregate_name(aggregate, k as int)));
            k += 1;
        }
        names
    }
}

impl Query {
    /// Replaces every outermost aggregate application of `expr` by a
    /// reference to a fresh column `_ca{k}`, where `k` is the number of names
    /// in `column_names` at that moment, and records the name there. Returns
    /// the shell and the aggregates it now refers to, in pre-order.
    pub fn extract_aggregators(expr: &Expr, column_names: &mut Vec<String>) -> (r: (
        Expr,
        Vec<(Aggregator, Expr)>,
    ))
        ensures
            r.0@ == expr@.shell(old(column_names)@.len()),
            aggregates_model(r.1@) == expr@.aggregates(),
            names_model(final(column_names)@) == names_model(old(column_names)@) + fresh_names(
                old(column_names)@.len(),
                expr@.aggregates().len(),
            ),
        decreases expr,
    {
        let ghost before = names_model(column_names@);
        let ghost k = column_names@.len();
        match expr {
            Expr::Aggregate(aggregator, child) => {
                let column_name = aggregate_column(column_names.len());
                column_names.push(column_name.clone());
                let mut aggregates: Vec<(Aggregator, Expr)> = Vec::new();
                aggregates.push((*aggregator, (&**child).clone()));
                assert(aggregates_model(aggregates@) == expr@.aggregates());
                assert(names_model(column_names@) == before + fresh_names(k, 1));
                (Expr::ColName(column_name), aggregates)
            },
            Expr::Func1(op, child) => {
                let (shell, aggregates) = Query::extract_aggregators(child, column_names);
                (Expr::Func1(*op, Box::new(shell)), aggregates)
            },
            Expr::Func2(op, left, right) => {
                let (shell1, mut aggregates1) = Query::extract_aggregators(left, column_names);
                let ghost first = aggregates_model(aggregates1@);
                let (shell2, mut aggregates2) = Query::extract_aggregators(right, column_names);
                let ghost second = aggregates_model(aggregates2@);
                aggregates1.append(&mut aggregates2);
                assert(aggregates_model(aggregates1@) == first + second);
                assert(names_model(column_names@) == before + fresh_names(
                    k,
                    expr@.aggregates().len(),
                ));
                (Expr::Func2(*op, Box::new(shell1), Box::new(shell2)), aggregates1)
            },
            Expr::Const(v) => {
                assert(names_model(column_names@) == before + fresh_names(k, 0));
                (Expr::Const(v.clone()), Vec::new())
            },
            Expr::ColName(name) => {
                assert(names_model(column_names@) == before + fresh_names(k, 0));
                (Expr::ColName(name.clone()), Vec::new())
            },
        }
    }

    /// Rewrites the query into one stage, or into two where a final pass is
    /// needed.
    pub fn normalize(&self) -> (r: (NormalFormQuery, Option<NormalFormQuery>))
        ensures
            r.0@ == normal_form(self@).0,
            stage_option_model(r.1) == normal_form(self@).1,
    {
        let mut final_projection: Vec<Expr> = Vec::new();
        let mut select: Vec<Expr> = Vec::new();
        let mut aggregate: Vec<(Aggregator, Expr)> = Vec::new();
        let mut aggregate_colnames: Vec<String> = Vec::new();
        let mut select_colnames: Vec<String> = Vec::new();
        let ghost q = self@;
        let mut i: usize = 0;
        while i < self.select.len()
            invariant
                i <= self.select.len(),
                q == self@,
                exprs_model(final_projection@) == lower_selects(q.select, i as nat).shells,
                exprs_model(select@) == lower_selects(q.select, i as nat).scalars,
                aggregates_model(aggregate@) == lower_selects(q.select, i as nat).aggregates,
                aggregate_colnames@.len() == aggregate@.len(),
                select_colnames@.len() == select@.len(),
            decreases self.select.len() - i,
        {
            let ghost state = lower_selects(q.select, i as nat);
            let ghost e = q.select[i as int];
            let ghost shells = exprs_model(final_projection@);
            let ghost scalars = exprs_model(select@);
            let ghost gathered = aggregates_model(aggregate@);
            let (full_expr, mut aggregates) = Query::extract_aggregators(
                &self.select[i],
                &mut aggregate_colnames,
            );
            let ghost extracted = aggregates_model(aggregates@);
            assert(names_model(aggregate_colnames@).len() == aggregate_colnames@.len());
            assert(extracted.len() == aggregates@.len());
            if aggregates.len() == 0 {
                let column_name = select_column(select_colnames.len());
                select_colnames.push(column_name.clone());
                proof {
                    lemma_shell_identity(e, aggregate@.len() as nat);
                }
                select.push(full_expr);
                final_projection.push(Expr::ColName(column_name));
                assert(exprs_model(select@) == scalars.push(e));
                assert(gathered + e.aggregates() == gathered);
            } else {
                aggregate.append(&mut aggregates);
                final_projection.push(full_expr);
                assert(aggregates_model(aggregate@) == gathered + extracted);
            }
            assert(exprs_model(final_projection@) == shells.push(second_stage_expr(state, e)));
            i += 1;
        }

        let require_final_pass = (aggregate.len() > 0 && self.order_by.len() > 0) || any_not_column(
            &final_projection,
        );

        if require_final_pass {
            let mut final_order_by: Vec<(Expr, bool)> = Vec::new();
            let mut j: usize = 0;
            proof {
                lemma_selects_have_no_keys(q.select, q.select.len());
            }
            while j < self.order_by.len()
                invariant
                    j <= self.order_by.len(),
                    q == self@,
                    exprs_model(final_projection@) == lower_orders(
                        q.select,
                        q.order_by,
                        j as nat,
                    ).shells,
                    exprs_model(select@) == lower_orders(q.select, q.order_by, j as nat).scalars,
                    aggregates_model(aggregate@) == lower_orders(
                        q.select,
                        q.order_by,
                        j as nat,
                    ).aggregates,
                    order_model(final_order_by@) == lower_orders(
                        q.select,
                        q.order_by,
                        j as nat,
                    ).keys,
                    aggregate_colnames@.len() == aggregate@.len(),
                    select_colnames@.len() == select@.len(),
                decreases self.order_by.len() - j,
            {
                let ghost state = lower_orders(q.select, q.order_by, j as nat);
                let ghost e = q.order_by[j as int].0;
                let ghost keys = order_model(final_order_by@);
                let ghost scalars = exprs_model(select@);
                let ghost gathered = aggregates_model(aggregate@);
                let desc = self.order_by[j].1;
                let (full_expr, mut aggregates) = Query::extract_aggregators(
                    &self.order_by[j].0,
                    &mut aggregate_colnames,
                );
                let ghost extracted = aggregates_model(aggregates@);
                assert(names_model(aggregate_colnames@).len() == aggregate_colnames@.len());
                assert(extracted.len() == aggregates@.len());
                if aggregates.len() == 0 {
                    let column_name = select_column(select_colnames.len());
                    select_colnames.push(column_name.clone());
                    proof {
                        lemma_shell_identity(e, aggregate@.len() as nat);
                    }
                    select.push(full_expr);
                    final_order_by.push((Expr::ColName(column_name), desc));
                    assert(exprs_model(select@) == scalars.push(e));
                    assert(gathered + e.aggregates() == gathered);
                } else {
                    aggregate.append(&mut aggregates);
                    final_order_by.push((full_expr, desc));
                    assert(aggregates_model(aggregate@) == gathered + extracted);
                }
                assert(order_model(final_order_by@) == keys.push(
                    (second_stage_expr(state, e), desc),
                ));
                j += 1;
            }
            let first = NormalFormQuery {
                projection: select,
                filter: self.filter.clone(),
                aggregate,
                order_by: Vec::new(),
                limit: self.limit,
            };
            let second = NormalFormQuery {
                projection: final_projection,
                filter: Expr::Const(RawVal::Int(1)),
                aggregate: Vec::new(),
                order_by: final_order_by,
                limit: self.limit,
            };
            assert(first@.order_by == Seq::<(ExprModel, bool)>::empty());
            assert(second@.aggregate == Seq::<(Aggregator, ExprModel)>::empty());
            (first, Some(second))
        } else {
            let first = NormalFormQuery {
                projection: select,
                filter: self.filter.clone(),
                aggregate,
                order_by: clone_order(&self.order_by),
                limit: self.limit,
            };
            (first, None)
        }
    }

    /// Whether the aggregates of the query stand where normalization can
    /// deal with them: none in the filter, none inside another, and none in
    /// an ordering key unless the select list holds one too.
    pub fn is_well_formed(&self) -> (r: bool)
        ensures
            r == aggregates_well_placed(self@),
    {
        let ghost q = self@;
        if self.filter.has_aggregate() {
            return false;
        }
        let mut selects_aggregate = false;
        let mut i: usize = 0;
        while i < self.select.len()
            invariant
                i <= self.select.len(),
                q == self@,
                forall|j: int| 0 <= j < i ==> (#[trigger] q.select[j]).nesting_free(),
                selects_aggregate <==> exists|j: int|
                    0 <= j < i && (#[trigger] q.select[j]).has_aggregate(),
            decreases self.select.len() - i,
        {
            if !self.select[i].is_nesting_free() {
                assert(!q.select[i as int].nesting_free());
                return false;
            }
            if self.select[i].has_aggregate() {
                assert(q.select[i as int].has_aggregate());
                selects_aggregate = true;
            }
            i += 1;
        }
        let ghost keys = order_exprs(q.order_by);
        let mut orders_by_aggregate = false;
        let mut k: usize = 0;
        while k < self.order_by.len()
            invariant
                k <= self.order_by.len(),
                q == self@,
                keys == order_exprs(q.order_by),
                forall|j: int| 0 <= j < k ==> (#[trigger] keys[j]).nesting_free(),
                orders_by_aggregate <==> exists|j: int|
                    0 <= j < k && (#[trigger] q.order_by[j]).0.has_aggregate(),
            decreases self.order_by.len() - k,
        {
            assert(keys[k as int] == q.order_by[k as int].0);
            if !self.order_by[k].0.is_nesting_free() {
                assert(!keys[k as int].nesting_free());
                return false;
            }
            if self.order_by[k].0.has_aggregate() {
                assert(q.order_by[k as int].0.has_aggregate());
                orders_by_aggregate = true;
            }
            k += 1;
        }
        selects_aggregate || !orders_by_aggregate
    }

    /// Whether the select list is the single column reference `*`.
    pub fn is_select_star(&self) -> (r: bool)
        ensures
            r == (self@.select.len() == 1 && self@.select[0] == ExprModel::ColName(seq!['*'])),
    {
        if self.select.len() == 1 {
            match &self.select[0] {
                Expr::ColName(colname) => {
                    let name = colname.as_str();
                    if name.unicode_len() == 1 {
                        let c = name.get_char(0);
                        assert(c == '*' ==> colname@ == seq!['*']);
                        c == '*'
                    } else {
                        false
                    }
                },
                _ => false,
            }
        } else {
            false
        }
    }

    /// The names of the columns that the query needs from storage: every
    /// name that occurs in the select list, in an ordering key or in the
    /// filter, once each, in order of first occurrence.
    pub fn find_referenced_cols(&self) -> (colnames: Vec<String>)
        ensures
            names_model(colnames@) == merge_new(seq![], referenced_column_list(self@)),
            names_model(colnames@).no_duplicates(),
            forall|name: Seq<char>| #[trigger]
                names_model(colnames@).contains(name) <==> referenced_column_list(self@).contains(
                    name,
                ),
    {
        let mut colnames: Vec<String> = Vec::new();
        let ghost q = self@;
        let ghost empty = Seq::<Seq<char>>::empty();
        assert(names_model(colnames@) == empty);
        let mut i: usize = 0;
        while i < self.select.len()
            invariant
                i <= self.select.len(),
                q == self@,
                names_model(colnames@) == merge_new(empty, column_lists(q.select, i as nat)),
            decreases self.select.len() - i,
        {
            self.select[i].add_colnames(&mut colnames);
            proof {
                lemma_merge_concat(
                    empty,
                    column_lists(q.select, i as nat),
                    q.select[i as int].column_list(),
                );
            }
            i += 1;
        }
        let ghost selected = column_lists(q.select, q.select.len());
        let ghost keys = order_exprs(q.order_by);
        let mut j: usize = 0;
        assert(selected + column_lists(keys, 0) == selected);
        while j < self.order_by.len()
            invariant
                j <= self.order_by.len(),
                q == self@,
                keys == order_exprs(q.order_by),
                names_model(colnames@) == merge_new(
                    empty,
                    selected + column_lists(keys, j as nat),
                ),
            decreases self.order_by.len() - j,
        {
            self.order_by[j].0.add_colnames(&mut colnames);
            proof {
                lemma_merge_concat(
                    empty,
                    selected + column_lists(keys, j as nat),
                    keys[j as int].column_list(),
                );
                assert(selected + column_lists(keys, j as nat) + keys[j as int].column_list()
                    == selected + column_lists(keys, (j + 1) as nat));
            }
            j += 1;
        }
        self.filter.add_colnames(&mut colnames);
        proof {
            lemma_merge_concat(
                empty,
                selected + column_lists(keys, q.order_by.len()),
                q.filter.column_list(),
            );
            lemma_merge_members(empty, referenced_column_list(q));
            assert(forall|n: Seq<char>| !empty.contains(n));
        }
        colnames
    }
}

} // verus!
