//! What holds of every query and of every normal form.

use vstd::prelude::*;
use crate::distinct::{lemma_merge_members, merge_new};
use crate::expr::{Aggregator, ExprModel, Func1Type, Func2Type};
use crate::names::{
    anonymous_column_name, anonymous_prefix, count_column_name, count_prefix,
    lemma_prefixed_injective, lemma_synthetic_names, select_column_name, sum_column_name,
    sum_prefix,
};
use crate::query::{
    aggregate_name, anonymous_before, column_lists, fresh_names, lemma_shell_identity,
    lower_orders, lower_selects, normal_form,
    order_exprs, referenced_column_list, requires_final_pass, result_names, scalars_with,
    second_stage_expr, Lowering, QueryModel, StageModel,
};

verus! {

/// No expression of the list holds an aggregate application.
pub open spec fn exprs_aggregate_free(exprs: Seq<ExprModel>) -> bool {
    forall|i: int| 0 <= i < exprs.len() ==> !(#[trigger] exprs[i]).has_aggregate()
}

/// No ordering key holds an aggregate application.
pub open spec fn keys_aggregate_free(keys: Seq<(ExprModel, bool)>) -> bool {
    forall|i: int| 0 <= i < keys.len() ==> !(#[trigger] keys[i]).0.has_aggregate()
}

/// No argument of an aggregate holds an aggregate application.
pub open spec fn arguments_aggregate_free(aggregates: Seq<(Aggregator, ExprModel)>) -> bool {
    forall|i: int| 0 <= i < aggregates.len() ==> !(#[trigger] aggregates[i]).1.has_aggregate()
}

/// No expression of the list holds an aggregate inside an aggregate.
pub open spec fn exprs_nesting_free(exprs: Seq<ExprModel>) -> bool {
    forall|i: int| 0 <= i < exprs.len() ==> (#[trigger] exprs[i]).nesting_free()
}

/// The invariant of a stage: aggregators live only in `aggregate`, and at
/// most one of `aggregate` and `order_by` is used.
pub open spec fn stage_well_formed(stage: StageModel) -> bool {
    &&& exprs_aggregate_free(stage.projection)
    &&& !stage.filter.has_aggregate()
    &&& arguments_aggregate_free(stage.aggregate)
    &&& keys_aggregate_free(stage.order_by)
    &&& (stage.aggregate.len() == 0 || stage.order_by.len() == 0)
}

/// Whether `shell` has the shape of `e` with every outermost aggregate
/// application replaced by some column reference, and nothing else changed.
pub open spec fn shell_shaped(e: ExprModel, shell: ExprModel) -> bool
    decreases e,
{
    match e {
        ExprModel::ColName(_) => shell == e,
        ExprModel::Const(_) => shell == e,
        ExprModel::Func1(op, child) => match shell {
            ExprModel::Func1(shell_op, shell_child) => op == shell_op && shell_shaped(
                *child,
                *shell_child,
            ),
            _ => false,
        },
        ExprModel::Func2(op, left, right) => match shell {
            ExprModel::Func2(shell_op, shell_left, shell_right) => op == shell_op && shell_shaped(
                *left,
                *shell_left,
            ) && shell_shaped(*right, *shell_right),
            _ => false,
        },
        ExprModel::Aggregate(_, _) => shell is ColName,
    }
}

/// The names that `shell` holds where `e` holds an outermost aggregate
/// application, in pre-order.
pub open spec fn replacements(e: ExprModel, shell: ExprModel) -> Seq<Seq<char>>
    decreases e,
{
    match e {
        ExprModel::ColName(_) => seq![],
        ExprModel::Const(_) => seq![],
        ExprModel::Func1(_, child) => match shell {
            ExprModel::Func1(_, shell_child) => replacements(*child, *shell_child),
            _ => seq![],
        },
        ExprModel::Func2(_, left, right) => match shell {
            ExprModel::Func2(_, shell_left, shell_right) => replacements(*left, *shell_left)
                + replacements(*right, *shell_right),
            _ => seq![],
        },
        ExprModel::Aggregate(_, _) => match shell {
            ExprModel::ColName(name) => seq![name],
            _ => seq![],
        },
    }
}

/// The aggregate applications among `terms`, as pairs of aggregator and
/// argument, in the order of `terms`.
pub open spec fn aggregate_parts(terms: Seq<ExprModel>) -> Seq<(Aggregator, ExprModel)>
    decreases terms.len(),
{
    if terms.len() == 0 {
        seq![]
    } else {
        let before = aggregate_parts(terms.drop_last());
        match terms.last() {
            ExprModel::Aggregate(aggregator, child) => before.push((aggregator, *child)),
            _ => before,
        }
    }
}

proof fn lemma_aggregate_parts_concat(a: Seq<ExprModel>, b: Seq<ExprModel>)
    ensures
        aggregate_parts(a + b) == aggregate_parts(a) + aggregate_parts(b),
    decreases b.len(),
{
    if b.len() == 0 {
        assert(a + b == a);
    } else {
        assert((a + b).drop_last() == a + b.drop_last());
        assert((a + b).last() == b.last());
        lemma_aggregate_parts_concat(a, b.drop_last());
    }
}

proof fn lemma_aggregate_parts_single(e: ExprModel)
    ensures
        aggregate_parts(seq![e]) == match e {
            ExprModel::Aggregate(aggregator, child) => seq![(aggregator, *child)],
            _ => Seq::<(Aggregator, ExprModel)>::empty(),
        },
{
    assert(seq![e].drop_last() == Seq::<ExprModel>::empty());
    assert(aggregate_parts(seq![e].drop_last()) == Seq::<(Aggregator, ExprModel)>::empty());
    assert(seq![e].last() == e);
}

proof fn lemma_no_aggregate_no_parts(e: ExprModel)
    requires
        !e.has_aggregate(),
    ensures
        aggregate_parts(e.subterms()) == Seq::<(Aggregator, ExprModel)>::empty(),
        e.aggregates() == Seq::<(Aggregator, ExprModel)>::empty(),
    decreases e,
{
    lemma_aggregate_parts_single(e);
    match e {
        ExprModel::ColName(_) => {},
        ExprModel::Const(_) => {},
        ExprModel::Func1(_, child) => {
            lemma_no_aggregate_no_parts(*child);
            lemma_aggregate_parts_concat(seq![e], child.subterms());
        },
        ExprModel::Func2(_, left, right) => {
            lemma_no_aggregate_no_parts(*left);
            lemma_no_aggregate_no_parts(*right);
            lemma_aggregate_parts_concat(seq![e], left.subterms());
            lemma_aggregate_parts_concat(seq![e] + left.subterms(), right.subterms());
        },
        ExprModel::Aggregate(_, _) => {},
    }
}

/// Extraction commutes with unary and binary functions: the shell of a
/// function application is the application to the shells of the arguments,
/// numbered from left to right, and its aggregates are those of the
/// arguments, left before right.
pub proof fn law_extraction_is_homomorphic(
    op1: Func1Type,
    op2: Func2Type,
    a: ExprModel,
    b: ExprModel,
    k: nat,
)
    ensures
        ExprModel::Func1(op1, Box::new(a)).shell(k) == ExprModel::Func1(op1, Box::new(a.shell(k))),
        ExprModel::Func1(op1, Box::new(a)).aggregates() == a.aggregates(),
        ExprModel::Func2(op2, Box::new(a), Box::new(b)).shell(k) == ExprModel::Func2(
            op2,
            Box::new(a.shell(k)),
            Box::new(b.shell(k + a.aggregates().len())),
        ),
        ExprModel::Func2(op2, Box::new(a), Box::new(b)).aggregates() == a.aggregates()
            + b.aggregates(),
{
}

/// The shell of an expression has the expression's shape, holds no aggregate
/// application, and holds the names `_ca{k}`, `_ca{k + 1}`, ... in place of the
/// outermost aggregate applications, in pre-order. These names are pairwise
/// distinct.
pub proof fn law_shell_shape(e: ExprModel, k: nat)
    ensures
        shell_shaped(e, e.shell(k)),
        !e.shell(k).has_aggregate(),
        replacements(e, e.shell(k)) == fresh_names(k, e.aggregates().len()),
        fresh_names(k, e.aggregates().len()).no_duplicates(),
    decreases e,
{
    match e {
        ExprModel::ColName(_) => {},
        ExprModel::Const(_) => {},
        ExprModel::Func1(_, child) => {
            law_shell_shape(*child, k);
        },
        ExprModel::Func2(_, left, right) => {
            law_shell_shape(*left, k);
            law_shell_shape(*right, k + left.aggregates().len());
            assert(fresh_names(k, left.aggregates().len()) + fresh_names(
                k + left.aggregates().len(),
                right.aggregates().len(),
            ) == fresh_names(k, e.aggregates().len()));
        },
        ExprModel::Aggregate(_, _) => {
            assert(replacements(e, e.shell(k)) == fresh_names(k, 1));
        },
    }
    let names = fresh_names(k, e.aggregates().len());
    assert forall|i: int, j: int| 0 <= i < names.len() && 0 <= j < names.len() && i != j implies names[i]
        != names[j] by {
        lemma_synthetic_names((k + i) as nat, (k + j) as nat);
    }
}

/// Where no aggregate contains another, the extracted list is the list of
/// all aggregate applications among the subterms, in pre-order.
pub proof fn law_extracted_in_preorder(e: ExprModel)
    requires
        e.nesting_free(),
    ensures
        e.aggregates() == aggregate_parts(e.subterms()),
    decreases e,
{
    lemma_aggregate_parts_single(e);
    match e {
        ExprModel::ColName(_) => {},
        ExprModel::Const(_) => {},
        ExprModel::Func1(_, child) => {
            law_extracted_in_preorder(*child);
            lemma_aggregate_parts_concat(seq![e], child.subterms());
        },
        ExprModel::Func2(_, left, right) => {
            law_extracted_in_preorder(*left);
            law_extracted_in_preorder(*right);
            lemma_aggregate_parts_concat(seq![e], left.subterms());
            lemma_aggregate_parts_concat(seq![e] + left.subterms(), right.subterms());
        },
        ExprModel::Aggregate(_, child) => {
            lemma_no_aggregate_no_parts(*child);
            lemma_aggregate_parts_concat(seq![e], child.subterms());
        },
    }
}

proof fn lemma_aggregate_arguments(e: ExprModel)
    requires
        e.nesting_free(),
    ensures
        arguments_aggregate_free(e.aggregates()),
    decreases e,
{
    match e {
        ExprModel::ColName(_) => {},
        ExprModel::Const(_) => {},
        ExprModel::Func1(_, child) => {
            lemma_aggregate_arguments(*child);
        },
        ExprModel::Func2(_, left, right) => {
            lemma_aggregate_arguments(*left);
            lemma_aggregate_arguments(*right);
        },
        ExprModel::Aggregate(_, _) => {},
    }
}

spec fn lowering_aggregate_free(state: Lowering) -> bool {
    &&& exprs_aggregate_free(state.shells)
    &&& exprs_aggregate_free(state.scalars)
    &&& keys_aggregate_free(state.keys)
}

proof fn lemma_lowering_step(state: Lowering, e: ExprModel)
    requires
        lowering_aggregate_free(state),
    ensures
        !second_stage_expr(state, e).has_aggregate(),
        exprs_aggregate_free(scalars_with(state, e)),
        e.nesting_free() && arguments_aggregate_free(state.aggregates)
            ==> arguments_aggregate_free(state.aggregates + e.aggregates()),
{
    law_shell_shape(e, state.aggregates.len());
    if e.aggregates().len() == 0 {
        lemma_shell_identity(e, 0);
    }
    if e.nesting_free() {
        lemma_aggregate_arguments(e);
    }
}

proof fn lemma_selects_aggregate_free(select: Seq<ExprModel>, n: nat)
    requires
        n <= select.len(),
    ensures
        lowering_aggregate_free(lower_selects(select, n)),
        exprs_nesting_free(select) ==> arguments_aggregate_free(
            lower_selects(select, n).aggregates,
        ),
    decreases n,
{
    if n > 0 {
        lemma_selects_aggregate_free(select, (n - 1) as nat);
        lemma_lowering_step(lower_selects(select, (n - 1) as nat), select[n - 1]);
    }
}

proof fn lemma_orders_aggregate_free(
    select: Seq<ExprModel>,
    order_by: Seq<(ExprModel, bool)>,
    n: nat,
)
    requires
        n <= order_by.len(),
    ensures
        lowering_aggregate_free(lower_orders(select, order_by, n)),
        exprs_nesting_free(select) && exprs_nesting_free(order_exprs(order_by))
            ==> arguments_aggregate_free(lower_orders(select, order_by, n).aggregates),
    decreases n,
{
    if n == 0 {
        lemma_selects_aggregate_free(select, select.len());
    } else {
        lemma_orders_aggregate_free(select, order_by, (n - 1) as nat);
        lemma_lowering_step(lower_orders(select, order_by, (n - 1) as nat), order_by[n - 1].0);
        if exprs_nesting_free(order_exprs(order_by)) {
            assert(order_exprs(order_by)[n - 1].nesting_free());
        }
    }
}

/// In the normal form of a query whose filter holds no aggregate, no
/// projection, filter or ordering key of either stage holds an aggregate
/// application. A query that orders by an aggregate without needing a final
/// pass keeps its ordering keys as they are, and is left out.
pub proof fn law_stages_hold_no_aggregate(q: QueryModel)
    requires
        !q.filter.has_aggregate(),
        requires_final_pass(q) || keys_aggregate_free(q.order_by),
    ensures
        exprs_aggregate_free(normal_form(q).0.projection),
        !normal_form(q).0.filter.has_aggregate(),
        keys_aggregate_free(normal_form(q).0.order_by),
        normal_form(q).1 matches Some(second) ==> stage_well_formed(second),
{
    lemma_selects_aggregate_free(q.select, q.select.len());
    lemma_orders_aggregate_free(q.select, q.order_by, q.order_by.len());
}

/// Where, in addition, no aggregate of the query contains another, both
/// stages are well formed.
pub proof fn law_stages_well_formed(q: QueryModel)
    requires
        !q.filter.has_aggregate(),
        requires_final_pass(q) || keys_aggregate_free(q.order_by),
        exprs_nesting_free(q.select),
        exprs_nesting_free(order_exprs(q.order_by)),
    ensures
        stage_well_formed(normal_form(q).0),
        normal_form(q).1 matches Some(second) ==> stage_well_formed(second),
{
    lemma_selects_aggregate_free(q.select, q.select.len());
    lemma_orders_aggregate_free(q.select, q.order_by, q.order_by.len());
}

/// How many aggregates the first `n` expressions hold at their outermost
/// level.
pub open spec fn aggregates_before(exprs: Seq<ExprModel>, n: nat) -> nat
    decreases n,
{
    if n == 0 {
        0
    } else {
        aggregates_before(exprs, (n - 1) as nat) + exprs[n - 1].aggregates().len()
    }
}

/// How many of the first `n` expressions hold no aggregate.
pub open spec fn scalars_before(exprs: Seq<ExprModel>, n: nat) -> nat
    decreases n,
{
    if n == 0 {
        0
    } else {
        scalars_before(exprs, (n - 1) as nat) + if exprs[n - 1].aggregates().len() == 0 {
            1nat
        } else {
            0nat
        }
    }
}

/// What the normalizer makes of the select list, entry by entry. The entry
/// at position `i` of the second stage's projection is a reference to
/// `_cs{k}` where the select expression holds no aggregate, `k` counting
/// the aggregate-free expressions before it, and otherwise the shell of the
/// expression, its aggregates numbered after those of the expressions before
/// it. The first stage projects the aggregate-free expressions and
/// aggregates all the others' aggregates.
pub proof fn law_select_list_entry_by_entry(select: Seq<ExprModel>, n: nat, i: int)
    requires
        0 <= i < n <= select.len(),
    ensures
        lower_selects(select, n).shells.len() == n,
        lower_selects(select, n).scalars.len() == scalars_before(select, n),
        lower_selects(select, n).aggregates.len() == aggregates_before(select, n),
        lower_selects(select, n).shells[i] == if select[i].aggregates().len() == 0 {
            ExprModel::ColName(select_column_name(scalars_before(select, i as nat)))
        } else {
            select[i].shell(aggregates_before(select, i as nat))
        },
        select[i].aggregates().len() == 0 ==> lower_selects(select, n).scalars[scalars_before(
            select,
            i as nat,
        ) as int] == select[i],
    decreases n,
{
    lemma_select_counts(select, (n - 1) as nat);
    if i < n - 1 {
        law_select_list_entry_by_entry(select, (n - 1) as nat, i);
        lemma_scalars_count_grows(select, (i + 1) as nat, (n - 1) as nat);
    }
}

proof fn lemma_scalars_count_grows(select: Seq<ExprModel>, i: nat, j: nat)
    requires
        i <= j,
    ensures
        scalars_before(select, i) <= scalars_before(select, j),
    decreases j,
{
    if i < j {
        lemma_scalars_count_grows(select, i, (j - 1) as nat);
    }
}

proof fn lemma_select_counts(select: Seq<ExprModel>, n: nat)
    requires
        n <= select.len(),
    ensures
        lower_selects(select, n).shells.len() == n,
        lower_selects(select, n).scalars.len() == scalars_before(select, n),
        lower_selects(select, n).aggregates.len() == aggregates_before(select, n),
    decreases n,
{
    if n > 0 {
        lemma_select_counts(select, (n - 1) as nat);
    }
}

/// Whether the aggregates of a query stand where normalization can deal
/// with them: none in the filter, none inside another, and none in an
/// ordering key unless the select list holds one too.
pub open spec fn aggregates_well_placed(q: QueryModel) -> bool {
    &&& !q.filter.has_aggregate()
    &&& exprs_nesting_free(q.select)
    &&& exprs_nesting_free(order_exprs(q.order_by))
    &&& !exprs_aggregate_free(q.select) || keys_aggregate_free(q.order_by)
}

proof fn lemma_aggregate_is_extracted(e: ExprModel)
    requires
        e.has_aggregate(),
    ensures
        e.aggregates().len() > 0,
    decreases e,
{
    match e {
        ExprModel::ColName(_) => {},
        ExprModel::Const(_) => {},
        ExprModel::Func1(_, child) => {
            lemma_aggregate_is_extracted(*child);
        },
        ExprModel::Func2(_, left, right) => {
            if left.has_aggregate() {
                lemma_aggregate_is_extracted(*left);
            } else {
                lemma_aggregate_is_extracted(*right);
            }
        },
        ExprModel::Aggregate(_, _) => {},
    }
}

proof fn lemma_selects_gather(select: Seq<ExprModel>, n: nat, i: int)
    requires
        0 <= i < n <= select.len(),
        select[i].has_aggregate(),
    ensures
        lower_selects(select, n).aggregates.len() > 0,
    decreases n,
{
    if i == n - 1 {
        lemma_aggregate_is_extracted(select[i]);
    } else {
        lemma_selects_gather(select, (n - 1) as nat, i);
    }
}

/// The normal form of a query whose aggregates are well placed is well
/// formed: aggregators live only in the aggregate list of the first stage,
/// and no stage both aggregates and orders.
pub proof fn law_well_placed_aggregates_normalize(q: QueryModel)
    requires
        aggregates_well_placed(q),
    ensures
        stage_well_formed(normal_form(q).0),
        normal_form(q).1 matches Some(second) ==> stage_well_formed(second),
{
    if !keys_aggregate_free(q.order_by) {
        let i = choose|i: int| 0 <= i < q.select.len() && (#[trigger] q.select[i]).has_aggregate();
        lemma_selects_gather(q.select, q.select.len(), i);
        assert(q.order_by.len() > 0);
    }
    law_stages_well_formed(q);
}

/// No stage of a normal form both aggregates and orders.
pub proof fn law_stage_aggregates_or_orders(q: QueryModel)
    ensures
        normal_form(q).0.aggregate.len() == 0 || normal_form(q).0.order_by.len() == 0,
        normal_form(q).1 matches Some(second) ==> second.aggregate.len() == 0
            || second.order_by.len() == 0,
{
}

proof fn lemma_column_occurs(e: ExprModel, name: Seq<char>)
    requires
        e.subterms().contains(ExprModel::ColName(name)),
    ensures
        e.column_list().contains(name),
    decreases e,
{
    let target = ExprModel::ColName(name);
    let i = choose|i: int| 0 <= i < e.subterms().len() && e.subterms()[i] == target;
    match e {
        ExprModel::ColName(n) => {
            assert(e.column_list()[0] == name);
        },
        ExprModel::Const(_) => {},
        ExprModel::Func1(_, child) => {
            assert(child.subterms()[i - 1] == target);
            lemma_column_occurs(*child, name);
        },
        ExprModel::Func2(_, left, right) => {
            let l = left.subterms().len();
            if i - 1 < l {
                assert(left.subterms()[i - 1] == target);
                lemma_column_occurs(*left, name);
                let j = choose|j: int|
                    0 <= j < left.column_list().len() && left.column_list()[j] == name;
                assert(e.column_list()[j] == name);
            } else {
                assert(right.subterms()[i - 1 - l] == target);
                lemma_column_occurs(*right, name);
                let j = choose|j: int|
                    0 <= j < right.column_list().len() && right.column_list()[j] == name;
                assert(e.column_list()[left.column_list().len() + j] == name);
            }
        },
        ExprModel::Aggregate(_, child) => {
            assert(child.subterms()[i - 1] == target);
            lemma_column_occurs(*child, name);
        },
    }
}

proof fn lemma_column_lists_cover(exprs: Seq<ExprModel>, n: nat, i: int, name: Seq<char>)
    requires
        0 <= i < n <= exprs.len(),
        exprs[i].column_list().contains(name),
    ensures
        column_lists(exprs, n).contains(name),
    decreases n,
{
    let before = column_lists(exprs, (n - 1) as nat);
    if i == n - 1 {
        let j = choose|j: int|
            0 <= j < exprs[i].column_list().len() && exprs[i].column_list()[j] == name;
        assert(column_lists(exprs, n)[before.len() + j] == name);
    } else {
        lemma_column_lists_cover(exprs, (n - 1) as nat, i, name);
        let j = choose|j: int| 0 <= j < before.len() && before[j] == name;
        assert(column_lists(exprs, n)[j] == name);
    }
}

/// Whether the column `name` is referred to somewhere in the select list,
/// the filter or an ordering key of `q`.
pub open spec fn occurs_in_query(q: QueryModel, name: Seq<char>) -> bool {
    let target = ExprModel::ColName(name);
    ||| exists|i: int| 0 <= i < q.select.len() && (#[trigger] q.select[i]).subterms().contains(target)
    ||| q.filter.subterms().contains(target)
    ||| exists|i: int|
        0 <= i < q.order_by.len() && (#[trigger] q.order_by[i]).0.subterms().contains(target)
}

/// Every column that a query refers to is among its referenced columns.
pub proof fn law_referenced_columns_cover(q: QueryModel, name: Seq<char>)
    requires
        occurs_in_query(q, name),
    ensures
        merge_new(seq![], referenced_column_list(q)).contains(name),
{
    let target = ExprModel::ColName(name);
    let selected = column_lists(q.select, q.select.len());
    let ordered = column_lists(order_exprs(q.order_by), q.order_by.len());
    let filtered = q.filter.column_list();
    let all = referenced_column_list(q);
    if exists|i: int| 0 <= i < q.select.len() && (#[trigger] q.select[i]).subterms().contains(target) {
        let i = choose|i: int|
            0 <= i < q.select.len() && (#[trigger] q.select[i]).subterms().contains(target);
        lemma_column_occurs(q.select[i], name);
        lemma_column_lists_cover(q.select, q.select.len(), i, name);
        let j = choose|j: int| 0 <= j < selected.len() && selected[j] == name;
        assert(all[j] == name);
    } else if q.filter.subterms().contains(target) {
        lemma_column_occurs(q.filter, name);
        let j = choose|j: int| 0 <= j < filtered.len() && filtered[j] == name;
        assert(all[selected.len() + ordered.len() + j] == name);
    } else {
        let i = choose|i: int|
            0 <= i < q.order_by.len() && (#[trigger] q.order_by[i]).0.subterms().contains(target);
        assert(order_exprs(q.order_by)[i] == q.order_by[i].0);
        lemma_column_occurs(q.order_by[i].0, name);
        lemma_column_lists_cover(order_exprs(q.order_by), q.order_by.len(), i, name);
        let j = choose|j: int| 0 <= j < ordered.len() && ordered[j] == name;
        assert(all[selected.len() + j] == name);
    }
    assert(all.contains(name));
    lemma_merge_members(seq![], all);
}

/// Whether the result column at position `i` of a stage has a name of its
/// own making: it is an aggregate, or a projection that is not a bare
/// column reference.
pub open spec fn names_itself(stage: StageModel, i: int) -> bool {
    if i < stage.projection.len() {
        !(stage.projection[i] is ColName)
    } else {
        true
    }
}

proof fn lemma_anonymous_count_grows(projection: Seq<ExprModel>, i: nat, j: nat)
    requires
        i <= j,
    ensures
        anonymous_before(projection, i) <= anonymous_before(projection, j),
    decreases j,
{
    if i < j {
        lemma_anonymous_count_grows(projection, i, (j - 1) as nat);
    }
}

/// The names that a stage makes up for its result columns are pairwise
/// distinct. A bare column reference keeps the name of its column, which may
/// coincide with any other name.
pub proof fn law_made_up_names_differ(stage: StageModel, i: int, j: int)
    requires
        0 <= i < j < result_names(stage).len(),
        names_itself(stage, i),
        names_itself(stage, j),
    ensures
        result_names(stage)[i] != result_names(stage)[j],
{
    let names = result_names(stage);
    let n = stage.projection.len() as int;
    let first = names[i];
    let second = names[j];
    if j < n {
        lemma_anonymous_count_grows(stage.projection, (i + 1) as nat, j as nat);
        assert(first == anonymous_column_name(anonymous_before(stage.projection, i as nat)));
        assert(second == anonymous_column_name(anonymous_before(stage.projection, j as nat)));
        if first == second {
            lemma_prefixed_injective(
                anonymous_prefix(),
                anonymous_before(stage.projection, i as nat),
                anonymous_before(stage.projection, j as nat),
            );
        }
    } else if i < n {
        assert(first == anonymous_column_name(anonymous_before(stage.projection, i as nat)));
        assert(second == aggregate_name(stage.aggregate, j - n));
        assert(first[2] == 'l');
        assert(count_column_name((j - n) as nat)[2] == 'u');
        assert(sum_column_name((j - n) as nat)[0] == 's');
        assert(first[0] == 'c');
    } else {
        assert(first == aggregate_name(stage.aggregate, i - n));
        assert(second == aggregate_name(stage.aggregate, j - n));
        assert(count_column_name((i - n) as nat)[0] == 'c');
        assert(count_column_name((j - n) as nat)[0] == 'c');
        assert(sum_column_name((i - n) as nat)[0] == 's');
        assert(sum_column_name((j - n) as nat)[0] == 's');
        if first == second {
            if stage.aggregate[i - n].0 == Aggregator::Count {
                lemma_prefixed_injective(count_prefix(), (i - n) as nat, (j - n) as nat);
            } else {
                lemma_prefixed_injective(sum_prefix(), (i - n) as nat, (j - n) as nat);
            }
        }
    }
}

/// A stage has one result column per projection and per aggregate.
pub proof fn law_result_column_count(stage: StageModel)
    ensures
        result_names(stage).len() == stage.projection.len() + stage.aggregate.len(),
{
}

} // verus!
