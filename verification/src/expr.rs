//! The expression model shared by queries and normal-form stages.
//!
//! Executable expressions own their strings. Contracts speak of their views,
//! in which a string is its sequence of characters.

use vstd::prelude::*;
use crate::distinct::{lemma_merge_concat, lemma_merge_one, merge_new};

verus! {

/// The closed set of aggregators.
#[derive(Clone, Copy, Debug, PartialEq, Eq, Structural)]
pub enum Aggregator {
    Count,
    Sum,
}

/// Unary operators.
#[derive(Clone, Copy, Debug, PartialEq, Eq, Structural)]
pub enum Func1Type {
    Negate,
    Not,
    IsNull,
    IsNotNull,
}

/// Binary operators: comparisons, boolean connectives and arithmetic.
#[derive(Clone, Copy, Debug, PartialEq, Eq, Structural)]
pub enum Func2Type {
    Equals,
    NotEquals,
    LT,
    LTE,
    GT,
    GTE,
    And,
    Or,
    Add,
    Subtract,
    Multiply,
    Divide,
}

/// A literal of a primitive type.
#[derive(Debug, PartialEq, Eq)]
pub enum RawVal {
    Int(i64),
    Str(String),
    Bool(bool),
    Null,
}

/// The view of a literal.
pub enum RawValModel {
    Int(i64),
    Str(Seq<char>),
    Bool(bool),
    Null,
}

impl View for RawVal {
    type V = RawValModel;

    open spec fn view(&self) -> RawValModel {
        match *self {
            RawVal::Int(i) => RawValModel::Int(i),
            RawVal::Str(s) => RawValModel::Str(s@),
            RawVal::Bool(b) => RawValModel::Bool(b),
            RawVal::Null => RawValModel::Null,
        }
    }
}

impl Clone for RawVal {
    fn clone(&self) -> (r: Self)
        ensures
            r@ == self@,
    {
        match self {
            RawVal::Int(i) => RawVal::Int(*i),
            RawVal::Str(s) => RawVal::Str(s.clone()),
            RawVal::Bool(b) => RawVal::Bool(*b),
            RawVal::Null => RawVal::Null,
        }
    }
}

/// A recursive expression: column reference, constant, unary function,
/// binary function or aggregate application.
#[derive(Debug, PartialEq, Eq)]
pub enum Expr {
    ColName(String),
    Const(RawVal),
    Func1(Func1Type, Box<Expr>),
    Func2(Func2Type, Box<Expr>, Box<Expr>),
    Aggregate(Aggregator, Box<Expr>),
}

/// The view of an expression.
pub enum ExprModel {
    ColName(Seq<char>),
    Const(RawValModel),
    Func1(Func1Type, Box<ExprModel>),
    Func2(Func2Type, Box<ExprModel>, Box<ExprModel>),
    Aggregate(Aggregator, Box<ExprModel>),
}

impl View for Expr {
    type V = ExprModel;

    open spec fn view(&self) -> ExprModel
        decreases self,
    {
        match self {
            Expr::ColName(name) => ExprModel::ColName(name@),
            Expr::Const(v) => ExprModel::Const(v@),
            Expr::Func1(op, child) => ExprModel::Func1(*op, Box::new((**child).view())),
            Expr::Func2(op, left, right) => ExprModel::Func2(
                *op,
                Box::new((**left).view()),
                Box::new((**right).view()),
            ),
            Expr::Aggregate(aggregator, child) => ExprModel::Aggregate(
                *aggregator,
                Box::new((**child).view()),
            ),
        }
    }
}

/// The views of a list of strings.
pub open spec fn names_model(v: Seq<String>) -> Seq<Seq<char>> {
    Seq::new(v.len(), |i: int| v[i]@)
}

/// The views of a list of expressions.
pub open spec fn exprs_model(v: Seq<Expr>) -> Seq<ExprModel> {
    Seq::new(v.len(), |i: int| v[i]@)
}

/// The views of a list of aggregate applications.
pub open spec fn aggregates_model(v: Seq<(Aggregator, Expr)>) -> Seq<(Aggregator, ExprModel)> {
    Seq::new(v.len(), |i: int| (v[i].0, v[i].1@))
}

/// The views of a list of ordering keys; the flag is true for descending.
pub open spec fn order_model(v: Seq<(Expr, bool)>) -> Seq<(ExprModel, bool)> {
    Seq::new(v.len(), |i: int| (v[i].0@, v[i].1))
}

impl ExprModel {
    /// Whether an aggregate application occurs anywhere in the expression.
    pub open spec fn has_aggregate(self) -> bool
        decreases self,
    {
        match self {
            ExprModel::ColName(_) => false,
            ExprModel::Const(_) => false,
            ExprModel::Func1(_, child) => child.has_aggregate(),
            ExprModel::Func2(_, left, right) => left.has_aggregate() || right.has_aggregate(),
            ExprModel::Aggregate(_, _) => true,
        }
    }

    /// Whether no aggregate application contains another one.
    pub open spec fn nesting_free(self) -> bool
        decreases self,
    {
        match self {
            ExprModel::ColName(_) => true,
            ExprModel::Const(_) => true,
            ExprModel::Func1(_, child) => child.nesting_free(),
            ExprModel::Func2(_, left, right) => left.nesting_free() && right.nesting_free(),
            ExprModel::Aggregate(_, child) => !child.has_aggregate(),
        }
    }

    /// The outermost aggregate applications, as pairs of aggregator and
    /// argument, in pre-order.
    pub open spec fn aggregates(self) -> Seq<(Aggregator, ExprModel)>
        decreases self,
    {
        match self {
            ExprModel::ColName(_) => seq![],
            ExprModel::Const(_) => seq![],
            ExprModel::Func1(_, child) => child.aggregates(),
            ExprModel::Func2(_, left, right) => left.aggregates() + right.aggregates(),
            ExprModel::Aggregate(aggregator, child) => seq![(aggregator, *child)],
        }
    }

    /// The expression with its `i`-th outermost aggregate application, in
    /// pre-order, replaced by a reference to the column `_ca{k + i}`.
    pub open spec fn shell(self, k: nat) -> ExprModel
        decreases self,
    {
        match self {
            ExprModel::ColName(_) => self,
            ExprModel::Const(_) => self,
            ExprModel::Func1(op, child) => ExprModel::Func1(op, Box::new(child.shell(k))),
            ExprModel::Func2(op, left, right) => ExprModel::Func2(
                op,
                Box::new(left.shell(k)),
                Box::new(right.shell(k + left.aggregates().len())),
            ),
            ExprModel::Aggregate(_, _) => ExprModel::ColName(
                crate::names::aggregate_column_name(k),
            ),
        }
    }

    /// The column names that occur in the expression, one entry per
    /// occurrence, in pre-order.
    pub open spec fn column_list(self) -> Seq<Seq<char>>
        decreases self,
    {
        match self {
            ExprModel::ColName(name) => seq![name],
            ExprModel::Const(_) => seq![],
            ExprModel::Func1(_, child) => child.column_list(),
            ExprModel::Func2(_, left, right) => left.column_list() + right.column_list(),
            ExprModel::Aggregate(_, child) => child.column_list(),
        }
    }

    /// All subterms of the expression, itself included, in pre-order.
    pub open spec fn subterms(self) -> Seq<ExprModel>
        decreases self,
    {
        match self {
            ExprModel::ColName(_) => seq![self],
            ExprModel::Const(_) => seq![self],
            ExprModel::Func1(_, child) => seq![self] + child.subterms(),
            ExprModel::Func2(_, left, right) => seq![self] + left.subterms() + right.subterms(),
            ExprModel::Aggregate(_, child) => seq![self] + child.subterms(),
        }
    }
}

impl Clone for Expr {
    fn clone(&self) -> (r: Self)
        ensures
            r@ == self@,
        decreases self,
    {
        match self {
            Expr::ColName(name) => Expr::ColName(name.clone()),
            Expr::Const(v) => Expr::Const(v.clone()),
            Expr::Func1(op, child) => Expr::Func1(*op, Box::new((&**child).clone())),
            Expr::Func2(op, left, right) => Expr::Func2(
                *op,
                Box::new((&**left).clone()),
                Box::new((&**right).clone()),
            ),
            Expr::Aggregate(aggregator, child) => Expr::Aggregate(
                *aggregator,
                Box::new((&**child).clone()),
            ),
        }
    }
}

/// Whether `name` occurs in `names`.
pub fn has_name(names: &Vec<String>, name: &String) -> (found: bool)
    ensures
        found == names_model(names@).contains(name@),
{
    let mut i: usize = 0;
    while i < names.len()
        invariant
            i <= names.len(),
            forall|j: int| 0 <= j < i ==> names_model(names@)[j] != name@,
        decreases names.len() - i,
    {
        if names[i] == *name {
            assert(names_model(names@)[i as int] == name@);
            return true;
        }
        i += 1;
    }
    false
}

impl Expr {
    /// Whether an aggregate application occurs anywhere in the expression.
    pub fn has_aggregate(&self) -> (r: bool)
        ensures
            r == self@.has_aggregate(),
        decreases self,
    {
        match self {
            Expr::ColName(_) => false,
            Expr::Const(_) => false,
            Expr::Func1(_, child) => child.has_aggregate(),
            Expr::Func2(_, left, right) => left.has_aggregate() || right.has_aggregate(),
            Expr::Aggregate(_, _) => true,
        }
    }

    /// Whether no aggregate application contains another one.
    pub fn is_nesting_free(&self) -> (r: bool)
        ensures
            r == self@.nesting_free(),
        decreases self,
    {
        match self {
            Expr::ColName(_) => true,
            Expr::Const(_) => true,
            Expr::Func1(_, child) => child.is_nesting_free(),
            Expr::Func2(_, left, right) => left.is_nesting_free() && right.is_nesting_free(),
            Expr::Aggregate(_, child) => !child.has_aggregate(),
        }
    }

    /// Appends to `names` every column name of the expression that `names`
    /// does not hold yet, in pre-order.
    pub fn add_colnames(&self, names: &mut Vec<String>)
        ensures
            names_model(final(names)@) == merge_new(
                names_model(old(names)@),
                self@.column_list(),
            ),
        decreases self,
    {
        match self {
            Expr::ColName(name) => {
                let ghost before = names_model(names@);
                if !has_name(names, name) {
                    names.push(name.clone());
                    assert(names_model(names@) == before.push(name@));
                }
                proof {
                    lemma_merge_one(before, name@);
                }
            },
            Expr::Const(_) => {},
            Expr::Func1(_, child) => {
                child.add_colnames(names);
            },
            Expr::Func2(_, left, right) => {
                left.add_colnames(names);
                right.add_colnames(names);
                proof {
                    lemma_merge_concat(
                        names_model(old(names)@),
                        left@.column_list(),
                        right@.column_list(),
                    );
                }
            },
            Expr::Aggregate(_, child) => {
                child.add_colnames(names);
            },
        }
    }
}

} // verus!
