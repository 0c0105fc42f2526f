//! The expression algebra: builders for the small arithmetic tree, structural
//! cloning and equality, name substitution, and the update-extraction
//! convention for instruction bodies.
//!
//! The algebra is deliberately minimal: no folding, no normalisation. The
//! identities must come out exactly as built, operand order and association
//! preserved.

use vstd::prelude::*;
use crate::ast::{
    BinaryOperator, Expression, ExpressionView, FunctionDefinition, PolynomialName,
    PolynomialNameView, PolynomialReference, PolynomialReferenceView, SelectedExpressions,
    Statement, StatementView, UnaryOperator, view_exprs, view_poly_names, view_strings,
};
use crate::names::{map_get, NameMap};

verus! {

broadcast use crate::ast::lemma_view_exprs;

use crate::ast::{lemma_expression_view, lemma_poly_reference_view};

// ---------------------------------------------------------------------------
// Builders
// ---------------------------------------------------------------------------

/// A reference to the column `name` in the current row.
pub open spec fn sv_direct(name: Seq<char>) -> ExpressionView {
    ExpressionView::PolynomialReference(
        PolynomialReferenceView {
            namespace: Option::None,
            name: name,
            index: Option::None,
            next: false,
        },
    )
}

/// A reference to the column `name` in the next row.
pub open spec fn sv_next(name: Seq<char>) -> ExpressionView {
    ExpressionView::PolynomialReference(
        PolynomialReferenceView {
            namespace: Option::None,
            name: name,
            index: Option::None,
            next: true,
        },
    )
}

pub open spec fn sv_number(n: int) -> ExpressionView {
    ExpressionView::Number(n)
}

pub open spec fn sv_binary(l: ExpressionView, op: BinaryOperator, r: ExpressionView)
    -> ExpressionView {
    ExpressionView::BinaryOperation(Box::new(l), op, Box::new(r))
}

pub open spec fn sv_add(l: ExpressionView, r: ExpressionView) -> ExpressionView {
    sv_binary(l, BinaryOperator::Add, r)
}

pub open spec fn sv_sub(l: ExpressionView, r: ExpressionView) -> ExpressionView {
    sv_binary(l, BinaryOperator::Sub, r)
}

pub open spec fn sv_mul(l: ExpressionView, r: ExpressionView) -> ExpressionView {
    sv_binary(l, BinaryOperator::Mul, r)
}

/// The declaration of a single committed (witness) column.
pub open spec fn sv_witness(start: int, name: Seq<char>) -> StatementView {
    StatementView::PolynomialCommitDeclaration(
        start,
        seq![PolynomialNameView { name: name, array_size: Option::None }],
        Option::None,
    )
}

pub fn direct_reference(name: &str) -> (r: Expression)
    ensures
        r@ == sv_direct(name@),
{
    let r = Expression::PolynomialReference(
        PolynomialReference {
            namespace: Option::None,
            name: name.to_owned(),
            index: Option::None,
            next: false,
        },
    );
    proof {
        lemma_expression_view(r);
        lemma_poly_reference_view(r->PolynomialReference_0);
        assert(r@ =~~= sv_direct(name@));
    }
    r
}

pub fn next_reference(name: &str) -> (r: Expression)
    ensures
        r@ == sv_next(name@),
{
    let r = Expression::PolynomialReference(
        PolynomialReference {
            namespace: Option::None,
            name: name.to_owned(),
            index: Option::None,
            next: true,
        },
    );
    proof {
        lemma_expression_view(r);
        lemma_poly_reference_view(r->PolynomialReference_0);
        assert(r@ =~~= sv_next(name@));
    }
    r
}

pub fn build_number(value: i128) -> (r: Expression)
    ensures
        r@ == sv_number(value as int),
{
    let r = Expression::Number(value);
    proof {
        lemma_expression_view(r);
    }
    r
}

pub fn build_binary_expr(left: Expression, op: BinaryOperator, right: Expression) -> (r:
    Expression)
    ensures
        r@ == sv_binary(left@, op, right@),
{
    let ghost lv = left@;
    let ghost rv = right@;
    let r = Expression::BinaryOperation(Box::new(left), op, Box::new(right));
    proof {
        lemma_expression_view(r);
        assert(r@ =~~= sv_binary(lv, op, rv));
    }
    r
}

pub fn build_add(left: Expression, right: Expression) -> (r: Expression)
    ensures
        r@ == sv_add(left@, right@),
{
    build_binary_expr(left, BinaryOperator::Add, right)
}

pub fn build_sub(left: Expression, right: Expression) -> (r: Expression)
    ensures
        r@ == sv_sub(left@, right@),
{
    build_binary_expr(left, BinaryOperator::Sub, right)
}

pub fn build_mul(left: Expression, right: Expression) -> (r: Expression)
    ensures
        r@ == sv_mul(left@, right@),
{
    build_binary_expr(left, BinaryOperator::Mul, right)
}

pub fn build_unary_expr(op: UnaryOperator, expr: Expression) -> (r: Expression)
    ensures
        r@ == ExpressionView::UnaryOperation(op, Box::new(expr@)),
{
    let ghost ev = expr@;
    let r = Expression::UnaryOperation(op, Box::new(expr));
    proof {
        lemma_expression_view(r);
        assert(r@ =~~= ExpressionView::UnaryOperation(op, Box::new(ev)));
    }
    r
}

/// The PIL statement declaring the witness column `name`.
pub fn witness_column(start: usize, name: &str) -> (r: Statement)
    ensures
        r@ == sv_witness(start as int, name@),
{
    let mut names: Vec<PolynomialName> = Vec::new();
    names.push(PolynomialName { name: name.to_owned(), array_size: Option::None });
    let r = Statement::PolynomialCommitDeclaration(start, names, Option::None);
    proof {
        assert(view_poly_names(names@) =~= seq![
            PolynomialNameView { name: name@, array_size: Option::None },
        ]);
    }
    r
}

// ---------------------------------------------------------------------------
// Structural clone
// ---------------------------------------------------------------------------

/// A structural copy: the clone's view is the original's.
pub fn clone_expression(e: &Expression) -> (r: Expression)
    ensures
        r@ == e@,
    decreases *e, 1int,
{
    match e {
        Expression::Constant(s) => Expression::Constant(s.clone()),
        Expression::PublicReference(s) => Expression::PublicReference(s.clone()),
        Expression::Number(n) => Expression::Number(*n),
        Expression::Text(s) => Expression::Text(s.clone()),
        Expression::Tuple(items) => {
            let cloned = clone_expressions_in(e, items);
            let r = Expression::Tuple(cloned);
            proof {
                assert(view_exprs(r->Tuple_0@) =~= view_exprs(items@));
            }
            r
        },
        Expression::FreeInput(inner) => Expression::FreeInput(Box::new(clone_expression(inner))),
        Expression::PolynomialReference(r) => Expression::PolynomialReference(
            clone_poly_reference_at(e, r),
        ),
        Expression::BinaryOperation(l, op, r) => Expression::BinaryOperation(
            Box::new(clone_expression(l)),
            *op,
            Box::new(clone_expression(r)),
        ),
        Expression::UnaryOperation(op, inner) => Expression::UnaryOperation(
            *op,
            Box::new(clone_expression(inner)),
        ),
        Expression::FunctionCall(name, args) => {
            let cloned = clone_expressions_in(e, args);
            let r = Expression::FunctionCall(name.clone(), cloned);
            proof {
                assert(view_exprs(r->FunctionCall_1@) =~= view_exprs(args@));
            }
            r
        },
    }
}

/// Clones the elements of a vector that is a field of `owner`; the ghost
/// owner carries the termination measure.
fn clone_expressions_in(owner: &Expression, items: &Vec<Expression>) -> (r: Vec<Expression>)
    requires
        decreases_to!(*owner => *items),
    ensures
        r@.len() == items@.len(),
        forall|i: int| 0 <= i < items@.len() ==> r@[i]@ == items@[i]@,
    decreases *owner, 0int,
{
    let ghost ov = *owner;
    let mut out: Vec<Expression> = Vec::new();
    let mut i: usize = 0;
    while i < items.len()
        invariant
            ov == *owner,
            decreases_to!(ov => *items),
            i <= items@.len(),
            out@.len() == i as int,
            forall|j: int| 0 <= j < i ==> out@[j]@ == items@[j]@,
        decreases items@.len() - i,
    {
        proof {
            assert(decreases_to!(*items => items@));
            assert(decreases_to!(items@ => items@[i as int]));
            assert(decreases_to!(ov => items@[i as int]));
        }
        let item = clone_expression(&items[i]);
        out.push(item);
        i = i + 1;
    }
    out
}

/// Clones a polynomial reference that is a field of `owner`.
fn clone_poly_reference_at(owner: &Expression, r: &PolynomialReference) -> (res:
    PolynomialReference)
    requires
        decreases_to!(*owner => *r),
    ensures
        res@ == r@,
    decreases *owner, 0int,
{
    let namespace = match &r.namespace {
        Option::Some(s) => Option::Some(s.clone()),
        Option::None => Option::None,
    };
    let index = match &r.index {
        Option::Some(e) => {
            proof {
                assert(decreases_to!(*r => r.index));
                assert(decreases_to!(r.index => *e));
            }
            Option::Some(Box::new(clone_expression(e)))
        },
        Option::None => Option::None,
    };
    PolynomialReference { namespace, name: r.name.clone(), index, next: r.next }
}

// ---------------------------------------------------------------------------
// Substitution
// ---------------------------------------------------------------------------

/// The replacement of `name`, or `name` itself when the map holds none.
pub open spec fn subst_name(m: Seq<(Seq<char>, Seq<char>)>, name: Seq<char>) -> Seq<char> {
    match map_get(m, name) {
        Option::Some(to) => to,
        Option::None => name,
    }
}

/// Structural rewrite of the names of polynomial references; everything else,
/// array indices included, passes through unchanged.
pub open spec fn spec_substitute(e: ExpressionView, m: Seq<(Seq<char>, Seq<char>)>)
    -> ExpressionView
    decreases e,
{
    match e {
        ExpressionView::PolynomialReference(r) => ExpressionView::PolynomialReference(
            PolynomialReferenceView {
                namespace: r.namespace,
                name: subst_name(m, r.name),
                index: r.index,
                next: r.next,
            },
        ),
        ExpressionView::BinaryOperation(l, op, r) => ExpressionView::BinaryOperation(
            Box::new(spec_substitute(*l, m)),
            op,
            Box::new(spec_substitute(*r, m)),
        ),
        ExpressionView::UnaryOperation(op, inner) => ExpressionView::UnaryOperation(
            op,
            Box::new(spec_substitute(*inner, m)),
        ),
        ExpressionView::FunctionCall(name, args) => ExpressionView::FunctionCall(
            name,
            spec_substitute_all(args, m),
        ),
        ExpressionView::Tuple(items) => ExpressionView::Tuple(spec_substitute_all(items, m)),
        _ => e,
    }
}

pub open spec fn spec_substitute_all(s: Seq<ExpressionView>, m: Seq<(Seq<char>, Seq<char>)>)
    -> Seq<ExpressionView>
    decreases s,
{
    if s.len() == 0 {
        Seq::empty()
    } else {
        spec_substitute_all(s.drop_last(), m).push(spec_substitute(s.last(), m))
    }
}

pub proof fn lemma_spec_substitute_all(s: Seq<ExpressionView>, m: Seq<(Seq<char>, Seq<char>)>)
    ensures
        spec_substitute_all(s, m).len() == s.len(),
        forall|i: int| 0 <= i < s.len() ==> spec_substitute_all(s, m)[i] == spec_substitute(
            s[i],
            m,
        ),
    decreases s,
{
    if s.len() > 0 {
        lemma_spec_substitute_all(s.drop_last(), m);
    }
}

/// Renames polynomial references per the substitution map; the input is not
/// mutated.
pub fn substitute(input: &Expression, substitution: &NameMap<String>) -> (r: Expression)
    ensures
        r@ == spec_substitute(input@, substitution@),
    decreases *input, 1int,
{
    match input {
        Expression::PolynomialReference(r) => {
            let namespace = match &r.namespace {
                Option::Some(s) => Option::Some(s.clone()),
                Option::None => Option::None,
            };
            let index = match &r.index {
                Option::Some(e) => {
                    proof {
                        assert(decreases_to!(*input => *r));
                        assert(decreases_to!(*r => r.index));
                        assert(decreases_to!(r.index => **e));
                    }
                    Option::Some(Box::new(clone_expression(e)))
                },
                Option::None => Option::None,
            };
            let name = substitute_string(&r.name, substitution);
            let res = Expression::PolynomialReference(
                PolynomialReference { namespace, name, index, next: r.next },
            );
            proof {
                lemma_expression_view(*input);
                lemma_expression_view(res);
                lemma_poly_reference_view(*r);
                lemma_poly_reference_view(res->PolynomialReference_0);
                assert(res@ =~~= spec_substitute(input@, substitution@));
            }
            res
        },
        Expression::BinaryOperation(l, op, r) => {
            let res = Expression::BinaryOperation(
                Box::new(substitute(l, substitution)),
                *op,
                Box::new(substitute(r, substitution)),
            );
            proof {
                lemma_expression_view(*input);
                lemma_expression_view(res);
                assert(res@ =~~= spec_substitute(input@, substitution@));
            }
            res
        },
        Expression::UnaryOperation(op, inner) => {
            let res = Expression::UnaryOperation(
                *op,
                Box::new(substitute(inner, substitution)),
            );
            proof {
                lemma_expression_view(*input);
                lemma_expression_view(res);
                assert(res@ =~~= spec_substitute(input@, substitution@));
            }
            res
        },
        Expression::FunctionCall(name, args) => {
            let rewritten = substitute_all_in(input, args, substitution);
            let r = Expression::FunctionCall(name.clone(), rewritten);
            proof {
                lemma_expression_view(*input);
                lemma_expression_view(r);
                lemma_spec_substitute_all(view_exprs(args@), substitution@);
                assert(view_exprs(r->FunctionCall_1@) =~= spec_substitute_all(
                    view_exprs(args@),
                    substitution@,
                ));
                assert(r@ =~~= spec_substitute(input@, substitution@));
            }
            r
        },
        Expression::Tuple(items) => {
            let rewritten = substitute_all_in(input, items, substitution);
            let r = Expression::Tuple(rewritten);
            proof {
                lemma_expression_view(*input);
                lemma_expression_view(r);
                lemma_spec_substitute_all(view_exprs(items@), substitution@);
                assert(view_exprs(r->Tuple_0@) =~= spec_substitute_all(
                    view_exprs(items@),
                    substitution@,
                ));
                assert(r@ =~~= spec_substitute(input@, substitution@));
            }
            r
        },
        _ => {
            let res = clone_expression(input);
            proof {
                lemma_expression_view(*input);
            }
            res
        },
    }
}

fn substitute_all_in(owner: &Expression, items: &Vec<Expression>, substitution: &NameMap<String>)
    -> (r: Vec<Expression>)
    requires
        decreases_to!(*owner => *items),
    ensures
        r@.len() == items@.len(),
        forall|i: int| 0 <= i < items@.len() ==> r@[i]@ == spec_substitute(
            items@[i]@,
            substitution@,
        ),
    decreases *owner, 0int,
{
    let ghost ov = *owner;
    let mut out: Vec<Expression> = Vec::new();
    let mut i: usize = 0;
    while i < items.len()
        invariant
            ov == *owner,
            decreases_to!(ov => *items),
            i <= items@.len(),
            out@.len() == i as int,
            forall|j: int| 0 <= j < i ==> out@[j]@ == spec_substitute(items@[j]@, substitution@),
        decreases items@.len() - i,
    {
        proof {
            assert(decreases_to!(*items => items@));
            assert(decreases_to!(items@ => items@[i as int]));
            assert(decreases_to!(ov => items@[i as int]));
        }
        let item = substitute(&items[i], substitution);
        out.push(item);
        i = i + 1;
    }
    out
}

/// The replacement of one name, or the name itself.
pub fn substitute_string(input: &String, substitution: &NameMap<String>) -> (r: String)
    ensures
        r@ == subst_name(substitution@, input@),
{
    match substitution.get(input.as_str()) {
        Option::Some(to) => to.clone(),
        Option::None => input.clone(),
    }
}

/// Substitution under the empty map is the identity: `substitute(e, {}) == e`
/// structurally, for every expression.
pub proof fn lemma_substitute_empty(e: ExpressionView)
    ensures
        spec_substitute(e, Seq::empty()) == e,
    decreases e,
{
    match e {
        ExpressionView::PolynomialReference(r) => {
            assert(spec_substitute(e, Seq::empty()) =~= e);
        },
        ExpressionView::BinaryOperation(l, op, r) => {
            lemma_substitute_empty(*l);
            lemma_substitute_empty(*r);
        },
        ExpressionView::UnaryOperation(op, inner) => {
            lemma_substitute_empty(*inner);
        },
        ExpressionView::FunctionCall(name, args) => {
            lemma_substitute_all_empty(args);
        },
        ExpressionView::Tuple(items) => {
            lemma_substitute_all_empty(items);
        },
        _ => {},
    }
}

proof fn lemma_substitute_all_empty(s: Seq<ExpressionView>)
    ensures
        spec_substitute_all(s, Seq::empty()) == s,
    decreases s,
{
    if s.len() > 0 {
        lemma_substitute_all_empty(s.drop_last());
        lemma_substitute_empty(s.last());
        assert(spec_substitute_all(s, Seq::empty()) =~= s);
    } else {
        assert(spec_substitute_all(s, Seq::empty()) =~= s);
    }
}

// ---------------------------------------------------------------------------
// Update extraction
// ---------------------------------------------------------------------------

/// The convention of instruction bodies: an expression `R' - f(...)` declares
/// an update of `R`; anything else is a plain constraint.
pub open spec fn spec_extract_update(e: ExpressionView) -> (Option<Seq<char>>, ExpressionView) {
    if e matches ExpressionView::BinaryOperation(l, BinaryOperator::Sub, r) && *l
        matches ExpressionView::PolynomialReference(pr) && pr.next && pr.namespace is None
        && pr.index is None {
        (
            Option::Some(
                e->BinaryOperation_0->PolynomialReference_0.name,
            ),
            *e->BinaryOperation_2,
        )
    } else {
        (Option::None, e)
    }
}

/// Splits `R' - rhs` into the register name and `rhs`; returns any other
/// expression unchanged beside `None`.
pub fn extract_update(expr: Expression) -> (r: (Option<String>, Expression))
    ensures
        match r.0 {
            Option::Some(name) => spec_extract_update(expr@) == (
                Option::Some(name@),
                r.1@,
            ),
            Option::None => spec_extract_update(expr@) == (
                Option::<Seq<char>>::None,
                r.1@,
            ) && r.1@ == expr@,
        },
{
    let ghost ev = expr@;
    proof {
        lemma_expression_view(expr);
        match &expr {
            Expression::BinaryOperation(l, _, _) => {
                lemma_expression_view(**l);
                match &**l {
                    Expression::PolynomialReference(pr) => lemma_poly_reference_view(*pr),
                    _ => {},
                }
            },
            _ => {},
        }
    }
    match expr {
        Expression::BinaryOperation(left, BinaryOperator::Sub, right) => {
            match *left {
                Expression::PolynomialReference(pr) => {
                    if pr.next && pr.namespace.is_none() && pr.index.is_none() {
                        (Option::Some(pr.name), *right)
                    } else {
                        let rebuilt = Expression::BinaryOperation(
                            Box::new(Expression::PolynomialReference(pr)),
                            BinaryOperator::Sub,
                            right,
                        );
                        proof {
                            lemma_expression_view(rebuilt);
                            lemma_expression_view(*rebuilt->BinaryOperation_0);
                            lemma_poly_reference_view(
                                rebuilt->BinaryOperation_0->PolynomialReference_0,
                            );
                            assert(rebuilt@ =~~= ev);
                        }
                        (Option::None, rebuilt)
                    }
                },
                other => {
                    let rebuilt = Expression::BinaryOperation(
                        Box::new(other),
                        BinaryOperator::Sub,
                        right,
                    );
                    proof {
                        lemma_expression_view(rebuilt);
                        assert(rebuilt@ =~~= ev);
                    }
                    (Option::None, rebuilt)
                },
            }
        },
        other => (Option::None, other),
    }
}

// ---------------------------------------------------------------------------
// Structural equality
// ---------------------------------------------------------------------------

/// Structural equality of expressions: true exactly when the views are equal.
pub fn expr_eq(a: &Expression, b: &Expression) -> (r: bool)
    ensures
        r == (a@ == b@),
    decreases *a, 1int,
{
    proof {
        lemma_expression_view(*a);
        lemma_expression_view(*b);
    }
    match (a, b) {
        (Expression::Constant(x), Expression::Constant(y)) => *x == *y,
        (Expression::PublicReference(x), Expression::PublicReference(y)) => *x == *y,
        (Expression::Number(x), Expression::Number(y)) => *x == *y,
        (Expression::Text(x), Expression::Text(y)) => *x == *y,
        (Expression::Tuple(xs), Expression::Tuple(ys)) => {
            let r = exprs_eq_in(a, xs, ys);
            proof {
                if r {
                    assert(view_exprs(xs@) =~= view_exprs(ys@));
                } else {
                    assert(view_exprs(xs@) != view_exprs(ys@));
                }
            }
            r
        },
        (Expression::FreeInput(x), Expression::FreeInput(y)) => expr_eq(x, y),
        (Expression::PolynomialReference(x), Expression::PolynomialReference(y)) => {
            let r = poly_ref_eq_in(a, x, y);
            proof {
                if r {
                    assert(a@ =~~= b@);
                }
            }
            r
        },
        (Expression::BinaryOperation(l1, o1, r1), Expression::BinaryOperation(l2, o2, r2)) => {
            let ops = op_eq(*o1, *o2);
            ops && expr_eq(l1, l2) && expr_eq(r1, r2)
        },
        (Expression::UnaryOperation(o1, e1), Expression::UnaryOperation(o2, e2)) => {
            let ops = match (o1, o2) {
                (UnaryOperator::Plus, UnaryOperator::Plus) => true,
                (UnaryOperator::Minus, UnaryOperator::Minus) => true,
                _ => false,
            };
            ops && expr_eq(e1, e2)
        },
        (Expression::FunctionCall(n1, a1), Expression::FunctionCall(n2, a2)) => {
            let names = *n1 == *n2;
            let args = exprs_eq_in(a, a1, a2);
            proof {
                if args {
                    assert(view_exprs(a1@) =~= view_exprs(a2@));
                } else {
                    assert(view_exprs(a1@) != view_exprs(a2@));
                }
            }
            names && args
        },
        _ => false,
    }
}

/// Structural equality of two binary operators.
pub fn op_eq(a: BinaryOperator, b: BinaryOperator) -> (r: bool)
    ensures
        r == (a == b),
{
    match (a, b) {
        (BinaryOperator::Add, BinaryOperator::Add) => true,
        (BinaryOperator::Sub, BinaryOperator::Sub) => true,
        (BinaryOperator::Mul, BinaryOperator::Mul) => true,
        (BinaryOperator::Div, BinaryOperator::Div) => true,
        (BinaryOperator::Mod, BinaryOperator::Mod) => true,
        (BinaryOperator::Pow, BinaryOperator::Pow) => true,
        (BinaryOperator::BinaryAnd, BinaryOperator::BinaryAnd) => true,
        (BinaryOperator::BinaryOr, BinaryOperator::BinaryOr) => true,
        (BinaryOperator::ShiftLeft, BinaryOperator::ShiftLeft) => true,
        (BinaryOperator::ShiftRight, BinaryOperator::ShiftRight) => true,
        _ => false,
    }
}

fn exprs_eq_in(owner: &Expression, xs: &Vec<Expression>, ys: &Vec<Expression>) -> (r: bool)
    requires
        decreases_to!(*owner => *xs),
    ensures
        r == (view_exprs(xs@) == view_exprs(ys@)),
    decreases *owner, 0int,
{
    let ghost ov = *owner;
    proof {
        crate::ast::lemma_view_exprs(xs@);
        crate::ast::lemma_view_exprs(ys@);
    }
    if xs.len() != ys.len() {
        return false;
    }
    let mut i: usize = 0;
    while i < xs.len()
        invariant
            ov == *owner,
            decreases_to!(ov => *xs),
            xs@.len() == ys@.len(),
            i <= xs@.len(),
            forall|j: int| 0 <= j < i ==> xs@[j]@ == ys@[j]@,
        decreases xs@.len() - i,
    {
        proof {
            assert(decreases_to!(*xs => xs@));
            assert(decreases_to!(xs@ => xs@[i as int]));
            assert(decreases_to!(ov => xs@[i as int]));
        }
        if !expr_eq(&xs[i], &ys[i]) {
            proof {
                crate::ast::lemma_view_exprs(xs@);
                crate::ast::lemma_view_exprs(ys@);
                assert(view_exprs(xs@)[i as int] != view_exprs(ys@)[i as int]);
            }
            return false;
        }
        i = i + 1;
    }
    proof {
        crate::ast::lemma_view_exprs(xs@);
        crate::ast::lemma_view_exprs(ys@);
        assert(view_exprs(xs@) =~= view_exprs(ys@));
    }
    true
}

fn poly_ref_eq_in(owner: &Expression, x: &PolynomialReference, y: &PolynomialReference) -> (r:
    bool)
    requires
        decreases_to!(*owner => *x),
    ensures
        r == (x@ == y@),
    decreases *owner, 0int,
{
    proof {
        lemma_poly_reference_view(*x);
        lemma_poly_reference_view(*y);
    }
    let ns = match (&x.namespace, &y.namespace) {
        (Option::None, Option::None) => true,
        (Option::Some(n1), Option::Some(n2)) => *n1 == *n2,
        _ => false,
    };
    if !ns {
        return false;
    }
    if !(x.name == y.name) {
        return false;
    }
    if x.next != y.next {
        return false;
    }
    match (&x.index, &y.index) {
        (Option::None, Option::None) => {
            proof {
                assert(x@ =~~= y@);
            }
            true
        },
        (Option::Some(e1), Option::Some(e2)) => {
            proof {
                assert(decreases_to!(*x => x.index));
                assert(decreases_to!(x.index => **e1));
            }
            let r = expr_eq(e1, e2);
            proof {
                if r {
                    assert(x@ =~~= y@);
                }
            }
            r
        },
        _ => false,
    }
}


/// Structural equality of two expression lists.
pub fn exprs_eq(xs: &Vec<Expression>, ys: &Vec<Expression>) -> (r: bool)
    ensures
        r == (view_exprs(xs@) == view_exprs(ys@)),
{
    proof {
        crate::ast::lemma_view_exprs(xs@);
        crate::ast::lemma_view_exprs(ys@);
    }
    if xs.len() != ys.len() {
        return false;
    }
    let mut i: usize = 0;
    while i < xs.len()
        invariant
            xs@.len() == ys@.len(),
            i <= xs@.len(),
            forall|j: int| 0 <= j < i ==> xs@[j]@ == ys@[j]@,
        decreases xs@.len() - i,
    {
        if !expr_eq(&xs[i], &ys[i]) {
            proof {
                crate::ast::lemma_view_exprs(xs@);
                crate::ast::lemma_view_exprs(ys@);
                assert(view_exprs(xs@)[i as int] != view_exprs(ys@)[i as int]);
            }
            return false;
        }
        i = i + 1;
    }
    proof {
        crate::ast::lemma_view_exprs(xs@);
        crate::ast::lemma_view_exprs(ys@);
        assert(view_exprs(xs@) =~= view_exprs(ys@));
    }
    true
}

/// Structural equality of two name lists.
pub fn strings_eq(xs: &Vec<String>, ys: &Vec<String>) -> (r: bool)
    ensures
        r == (view_strings(xs@) == view_strings(ys@)),
{
    if xs.len() != ys.len() {
        proof {
            assert(view_strings(xs@).len() != view_strings(ys@).len());
        }
        return false;
    }
    let mut i: usize = 0;
    while i < xs.len()
        invariant
            xs@.len() == ys@.len(),
            i <= xs@.len(),
            forall|j: int| 0 <= j < i ==> xs@[j]@ == ys@[j]@,
        decreases xs@.len() - i,
    {
        if !(xs[i] == ys[i]) {
            proof {
                assert(view_strings(xs@)[i as int] != view_strings(ys@)[i as int]);
            }
            return false;
        }
        i = i + 1;
    }
    proof {
        assert(view_strings(xs@) =~= view_strings(ys@));
    }
    true
}

/// Structural equality of two constant-definition bodies.
pub fn function_definition_eq(a: &FunctionDefinition, b: &FunctionDefinition) -> (r: bool)
    ensures
        r == (a@ == b@),
{
    match (a, b) {
        (FunctionDefinition::Mapping(p1, b1), FunctionDefinition::Mapping(p2, b2)) => {
            let ps = strings_eq(p1, p2);
            let bs = expr_eq(b1, b2);
            ps && bs
        },
        (FunctionDefinition::Array(v1), FunctionDefinition::Array(v2)) => exprs_eq(v1, v2),
        _ => false,
    }
}

fn selected_expressions_eq(a: &SelectedExpressions, b: &SelectedExpressions) -> (r: bool)
    ensures
        r == (a@ == b@),
{
    let sel = match (&a.selector, &b.selector) {
        (Option::None, Option::None) => true,
        (Option::Some(e1), Option::Some(e2)) => expr_eq(e1, e2),
        _ => false,
    };
    let exprs = exprs_eq(&a.expressions, &b.expressions);
    let r = sel && exprs;
    proof {
        if r {
            assert(a@ =~~= b@);
        }
    }
    r
}

fn poly_names_eq(a: &Vec<PolynomialName>, b: &Vec<PolynomialName>) -> (r: bool)
    ensures
        r == (view_poly_names(a@) == view_poly_names(b@)),
{
    if a.len() != b.len() {
        proof {
            assert(view_poly_names(a@).len() != view_poly_names(b@).len());
        }
        return false;
    }
    let mut i: usize = 0;
    while i < a.len()
        invariant
            a@.len() == b@.len(),
            i <= a@.len(),
            forall|j: int| 0 <= j < i ==> a@[j]@ == b@[j]@,
        decreases a@.len() - i,
    {
        let x = &a[i];
        let y = &b[i];
        let names = x.name == y.name;
        let sizes = match (&x.array_size, &y.array_size) {
            (Option::None, Option::None) => true,
            (Option::Some(e1), Option::Some(e2)) => expr_eq(e1, e2),
            _ => false,
        };
        if !(names && sizes) {
            proof {
                assert(view_poly_names(a@)[i as int] != view_poly_names(b@)[i as int]);
            }
            return false;
        }
        proof {
            assert(a@[i as int]@ =~~= b@[i as int]@);
        }
        i = i + 1;
    }
    proof {
        assert(view_poly_names(a@) =~= view_poly_names(b@));
    }
    true
}

/// Structural equality of two PIL statements.
pub fn statement_eq(a: &Statement, b: &Statement) -> (r: bool)
    ensures
        r == (a@ == b@),
{
    match (a, b) {
        (
            Statement::PolynomialCommitDeclaration(s1, n1, d1),
            Statement::PolynomialCommitDeclaration(s2, n2, d2),
        ) => {
            let starts = *s1 == *s2;
            let names = poly_names_eq(n1, n2);
            let defs = match (d1, d2) {
                (Option::None, Option::None) => true,
                (Option::Some(x), Option::Some(y)) => function_definition_eq(x, y),
                _ => false,
            };
            let r = starts && names && defs;
            proof {
                if r {
                    assert(a@ =~~= b@);
                }
            }
            r
        },
        (
            Statement::PolynomialConstantDefinition(s1, n1, d1),
            Statement::PolynomialConstantDefinition(s2, n2, d2),
        ) => {
            let starts = *s1 == *s2;
            let names = *n1 == *n2;
            let defs = function_definition_eq(d1, d2);
            starts && names && defs
        },
        (
            Statement::PolynomialDefinition(s1, n1, e1),
            Statement::PolynomialDefinition(s2, n2, e2),
        ) => {
            let starts = *s1 == *s2;
            let names = *n1 == *n2;
            let es = expr_eq(e1, e2);
            starts && names && es
        },
        (Statement::PolynomialIdentity(s1, e1), Statement::PolynomialIdentity(s2, e2)) => {
            let starts = *s1 == *s2;
            let es = expr_eq(e1, e2);
            starts && es
        },
        (
            Statement::PlookupIdentity(s1, l1, r1),
            Statement::PlookupIdentity(s2, l2, r2),
        ) => {
            let starts = *s1 == *s2;
            let lefts = selected_expressions_eq(l1, l2);
            let rights = selected_expressions_eq(r1, r2);
            starts && lefts && rights
        },
        _ => false,
    }
}

/// Structural equality of two PIL statement lists.
pub fn statements_eq(a: &Vec<Statement>, b: &Vec<Statement>) -> (r: bool)
    ensures
        r == (crate::ast::view_statements(a@) == crate::ast::view_statements(b@)),
{
    if a.len() != b.len() {
        proof {
            assert(crate::ast::view_statements(a@).len() != crate::ast::view_statements(
                b@,
            ).len());
        }
        return false;
    }
    let mut i: usize = 0;
    while i < a.len()
        invariant
            a@.len() == b@.len(),
            i <= a@.len(),
            forall|j: int| 0 <= j < i ==> a@[j]@ == b@[j]@,
        decreases a@.len() - i,
    {
        if !statement_eq(&a[i], &b[i]) {
            proof {
                assert(crate::ast::view_statements(a@)[i as int] != crate::ast::view_statements(
                    b@,
                )[i as int]);
            }
            return false;
        }
        i = i + 1;
    }
    proof {
        assert(crate::ast::view_statements(a@) =~= crate::ast::view_statements(b@));
    }
    true
}

} // verus!
