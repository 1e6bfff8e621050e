//! Expression evaluation: arithmetic and logical expression trees reduced
//! against a variable scope.
//!
//! Both evaluators are pure with respect to the scope.  The only errors are
//! an unbound variable, a zero divisor, and a result outside the signed
//! machine-integer range; operands are evaluated left to right and the
//! leftmost error wins, with no short-circuiting of `&&` / `||`.

use crate::ast::{expr_view, logic_view, CmpOp, Expr, LogicExpr};
use crate::error::{ErrorInterprete, ErrorInterpreteView};
use crate::scope::{scope_find, Scope, ScopeView};
use vstd::prelude::*;

verus! {

pub open spec fn cmp_spec(op: CmpOp, a: isize, b: isize) -> bool {
    match op {
        CmpOp::Men => a < b,
        CmpOp::MenIg => a <= b,
        CmpOp::May => a > b,
        CmpOp::MayIg => a >= b,
        CmpOp::Ig => a == b,
        CmpOp::NoIg => a != b,
    }
}

/// Value of an arithmetic expression under scope `sc`.  Addition,
/// subtraction and multiplication are exact when the mathematical result
/// fits in `isize` and fail with `Desborde` otherwise; division truncates
/// toward zero, failing with `DivCero` on a zero divisor.
pub open spec fn eval_arith_spec(e: Expr, sc: ScopeView) -> Result<isize, ErrorInterpreteView>
    decreases e,
{
    match e {
        Expr::Int(v) => Ok(v),
        Expr::Var(name) => match scope_find(sc, name@) {
            Some(v) => Ok(v),
            None => Err(ErrorInterpreteView::VarNoDecl(name@)),
        },
        Expr::Add(a, b) => match (eval_arith_spec(*a, sc), eval_arith_spec(*b, sc)) {
            (Err(er), _) => Err(er),
            (Ok(_), Err(er)) => Err(er),
            (Ok(x), Ok(y)) => match x.checked_add(y) {
                Some(z) => Ok(z),
                None => Err(ErrorInterpreteView::Desborde),
            },
        },
        Expr::Sub(a, b) => match (eval_arith_spec(*a, sc), eval_arith_spec(*b, sc)) {
            (Err(er), _) => Err(er),
            (Ok(_), Err(er)) => Err(er),
            (Ok(x), Ok(y)) => match x.checked_sub(y) {
                Some(z) => Ok(z),
                None => Err(ErrorInterpreteView::Desborde),
            },
        },
        Expr::Mul(a, b) => match (eval_arith_spec(*a, sc), eval_arith_spec(*b, sc)) {
            (Err(er), _) => Err(er),
            (Ok(_), Err(er)) => Err(er),
            (Ok(x), Ok(y)) => match x.checked_mul(y) {
                Some(z) => Ok(z),
                None => Err(ErrorInterpreteView::Desborde),
            },
        },
        Expr::Div(a, b) => match (eval_arith_spec(*a, sc), eval_arith_spec(*b, sc)) {
            (Err(er), _) => Err(er),
            (Ok(_), Err(er)) => Err(er),
            (Ok(x), Ok(y)) => if y == 0 {
                Err(ErrorInterpreteView::DivCero)
            } else {
                match x.checked_div(y) {
                    Some(z) => Ok(z),
                    None => Err(ErrorInterpreteView::Desborde),
                }
            },
        },
    }
}

/// Value of a logical expression under scope `sc`: comparisons of
/// arithmetic values joined by eager `&&` / `||`.
pub open spec fn eval_logic_spec(e: LogicExpr, sc: ScopeView) -> Result<bool, ErrorInterpreteView>
    decreases e,
{
    match e {
        LogicExpr::Comp(a, op, b) => match (eval_arith_spec(*a, sc), eval_arith_spec(*b, sc)) {
            (Err(er), _) => Err(er),
            (Ok(_), Err(er)) => Err(er),
            (Ok(x), Ok(y)) => Ok(cmp_spec(op, x, y)),
        },
        LogicExpr::And(a, b) => match (eval_logic_spec(*a, sc), eval_logic_spec(*b, sc)) {
            (Err(er), _) => Err(er),
            (Ok(_), Err(er)) => Err(er),
            (Ok(x), Ok(y)) => Ok(x && y),
        },
        LogicExpr::Or(a, b) => match (eval_logic_spec(*a, sc), eval_logic_spec(*b, sc)) {
            (Err(er), _) => Err(er),
            (Ok(_), Err(er)) => Err(er),
            (Ok(x), Ok(y)) => Ok(x || y),
        },
    }
}

/// Two expression trees with the same abstract value evaluate alike:
/// evaluation depends only on the view.
pub proof fn lemma_eval_respects_view(e1: Expr, e2: Expr, sc: ScopeView)
    requires
        expr_view(e1) == expr_view(e2),
    ensures
        eval_arith_spec(e1, sc) == eval_arith_spec(e2, sc),
    decreases e1,
{
    match e1 {
        Expr::Add(a1, b1) => {
            if let Expr::Add(a2, b2) = e2 {
                lemma_eval_respects_view(*a1, *a2, sc);
                lemma_eval_respects_view(*b1, *b2, sc);
            }
        },
        Expr::Sub(a1, b1) => {
            if let Expr::Sub(a2, b2) = e2 {
                lemma_eval_respects_view(*a1, *a2, sc);
                lemma_eval_respects_view(*b1, *b2, sc);
            }
        },
        Expr::Mul(a1, b1) => {
            if let Expr::Mul(a2, b2) = e2 {
                lemma_eval_respects_view(*a1, *a2, sc);
                lemma_eval_respects_view(*b1, *b2, sc);
            }
        },
        Expr::Div(a1, b1) => {
            if let Expr::Div(a2, b2) = e2 {
                lemma_eval_respects_view(*a1, *a2, sc);
                lemma_eval_respects_view(*b1, *b2, sc);
            }
        },
        _ => {},
    }
}

/// Likewise for logical expression trees.
pub proof fn lemma_eval_logic_respects_view(e1: LogicExpr, e2: LogicExpr, sc: ScopeView)
    requires
        logic_view(e1) == logic_view(e2),
    ensures
        eval_logic_spec(e1, sc) == eval_logic_spec(e2, sc),
    decreases e1,
{
    match e1 {
        LogicExpr::Comp(a1, _, b1) => {
            if let LogicExpr::Comp(a2, _, b2) = e2 {
                lemma_eval_respects_view(*a1, *a2, sc);
                lemma_eval_respects_view(*b1, *b2, sc);
            }
        },
        LogicExpr::And(a1, b1) => {
            if let LogicExpr::And(a2, b2) = e2 {
                lemma_eval_logic_respects_view(*a1, *a2, sc);
                lemma_eval_logic_respects_view(*b1, *b2, sc);
            }
        },
        LogicExpr::Or(a1, b1) => {
            if let LogicExpr::Or(a2, b2) = e2 {
                lemma_eval_logic_respects_view(*a1, *a2, sc);
                lemma_eval_logic_respects_view(*b1, *b2, sc);
            }
        },
    }
}

pub open spec fn arith_result_view(r: Result<isize, ErrorInterprete>) -> Result<
    isize,
    ErrorInterpreteView,
> {
    match r {
        Ok(v) => Ok(v),
        Err(e) => Err(e@),
    }
}

pub open spec fn logic_result_view(r: Result<bool, ErrorInterprete>) -> Result<
    bool,
    ErrorInterpreteView,
> {
    match r {
        Ok(v) => Ok(v),
        Err(e) => Err(e@),
    }
}

/// Evaluate an arithmetic expression against `scope`.
pub fn eval(expr: &Expr, scope: &Scope) -> (r: Result<isize, ErrorInterprete>)
    ensures
        arith_result_view(r) == eval_arith_spec(*expr, scope@),
    decreases *expr,
{
    match expr {
        Expr::Int(v) => Ok(*v),
        Expr::Var(name) => match scope.get_var_value(name.as_str()) {
            Some(v) => Ok(v),
            None => Err(ErrorInterprete::VarNoDecl(name.clone())),
        },
        Expr::Add(a, b) => {
            let x = match eval(a, scope) {
                Ok(v) => v,
                Err(er) => {
                    return Err(er);
                },
            };
            let y = match eval(b, scope) {
                Ok(v) => v,
                Err(er) => {
                    return Err(er);
                },
            };
            match x.checked_add(y) {
                Some(z) => Ok(z),
                None => Err(ErrorInterprete::Desborde),
            }
        },
        Expr::Sub(a, b) => {
            let x = match eval(a, scope) {
                Ok(v) => v,
                Err(er) => {
                    return Err(er);
                },
            };
            let y = match eval(b, scope) {
                Ok(v) => v,
                Err(er) => {
                    return Err(er);
                },
            };
            match x.checked_sub(y) {
                Some(z) => Ok(z),
                None => Err(ErrorInterprete::Desborde),
            }
        },
        Expr::Mul(a, b) => {
            let x = match eval(a, scope) {
                Ok(v) => v,
                Err(er) => {
                    return Err(er);
                },
            };
            let y = match eval(b, scope) {
                Ok(v) => v,
                Err(er) => {
                    return Err(er);
                },
            };
            match x.checked_mul(y) {
                Some(z) => Ok(z),
                None => Err(ErrorInterprete::Desborde),
            }
        },
        Expr::Div(a, b) => {
            let x = match eval(a, scope) {
                Ok(v) => v,
                Err(er) => {
                    return Err(er);
                },
            };
            let y = match eval(b, scope) {
                Ok(v) => v,
                Err(er) => {
                    return Err(er);
                },
            };
            if y == 0 {
                Err(ErrorInterprete::DivCero)
            } else {
                match x.checked_div(y) {
                    Some(z) => Ok(z),
                    None => Err(ErrorInterprete::Desborde),
                }
            }
        },
    }
}

/// Evaluate a logical expression against `scope`.
pub fn eval_logic(expr: &LogicExpr, scope: &Scope) -> (r: Result<bool, ErrorInterprete>)
    ensures
        logic_result_view(r) == eval_logic_spec(*expr, scope@),
    decreases *expr,
{
    match expr {
        LogicExpr::Comp(a, op, b) => {
            let x = match eval(a, scope) {
                Ok(v) => v,
                Err(er) => {
                    return Err(er);
                },
            };
            let y = match eval(b, scope) {
                Ok(v) => v,
                Err(er) => {
                    return Err(er);
                },
            };
            let c = match op {
                CmpOp::Men => x < y,
                CmpOp::MenIg => x <= y,
                CmpOp::May => x > y,
                CmpOp::MayIg => x >= y,
                CmpOp::Ig => x == y,
                CmpOp::NoIg => x != y,
            };
            Ok(c)
        },
        LogicExpr::And(a, b) => {
            let x = match eval_logic(a, scope) {
                Ok(v) => v,
                Err(er) => {
                    return Err(er);
                },
            };
            let y = match eval_logic(b, scope) {
                Ok(v) => v,
                Err(er) => {
                    return Err(er);
                },
            };
            Ok(x && y)
        },
        LogicExpr::Or(a, b) => {
            let x = match eval_logic(a, scope) {
                Ok(v) => v,
                Err(er) => {
                    return Err(er);
                },
            };
            let y = match eval_logic(b, scope) {
                Ok(v) => v,
                Err(er) => {
                    return Err(er);
                },
            };
            Ok(x || y)
        },
    }
}

} // verus!
