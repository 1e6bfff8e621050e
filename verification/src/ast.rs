//! Syntax tree of the tank language.
//!
//! Statement bodies live in an arena: `Program::blocks` holds every brace
//! block (and the top-level statement list, stored last), and `Si` /
//! `Mientras` statements refer to their bodies by arena index.  A cursor
//! into a block is then a pair of indices, cheap to copy and to rewind,
//! which is what the engine's loop replay relies on.

use vstd::prelude::*;

verus! {

/// Arithmetic expression over signed machine integers.
#[derive(Debug)]
pub enum Expr {
    Int(isize),
    Var(String),
    Add(Box<Expr>, Box<Expr>),
    Sub(Box<Expr>, Box<Expr>),
    Mul(Box<Expr>, Box<Expr>),
    Div(Box<Expr>, Box<Expr>),
}

/// Comparison operator of a logical term.
#[derive(Clone, Copy, Debug, PartialEq, Eq, Structural)]
pub enum CmpOp {
    Men,
    MenIg,
    May,
    MayIg,
    Ig,
    NoIg,
}

/// Logical expression: comparisons joined by `&&` and `||`, both operands
/// always evaluated.
#[derive(Debug)]
pub enum LogicExpr {
    Comp(Box<Expr>, CmpOp, Box<Expr>),
    And(Box<LogicExpr>, Box<LogicExpr>),
    Or(Box<LogicExpr>, Box<LogicExpr>),
}

/// Sense of a `gira` statement.
#[derive(Clone, Copy, Debug, PartialEq, Eq, Structural)]
pub enum Giro {
    Izquierda,
    Derecha,
}

#[derive(Debug)]
pub enum StmtKind {
    /// `var <name> = <expr>;`
    Decl(String, Expr),
    /// `<name> = <expr>;`
    Asig(String, Expr),
    /// `si (<logic>) { <then> }` with an optional `otro { <else> }`;
    /// the payloads are arena indices of the bodies.
    Si(LogicExpr, usize, Option<usize>),
    /// `mientras (<logic>) { <body> }`; the payload is the body's arena
    /// index.
    Mientras(LogicExpr, usize),
    /// `gira izquierda;` / `gira derecha;`
    Gira(Giro),
    /// `avanza;`
    Avanza,
    /// `dispara;`
    Dispara,
}

/// One statement, together with the 1-based source line its text ends on
/// (the line stamped into the agent state when the statement completes).
#[derive(Debug)]
pub struct Stmt {
    pub line: usize,
    pub kind: StmtKind,
}

/// A parsed program.  `blocks` is the statement-list arena; the top-level
/// list is the last entry, and every body a statement refers to stands at a
/// strictly smaller index.
#[derive(Debug)]
pub struct Program {
    pub blocks: Vec<Vec<Stmt>>,
}

/// Well-formedness of one statement sitting in block `b`: body references
/// point strictly below `b` and never at an empty block, so that replaying
/// a body always has a statement to run.
pub open spec fn stmt_wf(s: Stmt, blocks: Seq<Vec<Stmt>>, b: int) -> bool {
    match s.kind {
        StmtKind::Si(_, t, e) => {
            &&& (t as int) < b
            &&& blocks[t as int]@.len() >= 1
            &&& match e {
                Some(eb) => (eb as int) < b && blocks[eb as int]@.len() >= 1,
                None => true,
            }
        },
        StmtKind::Mientras(_, t) => (t as int) < b && blocks[t as int]@.len() >= 1,
        _ => true,
    }
}

/// Well-formedness of a block arena: every statement is well formed with
/// respect to the block it sits in.
pub open spec fn blocks_wf(bs: Seq<Vec<Stmt>>) -> bool {
    forall|b: int, i: int|
        0 <= b < bs.len() && 0 <= i < bs[b]@.len() ==> stmt_wf(#[trigger] bs[b]@[i], bs, b)
}

/// Well-formedness of a whole program.
pub open spec fn program_wf(p: Program) -> bool {
    &&& p.blocks@.len() >= 1
    &&& blocks_wf(p.blocks@)
}

/// Arena index of the top-level statement list.
pub open spec fn top_block(p: Program) -> int {
    p.blocks@.len() - 1
}

/// Abstract value of an [`Expr`]: variable names as character sequences.
pub enum ExprView {
    Int(isize),
    Var(Seq<char>),
    Add(Box<ExprView>, Box<ExprView>),
    Sub(Box<ExprView>, Box<ExprView>),
    Mul(Box<ExprView>, Box<ExprView>),
    Div(Box<ExprView>, Box<ExprView>),
}

/// Abstract value of a [`LogicExpr`].
pub enum LogicExprView {
    Comp(Box<ExprView>, CmpOp, Box<ExprView>),
    And(Box<LogicExprView>, Box<LogicExprView>),
    Or(Box<LogicExprView>, Box<LogicExprView>),
}

/// Abstract value of a [`StmtKind`].
pub enum StmtKindView {
    Decl(Seq<char>, ExprView),
    Asig(Seq<char>, ExprView),
    Si(LogicExprView, usize, Option<usize>),
    Mientras(LogicExprView, usize),
    Gira(Giro),
    Avanza,
    Dispara,
}

/// Abstract value of a [`Stmt`].
pub struct StmtView {
    pub line: usize,
    pub kind: StmtKindView,
}

/// Abstract value of a [`Program`].
pub struct ProgramView {
    pub blocks: Seq<Seq<StmtView>>,
}

pub open spec fn expr_view(e: Expr) -> ExprView
    decreases e,
{
    match e {
        Expr::Int(v) => ExprView::Int(v),
        Expr::Var(w) => ExprView::Var(w@),
        Expr::Add(a, b) => ExprView::Add(Box::new(expr_view(*a)), Box::new(expr_view(*b))),
        Expr::Sub(a, b) => ExprView::Sub(Box::new(expr_view(*a)), Box::new(expr_view(*b))),
        Expr::Mul(a, b) => ExprView::Mul(Box::new(expr_view(*a)), Box::new(expr_view(*b))),
        Expr::Div(a, b) => ExprView::Div(Box::new(expr_view(*a)), Box::new(expr_view(*b))),
    }
}

pub open spec fn logic_view(e: LogicExpr) -> LogicExprView
    decreases e,
{
    match e {
        LogicExpr::Comp(a, op, b) => LogicExprView::Comp(
            Box::new(expr_view(*a)),
            op,
            Box::new(expr_view(*b)),
        ),
        LogicExpr::And(a, b) => LogicExprView::And(
            Box::new(logic_view(*a)),
            Box::new(logic_view(*b)),
        ),
        LogicExpr::Or(a, b) => LogicExprView::Or(
            Box::new(logic_view(*a)),
            Box::new(logic_view(*b)),
        ),
    }
}

pub open spec fn stmt_view(s: Stmt) -> StmtView {
    StmtView {
        line: s.line,
        kind: match s.kind {
            StmtKind::Decl(w, e) => StmtKindView::Decl(w@, expr_view(e)),
            StmtKind::Asig(w, e) => StmtKindView::Asig(w@, expr_view(e)),
            StmtKind::Si(g, t, el) => StmtKindView::Si(logic_view(g), t, el),
            StmtKind::Mientras(g, t) => StmtKindView::Mientras(logic_view(g), t),
            StmtKind::Gira(d) => StmtKindView::Gira(d),
            StmtKind::Avanza => StmtKindView::Avanza,
            StmtKind::Dispara => StmtKindView::Dispara,
        },
    }
}

pub open spec fn block_view(b: Seq<Stmt>) -> Seq<StmtView> {
    b.map_values(|s: Stmt| stmt_view(s))
}

pub open spec fn blocks_view(bs: Seq<Vec<Stmt>>) -> Seq<Seq<StmtView>> {
    bs.map_values(|b: Vec<Stmt>| block_view(b@))
}

pub open spec fn program_view(p: Program) -> ProgramView {
    ProgramView { blocks: blocks_view(p.blocks@) }
}

} // verus!
