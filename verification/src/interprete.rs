//! The stepwise control-flow engine.
//!
//! An [`Interpreter`] owns the parsed program, a control stack of cursors
//! into it, and a [`Scope`].  One call to [`Interpreter::step_inst`] runs
//! forward until exactly one primitive action (declaration, assignment,
//! turn, move or fire) has completed — descending transparently through
//! blocks, conditionals and loop bookkeeping — or until the program has
//! nothing left to do, and returns the resulting agent snapshot.
//!
//! The meaning of one such call is pinned down by a reference small-step
//! relation: [`micro`] performs a single control-stack transition, and
//! `step_inst` is proved to return exactly the outcome of iterating
//! [`micro`] from the starting state until it yields a result.
//!
//! A loop's body cursor cannot be rewound in place, so on entry the engine
//! pushes two entries over the body: a backup cursor frozen at the body's
//! start and a working cursor that the iteration consumes.  When the
//! working cursor is exhausted and the guard still holds, a fresh working
//! cursor at the body's start is pushed again; when the guard fails, the
//! backup is discarded.  By design, the scope frame pushed on loop entry
//! is *not* popped when the loop retires: loop-local declarations
//! deliberately remain visible after the loop ends (the conditional
//! retirement path, by contrast, pops its frame).

use crate::ast::{block_view, blocks_view, program_view, program_wf, stmt_view, stmt_wf,
    top_block, Giro, LogicExpr, Program, ProgramView, StmtKind};
use crate::error::{ErrorInterprete, ErrorInterpreteView};
use crate::eval::{eval, eval_arith_spec, eval_logic, eval_logic_spec, lemma_eval_logic_respects_view,
    lemma_eval_respects_view};
use crate::parser::{parse_program, parse_program_spec, SyntaxError};
use crate::scope::{frame_find, lemma_assign_find, lemma_assign_preserves_base,
    lemma_base_bound_found, lemma_declare_preserves_base, lemma_scope_assign_len, scope_assign,
    scope_declare, scope_find, scope_init, scope_pop_frame, scope_push_frame, Scope, ScopeView};
use crate::tank_status::{lemma_move_in_bounds, move_spec, radar_spec, status_wf, turn_left,
    turn_right, Position, TankDirection, TankStatus, TankStatusView, GRID_DIMMENSIONS};
use vstd::prelude::*;

verus! {

/// What a control-stack entry is doing there.
#[derive(Debug, Eq, PartialEq, Clone, Copy, Structural)]
pub enum ExecutionContext {
    /// The outermost, never-retired program context.
    Block,
    /// A conditional body, retired (its scope frame popped) when its
    /// statements run out.
    IfBlock,
    /// A loop body; the payload locates the `mientras` statement itself in
    /// the arena, so the guard can be re-evaluated on retirement.
    While(usize, usize),
}

/// A cursor into one arena block, tagged with its execution context.
#[derive(Debug, Eq, PartialEq, Clone, Copy, Structural)]
pub struct StackEntry {
    pub blk: usize,
    pub pos: usize,
    pub ctx: ExecutionContext,
}

/// Abstract engine state: the control stack and the scope contents.
#[verifier::ext_equal]
pub struct InterpState {
    pub stack: Seq<StackEntry>,
    pub scope: ScopeView,
}

/// Outcome of one micro transition: either the engine keeps descending, or
/// one call's work is complete with a result.
pub enum MicroResult {
    Cont(InterpState),
    Done(InterpState, Result<TankStatusView, ErrorInterpreteView>),
}

/// A stack entry points into the program, and a loop entry's cursor runs
/// over that loop's own body.
pub open spec fn entry_wf(e: StackEntry, p: Program) -> bool {
    &&& (e.blk as int) < p.blocks@.len()
    &&& e.pos <= p.blocks@[e.blk as int]@.len()
    &&& match e.ctx {
        ExecutionContext::While(wb, wi) => {
            &&& (wb as int) < p.blocks@.len()
            &&& (wi as int) < p.blocks@[wb as int]@.len()
            &&& match p.blocks@[wb as int]@[wi as int].kind {
                StmtKind::Mientras(_, t) => t == e.blk,
                _ => false,
            }
        },
        _ => true,
    }
}

/// Number of conditional-body entries on the stack; each owns one scope
/// frame above the base frame.
pub open spec fn count_ifblocks(s: Seq<StackEntry>) -> nat
    decreases s.len(),
{
    if s.len() == 0 {
        0
    } else {
        count_ifblocks(s.drop_last()) + (if s.last().ctx is IfBlock {
            1nat
        } else {
            0nat
        })
    }
}

/// The base scope frame binds the predefined `radar` variable, so reading
/// it never fails; the engine seeds it at construction and no path ever
/// pops the base frame.
pub open spec fn radar_bound(s: ScopeView) -> bool {
    s.len() >= 1 && frame_find(s[0], "radar"@) is Some
}

/// Well-formedness of an engine state against its program.
pub open spec fn state_wf(p: Program, s: InterpState) -> bool {
    &&& program_wf(p)
    &&& s.stack.len() >= 1
    &&& s.stack[0].ctx is Block
    &&& forall|i: int| 0 <= i < s.stack.len() ==> entry_wf(#[trigger] s.stack[i], p)
    &&& s.scope.len() >= 1 + count_ifblocks(s.stack)
    &&& radar_bound(s.scope)
}

/// The top cursor still has a statement to yield.
pub open spec fn top_live(p: Program, s: InterpState) -> bool {
    &&& s.stack.len() >= 1
    &&& (s.stack.last().pos as int) < p.blocks@[s.stack.last().blk as int]@.len()
}

/// The guard expression of the `mientras` statement at `(wb, wi)`.
pub open spec fn while_guard(p: Program, wb: usize, wi: usize) -> LogicExpr {
    p.blocks@[wb as int]@[wi as int].kind->Mientras_0
}

/// `st` with the last-executed-line stamp set to `line`.
pub open spec fn with_line(st: TankStatusView, line: usize) -> TankStatusView {
    TankStatusView { current_interpreter_line: line, ..st }
}

/// One micro transition of the engine: pop the top entry; if its cursor
/// yields a statement, push the advanced cursor back and dispatch on the
/// statement; if it is exhausted, retire it according to its context.
pub open spec fn micro(p: Program, s: InterpState, st: TankStatusView) -> MicroResult {
    let e = s.stack.last();
    let rest = s.stack.drop_last();
    if (e.pos as int) < p.blocks@[e.blk as int]@.len() {
        let adv = InterpState {
            stack: rest.push(StackEntry { blk: e.blk, pos: (e.pos + 1) as usize, ctx: e.ctx }),
            scope: s.scope,
        };
        micro_stmt(p, adv, e.blk, e.pos, st)
    } else {
        match e.ctx {
            // the program has terminated; the call completes with the
            // status unchanged
            ExecutionContext::Block => MicroResult::Done(s, Ok(st)),
            // a conditional body retires: its scope frame is popped and
            // execution continues in the enclosing context
            ExecutionContext::IfBlock => MicroResult::Cont(
                InterpState { stack: rest, scope: scope_pop_frame(s.scope) },
            ),
            // a loop iteration's working cursor is exhausted: re-evaluate
            // the guard
            ExecutionContext::While(wb, wi) => match eval_logic_spec(
                while_guard(p, wb, wi),
                s.scope,
            ) {
                Err(er) => MicroResult::Done(InterpState { stack: rest, scope: s.scope }, Err(er)),
                Ok(b) => if !b {
                    // the loop ends: discard the backup cursor beneath
                    // (every reachable state holds one there; the bottom
                    // entry is never popped).  The frame pushed on loop
                    // entry stays; see the module comment.
                    MicroResult::Cont(
                        InterpState {
                            stack: if rest.len() >= 2 {
                                rest.drop_last()
                            } else {
                                rest
                            },
                            scope: s.scope,
                        },
                    )
                } else {
                    // replay: push a fresh working cursor at the body's
                    // start (the clone of the pristine backup)
                    MicroResult::Cont(
                        InterpState {
                            stack: rest.push(StackEntry { blk: e.blk, pos: 0, ctx: e.ctx }),
                            scope: s.scope,
                        },
                    )
                },
            },
        }
    }
}

/// Dispatch on the statement at `(blk, pos)`; `s` already holds the
/// advanced cursor on top of its stack.
pub open spec fn micro_stmt(
    p: Program,
    s: InterpState,
    blk: usize,
    pos: usize,
    st: TankStatusView,
) -> MicroResult {
    let stmt = p.blocks@[blk as int]@[pos as int];
    match stmt.kind {
        StmtKind::Decl(name, ex) => match eval_arith_spec(ex, s.scope) {
            Err(er) => MicroResult::Done(s, Err(er)),
            Ok(v) => MicroResult::Done(
                InterpState { stack: s.stack, scope: scope_declare(s.scope, name@, v) },
                Ok(with_line(st, stmt.line)),
            ),
        },
        StmtKind::Asig(name, ex) => match eval_arith_spec(ex, s.scope) {
            Err(er) => MicroResult::Done(s, Err(er)),
            Ok(v) => {
                // when the name is unbound, scope_assign is the identity
                // and the step fails
                let s2 = InterpState { stack: s.stack, scope: scope_assign(s.scope, name@, v) };
                if scope_find(s.scope, name@) is Some {
                    MicroResult::Done(s2, Ok(with_line(st, stmt.line)))
                } else {
                    MicroResult::Done(s2, Err(ErrorInterpreteView::VarNoDecl(name@)))
                }
            },
        },
        StmtKind::Si(g, tb, eb) => match eval_logic_spec(g, s.scope) {
            Err(er) => MicroResult::Done(s, Err(er)),
            Ok(b) => if b {
                MicroResult::Cont(
                    InterpState {
                        stack: s.stack.push(
                            StackEntry { blk: tb, pos: 0, ctx: ExecutionContext::IfBlock },
                        ),
                        scope: scope_push_frame(s.scope),
                    },
                )
            } else {
                match eb {
                    Some(el) => MicroResult::Cont(
                        InterpState {
                            stack: s.stack.push(
                                StackEntry { blk: el, pos: 0, ctx: ExecutionContext::IfBlock },
                            ),
                            scope: scope_push_frame(s.scope),
                        },
                    ),
                    None => MicroResult::Done(s, Ok(with_line(st, stmt.line))),
                }
            },
        },
        StmtKind::Mientras(g, body) => match eval_logic_spec(g, s.scope) {
            Err(er) => MicroResult::Done(s, Err(er)),
            Ok(b) => if b {
                // enter the loop: one fresh scope frame, then the backup
                // and working cursors over the body
                let entry = StackEntry {
                    blk: body,
                    pos: 0,
                    ctx: ExecutionContext::While(blk, pos),
                };
                MicroResult::Cont(
                    InterpState {
                        stack: s.stack.push(entry).push(entry),
                        scope: scope_push_frame(s.scope),
                    },
                )
            } else {
                MicroResult::Done(s, Ok(with_line(st, stmt.line)))
            },
        },
        StmtKind::Gira(d) => {
            let st2 = TankStatusView {
                direction: match d {
                    Giro::Izquierda => turn_left(st.direction),
                    Giro::Derecha => turn_right(st.direction),
                },
                current_interpreter_line: stmt.line,
                ..st
            };
            MicroResult::Done(
                InterpState { stack: s.stack, scope: scope_assign(s.scope, "radar"@, radar_spec(st2)) },
                Ok(st2),
            )
        },
        StmtKind::Avanza => {
            let st2 = TankStatusView {
                pos: move_spec(st.pos, st.direction),
                current_interpreter_line: stmt.line,
                ..st
            };
            MicroResult::Done(
                InterpState { stack: s.stack, scope: scope_assign(s.scope, "radar"@, radar_spec(st2)) },
                Ok(st2),
            )
        },
        StmtKind::Dispara => MicroResult::Done(
            s,
            Ok(TankStatusView { shot: true, current_interpreter_line: stmt.line, ..st }),
        ),
    }
}

/// `n` micro transitions from `s`; a completed result is absorbing.
pub open spec fn iterate(p: Program, s: InterpState, st: TankStatusView, n: nat) -> MicroResult
    decreases n,
{
    if n == 0 {
        MicroResult::Cont(s)
    } else {
        match iterate(p, s, st, (n - 1) as nat) {
            MicroResult::Cont(s2) => micro(p, s2, st),
            MicroResult::Done(s2, r) => MicroResult::Done(s2, r),
        }
    }
}

/// The program has consumed every top-level statement: the sole remaining
/// entry is the exhausted top-level cursor.
pub open spec fn at_end(p: Program, s: InterpState) -> bool {
    &&& s.stack.len() >= 1
    &&& s.stack.last().ctx is Block
    &&& s.stack.last().pos >= p.blocks@[s.stack.last().blk as int]@.len()
}

/// At the end of the program a micro step completes at once, changing
/// nothing: stepping a finished program is the identity.
pub proof fn lemma_at_end_identity(p: Program, s: InterpState, st: TankStatusView)
    requires
        at_end(p, s),
    ensures
        micro(p, s, st) == MicroResult::Done(s, Ok::<TankStatusView, ErrorInterpreteView>(st)),
{
}

/// Iterating any positive number of micro steps from a finished program
/// still returns the state and status unchanged: further `step_inst`
/// calls are no-ops, indefinitely.
pub proof fn lemma_at_end_iterate(p: Program, s: InterpState, st: TankStatusView, n: nat)
    requires
        at_end(p, s),
        n >= 1,
    ensures
        iterate(p, s, st, n) == MicroResult::Done(
            s,
            Ok::<TankStatusView, ErrorInterpreteView>(st),
        ),
    decreases n,
{
    if n == 1 {
        lemma_at_end_identity(p, s, st);
    } else {
        lemma_at_end_iterate(p, s, st, (n - 1) as nat);
    }
}

/// Statement dispatch preserves well-formedness of states it hands on.
#[verifier::rlimit(100)]
proof fn lemma_micro_stmt_preserves_wf(
    p: Program,
    s: InterpState,
    blk: usize,
    pos: usize,
    st: TankStatusView,
)
    requires
        state_wf(p, s),
        (blk as int) < p.blocks@.len(),
        (pos as int) < p.blocks@[blk as int]@.len(),
    ensures
        match micro_stmt(p, s, blk, pos, st) {
            MicroResult::Cont(s2) => state_wf(p, s2),
            MicroResult::Done(s2, r) => r is Ok ==> state_wf(p, s2),
        },
{
    let stmt = p.blocks@[blk as int]@[pos as int];
    assert(stmt_wf(stmt, p.blocks@, blk as int));
    match stmt.kind {
        StmtKind::Decl(w, ex) => {
            if let Ok(v) = eval_arith_spec(ex, s.scope) {
                lemma_declare_preserves_base(s.scope, w@, v, "radar"@);
                lemma_count_push(s.stack.drop_last(), s.stack.last());
                assert(s.stack.drop_last().push(s.stack.last()) =~= s.stack);
            }
        },
        StmtKind::Asig(w, ex) => {
            if let Ok(v) = eval_arith_spec(ex, s.scope) {
                lemma_scope_assign_len(s.scope, w@, v);
                lemma_assign_preserves_base(s.scope, w@, v, "radar"@);
            }
        },
        StmtKind::Si(g, tb, eb) => {
            match eval_logic_spec(g, s.scope) {
                Ok(b) => if b {
                    let child = StackEntry { blk: tb, pos: 0, ctx: ExecutionContext::IfBlock };
                    lemma_count_push(s.stack, child);
                } else {
                    match eb {
                        Some(el) => {
                            let child = StackEntry {
                                blk: el,
                                pos: 0,
                                ctx: ExecutionContext::IfBlock,
                            };
                            lemma_count_push(s.stack, child);
                        },
                        None => {},
                    }
                },
                Err(_) => {},
            }
        },
        StmtKind::Mientras(g, body) => {
            match eval_logic_spec(g, s.scope) {
                Ok(b) => if b {
                    let entry = StackEntry {
                        blk: body,
                        pos: 0,
                        ctx: ExecutionContext::While(blk, pos),
                    };
                    lemma_count_push(s.stack, entry);
                    lemma_count_push(s.stack.push(entry), entry);
                },
                Err(_) => {},
            }
        },
        StmtKind::Gira(d) => {
            let st2 = TankStatusView {
                direction: match d {
                    Giro::Izquierda => turn_left(st.direction),
                    Giro::Derecha => turn_right(st.direction),
                },
                current_interpreter_line: stmt.line,
                ..st
            };
            lemma_scope_assign_len(s.scope, "radar"@, radar_spec(st2));
            lemma_assign_preserves_base(s.scope, "radar"@, radar_spec(st2), "radar"@);
        },
        StmtKind::Avanza => {
            let st2 = TankStatusView {
                pos: move_spec(st.pos, st.direction),
                current_interpreter_line: stmt.line,
                ..st
            };
            lemma_scope_assign_len(s.scope, "radar"@, radar_spec(st2));
            lemma_assign_preserves_base(s.scope, "radar"@, radar_spec(st2), "radar"@);
        },
        StmtKind::Dispara => {},
    }
}

/// One engine step preserves well-formedness: a continuing state, and the
/// state left by a successful step, are well formed again.
#[verifier::rlimit(100)]
pub proof fn lemma_micro_preserves_wf(p: Program, s: InterpState, st: TankStatusView)
    requires
        state_wf(p, s),
    ensures
        match micro(p, s, st) {
            MicroResult::Cont(s2) => state_wf(p, s2),
            MicroResult::Done(s2, r) => r is Ok ==> state_wf(p, s2),
        },
{
    let e = s.stack.last();
    let rest = s.stack.drop_last();
    assert(e == s.stack[s.stack.len() - 1]);
    assert(entry_wf(e, p));
    assert(rest.push(e) =~= s.stack);
    lemma_count_push(rest, e);
    if (e.pos as int) < p.blocks@[e.blk as int]@.len() {
        let adv_e = StackEntry { blk: e.blk, pos: (e.pos + 1) as usize, ctx: e.ctx };
        let adv = InterpState { stack: rest.push(adv_e), scope: s.scope };
        lemma_count_push(rest, adv_e);
        assert(forall|i: int| 0 <= i < adv.stack.len() ==> entry_wf(#[trigger] adv.stack[i], p));
        assert(state_wf(p, adv));
        lemma_micro_stmt_preserves_wf(p, adv, e.blk, e.pos, st);
    } else {
        match e.ctx {
            ExecutionContext::Block => {},
            ExecutionContext::IfBlock => {
                assert(s.stack.len() >= 2);
            },
            ExecutionContext::While(wb, wi) => {
                match eval_logic_spec(while_guard(p, wb, wi), s.scope) {
                    Err(_) => {},
                    Ok(b) => if !b {
                        assert(s.stack.len() >= 2);
                        if rest.len() >= 2 {
                            lemma_count_push(rest.drop_last(), rest.last());
                            assert(rest.drop_last().push(rest.last()) =~= rest);
                        }
                    } else {
                        let fresh = StackEntry { blk: e.blk, pos: 0, ctx: e.ctx };
                        lemma_count_push(rest, fresh);
                        assert(stmt_wf(p.blocks@[wb as int]@[wi as int], p.blocks@, wb as int));
                    },
                }
            },
        }
    }
}

/// Well-formedness carries through any number of continuing steps.
proof fn lemma_iterate_cont_wf(p: Program, s: InterpState, st: TankStatusView, n: nat)
    requires
        state_wf(p, s),
    ensures
        match iterate(p, s, st, n) {
            MicroResult::Cont(s2) => state_wf(p, s2),
            MicroResult::Done(_, _) => true,
        },
    decreases n,
{
    if n > 0 {
        lemma_iterate_cont_wf(p, s, st, (n - 1) as nat);
        match iterate(p, s, st, (n - 1) as nat) {
            MicroResult::Cont(s2) => {
                lemma_micro_preserves_wf(p, s2, st);
            },
            MicroResult::Done(_, _) => {},
        }
    }
}

/// The whole run depends only on the program's abstract value: from a
/// well-formed state, two programs denoting the same [`ProgramView`] yield
/// the same outcome after any number of steps.  With the construction
/// contract this fixes an interpreter's entire observable stepping by the
/// source text alone.
pub proof fn lemma_iterate_respects_view(
    p1: Program,
    p2: Program,
    s: InterpState,
    st: TankStatusView,
    n: nat,
)
    requires
        program_view(p1) == program_view(p2),
        state_wf(p1, s),
    ensures
        iterate(p1, s, st, n) == iterate(p2, s, st, n),
    decreases n,
{
    if n > 0 {
        lemma_iterate_respects_view(p1, p2, s, st, (n - 1) as nat);
        lemma_iterate_cont_wf(p1, s, st, (n - 1) as nat);
        match iterate(p1, s, st, (n - 1) as nat) {
            MicroResult::Cont(s2) => {
                lemma_micro_respects_view(p1, p2, s2, st);
            },
            MicroResult::Done(_, _) => {},
        }
    }
}

/// Statement dispatch depends only on the program's abstract value: two
/// programs denoting the same [`ProgramView`] dispatch alike.
pub proof fn lemma_micro_stmt_respects_view(
    p1: Program,
    p2: Program,
    s: InterpState,
    blk: usize,
    pos: usize,
    st: TankStatusView,
)
    requires
        program_view(p1) == program_view(p2),
        (blk as int) < p1.blocks@.len(),
        (pos as int) < p1.blocks@[blk as int]@.len(),
    ensures
        micro_stmt(p1, s, blk, pos, st) == micro_stmt(p2, s, blk, pos, st),
{
    let bs1 = p1.blocks@;
    let bs2 = p2.blocks@;
    assert(blocks_view(bs1).len() == bs1.len());
    assert(blocks_view(bs2).len() == bs2.len());
    assert(bs2.len() == bs1.len());
    assert(blocks_view(bs1)[blk as int] == block_view(bs1[blk as int]@));
    assert(blocks_view(bs2)[blk as int] == block_view(bs2[blk as int]@));
    let s1 = bs1[blk as int]@[pos as int];
    let s2 = bs2[blk as int]@[pos as int];
    assert(block_view(bs1[blk as int]@)[pos as int] == stmt_view(s1));
    assert(block_view(bs2[blk as int]@)[pos as int] == stmt_view(s2));
    assert(stmt_view(s1) == stmt_view(s2));
    match s1.kind {
        StmtKind::Decl(_, e1) => {
            if let StmtKind::Decl(_, e2) = s2.kind {
                lemma_eval_respects_view(e1, e2, s.scope);
            }
        },
        StmtKind::Asig(_, e1) => {
            if let StmtKind::Asig(_, e2) = s2.kind {
                lemma_eval_respects_view(e1, e2, s.scope);
            }
        },
        StmtKind::Si(g1, _, _) => {
            if let StmtKind::Si(g2, _, _) = s2.kind {
                lemma_eval_logic_respects_view(g1, g2, s.scope);
            }
        },
        StmtKind::Mientras(g1, _) => {
            if let StmtKind::Mientras(g2, _) = s2.kind {
                lemma_eval_logic_respects_view(g1, g2, s.scope);
            }
        },
        _ => {},
    }
}

/// One engine step depends only on the program's abstract value: in a
/// well-formed state, two programs denoting the same [`ProgramView`] step
/// alike.  Together with the construction contract this fixes the stepping
/// of an interpreter built from a source text by the text alone.
pub proof fn lemma_micro_respects_view(
    p1: Program,
    p2: Program,
    s: InterpState,
    st: TankStatusView,
)
    requires
        program_view(p1) == program_view(p2),
        state_wf(p1, s),
    ensures
        micro(p1, s, st) == micro(p2, s, st),
{
    let bs1 = p1.blocks@;
    let bs2 = p2.blocks@;
    assert(blocks_view(bs1).len() == bs1.len());
    assert(blocks_view(bs2).len() == bs2.len());
    assert(bs2.len() == bs1.len());
    let e = s.stack.last();
    assert(e == s.stack[s.stack.len() - 1]);
    assert(entry_wf(e, p1));
    assert(blocks_view(bs1)[e.blk as int] == block_view(bs1[e.blk as int]@));
    assert(blocks_view(bs2)[e.blk as int] == block_view(bs2[e.blk as int]@));
    assert(bs2[e.blk as int]@.len() == bs1[e.blk as int]@.len());
    if (e.pos as int) < p1.blocks@[e.blk as int]@.len() {
        let adv = InterpState {
            stack: s.stack.drop_last().push(
                StackEntry { blk: e.blk, pos: (e.pos + 1) as usize, ctx: e.ctx },
            ),
            scope: s.scope,
        };
        lemma_micro_stmt_respects_view(p1, p2, adv, e.blk, e.pos, st);
    } else {
        match e.ctx {
            ExecutionContext::While(wb, wi) => {
                assert(blocks_view(bs1)[wb as int] == block_view(bs1[wb as int]@));
                assert(blocks_view(bs2)[wb as int] == block_view(bs2[wb as int]@));
                let w1 = bs1[wb as int]@[wi as int];
                let w2 = bs2[wb as int]@[wi as int];
                assert(block_view(bs1[wb as int]@)[wi as int] == stmt_view(w1));
                assert(block_view(bs2[wb as int]@)[wi as int] == stmt_view(w2));
                assert(stmt_view(w1) == stmt_view(w2));
                if let StmtKind::Mientras(g1, _) = w1.kind {
                    if let StmtKind::Mientras(g2, _) = w2.kind {
                        lemma_eval_logic_respects_view(g1, g2, s.scope);
                    }
                }
            },
            _ => {},
        }
    }
}

/// The micro-step relation is a function and a completed result is
/// absorbing, so however many steps it takes to complete, the outcome is
/// unique: `step_inst`'s contract pins both its result and the state it
/// leaves behind.
pub proof fn lemma_iterate_done_unique(
    p: Program,
    s: InterpState,
    st: TankStatusView,
    n1: nat,
    n2: nat,
)
    requires
        iterate(p, s, st, n1) is Done,
        iterate(p, s, st, n2) is Done,
    ensures
        iterate(p, s, st, n1) == iterate(p, s, st, n2),
{
    if n1 <= n2 {
        lemma_iterate_done_stable(p, s, st, n1, n2);
    } else {
        lemma_iterate_done_stable(p, s, st, n2, n1);
    }
}

proof fn lemma_iterate_done_stable(
    p: Program,
    s: InterpState,
    st: TankStatusView,
    n1: nat,
    n2: nat,
)
    requires
        n1 <= n2,
        iterate(p, s, st, n1) is Done,
    ensures
        iterate(p, s, st, n2) == iterate(p, s, st, n1),
    decreases n2 - n1,
{
    if n1 < n2 {
        lemma_iterate_done_stable(p, s, st, n1, (n2 - 1) as nat);
    }
}

/// The predefined `radar` variable is kept in sync with the sensor: when a
/// turn or move statement completes, the step succeeds and the scope's
/// `radar` binding reads exactly the sensor of the snapshot returned.
/// (`radar_bound` holds of every well-formed state, so this applies to
/// every reachable turn or move dispatch.)
pub proof fn lemma_radar_tracks_sensor(
    p: Program,
    s: InterpState,
    blk: usize,
    pos: usize,
    st: TankStatusView,
)
    requires
        radar_bound(s.scope),
        (blk as int) < p.blocks@.len(),
        (pos as int) < p.blocks@[blk as int]@.len(),
        p.blocks@[blk as int]@[pos as int].kind is Gira || p.blocks@[blk as int]@[pos as int].kind
            is Avanza,
    ensures
        match micro_stmt(p, s, blk, pos, st) {
            MicroResult::Done(s2, r) => r matches Ok(st2) && scope_find(s2.scope, "radar"@)
                == Some(radar_spec(st2)),
            MicroResult::Cont(_) => false,
        },
{
    lemma_base_bound_found(s.scope, "radar"@);
    let stmt = p.blocks@[blk as int]@[pos as int];
    match stmt.kind {
        StmtKind::Gira(d) => {
            let st2 = TankStatusView {
                direction: match d {
                    Giro::Izquierda => turn_left(st.direction),
                    Giro::Derecha => turn_right(st.direction),
                },
                current_interpreter_line: stmt.line,
                ..st
            };
            lemma_assign_find(s.scope, "radar"@, radar_spec(st2));
        },
        StmtKind::Avanza => {
            let st2 = TankStatusView {
                pos: move_spec(st.pos, st.direction),
                current_interpreter_line: stmt.line,
                ..st
            };
            lemma_assign_find(s.scope, "radar"@, radar_spec(st2));
        },
        _ => {},
    }
}

/// View of a step result.
pub open spec fn step_result_view(r: Result<TankStatus, ErrorInterprete>) -> Result<
    TankStatusView,
    ErrorInterpreteView,
> {
    match r {
        Ok(st) => Ok(st@),
        Err(e) => Err(e@),
    }
}

// ---------------------------------------------------------------------
// Termination measure for one `step_inst` call.
//
// Work is counted over the statements a cursor has yet to visit: a
// conditional weighs more than either of its bodies, a loop statement
// more than two cursors over its body (backup and working).  Body
// references point strictly downward in the arena (`stmt_wf`), which
// makes the mutual recursion below well founded.
// ---------------------------------------------------------------------

/// Weight of the statement at `(b, i)`.
pub open spec fn stmt_measure(p: Program, b: int, i: int) -> nat
    decreases b, 0int, 0int,
        when program_wf(p) && 0 <= b < p.blocks@.len() && 0 <= i < p.blocks@[b]@.len()
{
    match p.blocks@[b]@[i].kind {
        StmtKind::Si(_, t, e) => 1 + block_suffix_measure(p, t as int, 0) + (match e {
            Some(el) => block_suffix_measure(p, el as int, 0),
            None => 0nat,
        }),
        StmtKind::Mientras(_, t) => 2 + 2 * block_suffix_measure(p, t as int, 0),
        _ => 0,
    }
}

/// Weight of the statements of block `b` from position `pos` on.
pub open spec fn block_suffix_measure(p: Program, b: int, pos: int) -> nat
    decreases b, 1int, p.blocks@[b]@.len() - pos,
        when program_wf(p) && 0 <= b < p.blocks@.len() && 0 <= pos
{
    if pos >= p.blocks@[b]@.len() {
        0
    } else {
        1 + stmt_measure(p, b, pos) + block_suffix_measure(p, b, pos + 1)
    }
}

/// Weight of one stack entry: the work left in its cursor, plus one for
/// retiring the entry itself.
pub open spec fn entry_measure(p: Program, e: StackEntry) -> nat {
    1 + block_suffix_measure(p, e.blk as int, e.pos as int)
}

/// Weight of a whole control stack.
pub open spec fn stack_measure(p: Program, s: Seq<StackEntry>) -> nat
    decreases s.len(),
{
    if s.len() == 0 {
        0
    } else {
        stack_measure(p, s.drop_last()) + entry_measure(p, s.last())
    }
}

proof fn lemma_stack_measure_push(p: Program, s: Seq<StackEntry>, e: StackEntry)
    ensures
        stack_measure(p, s.push(e)) == stack_measure(p, s) + entry_measure(p, e),
{
    assert(s.push(e).drop_last() =~= s);
    assert(s.push(e).last() == e);
}

proof fn lemma_count_push(s: Seq<StackEntry>, e: StackEntry)
    ensures
        count_ifblocks(s.push(e)) == count_ifblocks(s) + (if e.ctx is IfBlock {
            1nat
        } else {
            0nat
        }),
{
    assert(s.push(e).drop_last() =~= s);
    assert(s.push(e).last() == e);
}

/// The resumable interpreter: a parsed program, the control stack of
/// cursors into it, and the variable scope.  The state left by one
/// `step_inst` call is exactly the state the next call starts from.
pub struct Interpreter {
    program: Program,
    exec_stack: Vec<StackEntry>,
    scope: Scope,
}

impl Interpreter {
    /// The program this interpreter runs.
    pub closed spec fn prog(&self) -> Program {
        self.program
    }

    /// The engine's abstract state.
    pub closed spec fn istate(&self) -> InterpState {
        InterpState { stack: self.exec_stack@, scope: self.scope@ }
    }

    /// Established by [`Interpreter::new`] and preserved by every step.
    pub open spec fn wf(&self) -> bool {
        state_wf(self.prog(), self.istate())
    }

    /// Parse `prog` and seed the engine: a single top-level cursor over
    /// the whole program, and a scope holding only the predefined `radar`
    /// variable, initially 0.
    pub fn new(prog: &str) -> (r: Result<Interpreter, SyntaxError>)
        ensures
            r matches Ok(it) ==> {
                &&& it.wf()
                &&& it.istate().stack.len() == 1
                &&& it.istate().stack[0].ctx is Block
                &&& it.istate().stack[0].pos == 0
                &&& it.istate().stack[0].blk as int == top_block(it.prog())
                &&& it.istate().scope == scope_declare(scope_init(), "radar"@, 0)
            },
            prog@.len() == 0 ==> r is Ok,
            crate::parser::lex_spec(prog@, 0, 1, 1) matches Err(e) ==> r == Err::<
                Interpreter,
                SyntaxError,
            >(e),
            r matches Ok(it) ==> (parse_program_spec(prog@) matches Ok(pv) && program_view(
                it.prog(),
            ) == pv),
            r matches Err(e) ==> parse_program_spec(prog@) == Err::<ProgramView, SyntaxError>(e),
            r is Ok <==> parse_program_spec(prog@) is Ok,
    {
        let program = match parse_program(prog) {
            Ok(p) => p,
            Err(e) => {
                return Err(e);
            },
        };
        let mut scope = Scope::new();
        scope.define_new_scope_var("radar", 0);
        let top = program.blocks.len() - 1;
        let mut exec_stack: Vec<StackEntry> = Vec::new();
        exec_stack.push(StackEntry { blk: top, pos: 0, ctx: ExecutionContext::Block });
        let it = Interpreter { program, exec_stack, scope };
        proof {
            assert(it.istate().stack =~= seq![
                StackEntry { blk: top, pos: 0, ctx: ExecutionContext::Block },
            ]);
            assert(count_ifblocks(it.istate().stack) == 0) by {
                assert(it.istate().stack.drop_last() =~= Seq::empty());
                assert(count_ifblocks(Seq::<StackEntry>::empty()) == 0);
            }
            assert(it.istate().scope.len() == 1);
        }
        Ok(it)
    }

    /// Expose scope lookup for external inspection between steps.
    pub fn get_var_value(&self, varname: &str) -> (r: Option<isize>)
        ensures
            r == scope_find(self.istate().scope, varname@),
    {
        self.scope.get_var_value(varname)
    }


    /// Dispatch on the statement at `(blk, pos)`.  On entry the control
    /// stack already holds the advanced cursor on top.  Returns
    /// `Some(result)` when the statement completed the step (or failed),
    /// `None` when the engine entered a block and must keep descending.
    #[verifier::rlimit(100)]
    fn do_dispatch(&mut self, blk: usize, pos: usize, current_status: &TankStatus) -> (r: Option<
        Result<TankStatus, ErrorInterprete>,
    >)
        requires
            state_wf(old(self).prog(), old(self).istate()),
            status_wf(current_status@),
            (blk as int) < old(self).prog().blocks@.len(),
            (pos as int) < old(self).prog().blocks@[blk as int]@.len(),
        ensures
            final(self).prog() == old(self).prog(),
            match r {
                Some(res) => {
                    &&& micro_stmt(
                        old(self).prog(),
                        old(self).istate(),
                        blk,
                        pos,
                        current_status@,
                    ) == MicroResult::Done(final(self).istate(), step_result_view(res))
                    &&& (res matches Ok(st) ==> state_wf(final(self).prog(), final(self).istate())
                        && status_wf(st@))
                },
                None => {
                    &&& micro_stmt(
                        old(self).prog(),
                        old(self).istate(),
                        blk,
                        pos,
                        current_status@,
                    ) == MicroResult::Cont(final(self).istate())
                    &&& state_wf(final(self).prog(), final(self).istate())
                    &&& top_live(final(self).prog(), final(self).istate())
                    &&& stack_measure(final(self).prog(), final(self).istate().stack)
                        <= stack_measure(old(self).prog(), old(self).istate().stack)
                        + stmt_measure(old(self).prog(), blk as int, pos as int)
                },
            },
    {
        let ghost prog0 = self.program;
        let ghost base = self.istate();
        let ghost st0 = current_status@;
        let stmt = &self.program.blocks[blk][pos];
        let ghost sstmt = prog0.blocks@[blk as int]@[pos as int];
        proof {
            assert(*stmt == sstmt);
            assert(stmt_wf(sstmt, prog0.blocks@, blk as int));
        }
        match &stmt.kind {
            StmtKind::Decl(name, ex) => {
                let v = match eval(ex, &self.scope) {
                    Ok(v) => v,
                    Err(er) => {
                        proof {
                            assert(micro_stmt(prog0, base, blk, pos, st0) == MicroResult::Done(
                                base,
                                Err::<TankStatusView, ErrorInterpreteView>(er@),
                            ));
                        }
                        return Some(Err(er));
                    },
                };
                self.scope.define_new_scope_var(name.as_str(), v);
                let mut new_status = *current_status;
                new_status.set_current_interpreter_line(stmt.line);
                proof {
                    lemma_declare_preserves_base(base.scope, name@, v, "radar"@);
                    assert(new_status@ == with_line(st0, sstmt.line));
                    assert(micro_stmt(prog0, base, blk, pos, st0) == MicroResult::Done(
                        self.istate(),
                        Ok::<TankStatusView, ErrorInterpreteView>(new_status@),
                    ));
                    assert(self.istate().scope.len() == base.scope.len());
                }
                Some(Ok(new_status))
            },
            StmtKind::Asig(name, ex) => {
                let v = match eval(ex, &self.scope) {
                    Ok(v) => v,
                    Err(er) => {
                        proof {
                            assert(micro_stmt(prog0, base, blk, pos, st0) == MicroResult::Done(
                                base,
                                Err::<TankStatusView, ErrorInterpreteView>(er@),
                            ));
                        }
                        return Some(Err(er));
                    },
                };
                let found = self.scope.set_scope_var(name.as_str(), v);
                proof {
                    lemma_scope_assign_len(base.scope, name@, v);
                    lemma_assign_preserves_base(base.scope, name@, v, "radar"@);
                }
                if !found {
                    let err = ErrorInterprete::VarNoDecl(name.clone());
                    proof {
                        assert(micro_stmt(prog0, base, blk, pos, st0) == MicroResult::Done(
                            self.istate(),
                            Err::<TankStatusView, ErrorInterpreteView>(err@),
                        ));
                    }
                    return Some(Err(err));
                }
                let mut new_status = *current_status;
                new_status.set_current_interpreter_line(stmt.line);
                proof {
                    assert(new_status@ == with_line(st0, sstmt.line));
                    assert(micro_stmt(prog0, base, blk, pos, st0) == MicroResult::Done(
                        self.istate(),
                        Ok::<TankStatusView, ErrorInterpreteView>(new_status@),
                    ));
                }
                Some(Ok(new_status))
            },
            StmtKind::Si(guard, tb, eb) => {
                let gv = match eval_logic(guard, &self.scope) {
                    Ok(b) => b,
                    Err(er) => {
                        proof {
                            assert(micro_stmt(prog0, base, blk, pos, st0) == MicroResult::Done(
                                base,
                                Err::<TankStatusView, ErrorInterpreteView>(er@),
                            ));
                        }
                        return Some(Err(er));
                    },
                };
                if gv {
                    // enter the then-body: one scope frame, one conditional
                    // cursor; no step is consumed by the entry itself
                    let child = StackEntry { blk: *tb, pos: 0, ctx: ExecutionContext::IfBlock };
                    self.scope.add();
                    self.exec_stack.push(child);
                    proof {
                        lemma_stack_measure_push(prog0, base.stack, child);
                        lemma_count_push(base.stack, child);
                        assert(micro_stmt(prog0, base, blk, pos, st0) == MicroResult::Cont(
                            self.istate(),
                        ));
                        assert(stmt_measure(prog0, blk as int, pos as int) == 1
                            + block_suffix_measure(prog0, *tb as int, 0) + (match sstmt.kind {
                            StmtKind::Si(_, _, Some(el)) => block_suffix_measure(
                                prog0,
                                el as int,
                                0,
                            ),
                            _ => 0nat,
                        }));
                    }
                    None
                } else {
                    match eb {
                        Some(el) => {
                            let child = StackEntry {
                                blk: *el,
                                pos: 0,
                                ctx: ExecutionContext::IfBlock,
                            };
                            self.scope.add();
                            self.exec_stack.push(child);
                            proof {
                                lemma_stack_measure_push(prog0, base.stack, child);
                                lemma_count_push(base.stack, child);
                                assert(micro_stmt(prog0, base, blk, pos, st0)
                                    == MicroResult::Cont(self.istate()));
                                assert(stmt_measure(prog0, blk as int, pos as int) == 1
                                    + block_suffix_measure(prog0, *tb as int, 0)
                                    + block_suffix_measure(prog0, *el as int, 0));
                            }
                            None
                        },
                        None => {
                            // guard false, no else: the conditional itself
                            // is the completed step
                            let mut new_status = *current_status;
                            new_status.set_current_interpreter_line(stmt.line);
                            proof {
                                assert(new_status@ == with_line(st0, sstmt.line));
                                assert(micro_stmt(prog0, base, blk, pos, st0)
                                    == MicroResult::Done(
                                    base,
                                    Ok::<TankStatusView, ErrorInterpreteView>(new_status@),
                                ));
                            }
                            Some(Ok(new_status))
                        },
                    }
                }
            },
            StmtKind::Mientras(guard, body) => {
                let gv = match eval_logic(guard, &self.scope) {
                    Ok(b) => b,
                    Err(er) => {
                        proof {
                            assert(micro_stmt(prog0, base, blk, pos, st0) == MicroResult::Done(
                                base,
                                Err::<TankStatusView, ErrorInterpreteView>(er@),
                            ));
                        }
                        return Some(Err(er));
                    },
                };
                if gv {
                    // enter the loop: one scope frame, then the backup and
                    // working cursors over the body
                    let entry = StackEntry {
                        blk: *body,
                        pos: 0,
                        ctx: ExecutionContext::While(blk, pos),
                    };
                    self.scope.add();
                    self.exec_stack.push(entry);
                    let ghost mid = self.exec_stack@;
                    self.exec_stack.push(entry);
                    proof {
                        lemma_stack_measure_push(prog0, base.stack, entry);
                        lemma_stack_measure_push(prog0, mid, entry);
                        lemma_count_push(base.stack, entry);
                        lemma_count_push(mid, entry);
                        assert(micro_stmt(prog0, base, blk, pos, st0) == MicroResult::Cont(
                            self.istate(),
                        ));
                        assert(stmt_measure(prog0, blk as int, pos as int) == 2 + 2
                            * block_suffix_measure(prog0, *body as int, 0));
                    }
                    None
                } else {
                    let mut new_status = *current_status;
                    new_status.set_current_interpreter_line(stmt.line);
                    proof {
                        assert(new_status@ == with_line(st0, sstmt.line));
                        assert(micro_stmt(prog0, base, blk, pos, st0) == MicroResult::Done(
                            base,
                            Ok::<TankStatusView, ErrorInterpreteView>(new_status@),
                        ));
                    }
                    Some(Ok(new_status))
                }
            },
            StmtKind::Gira(d) => {
                let dir = current_status.get_dir();
                let new_dir = match d {
                    Giro::Izquierda => match dir {
                        TankDirection::North => TankDirection::West,
                        TankDirection::West => TankDirection::South,
                        TankDirection::South => TankDirection::East,
                        TankDirection::East => TankDirection::North,
                    },
                    Giro::Derecha => match dir {
                        TankDirection::North => TankDirection::East,
                        TankDirection::West => TankDirection::North,
                        TankDirection::South => TankDirection::West,
                        TankDirection::East => TankDirection::South,
                    },
                };
                let mut new_status = *current_status;
                new_status.set_dir(new_dir);
                new_status.set_current_interpreter_line(stmt.line);
                let radar = new_status.calc_radar();
                self.scope.set_scope_var("radar", radar);
                proof {
                    lemma_scope_assign_len(base.scope, "radar"@, radar);
                    lemma_assign_preserves_base(base.scope, "radar"@, radar, "radar"@);
                    assert(micro_stmt(prog0, base, blk, pos, st0) == MicroResult::Done(
                        self.istate(),
                        Ok::<TankStatusView, ErrorInterpreteView>(new_status@),
                    ));
                }
                Some(Ok(new_status))
            },
            StmtKind::Avanza => {
                let (old_i, old_j) = current_status.get_pos();
                let dir = current_status.get_dir();
                let (new_i, new_j) = match dir {
                    TankDirection::West => (old_i, if old_j == 0 {
                        0
                    } else {
                        old_j - 1
                    }),
                    TankDirection::North => (
                        if old_i == 0 {
                            0
                        } else {
                            old_i - 1
                        },
                        old_j,
                    ),
                    TankDirection::East => (old_i, if old_j + 1 == GRID_DIMMENSIONS {
                        old_j
                    } else {
                        old_j + 1
                    }),
                    TankDirection::South => (
                        if old_i + 1 == GRID_DIMMENSIONS {
                            old_i
                        } else {
                            old_i + 1
                        },
                        old_j,
                    ),
                };
                proof {
                    assert((new_i, new_j) == move_spec(st0.pos, st0.direction));
                    lemma_move_in_bounds(st0.pos, st0.direction);
                }
                let mut new_status = *current_status;
                new_status.set_pos(new_i, new_j);
                new_status.set_current_interpreter_line(stmt.line);
                let radar = new_status.calc_radar();
                self.scope.set_scope_var("radar", radar);
                proof {
                    lemma_scope_assign_len(base.scope, "radar"@, radar);
                    lemma_assign_preserves_base(base.scope, "radar"@, radar, "radar"@);
                    assert(micro_stmt(prog0, base, blk, pos, st0) == MicroResult::Done(
                        self.istate(),
                        Ok::<TankStatusView, ErrorInterpreteView>(new_status@),
                    ));
                }
                Some(Ok(new_status))
            },
            StmtKind::Dispara => {
                let mut new_status = *current_status;
                new_status.set_shot(true);
                new_status.set_current_interpreter_line(stmt.line);
                proof {
                    assert(micro_stmt(prog0, base, blk, pos, st0) == MicroResult::Done(
                        base,
                        Ok::<TankStatusView, ErrorInterpreteView>(new_status@),
                    ));
                }
                Some(Ok(new_status))
            },
        }
    }

    /// Execute forward until exactly one primitive action has completed,
    /// or the program has nothing left to do, and return the resulting
    /// agent snapshot (unchanged if nothing was left).
    ///
    /// The returned result and the engine state left behind are exactly
    /// the outcome of iterating the [`micro`] reference relation from the
    /// starting state.  After the program's end the call is the identity,
    /// indefinitely.  After an `Err` the engine is not in a defined state
    /// for further stepping and must be discarded.
    #[verifier::rlimit(100)]
    pub fn step_inst(&mut self, current_status: &TankStatus) -> (r: Result<
        TankStatus,
        ErrorInterprete,
    >)
        requires
            old(self).wf(),
            status_wf(current_status@),
        ensures
            final(self).prog() == old(self).prog(),
            r matches Ok(st) ==> final(self).wf() && status_wf(st@),
            exists|k: nat|
                iterate(old(self).prog(), old(self).istate(), current_status@, k)
                    == MicroResult::Done(final(self).istate(), step_result_view(r)),
            at_end(old(self).prog(), old(self).istate()) ==> final(self).istate() == old(
                self,
            ).istate() && r == Ok::<TankStatus, ErrorInterprete>(*current_status),
    {
        let ghost prog0 = self.program;
        let ghost s0 = self.istate();
        let ghost st0 = current_status@;
        let ghost mut n: nat = 0;
        let ghost mut reset_left: int = 1;
        loop
            invariant
                prog0 == old(self).prog(),
                s0 == old(self).istate(),
                self.program == prog0,
                state_wf(prog0, self.istate()),
                status_wf(st0),
                st0 == current_status@,
                iterate(prog0, s0, st0, n) == MicroResult::Cont(self.istate()),
                0 <= reset_left <= 1,
                reset_left == 0 ==> top_live(prog0, self.istate()),
                at_end(prog0, s0) ==> n == 0 && self.istate() == s0,
            decreases reset_left, stack_measure(prog0, self.exec_stack@),
        {
            let ghost head = self.istate();
            let ghost m_head = stack_measure(prog0, head.stack);
            let e = self.exec_stack.pop().unwrap();
            let ghost rest = self.exec_stack@;
            proof {
                assert(e == head.stack.last());
                assert(rest =~= head.stack.drop_last());
                assert(rest.push(e) =~= head.stack);
                lemma_stack_measure_push(prog0, rest, e);
                lemma_count_push(rest, e);
            }
            let blk_len = self.program.blocks[e.blk].len();
            if e.pos < blk_len {
                // the cursor yields a statement: push the advanced cursor
                // back and dispatch on the statement
                let adv_e = StackEntry { blk: e.blk, pos: e.pos + 1, ctx: e.ctx };
                self.exec_stack.push(adv_e);
                let ghost adv = self.istate();
                proof {
                    lemma_stack_measure_push(prog0, rest, adv_e);
                    lemma_count_push(rest, adv_e);
                    assert(forall|i: int|
                        0 <= i < adv.stack.len() ==> entry_wf(#[trigger] adv.stack[i], prog0));
                    assert(state_wf(prog0, adv));
                    assert(micro(prog0, head, st0) == micro_stmt(prog0, adv, e.blk, e.pos, st0));
                    assert(block_suffix_measure(prog0, e.blk as int, e.pos as int) == 1
                        + stmt_measure(prog0, e.blk as int, e.pos as int) + block_suffix_measure(
                        prog0,
                        e.blk as int,
                        e.pos + 1,
                    ));
                }
                match self.do_dispatch(e.blk, e.pos, current_status) {
                    Some(res) => {
                        proof {
                            n = n + 1;
                            assert(iterate(prog0, s0, st0, n) == MicroResult::Done(
                                self.istate(),
                                step_result_view(res),
                            ));
                        }
                        return res;
                    },
                    None => {
                        proof {
                            n = n + 1;
                            assert(iterate(prog0, s0, st0, n) == MicroResult::Cont(
                                self.istate(),
                            ));
                            assert(stack_measure(prog0, self.exec_stack@) < m_head);
                        }
                    },
                }
            } else {
                match e.ctx {
                    ExecutionContext::Block => {
                        // the program has terminated: put the exhausted
                        // cursor back and report the status unchanged
                        self.exec_stack.push(e);
                        proof {
                            n = n + 1;
                            assert(self.exec_stack@ =~= head.stack);
                            assert(self.istate() =~= head);
                            assert(micro(prog0, head, st0) == MicroResult::Done(
                                head,
                                Ok::<TankStatusView, ErrorInterpreteView>(st0),
                            ));
                            assert(iterate(prog0, s0, st0, n) == MicroResult::Done(
                                self.istate(),
                                Ok::<TankStatusView, ErrorInterpreteView>(st0),
                            ));
                        }
                        return Ok(*current_status);
                    },
                    ExecutionContext::IfBlock => {
                        // a conditional body retires: drop its scope frame
                        // and continue in the enclosing context
                        self.scope.drop();
                        proof {
                            n = n + 1;
                            assert(micro(prog0, head, st0) == MicroResult::Cont(self.istate()));
                            assert(iterate(prog0, s0, st0, n) == MicroResult::Cont(
                                self.istate(),
                            ));
                            assert(stack_measure(prog0, self.exec_stack@) < m_head);
                        }
                    },
                    ExecutionContext::While(wb, wi) => {
                        let gstmt = &self.program.blocks[wb][wi];
                        match &gstmt.kind {
                            StmtKind::Mientras(guard, _body) => {
                                proof {
                                    assert(*guard == while_guard(prog0, wb, wi));
                                }
                                let gv = match eval_logic(guard, &self.scope) {
                                    Ok(b) => b,
                                    Err(er) => {
                                        proof {
                                            n = n + 1;
                                            assert(micro(prog0, head, st0) == MicroResult::Done(
                                                self.istate(),
                                                Err::<TankStatusView, ErrorInterpreteView>(er@),
                                            ));
                                            assert(iterate(prog0, s0, st0, n) == MicroResult::Done(
                                                self.istate(),
                                                Err::<TankStatusView, ErrorInterpreteView>(er@),
                                            ));
                                        }
                                        return Err(er);
                                    },
                                };
                                if !gv {
                                    // the loop ends: discard the backup
                                    // cursor beneath (never the bottom
                                    // entry)
                                    if self.exec_stack.len() >= 2 {
                                        let ghost backup = rest.last();
                                        self.exec_stack.pop();
                                        proof {
                                            n = n + 1;
                                            lemma_stack_measure_push(
                                                prog0,
                                                self.exec_stack@,
                                                backup,
                                            );
                                            lemma_count_push(self.exec_stack@, backup);
                                            assert(rest =~= self.exec_stack@.push(backup));
                                            assert(micro(prog0, head, st0) == MicroResult::Cont(
                                                self.istate(),
                                            ));
                                            assert(iterate(prog0, s0, st0, n) == MicroResult::Cont(
                                                self.istate(),
                                            ));
                                            assert(stack_measure(prog0, self.exec_stack@)
                                                < m_head);
                                        }
                                    } else {
                                        proof {
                                            n = n + 1;
                                            assert(micro(prog0, head, st0) == MicroResult::Cont(
                                                self.istate(),
                                            ));
                                            assert(iterate(prog0, s0, st0, n) == MicroResult::Cont(
                                                self.istate(),
                                            ));
                                            assert(stack_measure(prog0, self.exec_stack@)
                                                < m_head);
                                        }
                                    }
                                } else {
                                    // replay the body: push a fresh working
                                    // cursor at its start
                                    let fresh = StackEntry { blk: e.blk, pos: 0, ctx: e.ctx };
                                    self.exec_stack.push(fresh);
                                    proof {
                                        assert(reset_left == 1);
                                        reset_left = 0;
                                        n = n + 1;
                                        lemma_stack_measure_push(prog0, rest, fresh);
                                        lemma_count_push(rest, fresh);
                                        assert(micro(prog0, head, st0) == MicroResult::Cont(
                                            self.istate(),
                                        ));
                                        assert(iterate(prog0, s0, st0, n) == MicroResult::Cont(
                                            self.istate(),
                                        ));
                                        assert(stmt_wf(
                                            prog0.blocks@[wb as int]@[wi as int],
                                            prog0.blocks@,
                                            wb as int,
                                        ));
                                        assert(prog0.blocks@[e.blk as int]@.len() >= 1);
                                    }
                                }
                            },
                            _ => {
                                // impossible: a loop entry always points at
                                // a `mientras` statement
                                proof {
                                    assert(false);
                                }
                                return Ok(*current_status);
                            },
                        }
                    },
                }
            }
        }
    }
}

} // verus!
