//! Lexer and recursive-descent parser for the tank language.
//!
//! Surface syntax:
//!
//! ```text
//! var <name> = <expr>;            declaration
//! <name> = <expr>;                assignment
//! si (<logic>) { <stmts> }        conditional, optional `otro { <stmts> }`
//! mientras (<logic>) { <stmts> }  loop
//! gira izquierda; gira derecha;   turn
//! avanza;                         move one cell forward
//! dispara;                        fire
//! ```
//!
//! Statements end with `;`, line comments run from `//` to the end of the
//! line, `*` and `/` bind tighter than `+` and `-`, `&&` binds tighter than
//! `||`, and comparison terms are exactly `arith <cmp> arith`.  Keywords are
//! contextual: a word such as `var` or `si` may also be used as a variable
//! name.
//!
//! One deliberate restriction: every braced body must contain at least one
//! statement.  An empty body inside a loop would let a single engine step
//! run forever without completing a primitive action, so `{ }` is rejected
//! at construction time instead.
//!
//! The grammar's meaning is fully specified.  [`lex_spec`] defines the
//! token sequence (or error) of every text and the lexer is proved to
//! return exactly that; [`parse_program_spec`] (built from one spec
//! function per parsing function, over abstract trees) defines the
//! program every token sequence denotes, and [`parse_program`] is proved
//! to return exactly that program — accepting exactly the texts the
//! grammar accepts, with precisely the specified error otherwise.  The
//! produced arena is additionally proved well formed: body references
//! point strictly downward and never at an empty block.
//!
//! Integer literals must fit in `isize`; a larger literal is a syntax
//! error.

use crate::ast::{block_view, blocks_view, blocks_wf, expr_view, logic_view, program_view,
    program_wf, stmt_view, stmt_wf, CmpOp, Expr, ExprView, Giro, LogicExpr, LogicExprView, Program,
    ProgramView, Stmt, StmtKind, StmtKindView, StmtView};
use crate::scope::str_eq;
use vstd::prelude::*;
use vstd::string::StrSliceExecFns;

verus! {

/// A syntax error, with the 1-based line and column it was noticed at.
#[derive(Clone, Copy, Debug, PartialEq, Eq, Structural)]
pub struct SyntaxError {
    pub line: usize,
    pub col: usize,
}

enum TokKind {
    Ident(String),
    Num(u64),
    Semi,
    Assign,
    LParen,
    RParen,
    LBrace,
    RBrace,
    Plus,
    Minus,
    Star,
    Slash,
    Men,
    MenIg,
    May,
    MayIg,
    IgIg,
    NoIg,
    AndAnd,
    OrOr,
}

struct Token {
    line: usize,
    col: usize,
    kind: TokKind,
}

/// The characters of `s`, in order.
fn str_chars(s: &str) -> (r: Vec<char>)
    ensures
        r@ == s@,
{
    let n = s.unicode_len();
    let mut r: Vec<char> = Vec::new();
    let mut i: usize = 0;
    while i < n
        invariant
            n == s@.len(),
            i <= n,
            r@ == s@.take(i as int),
        decreases n - i,
    {
        r.push(s.get_char(i));
        proof {
            assert(s@.take(i as int).push(s@[i as int]) =~= s@.take(i + 1));
        }
        i += 1;
    }
    proof {
        assert(s@.take(n as int) =~= s@);
    }
    r
}

pub open spec fn is_ident_start_spec(c: char) -> bool {
    let u = c as u32;
    (97 <= u <= 122) || (65 <= u <= 90) || u == 95
}

pub open spec fn is_digit_spec(c: char) -> bool {
    48 <= (c as u32) <= 57
}

pub open spec fn is_ident_char_spec(c: char) -> bool {
    is_ident_start_spec(c) || is_digit_spec(c)
}

fn is_ident_start(c: char) -> (r: bool)
    ensures
        r == is_ident_start_spec(c),
{
    let u = c as u32;
    (u >= 97 && u <= 122) || (u >= 65 && u <= 90) || u == 95
}

fn is_digit(c: char) -> (r: bool)
    ensures
        r == is_digit_spec(c),
{
    let u = c as u32;
    u >= 48 && u <= 57
}

fn is_ident_char(c: char) -> (r: bool)
    ensures
        r == is_ident_char_spec(c),
{
    is_ident_start(c) || is_digit(c)
}

pub open spec fn sat_inc_spec(x: usize) -> usize {
    if x < usize::MAX {
        (x + 1) as usize
    } else {
        x
    }
}

fn sat_inc(x: usize) -> (r: usize)
    ensures
        r == sat_inc_spec(x),
{
    if x < usize::MAX {
        x + 1
    } else {
        x
    }
}

/// Abstract value of a [`TokKind`]: identifier text as a character
/// sequence, everything else as itself.
pub enum TokKindV {
    Ident(Seq<char>),
    Num(u64),
    Semi,
    Assign,
    LParen,
    RParen,
    LBrace,
    RBrace,
    Plus,
    Minus,
    Star,
    Slash,
    Men,
    MenIg,
    May,
    MayIg,
    IgIg,
    NoIg,
    AndAnd,
    OrOr,
}

/// Abstract value of a [`Token`].
pub struct TokV {
    pub line: usize,
    pub col: usize,
    pub kind: TokKindV,
}

spec fn tok_view(t: Token) -> TokV {
    TokV {
        line: t.line,
        col: t.col,
        kind: match t.kind {
            TokKind::Ident(w) => TokKindV::Ident(w@),
            TokKind::Num(m) => TokKindV::Num(m),
            TokKind::Semi => TokKindV::Semi,
            TokKind::Assign => TokKindV::Assign,
            TokKind::LParen => TokKindV::LParen,
            TokKind::RParen => TokKindV::RParen,
            TokKind::LBrace => TokKindV::LBrace,
            TokKind::RBrace => TokKindV::RBrace,
            TokKind::Plus => TokKindV::Plus,
            TokKind::Minus => TokKindV::Minus,
            TokKind::Star => TokKindV::Star,
            TokKind::Slash => TokKindV::Slash,
            TokKind::Men => TokKindV::Men,
            TokKind::MenIg => TokKindV::MenIg,
            TokKind::May => TokKindV::May,
            TokKind::MayIg => TokKindV::MayIg,
            TokKind::IgIg => TokKindV::IgIg,
            TokKind::NoIg => TokKindV::NoIg,
            TokKind::AndAnd => TokKindV::AndAnd,
            TokKind::OrOr => TokKindV::OrOr,
        },
    }
}

spec fn toks_view(ts: Seq<Token>) -> Seq<TokV> {
    ts.map_values(|t: Token| tok_view(t))
}

/// First position at or after `i` that ends a comment: the next newline,
/// or the end of the input.
pub open spec fn skip_comment_end(cs: Seq<char>, i: int) -> int
    decreases cs.len() - i when 0 <= i <= cs.len()
{
    if i >= cs.len() || cs[i] == '\n' {
        i
    } else {
        skip_comment_end(cs, i + 1)
    }
}

/// Position and column after scanning identifier characters from `i`.
pub open spec fn ident_scan(cs: Seq<char>, i: int, col: usize) -> (int, usize)
    decreases cs.len() - i when 0 <= i <= cs.len()
{
    if i >= cs.len() || !is_ident_char_spec(cs[i]) {
        (i, col)
    } else {
        ident_scan(cs, i + 1, sat_inc_spec(col))
    }
}

/// Position, column, accumulated value and overflow flag after scanning
/// digits from `i`.
pub open spec fn num_scan(cs: Seq<char>, i: int, col: usize, value: u64, ok: bool) -> (
    int,
    usize,
    u64,
    bool,
)
    decreases cs.len() - i when 0 <= i <= cs.len()
{
    if i >= cs.len() || !is_digit_spec(cs[i]) {
        (i, col, value, ok)
    } else {
        let d = (cs[i] as u32 - 48) as u64;
        if value <= (u64::MAX - d) / 10 {
            num_scan(cs, i + 1, sat_inc_spec(col), (value * 10 + d) as u64, ok)
        } else {
            num_scan(cs, i + 1, sat_inc_spec(col), value, false)
        }
    }
}

/// What the lexer does at position `i`: skip ahead, produce one token, or
/// fail.
pub enum LexStep {
    Skip(int, usize, usize),
    Tok(int, usize, usize, TokV),
    Fail(SyntaxError),
}

/// One step of the lexer at position `i` (meaningful for `i` inside the
/// input): mirrors one iteration of [`lex`]'s scanning loop.
pub open spec fn lex_step(cs: Seq<char>, i: int, line: usize, col: usize) -> LexStep {
    let c = cs[i];
    let u = c as u32;
    if c == '\n' {
        LexStep::Skip(i + 1, sat_inc_spec(line), 1)
    } else if u == 32 || u == 9 || u == 13 {
        LexStep::Skip(i + 1, line, sat_inc_spec(col))
    } else if c == '/' && i + 1 < cs.len() && cs[i + 1] == '/' {
        LexStep::Skip(skip_comment_end(cs, i + 2), line, col)
    } else if is_ident_start_spec(c) {
        let r = ident_scan(cs, i + 1, sat_inc_spec(col));
        LexStep::Tok(
            r.0,
            line,
            r.1,
            TokV { line, col, kind: TokKindV::Ident(cs.subrange(i, r.0)) },
        )
    } else if is_digit_spec(c) {
        let r = num_scan(cs, i + 1, sat_inc_spec(col), (u - 48) as u64, true);
        if !r.3 {
            LexStep::Fail(SyntaxError { line, col })
        } else {
            LexStep::Tok(r.0, line, r.1, TokV { line, col, kind: TokKindV::Num(r.2) })
        }
    } else if c == ';' {
        lex_sym1(cs, i, line, col, TokKindV::Semi)
    } else if c == '(' {
        lex_sym1(cs, i, line, col, TokKindV::LParen)
    } else if c == ')' {
        lex_sym1(cs, i, line, col, TokKindV::RParen)
    } else if c == '{' {
        lex_sym1(cs, i, line, col, TokKindV::LBrace)
    } else if c == '}' {
        lex_sym1(cs, i, line, col, TokKindV::RBrace)
    } else if c == '+' {
        lex_sym1(cs, i, line, col, TokKindV::Plus)
    } else if c == '-' {
        lex_sym1(cs, i, line, col, TokKindV::Minus)
    } else if c == '*' {
        lex_sym1(cs, i, line, col, TokKindV::Star)
    } else if c == '/' {
        lex_sym1(cs, i, line, col, TokKindV::Slash)
    } else if c == '=' {
        if i + 1 < cs.len() && cs[i + 1] == '=' {
            lex_sym2(cs, i, line, col, TokKindV::IgIg)
        } else {
            lex_sym1(cs, i, line, col, TokKindV::Assign)
        }
    } else if c == '<' {
        if i + 1 < cs.len() && cs[i + 1] == '=' {
            lex_sym2(cs, i, line, col, TokKindV::MenIg)
        } else {
            lex_sym1(cs, i, line, col, TokKindV::Men)
        }
    } else if c == '>' {
        if i + 1 < cs.len() && cs[i + 1] == '=' {
            lex_sym2(cs, i, line, col, TokKindV::MayIg)
        } else {
            lex_sym1(cs, i, line, col, TokKindV::May)
        }
    } else if c == '!' {
        if i + 1 < cs.len() && cs[i + 1] == '=' {
            lex_sym2(cs, i, line, col, TokKindV::NoIg)
        } else {
            LexStep::Fail(SyntaxError { line, col })
        }
    } else if c == '&' {
        if i + 1 < cs.len() && cs[i + 1] == '&' {
            lex_sym2(cs, i, line, col, TokKindV::AndAnd)
        } else {
            LexStep::Fail(SyntaxError { line, col })
        }
    } else if c == '|' {
        if i + 1 < cs.len() && cs[i + 1] == '|' {
            lex_sym2(cs, i, line, col, TokKindV::OrOr)
        } else {
            LexStep::Fail(SyntaxError { line, col })
        }
    } else {
        LexStep::Fail(SyntaxError { line, col })
    }
}

/// A one-character symbol token at `i`.
pub open spec fn lex_sym1(cs: Seq<char>, i: int, line: usize, col: usize, kind: TokKindV) -> LexStep {
    LexStep::Tok(i + 1, line, sat_inc_spec(col), TokV { line, col, kind })
}

/// A two-character symbol token at `i`.
pub open spec fn lex_sym2(cs: Seq<char>, i: int, line: usize, col: usize, kind: TokKindV) -> LexStep {
    LexStep::Tok(i + 2, line, sat_inc_spec(sat_inc_spec(col)), TokV { line, col, kind })
}

proof fn lemma_skip_comment_bounds(cs: Seq<char>, i: int)
    requires
        0 <= i <= cs.len(),
    ensures
        i <= skip_comment_end(cs, i) <= cs.len(),
    decreases cs.len() - i,
{
    if i >= cs.len() || cs[i] == '\n' {
    } else {
        lemma_skip_comment_bounds(cs, i + 1);
    }
}

proof fn lemma_ident_scan_bounds(cs: Seq<char>, i: int, col: usize)
    requires
        0 <= i <= cs.len(),
    ensures
        i <= ident_scan(cs, i, col).0 <= cs.len(),
    decreases cs.len() - i,
{
    if i >= cs.len() || !is_ident_char_spec(cs[i]) {
    } else {
        lemma_ident_scan_bounds(cs, i + 1, sat_inc_spec(col));
    }
}

proof fn lemma_num_scan_bounds(cs: Seq<char>, i: int, col: usize, value: u64, ok: bool)
    requires
        0 <= i <= cs.len(),
    ensures
        i <= num_scan(cs, i, col, value, ok).0 <= cs.len(),
    decreases cs.len() - i,
{
    if i >= cs.len() || !is_digit_spec(cs[i]) {
    } else {
        let d = (cs[i] as u32 - 48) as u64;
        if value <= (u64::MAX - d) / 10 {
            lemma_num_scan_bounds(cs, i + 1, sat_inc_spec(col), (value * 10 + d) as u64, ok);
        } else {
            lemma_num_scan_bounds(cs, i + 1, sat_inc_spec(col), value, false);
        }
    }
}

/// A lexer step from inside the input always makes progress and stays
/// inside it.
proof fn lemma_lex_step_progress(cs: Seq<char>, i: int, line: usize, col: usize)
    requires
        0 <= i < cs.len(),
    ensures
        match lex_step(cs, i, line, col) {
            LexStep::Skip(i2, _, _) => i < i2 <= cs.len(),
            LexStep::Tok(i2, _, _, _) => i < i2 <= cs.len(),
            LexStep::Fail(_) => true,
        },
{
    if cs[i] == '/' && i + 1 < cs.len() && cs[i + 1] == '/' {
        lemma_skip_comment_bounds(cs, i + 2);
    }
    lemma_ident_scan_bounds(cs, i + 1, sat_inc_spec(col));
    lemma_num_scan_bounds(
        cs,
        i + 1,
        sat_inc_spec(col),
        (cs[i] as u32 - 48) as u64,
        true,
    );
}

/// The token list prefixed with one more token, passed through a result.
pub open spec fn cons_tok(t: TokV, r: Result<Seq<TokV>, SyntaxError>) -> Result<Seq<TokV>, SyntaxError> {
    match r {
        Ok(ts) => Ok(seq![t] + ts),
        Err(e) => Err(e),
    }
}

/// The tokens of `cs` from position `i` on, starting at the given source
/// line and column: the reference meaning of the lexer.
pub open spec fn lex_spec(cs: Seq<char>, i: int, line: usize, col: usize) -> Result<Seq<TokV>, SyntaxError>
    decreases cs.len() - i when 0 <= i <= cs.len() via lex_spec_decreases
{
    if i >= cs.len() {
        Ok(Seq::empty())
    } else {
        match lex_step(cs, i, line, col) {
            LexStep::Fail(e) => Err(e),
            LexStep::Skip(i2, l2, c2) => lex_spec(cs, i2, l2, c2),
            LexStep::Tok(i2, l2, c2, t) => cons_tok(t, lex_spec(cs, i2, l2, c2)),
        }
    }
}

#[via_fn]
proof fn lex_spec_decreases(cs: Seq<char>, i: int, line: usize, col: usize) {
    if i < cs.len() {
        lemma_lex_step_progress(cs, i, line, col);
    }
}

/// A token list result with `prefix` prepended on success.
spec fn lex_append(prefix: Seq<TokV>, r: Result<Seq<TokV>, SyntaxError>) -> Result<
    Seq<TokV>,
    SyntaxError,
> {
    match r {
        Ok(ts) => Ok(prefix + ts),
        Err(e) => Err(e),
    }
}

proof fn lemma_lex_append_tok(prefix: Seq<TokV>, t: TokV, r: Result<Seq<TokV>, SyntaxError>)
    ensures
        lex_append(prefix, cons_tok(t, r)) == lex_append(prefix.push(t), r),
{
    match r {
        Ok(ts) => {
            assert(prefix + (seq![t] + ts) =~= prefix.push(t) + ts);
        },
        Err(_) => {},
    }
}

/// View of the lexer's result.
spec fn lex_result_view(r: Result<Vec<Token>, SyntaxError>) -> Result<Seq<TokV>, SyntaxError> {
    match r {
        Ok(ts) => Ok(toks_view(ts@)),
        Err(e) => Err(e),
    }
}

/// Split `text` into tokens.  Whitespace separates tokens; `//` starts a
/// comment running to the end of the line.  The result is exactly what
/// [`lex_spec`] assigns to the text.
#[verifier::rlimit(100)]
fn lex(text: &str) -> (r: Result<Vec<Token>, SyntaxError>)
    ensures
        lex_result_view(r) == lex_spec(text@, 0, 1, 1),
        text@.len() == 0 ==> (r matches Ok(t) && t@.len() == 0),
{
    let chars = str_chars(text);
    let n = chars.len();
    let mut toks: Vec<Token> = Vec::new();
    let mut i: usize = 0;
    let mut line: usize = 1;
    let mut col: usize = 1;
    let ghost cs = text@;
    proof {
        assert(toks_view(toks@) =~= Seq::<TokV>::empty());
        match lex_spec(cs, 0, 1, 1) {
            Ok(ts) => {
                assert(Seq::<TokV>::empty() + ts =~= ts);
            },
            Err(_) => {},
        }
    }
    while i < n
        invariant
            cs == text@,
            chars@ == cs,
            n == chars@.len(),
            n == text@.len(),
            i <= n,
            n == 0 ==> toks@.len() == 0,
            lex_append(toks_view(toks@), lex_spec(cs, i as int, line, col)) == lex_spec(
                cs,
                0,
                1,
                1,
            ),
        decreases n - i,
    {
        let ghost i0 = i as int;
        let ghost line0 = line;
        let ghost col0 = col;
        let ghost prefix0 = toks_view(toks@);
        let c = chars[i];
        let u = c as u32;
        if c == '\n' {
            line = sat_inc(line);
            col = 1;
            i += 1;
            proof {
                assert(lex_step(cs, i0, line0, col0) == LexStep::Skip(i as int, line, col));
                assert(lex_spec(cs, i0, line0, col0) == lex_spec(cs, i as int, line, col));
            }
        } else if u == 32 || u == 9 || u == 13 {
            col = sat_inc(col);
            i += 1;
            proof {
                assert(lex_step(cs, i0, line0, col0) == LexStep::Skip(i as int, line, col));
                assert(lex_spec(cs, i0, line0, col0) == lex_spec(cs, i as int, line, col));
            }
        } else if c == '/' && i + 1 < n && chars[i + 1] == '/' {
            // comment: skip to end of line
            i += 2;
            let ghost istart = i as int;
            while i < n && chars[i] != '\n'
                invariant
                    cs == text@,
                    chars@ == cs,
                    n == chars@.len(),
                    0 <= istart <= i <= n,
                    skip_comment_end(cs, istart) == skip_comment_end(cs, i as int),
                decreases n - i,
            {
                i += 1;
            }
            proof {
                assert(skip_comment_end(cs, i as int) == i as int);
                assert(lex_step(cs, i0, line0, col0) == LexStep::Skip(i as int, line, col));
                assert(lex_spec(cs, i0, line0, col0) == lex_spec(cs, i as int, line, col));
            }
        } else if is_ident_start(c) {
            let start = i;
            let tok_line = line;
            let tok_col = col;
            col = sat_inc(col);
            i += 1;
            while i < n && is_ident_char(chars[i])
                invariant
                    cs == text@,
                    chars@ == cs,
                    n == chars@.len(),
                    n == text@.len(),
                    0 <= i0,
                    start < i <= n,
                    ident_scan(cs, i0 + 1, sat_inc_spec(col0)) == ident_scan(
                        cs,
                        i as int,
                        col,
                    ),
                    start == i0,
                decreases n - i,
            {
                col = sat_inc(col);
                i += 1;
            }
            proof {
                assert(ident_scan(cs, i as int, col) == (i as int, col));
            }
            let word = text.substring_char(start, i).to_owned();
            toks.push(Token { line: tok_line, col: tok_col, kind: TokKind::Ident(word) });
            proof {
                let tokv = TokV {
                    line: line0,
                    col: col0,
                    kind: TokKindV::Ident(cs.subrange(i0, i as int)),
                };
                assert(lex_step(cs, i0, line0, col0) == LexStep::Tok(i as int, line, col, tokv));
                assert(toks_view(toks@) =~= prefix0.push(tokv));
                assert(lex_spec(cs, i0, line0, col0) == cons_tok(
                    tokv,
                    lex_spec(cs, i as int, line, col),
                ));
                lemma_lex_append_tok(prefix0, tokv, lex_spec(cs, i as int, line, col));
            }
        } else if is_digit(c) {
            let tok_line = line;
            let tok_col = col;
            let mut value: u64 = (c as u32 - 48) as u64;
            let mut ok = true;
            col = sat_inc(col);
            i += 1;
            while i < n && is_digit(chars[i])
                invariant
                    cs == text@,
                    chars@ == cs,
                    n == chars@.len(),
                    0 <= i0 < i <= n,
                    num_scan(cs, i0 + 1, sat_inc_spec(col0), (cs[i0] as u32 - 48) as u64, true)
                        == num_scan(cs, i as int, col, value, ok),
                decreases n - i,
            {
                let d = (chars[i] as u32 - 48) as u64;
                if value <= (u64::MAX - d) / 10 {
                    value = value * 10 + d;
                } else {
                    ok = false;
                }
                col = sat_inc(col);
                i += 1;
            }
            proof {
                assert(num_scan(cs, i as int, col, value, ok) == (i as int, col, value, ok));
            }
            if !ok {
                proof {
                    assert(lex_step(cs, i0, line0, col0) == LexStep::Fail(
                        SyntaxError { line: line0, col: col0 },
                    ));
                    assert(lex_spec(cs, i0, line0, col0) == Err::<Seq<TokV>, SyntaxError>(
                        SyntaxError { line: line0, col: col0 },
                    ));
                }
                return Err(SyntaxError { line: tok_line, col: tok_col });
            }
            toks.push(Token { line: tok_line, col: tok_col, kind: TokKind::Num(value) });
            proof {
                let tokv = TokV { line: line0, col: col0, kind: TokKindV::Num(value) };
                assert(lex_step(cs, i0, line0, col0) == LexStep::Tok(i as int, line, col, tokv));
                assert(toks_view(toks@) =~= prefix0.push(tokv));
                assert(lex_spec(cs, i0, line0, col0) == cons_tok(
                    tokv,
                    lex_spec(cs, i as int, line, col),
                ));
                lemma_lex_append_tok(prefix0, tokv, lex_spec(cs, i as int, line, col));
            }
        } else {
            let tok_line = line;
            let tok_col = col;
            let two = i + 1 < n;
            let kind: TokKind = if c == ';' {
                TokKind::Semi
            } else if c == '(' {
                TokKind::LParen
            } else if c == ')' {
                TokKind::RParen
            } else if c == '{' {
                TokKind::LBrace
            } else if c == '}' {
                TokKind::RBrace
            } else if c == '+' {
                TokKind::Plus
            } else if c == '-' {
                TokKind::Minus
            } else if c == '*' {
                TokKind::Star
            } else if c == '/' {
                TokKind::Slash
            } else if c == '=' {
                if two && chars[i + 1] == '=' {
                    col = sat_inc(col);
                    i += 1;
                    TokKind::IgIg
                } else {
                    TokKind::Assign
                }
            } else if c == '<' {
                if two && chars[i + 1] == '=' {
                    col = sat_inc(col);
                    i += 1;
                    TokKind::MenIg
                } else {
                    TokKind::Men
                }
            } else if c == '>' {
                if two && chars[i + 1] == '=' {
                    col = sat_inc(col);
                    i += 1;
                    TokKind::MayIg
                } else {
                    TokKind::May
                }
            } else if c == '!' {
                if two && chars[i + 1] == '=' {
                    col = sat_inc(col);
                    i += 1;
                    TokKind::NoIg
                } else {
                    proof {
                        assert(lex_step(cs, i0, line0, col0) == LexStep::Fail(
                            SyntaxError { line: line0, col: col0 },
                        ));
                    }
                    return Err(SyntaxError { line: tok_line, col: tok_col });
                }
            } else if c == '&' {
                if two && chars[i + 1] == '&' {
                    col = sat_inc(col);
                    i += 1;
                    TokKind::AndAnd
                } else {
                    proof {
                        assert(lex_step(cs, i0, line0, col0) == LexStep::Fail(
                            SyntaxError { line: line0, col: col0 },
                        ));
                    }
                    return Err(SyntaxError { line: tok_line, col: tok_col });
                }
            } else if c == '|' {
                if two && chars[i + 1] == '|' {
                    col = sat_inc(col);
                    i += 1;
                    TokKind::OrOr
                } else {
                    proof {
                        assert(lex_step(cs, i0, line0, col0) == LexStep::Fail(
                            SyntaxError { line: line0, col: col0 },
                        ));
                    }
                    return Err(SyntaxError { line: tok_line, col: tok_col });
                }
            } else {
                proof {
                    assert(lex_step(cs, i0, line0, col0) == LexStep::Fail(
                        SyntaxError { line: line0, col: col0 },
                    ));
                }
                return Err(SyntaxError { line: tok_line, col: tok_col });
            };
            toks.push(Token { line: tok_line, col: tok_col, kind });
            col = sat_inc(col);
            i += 1;
            proof {
                let tokv = tok_view(toks@.last());
                assert(lex_step(cs, i0, line0, col0) == LexStep::Tok(i as int, line, col, tokv));
                assert(toks_view(toks@) =~= prefix0.push(tokv));
                assert(lex_spec(cs, i0, line0, col0) == cons_tok(
                    tokv,
                    lex_spec(cs, i as int, line, col),
                ));
                lemma_lex_append_tok(prefix0, tokv, lex_spec(cs, i as int, line, col));
            }
        }
    }
    proof {
        assert(lex_spec(cs, i as int, line, col) == Ok::<Seq<TokV>, SyntaxError>(Seq::empty()));
        assert(toks_view(toks@) + Seq::<TokV>::empty() =~= toks_view(toks@));
    }
    Ok(toks)
}

/// A syntax error at token `pos` (or at the end of the input).
fn err_at(toks: &Vec<Token>, pos: usize) -> (r: SyntaxError)
    ensures
        r == err_at_spec(toks_view(toks@), pos as int),
{
    if pos < toks.len() {
        SyntaxError { line: toks[pos].line, col: toks[pos].col }
    } else if toks.len() > 0 {
        SyntaxError { line: toks[toks.len() - 1].line, col: toks[toks.len() - 1].col }
    } else {
        SyntaxError { line: 1, col: 1 }
    }
}

/// The error reported at token `pos` (or at the end of the input).
pub open spec fn err_at_spec(ts: Seq<TokV>, pos: int) -> SyntaxError {
    if 0 <= pos < ts.len() {
        SyntaxError { line: ts[pos].line, col: ts[pos].col }
    } else if ts.len() > 0 {
        SyntaxError { line: ts[ts.len() - 1].line, col: ts[ts.len() - 1].col }
    } else {
        SyntaxError { line: 1, col: 1 }
    }
}

pub open spec fn mul_op_at_spec(ts: Seq<TokV>, p: int) -> bool {
    0 <= p < ts.len() && (ts[p].kind is Star || ts[p].kind is Slash)
}

pub open spec fn add_op_at_spec(ts: Seq<TokV>, p: int) -> bool {
    0 <= p < ts.len() && (ts[p].kind is Plus || ts[p].kind is Minus)
}

pub open spec fn and_op_at_spec(ts: Seq<TokV>, p: int) -> bool {
    0 <= p < ts.len() && ts[p].kind is AndAnd
}

pub open spec fn or_op_at_spec(ts: Seq<TokV>, p: int) -> bool {
    0 <= p < ts.len() && ts[p].kind is OrOr
}

pub open spec fn cmp_op_at_spec(ts: Seq<TokV>, p: int) -> Option<CmpOp> {
    if 0 <= p < ts.len() {
        match ts[p].kind {
            TokKindV::Men => Some(CmpOp::Men),
            TokKindV::MenIg => Some(CmpOp::MenIg),
            TokKindV::May => Some(CmpOp::May),
            TokKindV::MayIg => Some(CmpOp::MayIg),
            TokKindV::IgIg => Some(CmpOp::Ig),
            TokKindV::NoIg => Some(CmpOp::NoIg),
            _ => None,
        }
    } else {
        None
    }
}

// ---------------------------------------------------------------------
// The token-to-tree meaning of the expression grammar: one total spec
// function per parsing function, producing the abstract tree.  The
// `pos < p2` guards mirror the parsers' proved progress (every
// sub-parse advances); their failure branches are never taken.
// ---------------------------------------------------------------------

/// A literal, variable reference, or parenthesized arithmetic expression.
pub open spec fn parse_primary_spec(ts: Seq<TokV>, pos: int) -> Result<(ExprView, int), SyntaxError>
    decreases ts.len() - pos, 0int when 0 <= pos <= ts.len()
{
    if pos >= ts.len() {
        Err(err_at_spec(ts, pos))
    } else {
        match ts[pos].kind {
            TokKindV::Num(m) => if m <= isize::MAX as u64 {
                Ok((ExprView::Int(m as isize), pos + 1))
            } else {
                Err(err_at_spec(ts, pos))
            },
            TokKindV::Minus => if pos + 1 >= ts.len() {
                Err(err_at_spec(ts, pos))
            } else {
                match ts[pos + 1].kind {
                    TokKindV::Num(m) => if m <= isize::MAX as u64 {
                        Ok((ExprView::Int((-(m as isize)) as isize), pos + 2))
                    } else if m == isize::MAX as u64 + 1 {
                        Ok((ExprView::Int(isize::MIN), pos + 2))
                    } else {
                        Err(err_at_spec(ts, pos + 1))
                    },
                    _ => Err(err_at_spec(ts, pos)),
                }
            },
            TokKindV::Ident(w) => Ok((ExprView::Var(w), pos + 1)),
            TokKindV::LParen => match parse_expr_spec(ts, pos + 1) {
                Ok((e, p2)) => if p2 < ts.len() && ts[p2].kind is RParen {
                    Ok((e, p2 + 1))
                } else {
                    Err(err_at_spec(ts, p2))
                },
                Err(e) => Err(e),
            },
            _ => Err(err_at_spec(ts, pos)),
        }
    }
}

/// Left fold of `*` / `/` onto `acc`.
pub open spec fn parse_term_rest_spec(ts: Seq<TokV>, pos: int, acc: ExprView) -> Result<
    (ExprView, int),
    SyntaxError,
>
    decreases ts.len() - pos, 1int when 0 <= pos <= ts.len()
{
    if !mul_op_at_spec(ts, pos) {
        Ok((acc, pos))
    } else {
        match parse_primary_spec(ts, pos + 1) {
            Err(e) => Err(e),
            Ok((rhs, p2)) => if pos < p2 <= ts.len() {
                parse_term_rest_spec(
                    ts,
                    p2,
                    if ts[pos].kind is Star {
                        ExprView::Mul(Box::new(acc), Box::new(rhs))
                    } else {
                        ExprView::Div(Box::new(acc), Box::new(rhs))
                    },
                )
            } else {
                Err(err_at_spec(ts, pos))
            },
        }
    }
}

/// A product: primaries joined by left-associative `*` and `/`.
pub open spec fn parse_term_spec(ts: Seq<TokV>, pos: int) -> Result<(ExprView, int), SyntaxError>
    decreases ts.len() - pos, 2int when 0 <= pos <= ts.len()
{
    match parse_primary_spec(ts, pos) {
        Err(e) => Err(e),
        Ok((e0, p0)) => if pos < p0 <= ts.len() {
            parse_term_rest_spec(ts, p0, e0)
        } else {
            Err(err_at_spec(ts, pos))
        },
    }
}

/// Left fold of `+` / `-` onto `acc`.
pub open spec fn parse_expr_rest_spec(ts: Seq<TokV>, pos: int, acc: ExprView) -> Result<
    (ExprView, int),
    SyntaxError,
>
    decreases ts.len() - pos, 3int when 0 <= pos <= ts.len()
{
    if !add_op_at_spec(ts, pos) {
        Ok((acc, pos))
    } else {
        match parse_term_spec(ts, pos + 1) {
            Err(e) => Err(e),
            Ok((rhs, p2)) => if pos < p2 <= ts.len() {
                parse_expr_rest_spec(
                    ts,
                    p2,
                    if ts[pos].kind is Plus {
                        ExprView::Add(Box::new(acc), Box::new(rhs))
                    } else {
                        ExprView::Sub(Box::new(acc), Box::new(rhs))
                    },
                )
            } else {
                Err(err_at_spec(ts, pos))
            },
        }
    }
}

/// A sum: products joined by left-associative `+` and `-`.
pub open spec fn parse_expr_spec(ts: Seq<TokV>, pos: int) -> Result<(ExprView, int), SyntaxError>
    decreases ts.len() - pos, 4int when 0 <= pos <= ts.len()
{
    match parse_term_spec(ts, pos) {
        Err(e) => Err(e),
        Ok((e0, p0)) => if pos < p0 <= ts.len() {
            parse_expr_rest_spec(ts, p0, e0)
        } else {
            Err(err_at_spec(ts, pos))
        },
    }
}

/// A parenthesized logical sub-expression.
pub open spec fn parse_logic_paren_spec(ts: Seq<TokV>, pos: int) -> Result<
    (LogicExprView, int),
    SyntaxError,
>
    decreases ts.len() - pos, 5int when 0 <= pos <= ts.len()
{
    if 0 <= pos < ts.len() && ts[pos].kind is LParen {
        match parse_logic_expr_spec(ts, pos + 1) {
            Ok((e, p2)) => if p2 < ts.len() && ts[p2].kind is RParen {
                Ok((e, p2 + 1))
            } else {
                Err(err_at_spec(ts, p2))
            },
            Err(e) => Err(e),
        }
    } else {
        Err(err_at_spec(ts, pos))
    }
}

/// A comparison `arith <cmp> arith`, or a parenthesized logical
/// sub-expression.
pub open spec fn parse_logic_term_spec(ts: Seq<TokV>, pos: int) -> Result<
    (LogicExprView, int),
    SyntaxError,
>
    decreases ts.len() - pos, 6int when 0 <= pos <= ts.len()
{
    match parse_expr_spec(ts, pos) {
        Ok((lhs, p1)) => match cmp_op_at_spec(ts, p1) {
            Some(op) => if pos < p1 {
                match parse_expr_spec(ts, p1 + 1) {
                    Err(e) => Err(e),
                    Ok((rhs, p2)) => Ok(
                        (LogicExprView::Comp(Box::new(lhs), op, Box::new(rhs)), p2),
                    ),
                }
            } else {
                Err(err_at_spec(ts, pos))
            },
            None => parse_logic_paren_spec(ts, pos),
        },
        Err(_) => parse_logic_paren_spec(ts, pos),
    }
}

/// Left fold of `&&` onto `acc`.
pub open spec fn parse_logic_and_rest_spec(ts: Seq<TokV>, pos: int, acc: LogicExprView) -> Result<
    (LogicExprView, int),
    SyntaxError,
>
    decreases ts.len() - pos, 7int when 0 <= pos <= ts.len()
{
    if !and_op_at_spec(ts, pos) {
        Ok((acc, pos))
    } else {
        match parse_logic_term_spec(ts, pos + 1) {
            Err(e) => Err(e),
            Ok((rhs, p2)) => if pos < p2 <= ts.len() {
                parse_logic_and_rest_spec(
                    ts,
                    p2,
                    LogicExprView::And(Box::new(acc), Box::new(rhs)),
                )
            } else {
                Err(err_at_spec(ts, pos))
            },
        }
    }
}

/// A conjunction: comparison terms joined by left-associative `&&`.
pub open spec fn parse_logic_and_spec(ts: Seq<TokV>, pos: int) -> Result<
    (LogicExprView, int),
    SyntaxError,
>
    decreases ts.len() - pos, 8int when 0 <= pos <= ts.len()
{
    match parse_logic_term_spec(ts, pos) {
        Err(e) => Err(e),
        Ok((e0, p0)) => if pos < p0 <= ts.len() {
            parse_logic_and_rest_spec(ts, p0, e0)
        } else {
            Err(err_at_spec(ts, pos))
        },
    }
}

/// Left fold of `||` onto `acc`.
pub open spec fn parse_logic_or_rest_spec(ts: Seq<TokV>, pos: int, acc: LogicExprView) -> Result<
    (LogicExprView, int),
    SyntaxError,
>
    decreases ts.len() - pos, 9int when 0 <= pos <= ts.len()
{
    if !or_op_at_spec(ts, pos) {
        Ok((acc, pos))
    } else {
        match parse_logic_and_spec(ts, pos + 1) {
            Err(e) => Err(e),
            Ok((rhs, p2)) => if pos < p2 <= ts.len() {
                parse_logic_or_rest_spec(ts, p2, LogicExprView::Or(Box::new(acc), Box::new(rhs)))
            } else {
                Err(err_at_spec(ts, pos))
            },
        }
    }
}

/// A disjunction: conjunctions joined by left-associative `||` (`&&`
/// binds tighter).
pub open spec fn parse_logic_expr_spec(ts: Seq<TokV>, pos: int) -> Result<
    (LogicExprView, int),
    SyntaxError,
>
    decreases ts.len() - pos, 10int when 0 <= pos <= ts.len()
{
    match parse_logic_and_spec(ts, pos) {
        Err(e) => Err(e),
        Ok((e0, p0)) => if pos < p0 <= ts.len() {
            parse_logic_or_rest_spec(ts, p0, e0)
        } else {
            Err(err_at_spec(ts, pos))
        },
    }
}

/// View of an expression-parse result.
pub open spec fn expr_result_view(r: Result<(Expr, usize), SyntaxError>) -> Result<
    (ExprView, int),
    SyntaxError,
> {
    match r {
        Ok((e, p)) => Ok((expr_view(e), p as int)),
        Err(e) => Err(e),
    }
}

/// View of a logical-expression-parse result.
pub open spec fn logic_expr_result_view(r: Result<(LogicExpr, usize), SyntaxError>) -> Result<
    (LogicExprView, int),
    SyntaxError,
> {
    match r {
        Ok((e, p)) => Ok((logic_view(e), p as int)),
        Err(e) => Err(e),
    }
}

fn mul_op_at(toks: &Vec<Token>, p: usize) -> (r: bool)
    ensures
        r == mul_op_at_spec(toks_view(toks@), p as int),
        r ==> p < toks@.len() && p < usize::MAX,
{
    p < toks.len() && (matches!(toks[p].kind, TokKind::Star) || matches!(
        toks[p].kind,
        TokKind::Slash,
    ))
}

fn add_op_at(toks: &Vec<Token>, p: usize) -> (r: bool)
    ensures
        r == add_op_at_spec(toks_view(toks@), p as int),
        r ==> p < toks@.len() && p < usize::MAX,
{
    p < toks.len() && (matches!(toks[p].kind, TokKind::Plus) || matches!(
        toks[p].kind,
        TokKind::Minus,
    ))
}

fn and_op_at(toks: &Vec<Token>, p: usize) -> (r: bool)
    ensures
        r == and_op_at_spec(toks_view(toks@), p as int),
        r ==> p < toks@.len() && p < usize::MAX,
{
    p < toks.len() && matches!(toks[p].kind, TokKind::AndAnd)
}

fn or_op_at(toks: &Vec<Token>, p: usize) -> (r: bool)
    ensures
        r == or_op_at_spec(toks_view(toks@), p as int),
        r ==> p < toks@.len() && p < usize::MAX,
{
    p < toks.len() && matches!(toks[p].kind, TokKind::OrOr)
}

fn cmp_op_at(toks: &Vec<Token>, p: usize) -> (r: Option<CmpOp>)
    ensures
        r == cmp_op_at_spec(toks_view(toks@), p as int),
        r is Some ==> p < toks@.len() && p < usize::MAX,
{
    if p < toks.len() {
        match toks[p].kind {
            TokKind::Men => Some(CmpOp::Men),
            TokKind::MenIg => Some(CmpOp::MenIg),
            TokKind::May => Some(CmpOp::May),
            TokKind::MayIg => Some(CmpOp::MayIg),
            TokKind::IgIg => Some(CmpOp::Ig),
            TokKind::NoIg => Some(CmpOp::NoIg),
            _ => None,
        }
    } else {
        None
    }
}

/// A literal, variable reference, or parenthesized arithmetic expression.
fn parse_primary(toks: &Vec<Token>, pos: usize) -> (r: Result<(Expr, usize), SyntaxError>)
    requires
        pos <= toks@.len(),
    ensures
        r matches Ok(p) ==> pos < p.1 <= toks@.len(),
        expr_result_view(r) == parse_primary_spec(toks_view(toks@), pos as int),
    decreases toks@.len() - pos, 0int,
{
    if pos >= toks.len() {
        return Err(err_at(toks, pos));
    }
    match &toks[pos].kind {
        TokKind::Num(m) => {
            let m = *m;
            if m <= isize::MAX as u64 {
                Ok((Expr::Int(m as isize), pos + 1))
            } else {
                Err(err_at(toks, pos))
            }
        },
        TokKind::Minus => {
            if pos + 1 >= toks.len() {
                return Err(err_at(toks, pos));
            }
            match &toks[pos + 1].kind {
                TokKind::Num(m) => {
                    let m = *m;
                    if m <= isize::MAX as u64 {
                        Ok((Expr::Int(-(m as isize)), pos + 2))
                    } else if m == isize::MAX as u64 + 1 {
                        Ok((Expr::Int(isize::MIN), pos + 2))
                    } else {
                        Err(err_at(toks, pos + 1))
                    }
                },
                _ => Err(err_at(toks, pos)),
            }
        },
        TokKind::Ident(w) => Ok((Expr::Var(w.clone()), pos + 1)),
        TokKind::LParen => {
            match parse_expr(toks, pos + 1) {
                Ok((e, p2)) => {
                    if p2 < toks.len() && matches!(toks[p2].kind, TokKind::RParen) {
                        Ok((e, p2 + 1))
                    } else {
                        Err(err_at(toks, p2))
                    }
                },
                Err(e) => Err(e),
            }
        },
        _ => Err(err_at(toks, pos)),
    }
}

/// A product: primaries joined by left-associative `*` and `/`.
fn parse_term(toks: &Vec<Token>, pos: usize) -> (r: Result<(Expr, usize), SyntaxError>)
    requires
        pos <= toks@.len(),
    ensures
        r matches Ok(p) ==> pos < p.1 <= toks@.len(),
        expr_result_view(r) == parse_term_spec(toks_view(toks@), pos as int),
    decreases toks@.len() - pos, 1int,
{
    let ghost tsv = toks_view(toks@);
    let first = match parse_primary(toks, pos) {
        Ok(x) => x,
        Err(e) => {
            return Err(e);
        },
    };
    let mut acc = first.0;
    let mut p = first.1;
    while mul_op_at(toks, p)
        invariant
            pos < p <= toks@.len(),
            tsv == toks_view(toks@),
            parse_term_spec(tsv, pos as int) == parse_term_rest_spec(tsv, p as int, expr_view(acc)),
        decreases toks@.len() - p,
    {
        let is_mul = matches!(toks[p].kind, TokKind::Star);
        match parse_primary(toks, p + 1) {
            Ok((rhs, p2)) => {
                acc = if is_mul {
                    Expr::Mul(Box::new(acc), Box::new(rhs))
                } else {
                    Expr::Div(Box::new(acc), Box::new(rhs))
                };
                p = p2;
            },
            Err(e) => {
                return Err(e);
            },
        }
    }
    Ok((acc, p))
}

/// A sum: products joined by left-associative `+` and `-`.
fn parse_expr(toks: &Vec<Token>, pos: usize) -> (r: Result<(Expr, usize), SyntaxError>)
    requires
        pos <= toks@.len(),
    ensures
        r matches Ok(p) ==> pos < p.1 <= toks@.len(),
        expr_result_view(r) == parse_expr_spec(toks_view(toks@), pos as int),
    decreases toks@.len() - pos, 2int,
{
    let ghost tsv = toks_view(toks@);
    let first = match parse_term(toks, pos) {
        Ok(x) => x,
        Err(e) => {
            return Err(e);
        },
    };
    let mut acc = first.0;
    let mut p = first.1;
    while add_op_at(toks, p)
        invariant
            pos < p <= toks@.len(),
            tsv == toks_view(toks@),
            parse_expr_spec(tsv, pos as int) == parse_expr_rest_spec(tsv, p as int, expr_view(acc)),
        decreases toks@.len() - p,
    {
        let is_add = matches!(toks[p].kind, TokKind::Plus);
        match parse_term(toks, p + 1) {
            Ok((rhs, p2)) => {
                acc = if is_add {
                    Expr::Add(Box::new(acc), Box::new(rhs))
                } else {
                    Expr::Sub(Box::new(acc), Box::new(rhs))
                };
                p = p2;
            },
            Err(e) => {
                return Err(e);
            },
        }
    }
    Ok((acc, p))
}

/// A comparison `arith <cmp> arith`, or a parenthesized logical
/// sub-expression.
fn parse_logic_term(toks: &Vec<Token>, pos: usize) -> (r: Result<(LogicExpr, usize), SyntaxError>)
    requires
        pos <= toks@.len(),
    ensures
        r matches Ok(p) ==> pos < p.1 <= toks@.len(),
        logic_expr_result_view(r) == parse_logic_term_spec(toks_view(toks@), pos as int),
    decreases toks@.len() - pos, 3int,
{
    match parse_expr(toks, pos) {
        Ok((lhs, p1)) => {
            match cmp_op_at(toks, p1) {
                Some(op) => {
                    match parse_expr(toks, p1 + 1) {
                        Ok((rhs, p2)) => {
                            return Ok((LogicExpr::Comp(Box::new(lhs), op, Box::new(rhs)), p2));
                        },
                        Err(e) => {
                            return Err(e);
                        },
                    }
                },
                None => {},  // fall through to the parenthesized form
            }
        },
        Err(_) => {},  // fall through to the parenthesized form
    }
    if pos < toks.len() && matches!(toks[pos].kind, TokKind::LParen) {
        match parse_logic_expr(toks, pos + 1) {
            Ok((e, p2)) => {
                if p2 < toks.len() && matches!(toks[p2].kind, TokKind::RParen) {
                    Ok((e, p2 + 1))
                } else {
                    Err(err_at(toks, p2))
                }
            },
            Err(e) => Err(e),
        }
    } else {
        Err(err_at(toks, pos))
    }
}

/// A conjunction: comparison terms joined by left-associative `&&`.
fn parse_logic_and(toks: &Vec<Token>, pos: usize) -> (r: Result<(LogicExpr, usize), SyntaxError>)
    requires
        pos <= toks@.len(),
    ensures
        r matches Ok(p) ==> pos < p.1 <= toks@.len(),
        logic_expr_result_view(r) == parse_logic_and_spec(toks_view(toks@), pos as int),
    decreases toks@.len() - pos, 4int,
{
    let ghost tsv = toks_view(toks@);
    let first = match parse_logic_term(toks, pos) {
        Ok(x) => x,
        Err(e) => {
            return Err(e);
        },
    };
    let mut acc = first.0;
    let mut p = first.1;
    while and_op_at(toks, p)
        invariant
            pos < p <= toks@.len(),
            tsv == toks_view(toks@),
            parse_logic_and_spec(tsv, pos as int) == parse_logic_and_rest_spec(
                tsv,
                p as int,
                logic_view(acc),
            ),
        decreases toks@.len() - p,
    {
        match parse_logic_term(toks, p + 1) {
            Ok((rhs, p2)) => {
                acc = LogicExpr::And(Box::new(acc), Box::new(rhs));
                p = p2;
            },
            Err(e) => {
                return Err(e);
            },
        }
    }
    Ok((acc, p))
}

/// A disjunction: conjunctions joined by left-associative `||` (`&&` binds
/// tighter).
fn parse_logic_expr(toks: &Vec<Token>, pos: usize) -> (r: Result<(LogicExpr, usize), SyntaxError>)
    requires
        pos <= toks@.len(),
    ensures
        r matches Ok(p) ==> pos < p.1 <= toks@.len(),
        logic_expr_result_view(r) == parse_logic_expr_spec(toks_view(toks@), pos as int),
    decreases toks@.len() - pos, 5int,
{
    let ghost tsv = toks_view(toks@);
    let first = match parse_logic_and(toks, pos) {
        Ok(x) => x,
        Err(e) => {
            return Err(e);
        },
    };
    let mut acc = first.0;
    let mut p = first.1;
    while or_op_at(toks, p)
        invariant
            pos < p <= toks@.len(),
            tsv == toks_view(toks@),
            parse_logic_expr_spec(tsv, pos as int) == parse_logic_or_rest_spec(
                tsv,
                p as int,
                logic_view(acc),
            ),
        decreases toks@.len() - p,
    {
        match parse_logic_and(toks, p + 1) {
            Ok((rhs, p2)) => {
                acc = LogicExpr::Or(Box::new(acc), Box::new(rhs));
                p = p2;
            },
            Err(e) => {
                return Err(e);
            },
        }
    }
    Ok((acc, p))
}

proof fn lemma_prefix_index<A>(a: Seq<A>, b: Seq<A>, i: int)
    requires
        a.is_prefix_of(b),
        0 <= i < a.len(),
    ensures
        a[i] == b[i],
{
    assert(a[i] == b.subrange(0, a.len() as int)[i]);
}

proof fn lemma_prefix_trans<A>(a: Seq<A>, b: Seq<A>, c: Seq<A>)
    requires
        a.is_prefix_of(b),
        b.is_prefix_of(c),
    ensures
        a.is_prefix_of(c),
{
    assert forall|i: int| 0 <= i < a.len() implies a[i] == c.subrange(0, a.len() as int)[i] by {
        lemma_prefix_index(a, b, i);
        lemma_prefix_index(b, c, i);
    }
    assert(a =~= c.subrange(0, a.len() as int));
}

/// A statement stays well formed when the arena grows and the containing
/// block's index does not shrink.
proof fn lemma_stmt_wf_mono(s: Stmt, bs1: Seq<Vec<Stmt>>, bs2: Seq<Vec<Stmt>>, b1: int, b2: int)
    requires
        stmt_wf(s, bs1, b1),
        bs1.is_prefix_of(bs2),
        b1 <= bs1.len(),
        b1 <= b2,
    ensures
        stmt_wf(s, bs2, b2),
{
    match s.kind {
        StmtKind::Si(_, t, e) => {
            lemma_prefix_index(bs1, bs2, t as int);
            match e {
                Some(eb) => {
                    lemma_prefix_index(bs1, bs2, eb as int);
                },
                None => {},
            }
        },
        StmtKind::Mientras(_, t) => {
            lemma_prefix_index(bs1, bs2, t as int);
        },
        _ => {},
    }
}

/// Token `p` is the identifier `word`.
pub open spec fn ident_is(ts: Seq<TokV>, p: int, word: Seq<char>) -> bool {
    0 <= p < ts.len() && match ts[p].kind {
        TokKindV::Ident(w) => w == word,
        _ => false,
    }
}

/// A statement can start at token `p` (every statement starts with a
/// word).
pub open spec fn stmt_starts_spec(ts: Seq<TokV>, p: int) -> bool {
    0 <= p < ts.len() && ts[p].kind is Ident
}

// ---------------------------------------------------------------------
// The token-to-tree meaning of the statement grammar.  Each function
// threads the abstract body arena the way its executable counterpart
// threads the concrete one; the `pos < p2` guards again mirror proved
// progress and are never taken.
// ---------------------------------------------------------------------

/// `si (<logic>) { <stmts> }` with an optional `otro { <stmts> }`.
pub open spec fn parse_si_spec(ts: Seq<TokV>, pos: int, blocks: Seq<Seq<StmtView>>) -> Result<
    (StmtView, int, Seq<Seq<StmtView>>),
    SyntaxError,
>
    decreases ts.len() - pos, 11int when 0 <= pos <= ts.len()
{
    if !(pos + 1 < ts.len() && ts[pos + 1].kind is LParen) {
        Err(err_at_spec(ts, if pos < ts.len() { pos + 1 } else { pos }))
    } else {
        match parse_logic_expr_spec(ts, pos + 2) {
            Err(e) => Err(e),
            Ok((guard, p1)) => if !(p1 < ts.len() && ts[p1].kind is RParen) {
                Err(err_at_spec(ts, p1))
            } else if p1 <= pos {
                Err(err_at_spec(ts, pos))
            } else {
                match parse_block_body_spec(ts, p1 + 1, blocks) {
                    Err(e) => Err(e),
                    Ok((tb, p2, line2, blocks2)) => if ident_is(ts, p2, "otro"@) {
                        if p2 <= pos {
                            Err(err_at_spec(ts, pos))
                        } else {
                            match parse_block_body_spec(ts, p2 + 1, blocks2) {
                                Err(e) => Err(e),
                                Ok((eb, p3, line3, blocks3)) => Ok(
                                    (
                                        StmtView {
                                            line: line3,
                                            kind: StmtKindView::Si(guard, tb, Some(eb)),
                                        },
                                        p3,
                                        blocks3,
                                    ),
                                ),
                            }
                        }
                    } else {
                        Ok(
                            (
                                StmtView { line: line2, kind: StmtKindView::Si(guard, tb, None) },
                                p2,
                                blocks2,
                            ),
                        )
                    },
                }
            },
        }
    }
}

/// `mientras (<logic>) { <stmts> }`.
pub open spec fn parse_mientras_spec(ts: Seq<TokV>, pos: int, blocks: Seq<Seq<StmtView>>) -> Result<
    (StmtView, int, Seq<Seq<StmtView>>),
    SyntaxError,
>
    decreases ts.len() - pos, 11int when 0 <= pos <= ts.len()
{
    if !(pos + 1 < ts.len() && ts[pos + 1].kind is LParen) {
        Err(err_at_spec(ts, if pos < ts.len() { pos + 1 } else { pos }))
    } else {
        match parse_logic_expr_spec(ts, pos + 2) {
            Err(e) => Err(e),
            Ok((guard, p1)) => if !(p1 < ts.len() && ts[p1].kind is RParen) {
                Err(err_at_spec(ts, p1))
            } else if p1 <= pos {
                Err(err_at_spec(ts, pos))
            } else {
                match parse_block_body_spec(ts, p1 + 1, blocks) {
                    Err(e) => Err(e),
                    Ok((tb, p2, line2, blocks2)) => Ok(
                        (
                            StmtView { line: line2, kind: StmtKindView::Mientras(guard, tb) },
                            p2,
                            blocks2,
                        ),
                    ),
                }
            },
        }
    }
}

/// One statement, starting at token `pos`.
pub open spec fn parse_stmt_spec(ts: Seq<TokV>, pos: int, blocks: Seq<Seq<StmtView>>) -> Result<
    (StmtView, int, Seq<Seq<StmtView>>),
    SyntaxError,
>
    decreases ts.len() - pos, 12int when 0 <= pos <= ts.len()
{
    if pos >= ts.len() {
        Err(err_at_spec(ts, pos))
    } else {
        match ts[pos].kind {
            TokKindV::Ident(w) => if w == "var"@ && pos + 1 < ts.len() && ts[pos + 1].kind
                is Ident {
                let name = match ts[pos + 1].kind {
                    TokKindV::Ident(n) => n,
                    _ => Seq::empty(),
                };
                if !(pos + 2 < ts.len() && ts[pos + 2].kind is Assign) {
                    Err(err_at_spec(ts, pos + 2))
                } else {
                    match parse_expr_spec(ts, pos + 3) {
                        Err(e) => Err(e),
                        Ok((e, p2)) => if p2 < ts.len() && ts[p2].kind is Semi {
                            Ok(
                                (
                                    StmtView {
                                        line: ts[p2].line,
                                        kind: StmtKindView::Decl(name, e),
                                    },
                                    p2 + 1,
                                    blocks,
                                ),
                            )
                        } else {
                            Err(err_at_spec(ts, p2))
                        },
                    }
                }
            } else if pos + 1 < ts.len() && ts[pos + 1].kind is Assign {
                match parse_expr_spec(ts, pos + 2) {
                    Err(e) => Err(e),
                    Ok((e, p2)) => if p2 < ts.len() && ts[p2].kind is Semi {
                        Ok(
                            (
                                StmtView { line: ts[p2].line, kind: StmtKindView::Asig(w, e) },
                                p2 + 1,
                                blocks,
                            ),
                        )
                    } else {
                        Err(err_at_spec(ts, p2))
                    },
                }
            } else if w == "si"@ {
                parse_si_spec(ts, pos, blocks)
            } else if w == "mientras"@ {
                parse_mientras_spec(ts, pos, blocks)
            } else if w == "gira"@ {
                if pos + 2 < ts.len() && ident_is(ts, pos + 1, "izquierda"@) && ts[pos + 2].kind
                    is Semi {
                    Ok(
                        (
                            StmtView {
                                line: ts[pos + 2].line,
                                kind: StmtKindView::Gira(Giro::Izquierda),
                            },
                            pos + 3,
                            blocks,
                        ),
                    )
                } else if pos + 2 < ts.len() && ident_is(ts, pos + 1, "derecha"@) && ts[pos
                    + 2].kind is Semi {
                    Ok(
                        (
                            StmtView {
                                line: ts[pos + 2].line,
                                kind: StmtKindView::Gira(Giro::Derecha),
                            },
                            pos + 3,
                            blocks,
                        ),
                    )
                } else {
                    Err(err_at_spec(ts, pos + 1))
                }
            } else if w == "avanza"@ {
                if pos + 1 < ts.len() && ts[pos + 1].kind is Semi {
                    Ok(
                        (
                            StmtView { line: ts[pos + 1].line, kind: StmtKindView::Avanza },
                            pos + 2,
                            blocks,
                        ),
                    )
                } else {
                    Err(err_at_spec(ts, pos + 1))
                }
            } else if w == "dispara"@ {
                if pos + 1 < ts.len() && ts[pos + 1].kind is Semi {
                    Ok(
                        (
                            StmtView { line: ts[pos + 1].line, kind: StmtKindView::Dispara },
                            pos + 2,
                            blocks,
                        ),
                    )
                } else {
                    Err(err_at_spec(ts, pos + 1))
                }
            } else {
                Err(err_at_spec(ts, pos))
            },
            _ => Err(err_at_spec(ts, pos)),
        }
    }
}

/// `{ <stmts> }`: a braced body appended to the abstract arena; yields
/// its index, the position after `}`, and the line of `}`.
pub open spec fn parse_block_body_spec(ts: Seq<TokV>, pos: int, blocks: Seq<Seq<StmtView>>) -> Result<
    (usize, int, usize, Seq<Seq<StmtView>>),
    SyntaxError,
>
    decreases ts.len() - pos, 13int when 0 <= pos <= ts.len()
{
    if !(0 <= pos < ts.len() && ts[pos].kind is LBrace) {
        Err(err_at_spec(ts, pos))
    } else {
        match parse_stmt_list_spec(ts, pos + 1, blocks) {
            Err(e) => Err(e),
            Ok((stmts, p1, blocks2)) => if !(p1 < ts.len() && ts[p1].kind is RBrace) {
                Err(err_at_spec(ts, p1))
            } else if stmts.len() == 0 {
                Err(err_at_spec(ts, p1))
            } else {
                Ok((blocks2.len() as usize, p1 + 1, ts[p1].line, blocks2.push(stmts)))
            },
        }
    }
}

/// Remaining statements folded onto `acc`.
pub open spec fn parse_stmt_list_rest_spec(
    ts: Seq<TokV>,
    pos: int,
    blocks: Seq<Seq<StmtView>>,
    acc: Seq<StmtView>,
) -> Result<(Seq<StmtView>, int, Seq<Seq<StmtView>>), SyntaxError>
    decreases ts.len() - pos, 14int when 0 <= pos <= ts.len()
{
    if !stmt_starts_spec(ts, pos) {
        Ok((acc, pos, blocks))
    } else {
        match parse_stmt_spec(ts, pos, blocks) {
            Err(e) => Err(e),
            Ok((sv, p2, blocks2)) => if pos < p2 <= ts.len() {
                parse_stmt_list_rest_spec(ts, p2, blocks2, acc.push(sv))
            } else {
                Err(err_at_spec(ts, pos))
            },
        }
    }
}

/// Statements up to the first token that cannot start one.
pub open spec fn parse_stmt_list_spec(ts: Seq<TokV>, pos: int, blocks: Seq<Seq<StmtView>>) -> Result<
    (Seq<StmtView>, int, Seq<Seq<StmtView>>),
    SyntaxError,
>
    decreases ts.len() - pos, 15int when 0 <= pos <= ts.len()
{
    parse_stmt_list_rest_spec(ts, pos, blocks, Seq::empty())
}

/// The program a text denotes: its tokens parsed as statements up to the
/// end of the input, the top-level list standing last in the arena.
pub open spec fn parse_program_spec(text: Seq<char>) -> Result<ProgramView, SyntaxError> {
    match lex_spec(text, 0, 1, 1) {
        Err(e) => Err(e),
        Ok(ts) => match parse_stmt_list_spec(ts, 0, Seq::empty()) {
            Err(e) => Err(e),
            Ok((stmts, p2, blocks)) => if p2 < ts.len() {
                Err(err_at_spec(ts, p2))
            } else {
                Ok(ProgramView { blocks: blocks.push(stmts) })
            },
        },
    }
}

/// View of a statement-parse result, with the abstract arena it left.
pub open spec fn stmt_result_view(
    r: Result<(Stmt, usize), SyntaxError>,
    blocks_after: Seq<Seq<StmtView>>,
) -> Result<(StmtView, int, Seq<Seq<StmtView>>), SyntaxError> {
    match r {
        Ok((st, p)) => Ok((stmt_view(st), p as int, blocks_after)),
        Err(e) => Err(e),
    }
}

/// View of a block-body-parse result, with the abstract arena it left.
pub open spec fn block_body_result_view(
    r: Result<(usize, usize, usize), SyntaxError>,
    blocks_after: Seq<Seq<StmtView>>,
) -> Result<(usize, int, usize, Seq<Seq<StmtView>>), SyntaxError> {
    match r {
        Ok((id, p, line)) => Ok((id, p as int, line, blocks_after)),
        Err(e) => Err(e),
    }
}

/// View of a statement-list-parse result, with the abstract arena it
/// left.
pub open spec fn stmt_list_result_view(
    r: Result<(Vec<Stmt>, usize), SyntaxError>,
    blocks_after: Seq<Seq<StmtView>>,
) -> Result<(Seq<StmtView>, int, Seq<Seq<StmtView>>), SyntaxError> {
    match r {
        Ok((stmts, p)) => Ok((block_view(stmts@), p as int, blocks_after)),
        Err(e) => Err(e),
    }
}

/// View of a program-parse result.
pub open spec fn program_result_view(r: Result<Program, SyntaxError>) -> Result<
    ProgramView,
    SyntaxError,
> {
    match r {
        Ok(p) => Ok(program_view(p)),
        Err(e) => Err(e),
    }
}

/// Whether a statement can start at token `p` (every statement starts with
/// a word: a keyword or an assignment target).
fn stmt_starts_at(toks: &Vec<Token>, p: usize) -> (r: bool)
    ensures
        r == stmt_starts_spec(toks_view(toks@), p as int),
        r ==> p < toks@.len(),
{
    p < toks.len() && matches!(toks[p].kind, TokKind::Ident(_))
}

/// Statements up to the first token that cannot start one (usually `}` or
/// the end of the input).
fn parse_stmt_list(toks: &Vec<Token>, pos: usize, blocks: &mut Vec<Vec<Stmt>>) -> (r: Result<
    (Vec<Stmt>, usize),
    SyntaxError,
>)
    requires
        pos <= toks@.len(),
        blocks_wf(old(blocks)@),
    ensures
        old(blocks)@.is_prefix_of(final(blocks)@),
        blocks_wf(final(blocks)@),
        r matches Ok(p) ==> pos <= p.1 <= toks@.len() && (forall|i: int|
            0 <= i < p.0@.len() ==> stmt_wf(#[trigger] p.0@[i], final(blocks)@, final(blocks)@.len() as int)),
        pos == toks@.len() ==> (r matches Ok(p) && p.0@.len() == 0 && p.1 == pos),
        stmt_list_result_view(r, blocks_view(final(blocks)@)) == parse_stmt_list_spec(
            toks_view(toks@),
            pos as int,
            blocks_view(old(blocks)@),
        ),
    decreases toks@.len() - pos, 9int,
{
    let ghost tsv = toks_view(toks@);
    let mut stmts: Vec<Stmt> = Vec::new();
    let mut p = pos;
    proof {
        assert(blocks@.is_prefix_of(blocks@)) by {
            assert(blocks@ =~= blocks@.subrange(0, blocks@.len() as int));
        }
        assert(block_view(stmts@) =~= Seq::<StmtView>::empty());
    }
    while stmt_starts_at(toks, p)
        invariant
            pos <= p <= toks@.len(),
            pos == toks@.len() ==> p == pos && stmts@.len() == 0,
            blocks_wf(blocks@),
            old(blocks)@.is_prefix_of(blocks@),
            forall|i: int|
                0 <= i < stmts@.len() ==> stmt_wf(#[trigger] stmts@[i], blocks@, blocks@.len() as int),
            tsv == toks_view(toks@),
            parse_stmt_list_spec(tsv, pos as int, blocks_view(old(blocks)@))
                == parse_stmt_list_rest_spec(
                tsv,
                p as int,
                blocks_view(blocks@),
                block_view(stmts@),
            ),
        decreases toks@.len() - p,
    {
        let ghost pre = blocks@;
        let ghost pre_stmts = block_view(stmts@);
        match parse_stmt(toks, p, blocks) {
            Ok((s, p2)) => {
                proof {
                    lemma_prefix_trans(old(blocks)@, pre, blocks@);
                    assert forall|i: int| 0 <= i < stmts@.len() implies stmt_wf(
                        #[trigger] stmts@[i],
                        blocks@,
                        blocks@.len() as int,
                    ) by {
                        lemma_stmt_wf_mono(
                            stmts@[i],
                            pre,
                            blocks@,
                            pre.len() as int,
                            blocks@.len() as int,
                        );
                    }
                }
                stmts.push(s);
                p = p2;
                proof {
                    assert(block_view(stmts@) =~= pre_stmts.push(stmt_view(s)));
                }
            },
            Err(e) => {
                proof {
                    lemma_prefix_trans(old(blocks)@, pre, blocks@);
                }
                return Err(e);
            },
        }
    }
    Ok((stmts, p))
}

/// `{ <stmts> }`: parse a braced body, push it into the arena, and return
/// its index, the position after `}`, and the line of `}`.
fn parse_block_body(toks: &Vec<Token>, pos: usize, blocks: &mut Vec<Vec<Stmt>>) -> (r: Result<
    (usize, usize, usize),
    SyntaxError,
>)
    requires
        pos <= toks@.len(),
        blocks_wf(old(blocks)@),
    ensures
        old(blocks)@.is_prefix_of(final(blocks)@),
        blocks_wf(final(blocks)@),
        r matches Ok(p) ==> (p.0 as int) < final(blocks)@.len() && final(blocks)@[p.0 as int]@.len() >= 1 && pos
            < p.1 <= toks@.len(),
        block_body_result_view(r, blocks_view(final(blocks)@)) == parse_block_body_spec(
            toks_view(toks@),
            pos as int,
            blocks_view(old(blocks)@),
        ),
    decreases toks@.len() - pos, 8int,
{
    proof {
        assert(blocks@.is_prefix_of(blocks@)) by {
            assert(blocks@ =~= blocks@.subrange(0, blocks@.len() as int));
        }
    }
    if !(pos < toks.len() && matches!(toks[pos].kind, TokKind::LBrace)) {
        return Err(err_at(toks, pos));
    }
    let ghost pre = blocks@;
    match parse_stmt_list(toks, pos + 1, blocks) {
        Err(e) => Err(e),
        Ok((stmts, p1)) => {
            if !(p1 < toks.len() && matches!(toks[p1].kind, TokKind::RBrace)) {
                return Err(err_at(toks, p1));
            }
            if stmts.len() == 0 {
                // an empty body is rejected: replaying it would let a step
                // run forever without completing a primitive action
                return Err(err_at(toks, p1));
            }
            let id = blocks.len();
            let line = toks[p1].line;
            let ghost before_push = blocks@;
            blocks.push(stmts);
            proof {
                assert(blocks_view(blocks@) =~= blocks_view(before_push).push(block_view(stmts@)));
                assert(before_push.is_prefix_of(blocks@)) by {
                    assert(before_push =~= blocks@.subrange(0, before_push.len() as int));
                }
                lemma_prefix_trans(old(blocks)@, before_push, blocks@);
                assert forall|b: int, i: int|
                    0 <= b < blocks@.len() && 0 <= i < blocks@[b]@.len() implies stmt_wf(
                    #[trigger] blocks@[b]@[i],
                    blocks@,
                    b,
                ) by {
                    if b < before_push.len() {
                        assert(blocks@[b] == before_push[b]);
                        lemma_stmt_wf_mono(blocks@[b]@[i], before_push, blocks@, b, b);
                    } else {
                        assert(b == id);
                        assert(blocks@[b] == stmts);
                        lemma_stmt_wf_mono(stmts@[i], before_push, blocks@, id as int, id as int);
                    }
                }
            }
            Ok((id, p1 + 1, line))
        },
    }
}

/// `si (<logic>) { <stmts> }` with an optional `otro { <stmts> }`.
fn parse_si(toks: &Vec<Token>, pos: usize, blocks: &mut Vec<Vec<Stmt>>) -> (r: Result<
    (Stmt, usize),
    SyntaxError,
>)
    requires
        pos < toks@.len(),
        blocks_wf(old(blocks)@),
    ensures
        old(blocks)@.is_prefix_of(final(blocks)@),
        blocks_wf(final(blocks)@),
        r matches Ok(p) ==> pos < p.1 <= toks@.len() && stmt_wf(p.0, final(blocks)@, final(blocks)@.len() as int),
        stmt_result_view(r, blocks_view(final(blocks)@)) == parse_si_spec(
            toks_view(toks@),
            pos as int,
            blocks_view(old(blocks)@),
        ),
    decreases toks@.len() - pos, 6int,
{
    proof {
        assert(blocks@.is_prefix_of(blocks@)) by {
            assert(blocks@ =~= blocks@.subrange(0, blocks@.len() as int));
        }
    }
    let n = toks.len();
    if !(pos + 1 < n && matches!(toks[pos + 1].kind, TokKind::LParen)) {
        return Err(err_at(toks, if pos < n { pos + 1 } else { pos }));
    }
    let guard = match parse_logic_expr(toks, pos + 2) {
        Ok(x) => x,
        Err(e) => {
            return Err(e);
        },
    };
    let p1 = guard.1;
    if !(p1 < toks.len() && matches!(toks[p1].kind, TokKind::RParen)) {
        return Err(err_at(toks, p1));
    }
    let ghost pre = blocks@;
    match parse_block_body(toks, p1 + 1, blocks) {
        Err(e) => {
            proof {
                lemma_prefix_trans(old(blocks)@, pre, blocks@);
            }
            Err(e)
        },
        Ok((tb, p2, line2)) => {
            let mut has_otro = false;
            if p2 < toks.len() {
                if let TokKind::Ident(w2) = &toks[p2].kind {
                    if str_eq(w2.as_str(), "otro") {
                        has_otro = true;
                    }
                }
            }
            if has_otro {
                let ghost mid = blocks@;
                match parse_block_body(toks, p2 + 1, blocks) {
                    Err(e) => {
                        proof {
                            lemma_prefix_trans(old(blocks)@, mid, blocks@);
                        }
                        Err(e)
                    },
                    Ok((eb, p3, line3)) => {
                        proof {
                            lemma_prefix_trans(old(blocks)@, mid, blocks@);
                            lemma_prefix_index(mid, blocks@, tb as int);
                        }
                        Ok(
                            (
                                Stmt {
                                    line: line3,
                                    kind: StmtKind::Si(guard.0, tb, Some(eb)),
                                },
                                p3,
                            ),
                        )
                    },
                }
            } else {
                proof {
                    lemma_prefix_trans(old(blocks)@, pre, blocks@);
                }
                Ok((Stmt { line: line2, kind: StmtKind::Si(guard.0, tb, None) }, p2))
            }
        },
    }
}

/// `mientras (<logic>) { <stmts> }`.
fn parse_mientras(toks: &Vec<Token>, pos: usize, blocks: &mut Vec<Vec<Stmt>>) -> (r: Result<
    (Stmt, usize),
    SyntaxError,
>)
    requires
        pos < toks@.len(),
        blocks_wf(old(blocks)@),
    ensures
        old(blocks)@.is_prefix_of(final(blocks)@),
        blocks_wf(final(blocks)@),
        r matches Ok(p) ==> pos < p.1 <= toks@.len() && stmt_wf(p.0, final(blocks)@, final(blocks)@.len() as int),
        stmt_result_view(r, blocks_view(final(blocks)@)) == parse_mientras_spec(
            toks_view(toks@),
            pos as int,
            blocks_view(old(blocks)@),
        ),
    decreases toks@.len() - pos, 6int,
{
    proof {
        assert(blocks@.is_prefix_of(blocks@)) by {
            assert(blocks@ =~= blocks@.subrange(0, blocks@.len() as int));
        }
    }
    let n = toks.len();
    if !(pos + 1 < n && matches!(toks[pos + 1].kind, TokKind::LParen)) {
        return Err(err_at(toks, if pos < n { pos + 1 } else { pos }));
    }
    let guard = match parse_logic_expr(toks, pos + 2) {
        Ok(x) => x,
        Err(e) => {
            return Err(e);
        },
    };
    let p1 = guard.1;
    if !(p1 < toks.len() && matches!(toks[p1].kind, TokKind::RParen)) {
        return Err(err_at(toks, p1));
    }
    let ghost pre = blocks@;
    match parse_block_body(toks, p1 + 1, blocks) {
        Err(e) => {
            proof {
                lemma_prefix_trans(old(blocks)@, pre, blocks@);
            }
            Err(e)
        },
        Ok((tb, p2, line2)) => {
            proof {
                lemma_prefix_trans(old(blocks)@, pre, blocks@);
            }
            Ok((Stmt { line: line2, kind: StmtKind::Mientras(guard.0, tb) }, p2))
        },
    }
}

/// One statement, starting at token `pos`.
fn parse_stmt(toks: &Vec<Token>, pos: usize, blocks: &mut Vec<Vec<Stmt>>) -> (r: Result<
    (Stmt, usize),
    SyntaxError,
>)
    requires
        pos <= toks@.len(),
        blocks_wf(old(blocks)@),
    ensures
        old(blocks)@.is_prefix_of(final(blocks)@),
        blocks_wf(final(blocks)@),
        r matches Ok(p) ==> pos < p.1 <= toks@.len() && stmt_wf(p.0, final(blocks)@, final(blocks)@.len() as int),
        stmt_result_view(r, blocks_view(final(blocks)@)) == parse_stmt_spec(
            toks_view(toks@),
            pos as int,
            blocks_view(old(blocks)@),
        ),
    decreases toks@.len() - pos, 7int,
{
    proof {
        assert(blocks@.is_prefix_of(blocks@)) by {
            assert(blocks@ =~= blocks@.subrange(0, blocks@.len() as int));
        }
    }
    if pos >= toks.len() {
        return Err(err_at(toks, pos));
    }
    match &toks[pos].kind {
        TokKind::Ident(w) => {
            // `var <name> = <expr>;`
            if str_eq(w.as_str(), "var") && pos + 1 < toks.len() {
                if let TokKind::Ident(name0) = &toks[pos + 1].kind {
                    let name = name0.clone();
                    if !(pos + 2 < toks.len() && matches!(toks[pos + 2].kind, TokKind::Assign)) {
                        return Err(err_at(toks, pos + 2));
                    }
                    match parse_expr(toks, pos + 3) {
                        Ok((e, p2)) => {
                            if p2 < toks.len() && matches!(toks[p2].kind, TokKind::Semi) {
                                return Ok(
                                    (
                                        Stmt { line: toks[p2].line, kind: StmtKind::Decl(name, e) },
                                        p2 + 1,
                                    ),
                                );
                            } else {
                                return Err(err_at(toks, p2));
                            }
                        },
                        Err(e) => {
                            return Err(e);
                        },
                    }
                }
            }
            // `<name> = <expr>;` (keywords are contextual, so any word
            // directly followed by `=` is an assignment target)
            if pos + 1 < toks.len() && matches!(toks[pos + 1].kind, TokKind::Assign) {
                let name = w.clone();
                match parse_expr(toks, pos + 2) {
                    Ok((e, p2)) => {
                        if p2 < toks.len() && matches!(toks[p2].kind, TokKind::Semi) {
                            return Ok(
                                (
                                    Stmt { line: toks[p2].line, kind: StmtKind::Asig(name, e) },
                                    p2 + 1,
                                ),
                            );
                        } else {
                            return Err(err_at(toks, p2));
                        }
                    },
                    Err(e) => {
                        return Err(e);
                    },
                }
            }
            if str_eq(w.as_str(), "si") {
                return parse_si(toks, pos, blocks);
            }
            if str_eq(w.as_str(), "mientras") {
                return parse_mientras(toks, pos, blocks);
            }
            if str_eq(w.as_str(), "gira") {
                if pos + 1 < toks.len() {
                    if let TokKind::Ident(d) = &toks[pos + 1].kind {
                        let g = if str_eq(d.as_str(), "izquierda") {
                            Some(Giro::Izquierda)
                        } else if str_eq(d.as_str(), "derecha") {
                            Some(Giro::Derecha)
                        } else {
                            None
                        };
                        if let Some(g) = g {
                            if pos + 2 < toks.len() && matches!(toks[pos + 2].kind, TokKind::Semi) {
                                return Ok(
                                    (
                                        Stmt { line: toks[pos + 2].line, kind: StmtKind::Gira(g) },
                                        pos + 3,
                                    ),
                                );
                            }
                        }
                    }
                }
                return Err(err_at(toks, pos + 1));
            }
            if str_eq(w.as_str(), "avanza") {
                if pos + 1 < toks.len() && matches!(toks[pos + 1].kind, TokKind::Semi) {
                    return Ok(
                        (Stmt { line: toks[pos + 1].line, kind: StmtKind::Avanza }, pos + 2),
                    );
                }
                return Err(err_at(toks, pos + 1));
            }
            if str_eq(w.as_str(), "dispara") {
                if pos + 1 < toks.len() && matches!(toks[pos + 1].kind, TokKind::Semi) {
                    return Ok(
                        (Stmt { line: toks[pos + 1].line, kind: StmtKind::Dispara }, pos + 2),
                    );
                }
                return Err(err_at(toks, pos + 1));
            }
            Err(err_at(toks, pos))
        },
        _ => Err(err_at(toks, pos)),
    }
}

/// Parse a whole program: statements up to the end of the input.  The
/// top-level statement list becomes the last block of the arena.
#[verifier::rlimit(100)]
pub fn parse_program(text: &str) -> (r: Result<Program, SyntaxError>)
    ensures
        r matches Ok(p) ==> program_wf(p),
        text@.len() == 0 ==> r is Ok,
        lex_spec(text@, 0, 1, 1) matches Err(e) ==> r == Err::<Program, SyntaxError>(e),
        r is Ok ==> lex_spec(text@, 0, 1, 1) is Ok,
        program_result_view(r) == parse_program_spec(text@),
{
    let toks = match lex(text) {
        Ok(t) => t,
        Err(e) => {
            return Err(e);
        },
    };
    let ghost tsv = toks_view(toks@);
    proof {
        assert(lex_spec(text@, 0, 1, 1) == Ok::<Seq<TokV>, SyntaxError>(tsv));
    }
    let mut blocks: Vec<Vec<Stmt>> = Vec::new();
    proof {
        assert(blocks_view(blocks@) =~= Seq::<Seq<StmtView>>::empty());
    }
    match parse_stmt_list(&toks, 0, &mut blocks) {
        Err(e) => Err(e),
        Ok((stmts, p2)) => {
            if p2 < toks.len() {
                return Err(err_at(&toks, p2));
            }
            let ghost before_push = blocks@;
            let ghost top = blocks@.len();
            blocks.push(stmts);
            proof {
                assert(blocks_view(blocks@) =~= blocks_view(before_push).push(block_view(stmts@)));
                assert(before_push.is_prefix_of(blocks@)) by {
                    assert(before_push =~= blocks@.subrange(0, before_push.len() as int));
                }
                assert forall|b: int, i: int|
                    0 <= b < blocks@.len() && 0 <= i < blocks@[b]@.len() implies stmt_wf(
                    #[trigger] blocks@[b]@[i],
                    blocks@,
                    b,
                ) by {
                    if b < before_push.len() {
                        assert(blocks@[b] == before_push[b]);
                        lemma_stmt_wf_mono(blocks@[b]@[i], before_push, blocks@, b, b);
                    } else {
                        assert(blocks@[b] == stmts);
                        lemma_stmt_wf_mono(stmts@[i], before_push, blocks@, top as int, b);
                    }
                }
            }
            Ok(Program { blocks })
        },
    }
}

/// Abstract value of a [`Parsed`].
pub enum ParsedView {
    Prog(ProgramView),
    Decl(StmtView),
    Expr(ExprView),
    ExprLogic(LogicExprView),
}

pub open spec fn parsed_view(p: Parsed) -> ParsedView {
    match p {
        Parsed::Prog(pr) => ParsedView::Prog(program_view(pr)),
        Parsed::Decl(st) => ParsedView::Decl(stmt_view(st)),
        Parsed::Expr(e) => ParsedView::Expr(expr_view(e)),
        Parsed::ExprLogic(le) => ParsedView::ExprLogic(logic_view(le)),
    }
}

pub open spec fn parsed_result_view(r: Result<Parsed, SyntaxError>) -> Result<
    ParsedView,
    SyntaxError,
> {
    match r {
        Ok(p) => Ok(parsed_view(p)),
        Err(e) => Err(e),
    }
}

/// What a text denotes under each rule: the whole program for
/// `Rule::Prog`, and a prefix parse of the fragment for the other rules.
pub open spec fn parse_rule_spec(rule: Rule, text: Seq<char>) -> Result<ParsedView, SyntaxError> {
    match rule {
        Rule::Prog => match parse_program_spec(text) {
            Ok(pv) => Ok(ParsedView::Prog(pv)),
            Err(e) => Err(e),
        },
        Rule::Decl => match lex_spec(text, 0, 1, 1) {
            Err(e) => Err(e),
            Ok(ts) => if ts.len() < 2 {
                Err(err_at_spec(ts, 0))
            } else if !(ident_is(ts, 0, "var"@) && ts[1].kind is Ident) {
                Err(err_at_spec(ts, 0))
            } else {
                let name = match ts[1].kind {
                    TokKindV::Ident(n) => n,
                    _ => Seq::empty(),
                };
                if !(2 < ts.len() && ts[2].kind is Assign) {
                    Err(err_at_spec(ts, 2))
                } else {
                    match parse_expr_spec(ts, 3) {
                        Err(e) => Err(e),
                        Ok((e, p2)) => Ok(
                            ParsedView::Decl(
                                StmtView {
                                    line: ts[p2 - 1].line,
                                    kind: StmtKindView::Decl(name, e),
                                },
                            ),
                        ),
                    }
                }
            },
        },
        Rule::Expr => match lex_spec(text, 0, 1, 1) {
            Err(e) => Err(e),
            Ok(ts) => match parse_expr_spec(ts, 0) {
                Err(e) => Err(e),
                Ok((e, _)) => Ok(ParsedView::Expr(e)),
            },
        },
        Rule::ExprLogic => match lex_spec(text, 0, 1, 1) {
            Err(e) => Err(e),
            Ok(ts) => match parse_logic_expr_spec(ts, 0) {
                Err(e) => Err(e),
                Ok((e, _)) => Ok(ParsedView::ExprLogic(e)),
            },
        },
    }
}

/// Grammar entry points mirroring the rule a text is parsed under.
#[derive(Clone, Copy, Debug, PartialEq, Eq, Structural)]
pub enum Rule {
    Prog,
    Decl,
    Expr,
    ExprLogic,
}

/// Result of parsing a text under a given [`Rule`].
#[derive(Debug)]
pub enum Parsed {
    Prog(Program),
    Decl(Stmt),
    Expr(Expr),
    ExprLogic(LogicExpr),
}

/// The language's parser.
#[derive(Debug)]
pub struct InterpreteTanques;

impl InterpreteTanques {
    /// Parse `text` under `rule`.  `Rule::Prog` must consume the whole
    /// input; the other rules parse a prefix and ignore what follows, as a
    /// rule-level parse of a fragment does.
    pub fn parse(rule: Rule, text: &str) -> (r: Result<Parsed, SyntaxError>)
        ensures
            r matches Ok(p) ==> match rule {
                Rule::Prog => p matches Parsed::Prog(pr) && program_wf(pr),
                Rule::Decl => p matches Parsed::Decl(st) && st.kind is Decl,
                Rule::Expr => p is Expr,
                Rule::ExprLogic => p is ExprLogic,
            },
            rule is Prog && text@.len() == 0 ==> r is Ok,
            lex_spec(text@, 0, 1, 1) matches Err(e) ==> r == Err::<Parsed, SyntaxError>(e),
            parsed_result_view(r) == parse_rule_spec(rule, text@),
    {
        match rule {
            Rule::Prog => match parse_program(text) {
                Ok(p) => Ok(Parsed::Prog(p)),
                Err(e) => Err(e),
            },
            Rule::Decl => {
                let toks = match lex(text) {
                    Ok(t) => t,
                    Err(e) => {
                        return Err(e);
                    },
                };
                if toks.len() < 2 {
                    return Err(err_at(&toks, 0));
                }
                let ok_head = match (&toks[0].kind, &toks[1].kind) {
                    (TokKind::Ident(w), TokKind::Ident(_)) => str_eq(w.as_str(), "var"),
                    _ => false,
                };
                if !ok_head {
                    return Err(err_at(&toks, 0));
                }
                let name = match &toks[1].kind {
                    TokKind::Ident(n) => n.clone(),
                    _ => {
                        return Err(err_at(&toks, 1));
                    },
                };
                if !(2 < toks.len() && matches!(toks[2].kind, TokKind::Assign)) {
                    return Err(err_at(&toks, 2));
                }
                match parse_expr(&toks, 3) {
                    Ok((e, p2)) => Ok(
                        Parsed::Decl(Stmt { line: toks[p2 - 1].line, kind: StmtKind::Decl(name, e) }),
                    ),
                    Err(e) => Err(e),
                }
            },
            Rule::Expr => {
                let toks = match lex(text) {
                    Ok(t) => t,
                    Err(e) => {
                        return Err(e);
                    },
                };
                match parse_expr(&toks, 0) {
                    Ok((e, _)) => Ok(Parsed::Expr(e)),
                    Err(e) => Err(e),
                }
            },
            Rule::ExprLogic => {
                let toks = match lex(text) {
                    Ok(t) => t,
                    Err(e) => {
                        return Err(e);
                    },
                };
                match parse_logic_expr(&toks, 0) {
                    Ok((e, _)) => Ok(Parsed::ExprLogic(e)),
                    Err(e) => Err(e),
                }
            },
        }
    }
}

} // verus!
