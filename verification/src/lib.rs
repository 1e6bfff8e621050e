//! A resumable interpreter for a small imperative tank-control language.
//!
//! Programs drive a single agent on a bounded square grid.  The engine
//! executes one primitive action (declaration, assignment, turn, move or
//! fire) per call to [`Interpreter::step_inst`], suspending in between so
//! that an external simulation loop can interleave interpretation with
//! rendering and collision handling.

pub mod ast;
pub mod error;
pub mod eval;
pub mod interprete;
pub mod parser;
pub mod scope;
pub mod tank_status;

pub use error::ErrorInterprete;
pub use eval::{eval, eval_logic};
pub use interprete::{ExecutionContext, Interpreter};
pub use parser::{InterpreteTanques, Parsed, Rule, SyntaxError};
pub use scope::Scope;
pub use tank_status::{Position, TankDirection, TankStatus, GRID_DIMMENSIONS};
