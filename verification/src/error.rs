//! Runtime errors of the interpreter.

use vstd::prelude::*;

verus! {

/// Abstract value of an [`ErrorInterprete`].
pub enum ErrorInterpreteView {
    /// A variable was read or assigned before any declaration bound it.
    VarNoDecl(Seq<char>),
    /// A division had a zero divisor.
    DivCero,
    /// An arithmetic operation left the signed machine-integer range.
    Desborde,
}

/// A runtime error returned by `Interpreter::step_inst`.
///
/// `VarNoDecl` is the only runtime error the language itself calls for.
/// Division by zero and arithmetic overflow are fatal conditions; they are
/// deliberately reported as the typed errors `DivCero` and `Desborde` so
/// that stepping a program can never abort the process — a program that
/// hits one terminates with an error instead.
#[derive(Debug)]
pub enum ErrorInterprete {
    VarNoDecl(String),
    DivCero,
    Desborde,
}

impl View for ErrorInterprete {
    type V = ErrorInterpreteView;

    open spec fn view(&self) -> ErrorInterpreteView {
        match self {
            ErrorInterprete::VarNoDecl(name) => ErrorInterpreteView::VarNoDecl(name@),
            ErrorInterprete::DivCero => ErrorInterpreteView::DivCero,
            ErrorInterprete::Desborde => ErrorInterpreteView::Desborde,
        }
    }
}

impl ErrorInterprete {
    /// Human-readable description of the error.
    pub fn message(&self) -> (r: String)
        ensures
            match self@ {
                ErrorInterpreteView::VarNoDecl(name) => r@ == "Variable no declarada previamente: "@
                    + name,
                ErrorInterpreteView::DivCero => r@ == "Division entre cero"@,
                ErrorInterpreteView::Desborde => r@ == "Desbordamiento aritmetico"@,
            },
    {
        match self {
            ErrorInterprete::VarNoDecl(name) => {
                let base = "Variable no declarada previamente: ".to_owned();
                base.concat(name.as_str())
            },
            ErrorInterprete::DivCero => "Division entre cero".to_owned(),
            ErrorInterprete::Desborde => "Desbordamiento aritmetico".to_owned(),
        }
    }
}

} // verus!
