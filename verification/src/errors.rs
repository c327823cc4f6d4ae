use vstd::prelude::*;
use crate::text::{dec_str, render_u64};

verus! {

/// The three error kinds, all terminal to the expression being evaluated:
/// a built-in's explicit domain failure, a malformed token stream or
/// expression shape, and an argument-count mismatch carrying the supplied
/// and the expected count.
#[derive(Debug)]
pub enum LazoError {
    Runtime(String),
    Syntax(String),
    Function(usize, usize),
}

/// Mathematical model of an error value.
pub enum ErrV {
    Runtime(Seq<char>),
    Syntax(Seq<char>),
    Function(int, int),
}

impl View for LazoError {
    type V = ErrV;

    open spec fn view(&self) -> ErrV {
        match self {
            LazoError::Runtime(s) => ErrV::Runtime(s@),
            LazoError::Syntax(s) => ErrV::Syntax(s@),
            LazoError::Function(got, want) => ErrV::Function(*got as int, *want as int),
        }
    }
}

/// The user-facing wording of an error.
pub open spec fn err_message_spec(e: ErrV) -> Seq<char> {
    match e {
        ErrV::Runtime(m) => ("Runtime Error! ")@ + m,
        ErrV::Syntax(m) => ("Syntax Error! ")@ + m,
        ErrV::Function(got, want) => ("Function Error! the passed arguments length ")@ + dec_str(
            got,
        ) + (" is different to expected length ")@ + dec_str(want) + (
        " of the function's arguments")@,
    }
}

impl LazoError {
    /// Renders the error as its user-facing message.
    pub fn message(&self) -> (r: String)
        ensures
            r@ == err_message_spec(self@),
    {
        match self {
            LazoError::Runtime(m) => {
                let mut out = String::from_str("Runtime Error! ");
                out.append(m.as_str());
                out
            },
            LazoError::Syntax(m) => {
                let mut out = String::from_str("Syntax Error! ");
                out.append(m.as_str());
                out
            },
            LazoError::Function(got, want) => {
                let mut out = String::from_str("Function Error! the passed arguments length ");
                let g = render_u64(*got as u64);
                out.append(g.as_str());
                out.append(" is different to expected length ");
                let w = render_u64(*want as u64);
                out.append(w.as_str());
                out.append(" of the function's arguments");
                out
            },
        }
    }
}

} // verus!
