//! The error taxonomy shared by every stage of the pipeline.
//!
//! Each stage returns a result rather than aborting: the lexer and parser
//! report `SyntaxError`, the lowering stage reports `CodegenError`, and the
//! surrounding program reports `IOError` for source-file and artifact
//! failures. `TypeError` and `RuntimeError` are reserved for later stages
//! and are produced by nothing in this crate.

use vstd::prelude::*;

verus! {

/// A terminal failure of one pipeline stage, carrying its message text.
#[derive(Debug)]
pub enum VentiError {
    SyntaxError(String),
    TypeError(String),
    RuntimeError(String),
    CodegenError(String),
    IOError(String),
}

impl VentiError {
    /// The message text carried by the error, whichever kind it is.
    pub open spec fn spec_message(self) -> Seq<char> {
        match self {
            VentiError::SyntaxError(m) => m@,
            VentiError::TypeError(m) => m@,
            VentiError::RuntimeError(m) => m@,
            VentiError::CodegenError(m) => m@,
            VentiError::IOError(m) => m@,
        }
    }

    /// The kind's display label, as the surrounding program prints it.
    pub open spec fn spec_label(self) -> Seq<char> {
        match self {
            VentiError::SyntaxError(_) => "Syntax Error: "@,
            VentiError::TypeError(_) => "Type Error: "@,
            VentiError::RuntimeError(_) => "Runtime Error: "@,
            VentiError::CodegenError(_) => "Codegen Error: "@,
            VentiError::IOError(_) => "IO Error: "@,
        }
    }

    /// Renders the error as its kind's label followed by the message.
    pub fn message(&self) -> (r: String)
        ensures
            r@ == self.spec_label() + self.spec_message(),
    {
        let (label, msg): (&str, &String) = match self {
            VentiError::SyntaxError(m) => ("Syntax Error: ", m),
            VentiError::TypeError(m) => ("Type Error: ", m),
            VentiError::RuntimeError(m) => ("Runtime Error: ", m),
            VentiError::CodegenError(m) => ("Codegen Error: ", m),
            VentiError::IOError(m) => ("IO Error: ", m),
        };
        let mut r = label.to_owned();
        r.append(msg.as_str());
        r
    }
}

} // verus!
