//! Fatal assembly diagnostics.
//!
//! Every error carries the text span or symbol name that caused it, so a
//! caller can point at the offending input.

use vstd::prelude::*;

verus! {

/// A fatal assembly error. Each variant carries the offending span or name.
///
/// - `Lex`: an input span matches no token shape.
/// - `Directive`: an unknown `@directive`, a token outside any directive, or
///   a global label that is not first on its line in `@data`.
/// - `Symbol`: a missing `._entry`, or a reference whose target is absent
///   from the relevant map.
/// - `Encoding`: an instruction outside `@code`, a reference in `@data`, an
///   unknown mnemonic, a local label or reference outside a global scope, or
///   an image too large for 32-bit addressing.
#[derive(Debug, Clone)]
pub enum AsmError {
    Lex(Vec<u8>),
    Directive(Vec<u8>),
    Symbol(Vec<u8>),
    Encoding(Vec<u8>),
}

/// The mathematical image of an `AsmError`.
pub enum AsmErrV {
    Lex(Seq<u8>),
    Directive(Seq<u8>),
    Symbol(Seq<u8>),
    Encoding(Seq<u8>),
}

impl View for AsmError {
    type V = AsmErrV;

    open spec fn view(&self) -> AsmErrV {
        match self {
            AsmError::Lex(s) => AsmErrV::Lex(s@),
            AsmError::Directive(s) => AsmErrV::Directive(s@),
            AsmError::Symbol(s) => AsmErrV::Symbol(s@),
            AsmError::Encoding(s) => AsmErrV::Encoding(s@),
        }
    }
}

impl DeepView for AsmError {
    type V = AsmErrV;

    open spec fn deep_view(&self) -> AsmErrV {
        self.view()
    }
}

} // verus!
