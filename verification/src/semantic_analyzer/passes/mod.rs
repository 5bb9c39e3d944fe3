//! Diagnostics, and the checks that run on the syntax tree before any
//! typing.

pub mod pre_ir_check;

use vstd::prelude::*;

verus! {

/// What semantic analysis can find wrong with a program.
#[derive(Debug)]
pub enum SemanticCheckError {
    NonAsciiCharLiteral(char),
    TypeMismatch(String),
    DuplicatedSymbol(String),
    UnknownSymbol(String),
    NoMainMethod,
    NonPositiveArraySize,
    ExprCallNoReturn,
    ReturnTypeMismatch,
    ArrayLocationOnNonArrayVar,
    ArrayLocationOffsetTypeError,
    ContinueOutOfForScope,
    BreakOutOfForScope,
    MethodArgumentNotMatch,
}

pub type IRResult<T> = Result<T, Vec<SemanticCheckError>>;

/// A diagnostic as a mathematical value: its kind and, as a sequence of
/// characters, its payload.
pub enum Diagnostic {
    NonAsciiCharLiteral(char),
    TypeMismatch(Seq<char>),
    DuplicatedSymbol(Seq<char>),
    UnknownSymbol(Seq<char>),
    NoMainMethod,
    NonPositiveArraySize,
    ExprCallNoReturn,
    ReturnTypeMismatch,
    ArrayLocationOnNonArrayVar,
    ArrayLocationOffsetTypeError,
    ContinueOutOfForScope,
    BreakOutOfForScope,
    MethodArgumentNotMatch,
}

impl View for SemanticCheckError {
    type V = Diagnostic;

    open spec fn view(&self) -> Diagnostic {
        match *self {
            SemanticCheckError::NonAsciiCharLiteral(c) => Diagnostic::NonAsciiCharLiteral(c),
            SemanticCheckError::TypeMismatch(s) => Diagnostic::TypeMismatch(s@),
            SemanticCheckError::DuplicatedSymbol(s) => Diagnostic::DuplicatedSymbol(s@),
            SemanticCheckError::UnknownSymbol(s) => Diagnostic::UnknownSymbol(s@),
            SemanticCheckError::NoMainMethod => Diagnostic::NoMainMethod,
            SemanticCheckError::NonPositiveArraySize => Diagnostic::NonPositiveArraySize,
            SemanticCheckError::ExprCallNoReturn => Diagnostic::ExprCallNoReturn,
            SemanticCheckError::ReturnTypeMismatch => Diagnostic::ReturnTypeMismatch,
            SemanticCheckError::ArrayLocationOnNonArrayVar => {
                Diagnostic::ArrayLocationOnNonArrayVar
            },
            SemanticCheckError::ArrayLocationOffsetTypeError => {
                Diagnostic::ArrayLocationOffsetTypeError
            },
            SemanticCheckError::ContinueOutOfForScope => Diagnostic::ContinueOutOfForScope,
            SemanticCheckError::BreakOutOfForScope => Diagnostic::BreakOutOfForScope,
            SemanticCheckError::MethodArgumentNotMatch => Diagnostic::MethodArgumentNotMatch,
        }
    }
}

/// A list of errors as the sequence of their diagnostics, in order.
pub open spec fn diagnostics(errors: Seq<SemanticCheckError>) -> Seq<Diagnostic> {
    errors.map_values(|e: SemanticCheckError| e@)
}

/// Moves the errors of `more` to the end of `errors`, in order.
pub fn extend_errors(errors: &mut Vec<SemanticCheckError>, more: Vec<SemanticCheckError>)
    ensures
        diagnostics(final(errors)@) == diagnostics(old(errors)@) + diagnostics(more@),
        final(errors)@.len() == old(errors)@.len() + more@.len(),
{
    let ghost added = more@;
    let mut more = more;
    errors.append(&mut more);
    assert(diagnostics(errors@) =~= diagnostics(old(errors)@) + diagnostics(added));
}

/// `res` is a failure with exactly the diagnostics `expected`, or, where
/// there are none, a success.
pub open spec fn reports<T>(res: IRResult<T>, expected: Seq<Diagnostic>) -> bool {
    match res {
        Ok(_) => expected.len() == 0,
        Err(errors) => errors@.len() > 0 && diagnostics(errors@) == expected,
    }
}

} // verus!
