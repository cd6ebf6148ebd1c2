//! Diagnostic context: accumulates recorded errors for one compile session.
//!
//! Ordinary errors accumulate and only fail the invocation at the end; the
//! overall result is decided once, by asking the context whether anything was
//! recorded.

use vstd::prelude::*;

verus! {

/// A source location: a file id (an index into the session's source map) and
/// a half-open character range within that file.
#[derive(Clone, Copy, PartialEq, Eq, Structural, Debug)]
pub struct Span {
    pub file: usize,
    pub lo: usize,
    pub hi: usize,
}

/// What a recorded diagnostic is about.
#[derive(Clone, Copy, PartialEq, Eq, Structural, Debug)]
pub enum DiagKind {
    /// A version pragma named something other than the host language.
    NonSolidityVersionPragma,
    /// `pragma experimental solidity;` is explicitly unsupported.
    ExperimentalSolidity,
    /// A pragma outside the recognized vocabulary.
    UnknownPragma,
    /// An import or entry path that no search rule could resolve.
    FileNotFound,
    /// An import matched by more than one configured import path.
    AmbiguousImport,
    /// Standard input was requested but is not available.
    StdinUnavailable,
    /// A file whose text did not parse; its imports are abandoned.
    ParseError,
    /// The same import path was configured twice.
    DuplicateImportPath,
    /// The restricted intermediate-language mode is not supported.
    YulNotSupported,
}

/// One recorded error, optionally anchored at a source location.
#[derive(Clone, Copy, PartialEq, Eq, Structural, Debug)]
pub struct Diagnostic {
    pub kind: DiagKind,
    pub span: Option<Span>,
}

/// Witness that at least one error has been recorded.
#[derive(Clone, Copy, PartialEq, Eq, Structural, Debug)]
pub struct ErrorsSeen;

/// The diagnostic context: the session-scoped accumulator of errors.
pub struct DiagCtxt {
    diags: Vec<Diagnostic>,
}

impl View for DiagCtxt {
    type V = Seq<Diagnostic>;

    closed spec fn view(&self) -> Seq<Diagnostic> {
        self.diags@
    }
}

impl DiagCtxt {
    /// A fresh context with nothing recorded.
    pub fn new() -> (r: DiagCtxt)
        ensures
            r@ === Seq::<Diagnostic>::empty(),
    {
        DiagCtxt { diags: Vec::new() }
    }

    /// Records one error. Recording never fails and never aborts: errors
    /// accumulate until the end of the invocation.
    pub fn err(&mut self, kind: DiagKind, span: Option<Span>)
        ensures
            final(self)@ === old(self)@.push(Diagnostic { kind, span }),
    {
        self.diags.push(Diagnostic { kind, span });
    }

    /// How many errors have been recorded so far.
    pub fn error_count(&self) -> (n: usize)
        ensures
            n == self@.len(),
    {
        self.diags.len()
    }

    /// Whether anything has been recorded as an error so far; `Err` exactly
    /// when the count is nonzero. This is the single end-of-run success test.
    pub fn has_errors(&self) -> (r: Result<(), ErrorsSeen>)
        ensures
            r is Err <==> self@.len() > 0,
    {
        if self.diags.len() > 0 {
            Err(ErrorsSeen)
        } else {
            Ok(())
        }
    }

    /// The recorded errors, in emission order.
    pub fn diagnostics(&self) -> (r: &Vec<Diagnostic>)
        ensures
            r@ === self@,
    {
        &self.diags
    }
}

} // verus!
