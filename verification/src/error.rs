//! Structured parse failures.
//!
//! Every production that fails reports a kind, the length of the input that
//! was still unconsumed at the failure point, and a stack of context labels,
//! innermost first.  The caller can recover the failing position from
//! `remaining`, since every production works on a suffix of the one
//! buffer being parsed.

use vstd::prelude::*;

verus! {

/// What went wrong.
#[derive(Clone, Copy, Debug, PartialEq, Eq, Structural)]
pub enum ErrorKind {
    /// A scanner required non-empty output but matched zero characters.
    LexicalError,
    /// Digits did not form a valid calendar date.
    FormatError,
    /// Missing required indentation, a transaction with zero postings, or
    /// mismatched virtual-account markers.
    StructuralError,
    /// At the document level, no top-level alternative matched at a
    /// non-blank, non-exhausted position.
    AlternativeExhausted,
}

/// The grammar production a failure was reported from.
#[derive(Clone, Copy, Debug, PartialEq, Eq, Structural)]
pub enum ContextLabel {
    Identifier,
    Account,
    Commodity,
    Amount,
    Tag,
    Date,
    StartsWithContent,
    Indentation,
    AccountDeclaration,
    CommodityDeclaration,
    TagDeclaration,
    Posting,
    TransactionHeader,
    Transaction,
    Document,
}

/// The mathematical image of a `ParseError`.
pub struct ErrView {
    pub kind: ErrorKind,
    pub remaining: nat,
    pub contexts: Seq<ContextLabel>,
}

/// A parse failure: its kind, the length of the unconsumed input at the
/// failure point, and the context labels pushed on the way out, innermost
/// first.
#[derive(Debug, Clone, PartialEq, Eq)]
pub struct ParseError {
    pub kind: ErrorKind,
    pub remaining: usize,
    pub contexts: Vec<ContextLabel>,
}

impl View for ParseError {
    type V = ErrView;

    open spec fn view(&self) -> ErrView {
        ErrView { kind: self.kind, remaining: self.remaining as nat, contexts: self.contexts@ }
    }
}

impl ParseError {
    /// A fresh failure with a single context label.
    pub fn new(kind: ErrorKind, remaining: usize, label: ContextLabel) -> (r: ParseError)
        ensures
            r@ == (ErrView {
                kind,
                remaining: remaining as nat,
                contexts: seq![label],
            }),
    {
        let contexts = vec![label];
        assert(contexts@ =~= seq![label]);
        ParseError { kind, remaining, contexts }
    }

    /// The same failure wrapped with the label of an enclosing production.
    pub fn wrap(self, label: ContextLabel) -> (r: ParseError)
        ensures
            r@ == (ErrView { contexts: self@.contexts.push(label), ..self@ }),
    {
        let ParseError { kind, remaining, mut contexts } = self;
        contexts.push(label);
        ParseError { kind, remaining, contexts }
    }
}

/// The view of a fresh single-label failure; the spec-level counterpart of
/// `ParseError::new`.
pub open spec fn err_at(kind: ErrorKind, remaining: nat, label: ContextLabel) -> ErrView {
    ErrView { kind, remaining, contexts: seq![label] }
}

/// The view of a wrapped failure; the spec-level counterpart of
/// `ParseError::wrap`.
pub open spec fn wrapped(e: ErrView, label: ContextLabel) -> ErrView {
    ErrView { contexts: e.contexts.push(label), ..e }
}

} // verus!
