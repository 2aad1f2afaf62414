//! Failures reported by the parser, the evaluator and the render engine.

use vstd::prelude::*;
use crate::request::{Request, RequestView};
use crate::text::{lossy_text, push_bytes, push_text};

verus! {

/// Which part of the library rejected the input.
#[derive(Debug, Clone, Copy, PartialEq, Eq, Structural)]
pub enum ErrorKind {
    /// Malformed tag or attribute syntax, unterminated literal, mismatched or
    /// unclosed tags, duplicate attribute keys.
    ParserError,
    /// Tokenization and evaluation failures of an expression.
    EvaluatorError,
    /// Structural misuse of tags and attributes during rendering.
    RendererError,
}

/// A terminal failure: its kind and a message for people.
///
/// Where the library stopped for want of an answer from its caller, `pending`
/// holds the request.
#[derive(Debug)]
pub struct Error {
    pub kind: ErrorKind,
    pub message: String,
    pub pending: Option<Request>,
}

/// Why a computation gave no result.
pub ghost enum Failure {
    /// The input is rejected, by the part of the library that the kind names.
    Rejected(ErrorKind),
    /// The context holds no answer to this request.
    Pending(RequestView),
}

impl ErrorKind {
    /// The name of the kind, as it is printed in front of a message.
    pub open spec fn spec_name(self) -> Seq<char> {
        match self {
            ErrorKind::ParserError => "ParserError"@,
            ErrorKind::EvaluatorError => "EvaluatorError"@,
            ErrorKind::RendererError => "RendererError"@,
        }
    }

    /// The name of the kind.
    pub fn name(&self) -> (r: &'static str)
        ensures
            r@ == self.spec_name(),
    {
        match self {
            ErrorKind::ParserError => "ParserError",
            ErrorKind::EvaluatorError => "EvaluatorError",
            ErrorKind::RendererError => "RendererError",
        }
    }
}

impl Error {
    /// What the error stands for: a rejection, or a request that waits for
    /// its answer.
    pub open spec fn failure(&self) -> Failure {
        match self.pending {
            Some(request) => Failure::Pending(request@),
            None => Failure::Rejected(self.kind),
        }
    }

    /// The error rejects the input, with the given kind.
    pub open spec fn rejects(&self, kind: ErrorKind) -> bool {
        self.failure() == Failure::Rejected(kind)
    }

    /// A rejection of the given kind whose message is the given bytes,
    /// which are valid UTF-8.
    pub fn new(kind: ErrorKind, message: &[u8]) -> (r: Error)
        ensures
            r.rejects(kind),
            vstd::utf8::valid_utf8(message@) ==> vstd::utf8::encode_utf8(r.message@) == message@,
    {
        Error { kind, message: lossy_text(message), pending: None }
    }

    /// A rejection of the given kind with a fixed message.
    pub fn fixed(kind: ErrorKind, message: &str) -> (r: Error)
        ensures
            r.rejects(kind),
            r.message@ == message@,
    {
        Error { kind, message: message.to_owned(), pending: None }
    }

    /// A rejection of the given kind whose message is a fixed text, the
    /// given bytes, and a fixed text again.
    pub fn about(kind: ErrorKind, before: &str, detail: &[u8], after: &str) -> (r: Error)
        ensures
            r.rejects(kind),
    {
        let mut message: Vec<u8> = Vec::new();
        push_text(&mut message, before);
        push_bytes(&mut message, detail);
        push_text(&mut message, after);
        Error::new(kind, message.as_slice())
    }

    /// The error that stops a computation until the caller has answered the
    /// request.
    pub fn waiting(kind: ErrorKind, request: Request) -> (r: Error)
        ensures
            r.failure() == Failure::Pending(request@),
            r.kind == kind,
            r.message@ == "The context holds no answer to a request."@,
    {
        Error {
            kind,
            message: "The context holds no answer to a request.".to_owned(),
            pending: Some(request),
        }
    }

    /// The kind's name, a colon and the message.
    pub fn describe(&self) -> (r: String)
        ensures
            r@ == self.kind.spec_name() + ": "@ + self.message@,
    {
        let mut out = self.kind.name().to_owned();
        out.append(": ");
        out.append(self.message.as_str());
        out
    }
}

} // verus!
