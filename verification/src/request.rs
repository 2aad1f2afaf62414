//! Work that the library leaves to its caller.
//!
//! The library does no floating-point arithmetic, reads no file and prints no
//! value it cannot spell itself. Where rendering needs one of these, it looks
//! the answer up among the facts that the context holds. Where no fact
//! answers, it stops with an error that carries the request. The caller
//! answers the request, adds the fact to the context and renders again: the
//! same input with the same facts always gives the same result.

use vstd::prelude::*;
use crate::text::same_bytes;
use crate::value::{value_matches, values_match, PomlValue, ValueView};

verus! {

/// A question that the caller answers.
#[derive(Debug, PartialEq)]
pub enum Request {
    /// The content of the file with this name.
    ReadFile(Vec<u8>),
    /// The double that this decimal text denotes, if it denotes one.
    ParseFloat(Vec<u8>),
    /// The double nearest to this integer.
    IntToFloat(i64),
    /// The sum of two doubles.
    FloatAdd(u64, u64),
    /// The first double less the second.
    FloatSub(u64, u64),
    /// The product of two doubles.
    FloatMul(u64, u64),
    /// The first double divided by the second.
    FloatDiv(u64, u64),
    /// The text of a double as it is shown in rendered output.
    FloatText(u64),
    /// The text of a double as it is joined to a string.
    FloatJsonText(u64),
    /// The text that shows an array or an object in rendered output.
    DebugText(PomlValue),
}

/// The answer to a request.
#[derive(Debug, PartialEq)]
pub enum Answer {
    /// The bits of a double.
    Float(u64),
    /// Text.
    Text(Vec<u8>),
    /// There is no such number.
    Nothing,
}

/// A request with its answer.
#[derive(Debug, PartialEq)]
pub struct Fact {
    pub request: Request,
    pub answer: Answer,
}

pub ghost enum RequestView {
    ReadFile(Seq<u8>),
    ParseFloat(Seq<u8>),
    IntToFloat(i64),
    FloatAdd(u64, u64),
    FloatSub(u64, u64),
    FloatMul(u64, u64),
    FloatDiv(u64, u64),
    FloatText(u64),
    FloatJsonText(u64),
    DebugText(ValueView),
}

pub ghost enum AnswerView {
    Float(u64),
    Text(Seq<u8>),
    Nothing,
}

pub ghost struct FactView {
    pub request: RequestView,
    pub answer: AnswerView,
}

impl View for Request {
    type V = RequestView;

    open spec fn view(&self) -> RequestView {
        match self {
            Request::ReadFile(name) => RequestView::ReadFile(name@),
            Request::ParseFloat(text) => RequestView::ParseFloat(text@),
            Request::IntToFloat(i) => RequestView::IntToFloat(*i),
            Request::FloatAdd(a, b) => RequestView::FloatAdd(*a, *b),
            Request::FloatSub(a, b) => RequestView::FloatSub(*a, *b),
            Request::FloatMul(a, b) => RequestView::FloatMul(*a, *b),
            Request::FloatDiv(a, b) => RequestView::FloatDiv(*a, *b),
            Request::FloatText(a) => RequestView::FloatText(*a),
            Request::FloatJsonText(a) => RequestView::FloatJsonText(*a),
            Request::DebugText(v) => RequestView::DebugText(v@),
        }
    }
}

impl View for Answer {
    type V = AnswerView;

    open spec fn view(&self) -> AnswerView {
        match self {
            Answer::Float(bits) => AnswerView::Float(*bits),
            Answer::Text(text) => AnswerView::Text(text@),
            Answer::Nothing => AnswerView::Nothing,
        }
    }
}

impl View for Fact {
    type V = FactView;

    open spec fn view(&self) -> FactView {
        FactView { request: self.request@, answer: self.answer@ }
    }
}

/// The values of a list of facts.
pub open spec fn facts_view(facts: Seq<Fact>) -> Seq<FactView> {
    Seq::new(facts.len(), |i: int| facts[i]@)
}

/// Whether two requests ask the same: the same question of the same bytes,
/// numbers and bits.
pub open spec fn request_matches(a: RequestView, b: RequestView) -> bool {
    match (a, b) {
        (RequestView::DebugText(x), RequestView::DebugText(y)) => value_matches(x, y, false),
        (RequestView::DebugText(_), _) => false,
        (_, RequestView::DebugText(_)) => false,
        _ => a == b,
    }
}

/// The index of the first fact, at or after `from`, that answers the
/// request; the number of facts where none does.
pub open spec fn fact_index(facts: Seq<FactView>, request: RequestView, from: int) -> int
    decreases facts.len() - from,
{
    if !(0 <= from < facts.len()) {
        facts.len() as int
    } else if request_matches(facts[from].request, request) {
        from
    } else {
        fact_index(facts, request, from + 1)
    }
}

/// The answer of the first fact that answers the request.
pub open spec fn lookup_answer(facts: Seq<FactView>, request: RequestView) -> Option<AnswerView> {
    let i = fact_index(facts, request, 0);
    if i < facts.len() {
        Some(facts[i].answer)
    } else {
        None
    }
}

/// Whether two requests ask the same.
pub fn same_request(a: &Request, b: &Request) -> (r: bool)
    ensures
        r == request_matches(a@, b@),
{
    match (a, b) {
        (Request::ReadFile(x), Request::ReadFile(y)) => same_bytes(x.as_slice(), y.as_slice()),
        (Request::ParseFloat(x), Request::ParseFloat(y)) => same_bytes(
            x.as_slice(),
            y.as_slice(),
        ),
        (Request::IntToFloat(x), Request::IntToFloat(y)) => *x == *y,
        (Request::FloatAdd(x0, x1), Request::FloatAdd(y0, y1)) => *x0 == *y0 && *x1 == *y1,
        (Request::FloatSub(x0, x1), Request::FloatSub(y0, y1)) => *x0 == *y0 && *x1 == *y1,
        (Request::FloatMul(x0, x1), Request::FloatMul(y0, y1)) => *x0 == *y0 && *x1 == *y1,
        (Request::FloatDiv(x0, x1), Request::FloatDiv(y0, y1)) => *x0 == *y0 && *x1 == *y1,
        (Request::FloatText(x), Request::FloatText(y)) => *x == *y,
        (Request::FloatJsonText(x), Request::FloatJsonText(y)) => *x == *y,
        (Request::DebugText(x), Request::DebugText(y)) => values_match(x, y, false),
        _ => false,
    }
}

/// The answer of the first fact that answers the request.
pub fn find_answer<'a>(facts: &'a Vec<Fact>, request: &Request) -> (r: Option<&'a Answer>)
    ensures
        match r {
            Some(answer) => lookup_answer(facts_view(facts@), request@) == Some(answer@),
            None => lookup_answer(facts_view(facts@), request@) is None,
        },
{
    let ghost model = facts_view(facts@);
    let mut i: usize = 0;
    while i < facts.len()
        invariant
            i <= facts.len(),
            model == facts_view(facts@),
            fact_index(model, request@, 0) == fact_index(model, request@, i as int),
        decreases facts.len() - i,
    {
        if same_request(&facts[i].request, request) {
            return Some(&facts[i].answer);
        }
        i = i + 1;
    }
    None
}

} // verus!
