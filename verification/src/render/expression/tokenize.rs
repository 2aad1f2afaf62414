//! The expression tokenizer.
//!
//! An expression is read byte by byte; a byte above 127 is classed as the
//! character with that code.

use vstd::prelude::*;
use vstd::slice::slice_subrange;
use crate::error::{Error, ErrorKind};
use crate::text::{is_text, text};

verus! {

#[derive(Debug, PartialEq, Clone, Copy)]
pub enum ExpressionToken<'a> {
    /// A variable or a keyword value.
    Ref(&'a [u8]),
    /// A number literal.
    Number(&'a [u8]),
    /// A string literal, with its quotes.
    String(&'a [u8]),
    /// An operator: `+ - * / %`, `&&`, `||`, `<`, `<=`, `>`, `>=`, `===`,
    /// `!==` or `in`.
    ArithOp(&'a [u8]),
    LeftParenthesis,
    RightParenthesis,
    LeftBracket,
    RightBracket,
    LeftCurly,
    RightCurly,
    Comma,
    Colon,
    Exclamation,
    Dot,
    QuestionMark,
}

/// The mathematical value of a token.
pub ghost enum TokenView {
    Ref(Seq<u8>),
    Number(Seq<u8>),
    String(Seq<u8>),
    ArithOp(Seq<u8>),
    LeftParenthesis,
    RightParenthesis,
    LeftBracket,
    RightBracket,
    LeftCurly,
    RightCurly,
    Comma,
    Colon,
    Exclamation,
    Dot,
    QuestionMark,
}

impl<'a> View for ExpressionToken<'a> {
    type V = TokenView;

    open spec fn view(&self) -> TokenView {
        match self {
            ExpressionToken::Ref(b) => TokenView::Ref(b@),
            ExpressionToken::Number(b) => TokenView::Number(b@),
            ExpressionToken::String(b) => TokenView::String(b@),
            ExpressionToken::ArithOp(b) => TokenView::ArithOp(b@),
            ExpressionToken::LeftParenthesis => TokenView::LeftParenthesis,
            ExpressionToken::RightParenthesis => TokenView::RightParenthesis,
            ExpressionToken::LeftBracket => TokenView::LeftBracket,
            ExpressionToken::RightBracket => TokenView::RightBracket,
            ExpressionToken::LeftCurly => TokenView::LeftCurly,
            ExpressionToken::RightCurly => TokenView::RightCurly,
            ExpressionToken::Comma => TokenView::Comma,
            ExpressionToken::Colon => TokenView::Colon,
            ExpressionToken::Exclamation => TokenView::Exclamation,
            ExpressionToken::Dot => TokenView::Dot,
            ExpressionToken::QuestionMark => TokenView::QuestionMark,
        }
    }
}

/// The values of a list of tokens.
pub open spec fn tokens_view(tokens: Seq<ExpressionToken>) -> Seq<TokenView> {
    Seq::new(tokens.len(), |i: int| tokens[i]@)
}

/// A letter: an ASCII letter, or one of the letters with a code from 128 to
/// 255 (`ª`, `µ`, `º`, and `À` to `ÿ` but for `×` and `÷`).
pub open spec fn is_letter(b: u8) -> bool {
    (65 <= b <= 90) || (97 <= b <= 122) || b == 170 || b == 181 || b == 186 || (192 <= b <= 214)
        || (216 <= b <= 246) || 248 <= b
}

/// A numeric character: an ASCII digit, or one of `²`, `³`, `¹`, `¼`, `½`, `¾`.
pub open spec fn is_numeric(b: u8) -> bool {
    (48 <= b <= 57) || b == 178 || b == 179 || b == 185 || (188 <= b <= 190)
}

/// Whitespace: tab to carriage return, space, next line and no-break space.
pub open spec fn is_blank(b: u8) -> bool {
    (9 <= b <= 13) || b == 32 || b == 133 || b == 160
}

/// A byte that may start a reference.
pub open spec fn is_ref_start(b: u8) -> bool {
    is_letter(b) || b == '_' as u8
}

/// A byte that may continue a reference.
pub open spec fn is_ref_byte(b: u8) -> bool {
    is_letter(b) || is_numeric(b) || b == '_' as u8
}

pub fn letter(b: u8) -> (r: bool)
    ensures
        r == is_letter(b),
{
    (65 <= b && b <= 90) || (97 <= b && b <= 122) || b == 170 || b == 181 || b == 186 || (192 <= b
        && b <= 214) || (216 <= b && b <= 246) || 248 <= b
}

pub fn numeric(b: u8) -> (r: bool)
    ensures
        r == is_numeric(b),
{
    (48 <= b && b <= 57) || b == 178 || b == 179 || b == 185 || (188 <= b && b <= 190)
}

pub fn blank(b: u8) -> (r: bool)
    ensures
        r == is_blank(b),
{
    (9 <= b && b <= 13) || b == 32 || b == 133 || b == 160
}

/// The end of the reference that starts at `pos`: the first position after
/// `pos` that holds no reference byte.
pub open spec fn ref_end(buf: Seq<u8>, pos: int) -> int
    decreases buf.len() - pos,
{
    if 0 <= pos < buf.len() && is_ref_byte(buf[pos]) {
        ref_end(buf, pos + 1)
    } else {
        pos
    }
}

/// The end of the number that runs through `pos`: numeric characters and at
/// most one dot. `None` where a second dot follows.
pub open spec fn number_end(buf: Seq<u8>, pos: int, found_dot: bool) -> Option<int>
    decreases buf.len() - pos,
{
    if !(0 <= pos < buf.len()) {
        Some(pos)
    } else if is_numeric(buf[pos]) {
        number_end(buf, pos + 1, found_dot)
    } else if buf[pos] == '.' as u8 {
        if found_dot {
            None
        } else {
            number_end(buf, pos + 1, true)
        }
    } else {
        Some(pos)
    }
}

/// The position after the quote that closes a string, scanning from `pos`;
/// a backslash hides the byte after it. `None` where no quote closes it.
pub open spec fn string_end(buf: Seq<u8>, pos: int, quote: u8) -> Option<int>
    decreases buf.len() - pos,
{
    if !(0 <= pos < buf.len()) {
        None
    } else if buf[pos] == quote {
        Some(pos + 1)
    } else if buf[pos] == '\\' as u8 {
        if pos + 1 < buf.len() {
            string_end(buf, pos + 2, quote)
        } else {
            None
        }
    } else {
        string_end(buf, pos + 1, quote)
    }
}

/// A byte that is a token by itself.
pub open spec fn punctuation(b: u8) -> Option<TokenView> {
    if b == '(' as u8 {
        Some(TokenView::LeftParenthesis)
    } else if b == ')' as u8 {
        Some(TokenView::RightParenthesis)
    } else if b == '[' as u8 {
        Some(TokenView::LeftBracket)
    } else if b == ']' as u8 {
        Some(TokenView::RightBracket)
    } else if b == '{' as u8 {
        Some(TokenView::LeftCurly)
    } else if b == '}' as u8 {
        Some(TokenView::RightCurly)
    } else if b == ',' as u8 {
        Some(TokenView::Comma)
    } else if b == ':' as u8 {
        Some(TokenView::Colon)
    } else if b == '?' as u8 {
        Some(TokenView::QuestionMark)
    } else {
        None
    }
}

/// What stands at `pos`, a position inside the expression: the token, if it
/// is one and not whitespace, and the position after it. `None` where the
/// expression is rejected: a number with two dots, a dot at the very end, a
/// string that never closes, a lone `&`, `|` or `=`, or any other byte.
pub open spec fn token_at(buf: Seq<u8>, pos: int) -> Option<(Option<TokenView>, int)> {
    let c = buf[pos];
    if is_ref_start(c) {
        let end = ref_end(buf, pos + 1);
        let name = buf.subrange(pos, end);
        if name == text("in") {
            Some((Some(TokenView::ArithOp(name)), end))
        } else {
            Some((Some(TokenView::Ref(name)), end))
        }
    } else if is_numeric(c) {
        match number_end(buf, pos, false) {
            Some(end) => Some((Some(TokenView::Number(buf.subrange(pos, end))), end)),
            None => None,
        }
    } else if c == '.' as u8 {
        if pos + 1 >= buf.len() {
            None
        } else if is_numeric(buf[pos + 1]) {
            match number_end(buf, pos, false) {
                Some(end) => Some((Some(TokenView::Number(buf.subrange(pos, end))), end)),
                None => None,
            }
        } else {
            Some((Some(TokenView::Dot), pos + 1))
        }
    } else if c == '"' as u8 || c == '\'' as u8 {
        match string_end(buf, pos + 1, c) {
            Some(end) => Some((Some(TokenView::String(buf.subrange(pos, end))), end)),
            None => None,
        }
    } else if c == '+' as u8 || c == '-' as u8 || c == '*' as u8 || c == '/' as u8 || c
        == '%' as u8 {
        Some((Some(TokenView::ArithOp(buf.subrange(pos, pos + 1))), pos + 1))
    } else if c == '&' as u8 || c == '|' as u8 {
        if pos + 1 < buf.len() && buf[pos + 1] == c {
            Some((Some(TokenView::ArithOp(buf.subrange(pos, pos + 2))), pos + 2))
        } else {
            None
        }
    } else if c == '>' as u8 || c == '<' as u8 {
        if pos + 1 < buf.len() && buf[pos + 1] == '=' as u8 {
            Some((Some(TokenView::ArithOp(buf.subrange(pos, pos + 2))), pos + 2))
        } else {
            Some((Some(TokenView::ArithOp(buf.subrange(pos, pos + 1))), pos + 1))
        }
    } else if c == '=' as u8 {
        if pos + 2 < buf.len() && buf[pos + 1] == '=' as u8 && buf[pos + 2] == '=' as u8 {
            Some((Some(TokenView::ArithOp(buf.subrange(pos, pos + 3))), pos + 3))
        } else {
            None
        }
    } else if c == '!' as u8 {
        if pos + 2 < buf.len() && buf[pos + 1] == '=' as u8 && buf[pos + 2] == '=' as u8 {
            Some((Some(TokenView::ArithOp(buf.subrange(pos, pos + 3))), pos + 3))
        } else {
            Some((Some(TokenView::Exclamation), pos + 1))
        }
    } else if punctuation(c) is Some {
        Some((punctuation(c), pos + 1))
    } else if is_blank(c) {
        Some((None, pos + 1))
    } else {
        None
    }
}

/// `acc` followed by the tokens of the expression from `pos` on, or `None`
/// where the expression is rejected.
pub open spec fn tokens_from(buf: Seq<u8>, pos: int, acc: Seq<TokenView>) -> Option<Seq<TokenView>>
    decreases buf.len() - pos,
{
    if !(0 <= pos < buf.len()) {
        Some(acc)
    } else {
        match token_at(buf, pos) {
            None => None,
            Some((token, next)) => if pos < next <= buf.len() {
                tokens_from(
                    buf,
                    next,
                    match token {
                        Some(t) => acc.push(t),
                        None => acc,
                    },
                )
            } else {
                None
            },
        }
    }
}

/// The tokens of an expression, or `None` where it is rejected.
pub open spec fn spec_tokenize(buf: Seq<u8>) -> Option<Seq<TokenView>> {
    tokens_from(buf, 0, Seq::empty())
}

pub proof fn lemma_ref_end_bounds(buf: Seq<u8>, pos: int)
    requires
        0 <= pos <= buf.len(),
    ensures
        pos <= ref_end(buf, pos) <= buf.len(),
    decreases buf.len() - pos,
{
    if pos < buf.len() && is_ref_byte(buf[pos]) {
        lemma_ref_end_bounds(buf, pos + 1);
    }
}

pub proof fn lemma_number_end_bounds(buf: Seq<u8>, pos: int, found_dot: bool)
    requires
        0 <= pos <= buf.len(),
    ensures
        number_end(buf, pos, found_dot) matches Some(end) ==> pos <= end <= buf.len() && (pos
            < buf.len() && (is_numeric(buf[pos]) || (buf[pos] == '.' as u8 && !found_dot)) ==> pos
            < end),
    decreases buf.len() - pos,
{
    if pos < buf.len() {
        if is_numeric(buf[pos]) {
            lemma_number_end_bounds(buf, pos + 1, found_dot);
        } else if buf[pos] == '.' as u8 && !found_dot {
            lemma_number_end_bounds(buf, pos + 1, true);
        }
    }
}

pub proof fn lemma_string_end_bounds(buf: Seq<u8>, pos: int, quote: u8)
    requires
        0 <= pos,
    ensures
        string_end(buf, pos, quote) matches Some(end) ==> pos < end <= buf.len(),
    decreases buf.len() - pos,
{
    if pos < buf.len() {
        if buf[pos] == quote {
        } else if buf[pos] == '\\' as u8 {
            if pos + 1 < buf.len() {
                lemma_string_end_bounds(buf, pos + 2, quote);
            }
        } else {
            lemma_string_end_bounds(buf, pos + 1, quote);
        }
    }
}

/// Every step of the tokenizer moves forward and stays inside the expression.
pub proof fn lemma_token_at_bounds(buf: Seq<u8>, pos: int)
    requires
        0 <= pos < buf.len(),
    ensures
        token_at(buf, pos) matches Some((_, next)) ==> pos < next <= buf.len(),
{
    lemma_ref_end_bounds(buf, pos + 1);
    lemma_number_end_bounds(buf, pos, false);
    lemma_string_end_bounds(buf, pos + 1, buf[pos]);
}

fn evaluator_error(message: &str) -> (r: Error)
    ensures
        r.rejects(ErrorKind::EvaluatorError),
{
    Error::fixed(ErrorKind::EvaluatorError, message)
}

/// Cuts an expression into tokens.
#[verifier::loop_isolation(false)]
pub fn tokenize_expression<'a>(buf: &'a [u8]) -> (r: Result<Vec<ExpressionToken<'a>>, Error>)
    ensures
        match r {
            Ok(tokens) => spec_tokenize(buf@) == Some(tokens_view(tokens@)),
            Err(e) => spec_tokenize(buf@) is None && e.rejects(ErrorKind::EvaluatorError),
        },
{
    let mut answer: Vec<ExpressionToken<'a>> = Vec::new();
    let mut pos: usize = 0;
    proof {
        assert(tokens_view(answer@) =~= Seq::empty());
    }
    while pos < buf.len()
        invariant
            pos <= buf@.len(),
            spec_tokenize(buf@) == tokens_from(buf@, pos as int, tokens_view(answer@)),
        decreases buf@.len() - pos,
    {
        let c = buf[pos];
        let ghost acc = tokens_view(answer@);
        proof {
            lemma_token_at_bounds(buf@, pos as int);
        }
        let mut token: Option<ExpressionToken<'a>> = None;
        let next: usize;
        if letter(c) || c == '_' as u8 {
            let end = seek_ref_end(buf, pos);
            let name = slice_subrange(buf, pos, end);
            if is_text(name, "in") {
                token = Some(ExpressionToken::ArithOp(name));
            } else {
                token = Some(ExpressionToken::Ref(name));
            }
            next = end;
        } else if numeric(c) {
            let end = seek_number_end(buf, pos)?;
            token = Some(ExpressionToken::Number(slice_subrange(buf, pos, end)));
            next = end;
        } else if c == '.' as u8 {
            if pos + 1 >= buf.len() {
                return Err(evaluator_error("No content following dot operator."));
            }
            if numeric(buf[pos + 1]) {
                let end = seek_number_end(buf, pos)?;
                token = Some(ExpressionToken::Number(slice_subrange(buf, pos, end)));
                next = end;
            } else {
                token = Some(ExpressionToken::Dot);
                next = pos + 1;
            }
        } else if c == '"' as u8 || c == '\'' as u8 {
            let end = seek_string_end(buf, pos)?;
            token = Some(ExpressionToken::String(slice_subrange(buf, pos, end)));
            next = end;
        } else if c == '+' as u8 || c == '-' as u8 || c == '*' as u8 || c == '/' as u8 || c
            == '%' as u8 {
            token = Some(ExpressionToken::ArithOp(slice_subrange(buf, pos, pos + 1)));
            next = pos + 1;
        } else if c == '&' as u8 || c == '|' as u8 {
            if pos + 1 < buf.len() && buf[pos + 1] == c {
                token = Some(ExpressionToken::ArithOp(slice_subrange(buf, pos, pos + 2)));
                next = pos + 2;
            } else {
                return Err(evaluator_error("Operator has not been supported!"));
            }
        } else if c == '>' as u8 || c == '<' as u8 {
            if pos + 1 < buf.len() && buf[pos + 1] == '=' as u8 {
                token = Some(ExpressionToken::ArithOp(slice_subrange(buf, pos, pos + 2)));
                next = pos + 2;
            } else {
                token = Some(ExpressionToken::ArithOp(slice_subrange(buf, pos, pos + 1)));
                next = pos + 1;
            }
        } else if c == '=' as u8 {
            if buf.len() - pos > 2 && buf[pos + 1] == '=' as u8 && buf[pos + 2] == '=' as u8 {
                token = Some(ExpressionToken::ArithOp(slice_subrange(buf, pos, pos + 3)));
                next = pos + 3;
            } else {
                return Err(evaluator_error("Operator has not been supported!"));
            }
        } else if c == '!' as u8 {
            if buf.len() - pos > 2 && buf[pos + 1] == '=' as u8 && buf[pos + 2] == '=' as u8 {
                token = Some(ExpressionToken::ArithOp(slice_subrange(buf, pos, pos + 3)));
                next = pos + 3;
            } else {
                token = Some(ExpressionToken::Exclamation);
                next = pos + 1;
            }
        } else if c == '(' as u8 {
            token = Some(ExpressionToken::LeftParenthesis);
            next = pos + 1;
        } else if c == ')' as u8 {
            token = Some(ExpressionToken::RightParenthesis);
            next = pos + 1;
        } else if c == '[' as u8 {
            token = Some(ExpressionToken::LeftBracket);
            next = pos + 1;
        } else if c == ']' as u8 {
            token = Some(ExpressionToken::RightBracket);
            next = pos + 1;
        } else if c == '{' as u8 {
            token = Some(ExpressionToken::LeftCurly);
            next = pos + 1;
        } else if c == '}' as u8 {
            token = Some(ExpressionToken::RightCurly);
            next = pos + 1;
        } else if c == ',' as u8 {
            token = Some(ExpressionToken::Comma);
            next = pos + 1;
        } else if c == ':' as u8 {
            token = Some(ExpressionToken::Colon);
            next = pos + 1;
        } else if c == '?' as u8 {
            token = Some(ExpressionToken::QuestionMark);
            next = pos + 1;
        } else if blank(c) {
            next = pos + 1;
        } else {
            return Err(evaluator_error("Invalid char encoutered in expression"));
        }
        match token {
            Some(t) => {
                answer.push(t);
                proof {
                    assert(tokens_view(answer@) =~= acc.push(t@));
                }
            },
            None => {},
        }
        pos = next;
    }
    Ok(answer)
}

/// The end of the reference that starts at `pos`.
pub fn seek_ref_end(buf: &[u8], pos: usize) -> (r: usize)
    requires
        pos < buf@.len(),
    ensures
        r as int == ref_end(buf@, pos as int + 1),
        pos < r <= buf@.len(),
{
    let len = buf.len();
    let mut ref_end_pos = pos + 1;
    while ref_end_pos < buf.len() && (letter(buf[ref_end_pos]) || numeric(buf[ref_end_pos])
        || buf[ref_end_pos] == '_' as u8)
        invariant
            pos < ref_end_pos <= buf@.len(),
            ref_end(buf@, pos as int + 1) == ref_end(buf@, ref_end_pos as int),
        decreases buf@.len() - ref_end_pos,
    {
        ref_end_pos = ref_end_pos + 1;
    }
    ref_end_pos
}

/// The end of the number that starts at `pos`.
#[verifier::loop_isolation(false)]
pub fn seek_number_end(buf: &[u8], pos: usize) -> (r: Result<usize, Error>)
    requires
        pos <= buf@.len(),
    ensures
        match r {
            Ok(end) => number_end(buf@, pos as int, false) == Some(end as int) && pos <= end
                <= buf@.len(),
            Err(e) => number_end(buf@, pos as int, false) is None && e.rejects(ErrorKind::EvaluatorError),
        },
{
    let mut found_dot = false;
    let mut num_end_pos = pos;
    let mut done = false;
    while num_end_pos < buf.len() && !done
        invariant
            pos <= num_end_pos <= buf@.len(),
            number_end(buf@, pos as int, false) == number_end(buf@, num_end_pos as int, found_dot),
            done ==> num_end_pos < buf@.len() && !is_numeric(buf@[num_end_pos as int])
                && buf@[num_end_pos as int] != '.' as u8,
        decreases buf@.len() - num_end_pos + (if done { 0int } else { 1int }),
    {
        let nc = buf[num_end_pos];
        if numeric(nc) {
            num_end_pos = num_end_pos + 1;
        } else if nc == '.' as u8 {
            if !found_dot {
                found_dot = true;
                num_end_pos = num_end_pos + 1;
            } else {
                return Err(evaluator_error("Multiple dots found in a number literal."));
            }
        } else {
            done = true;
        }
    }
    Ok(num_end_pos)
}

/// The position after the quote that closes the string that opens at `pos`.
#[verifier::loop_isolation(false)]
pub fn seek_string_end(buf: &[u8], pos: usize) -> (r: Result<usize, Error>)
    requires
        pos < buf@.len(),
    ensures
        match r {
            Ok(end) => string_end(buf@, pos as int + 1, buf@[pos as int]) == Some(end as int)
                && pos < end <= buf@.len(),
            Err(e) => string_end(buf@, pos as int + 1, buf@[pos as int]) is None && e.rejects(ErrorKind::EvaluatorError),
        },
{
    let len = buf.len();
    let quote = buf[pos];
    let mut cur = pos + 1;
    while cur < buf.len()
        invariant
            pos < cur,
            string_end(buf@, pos as int + 1, quote) == string_end(buf@, cur as int, quote),
        decreases buf@.len() - cur,
    {
        if buf[cur] == quote {
            return Ok(cur + 1);
        }
        if buf[cur] == '\\' as u8 {
            if buf.len() - cur < 2 {
                return Err(evaluator_error("String literal doesn't end in the expression."));
            }
            cur = cur + 2;
        } else {
            cur = cur + 1;
        }
    }
    Err(evaluator_error("String literal doesn't end in the expression."))
}

} // verus!
