use mini_poml::error::ErrorKind;
use mini_poml::render::expression::tokenize::{
    blank, letter, numeric, tokenize_expression, ExpressionToken,
};

#[test]
fn tokenize_test_tokenize() {
    let expression = "(name.age + 1.5) * .2";
    let tokens = tokenize_expression(expression.as_bytes()).unwrap();
    assert_eq!(tokens[0], ExpressionToken::LeftParenthesis);
    assert_eq!(tokens[1], ExpressionToken::Ref("name".as_bytes()));
    assert_eq!(tokens[2], ExpressionToken::Dot);
    assert_eq!(tokens[3], ExpressionToken::Ref("age".as_bytes()));
    assert_eq!(tokens[4], ExpressionToken::ArithOp("+".as_bytes()));
    assert_eq!(tokens[5], ExpressionToken::Number("1.5".as_bytes()));
    assert_eq!(tokens[6], ExpressionToken::RightParenthesis);
    assert_eq!(tokens[7], ExpressionToken::ArithOp("*".as_bytes()));
    assert_eq!(tokens[8], ExpressionToken::Number(".2".as_bytes()));
}

#[test]
fn test_tokenize_array() {
    let expression = "['apple', 'banana\\\'', \"orange\", ]";
    let tokens = tokenize_expression(expression.as_bytes()).unwrap();
    assert_eq!(tokens[0], ExpressionToken::LeftBracket);
    assert_eq!(tokens[1], ExpressionToken::String(b"'apple'"));
    assert_eq!(tokens[2], ExpressionToken::Comma);
    assert_eq!(tokens[3], ExpressionToken::String(b"'banana\\''"));
    assert_eq!(tokens[4], ExpressionToken::Comma);
    assert_eq!(tokens[5], ExpressionToken::String(b"\"orange\""));
    assert_eq!(tokens[6], ExpressionToken::Comma);
    assert_eq!(tokens[7], ExpressionToken::RightBracket);
}

#[test]
fn test_tokenize_logic_expression() {
    let expression = "(name.age + 1.5) * (true && name.count === 1)";
    let tokens = tokenize_expression(expression.as_bytes()).unwrap();
    assert_eq!(
        tokens,
        [
            ExpressionToken::LeftParenthesis,
            ExpressionToken::Ref(b"name"),
            ExpressionToken::Dot,
            ExpressionToken::Ref(b"age"),
            ExpressionToken::ArithOp(b"+"),
            ExpressionToken::Number(b"1.5"),
            ExpressionToken::RightParenthesis,
            ExpressionToken::ArithOp(b"*"),
            ExpressionToken::LeftParenthesis,
            ExpressionToken::Ref(b"true"),
            ExpressionToken::ArithOp(b"&&"),
            ExpressionToken::Ref(b"name"),
            ExpressionToken::Dot,
            ExpressionToken::Ref(b"count"),
            ExpressionToken::ArithOp(b"==="),
            ExpressionToken::Number(b"1"),
            ExpressionToken::RightParenthesis
        ]
    );
}

#[test]
fn test_tokenize_not_equal() {
    let expression = "a !== b";
    let tokens = tokenize_expression(expression.as_bytes()).unwrap();
    assert_eq!(
        tokens,
        [
            ExpressionToken::Ref(b"a"),
            ExpressionToken::ArithOp(b"!=="),
            ExpressionToken::Ref(b"b"),
        ]
    );
}

#[test]
fn test_tokenize_in_operator() {
    let expression = "a in b";
    let tokens = tokenize_expression(expression.as_bytes()).unwrap();
    assert_eq!(
        tokens,
        [
            ExpressionToken::Ref(b"a"),
            ExpressionToken::ArithOp(b"in"),
            ExpressionToken::Ref(b"b"),
        ]
    );
}

#[test]
fn byte_classes_are_those_of_the_characters() {
    for b in 0..=255u8 {
        let c = char::from(b);
        assert_eq!(letter(b), c.is_alphabetic(), "{}", b);
        assert_eq!(numeric(b), c.is_numeric(), "{}", b);
        assert_eq!(blank(b), c.is_whitespace(), "{}", b);
    }
}

#[test]
fn rejected_expressions() {
    for expression in ["1.2.3", "a.", "'abc", "\"abc\\", "a & b", "a | b", "a = b", "a == b", "a # b", "a @ b"] {
        let err = tokenize_expression(expression.as_bytes()).unwrap_err();
        assert_eq!(err.kind, ErrorKind::EvaluatorError, "{}", expression);
        assert!(err.pending.is_none());
    }
}

#[test]
fn operators_and_punctuation() {
    let tokens = tokenize_expression(b"a<=b>=c<d>e||f&&!g?{h:i}:j%k").unwrap();
    assert_eq!(
        tokens,
        [
            ExpressionToken::Ref(b"a"),
            ExpressionToken::ArithOp(b"<="),
            ExpressionToken::Ref(b"b"),
            ExpressionToken::ArithOp(b">="),
            ExpressionToken::Ref(b"c"),
            ExpressionToken::ArithOp(b"<"),
            ExpressionToken::Ref(b"d"),
            ExpressionToken::ArithOp(b">"),
            ExpressionToken::Ref(b"e"),
            ExpressionToken::ArithOp(b"||"),
            ExpressionToken::Ref(b"f"),
            ExpressionToken::ArithOp(b"&&"),
            ExpressionToken::Exclamation,
            ExpressionToken::Ref(b"g"),
            ExpressionToken::QuestionMark,
            ExpressionToken::LeftCurly,
            ExpressionToken::Ref(b"h"),
            ExpressionToken::Colon,
            ExpressionToken::Ref(b"i"),
            ExpressionToken::RightCurly,
            ExpressionToken::Colon,
            ExpressionToken::Ref(b"j"),
            ExpressionToken::ArithOp(b"%"),
            ExpressionToken::Ref(b"k"),
        ]
    );
}

#[test]
fn keyword_in_is_an_operator_only_alone() {
    let tokens = tokenize_expression(b"in inn _in in2").unwrap();
    assert_eq!(
        tokens,
        [
            ExpressionToken::ArithOp(b"in"),
            ExpressionToken::Ref(b"inn"),
            ExpressionToken::Ref(b"_in"),
            ExpressionToken::Ref(b"in2"),
        ]
    );
}

#[test]
fn empty_expression_has_no_tokens() {
    assert_eq!(tokenize_expression(b"").unwrap(), []);
    assert_eq!(tokenize_expression(b"  \t ").unwrap(), []);
}
