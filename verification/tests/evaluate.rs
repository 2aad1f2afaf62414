use mini_poml::error::{Error, ErrorKind};
use mini_poml::render::expression::evaluate::{
    evaluate_expression_tokens, evaluate_expression_value, evaluate_number, evaluate_reference,
    evaluate_string, recognize_next_value,
};
use mini_poml::render::expression::evaluate_expression;
use mini_poml::render::expression::tokenize::ExpressionToken;
use mini_poml::render::expression::utils::is_false_json_value;
use mini_poml::render::render_context::RenderContext;
use mini_poml::request::{Answer, Request};
use mini_poml::value::{parse_int_bytes, PomlValue};

fn to_json(v: &PomlValue) -> serde_json::Value {
    match v {
        PomlValue::Null => serde_json::Value::Null,
        PomlValue::Bool(b) => serde_json::Value::Bool(*b),
        PomlValue::Int(i) => serde_json::Value::Number(serde_json::Number::from(*i)),
        PomlValue::Float(bits) => {
            serde_json::Value::Number(serde_json::Number::from_f64(f64::from_bits(*bits)).unwrap())
        }
        PomlValue::String(s) => serde_json::Value::String(String::from_utf8_lossy(s).into_owned()),
        PomlValue::Array(a) => serde_json::Value::Array(a.iter().map(to_json).collect()),
        PomlValue::Object(o) => serde_json::Value::Object(
            o.iter()
                .map(|(k, v)| (String::from_utf8_lossy(k).into_owned(), to_json(v)))
                .collect(),
        ),
    }
}

fn answer(request: &Request) -> Answer {
    match request {
        Request::ReadFile(_) => Answer::Nothing,
        Request::ParseFloat(t) => match std::str::from_utf8(t).ok().and_then(|s| s.parse::<f64>().ok()) {
            Some(f) => Answer::Float(f.to_bits()),
            None => Answer::Nothing,
        },
        Request::IntToFloat(i) => Answer::Float((*i as f64).to_bits()),
        Request::FloatAdd(a, b) => Answer::Float((f64::from_bits(*a) + f64::from_bits(*b)).to_bits()),
        Request::FloatSub(a, b) => Answer::Float((f64::from_bits(*a) - f64::from_bits(*b)).to_bits()),
        Request::FloatMul(a, b) => Answer::Float((f64::from_bits(*a) * f64::from_bits(*b)).to_bits()),
        Request::FloatDiv(a, b) => Answer::Float((f64::from_bits(*a) / f64::from_bits(*b)).to_bits()),
        Request::FloatText(a) => Answer::Text(format!("{}", f64::from_bits(*a)).into_bytes()),
        Request::FloatJsonText(a) => Answer::Text(
            serde_json::Number::from_f64(f64::from_bits(*a)).unwrap().to_string().into_bytes(),
        ),
        Request::DebugText(v) => Answer::Text(format!("{:?}", to_json(v)).into_bytes()),
    }
}

fn settle<T>(
    context: &mut RenderContext,
    run: impl Fn(&RenderContext) -> Result<T, Error>,
) -> Result<T, Error> {
    loop {
        match run(context) {
            Err(Error { pending: Some(request), .. }) => {
                let a = answer(&request);
                context.add_fact(request, a);
            }
            other => return other,
        }
    }
}

fn text(s: &str) -> PomlValue {
    PomlValue::String(s.as_bytes().to_vec())
}

fn float(f: f64) -> PomlValue {
    PomlValue::Float(f.to_bits())
}

fn context(variables: Vec<(&str, PomlValue)>) -> RenderContext {
    RenderContext::from_variables(
        variables.into_iter().map(|(k, v)| (k.as_bytes().to_vec(), v)).collect(),
    )
}

fn eval(expression: &str, context: &mut RenderContext) -> Result<PomlValue, Error> {
    settle(context, |c| evaluate_expression(expression, c))
}

fn eval_tokens(tokens: &[ExpressionToken], context: &mut RenderContext) -> Result<(PomlValue, usize), Error> {
    settle(context, |c| evaluate_expression_value(tokens, 0, c))
}

fn reference_context() -> RenderContext {
    context(vec![
        ("my", PomlValue::Object(vec![(b"home".to_vec(), text("127.0.0.1"))])),
        ("count", PomlValue::Int(5)),
    ])
}

#[test]
fn tests_test_evaluate_reference() {
    let context = reference_context();
    assert_eq!(
        recognize_next_value(
            &[
                ExpressionToken::Ref(b"my"),
                ExpressionToken::Dot,
                ExpressionToken::Ref(b"home"),
            ],
            0,
            &context
        )
        .unwrap()
        .0,
        text("127.0.0.1")
    );
    assert_eq!(
        evaluate_reference("count".as_bytes(), &context).unwrap(),
        PomlValue::Int(5)
    );
    assert_eq!(
        recognize_next_value(
            &[
                ExpressionToken::Ref(b"my"),
                ExpressionToken::Dot,
                ExpressionToken::Ref(b"car")
            ],
            0,
            &context
        )
        .unwrap()
        .0,
        PomlValue::Null
    );
    assert!(recognize_next_value(
        &[
            ExpressionToken::Ref(b"my"),
            ExpressionToken::Dot,
            ExpressionToken::Ref(b"car"),
            ExpressionToken::Dot,
            ExpressionToken::Ref(b"window")
        ],
        0,
        &context
    )
    .is_err());
}

fn check_numbers() {
    let mut context = context(vec![]);
    assert_eq!(
        settle(&mut context, |c| evaluate_number("123".as_bytes(), c)).unwrap(),
        PomlValue::Int(123)
    );
    assert_eq!(
        settle(&mut context, |c| evaluate_number("0.55".as_bytes(), c)).unwrap(),
        float(0.55)
    );
}

#[test]
fn tests_test_evaluate_numbers() {
    check_numbers();
}

#[test]
fn evaluate_test_evaluate_numbers() {
    check_numbers();
}

fn check_array() {
    let context = context(vec![]);
    assert_eq!(
        evaluate_expression_tokens(
            &[
                ExpressionToken::LeftBracket,
                ExpressionToken::Number(b"1"),
                ExpressionToken::Comma,
                ExpressionToken::String(b"\'2\'"),
                ExpressionToken::Comma,
                ExpressionToken::LeftBracket,
                ExpressionToken::Ref(b"true"),
                ExpressionToken::Comma,
                ExpressionToken::Ref(b"false"),
                ExpressionToken::Comma,
                ExpressionToken::RightBracket,
                ExpressionToken::Comma,
                ExpressionToken::RightBracket,
            ],
            &context
        )
        .unwrap(),
        PomlValue::Array(vec![
            PomlValue::Int(1),
            text("2"),
            PomlValue::Array(vec![PomlValue::Bool(true), PomlValue::Bool(false)])
        ])
    );
}

#[test]
fn tests_test_evaluate_array() {
    check_array();
}

#[test]
fn evaluate_test_evaluate_array() {
    check_array();
}

fn check_not() {
    let context = context(vec![("flag", PomlValue::Bool(false))]);
    assert_eq!(
        evaluate_expression_tokens(
            &[ExpressionToken::Exclamation, ExpressionToken::Ref(b"flag"),],
            &context
        )
        .unwrap(),
        PomlValue::Bool(true)
    );
}

#[test]
fn tests_test_evaluate_not() {
    check_not();
}

#[test]
fn evaluate_test_evaluate_not() {
    check_not();
}

fn check_plus_arith() {
    let mut context = context(vec![
        ("a", PomlValue::Int(1)),
        ("b", PomlValue::Int(2)),
        ("s", text("a")),
    ]);
    let (result, pos) = eval_tokens(
        &[
            ExpressionToken::Ref(b"a"),
            ExpressionToken::ArithOp(b"+"),
            ExpressionToken::Ref(b"b"),
        ],
        &mut context,
    )
    .unwrap();
    assert_eq!(result, PomlValue::Int(3));
    assert_eq!(pos, 3);

    let (result, pos) = eval_tokens(
        &[
            ExpressionToken::Ref(b"a"),
            ExpressionToken::ArithOp(b"+"),
            ExpressionToken::Ref(b"s"),
        ],
        &mut context,
    )
    .unwrap();
    assert_eq!(result, text("1a"));
    assert_eq!(pos, 3);
}

#[test]
fn tests_test_evaluate_plus_arith() {
    check_plus_arith();
}

#[test]
fn evaluate_test_evaluate_plus_arith() {
    check_plus_arith();
}

fn check_minus_arith() {
    let mut context = context(vec![
        ("a", PomlValue::Int(1)),
        ("b", PomlValue::Int(2)),
        ("c", float(3.0)),
    ]);
    let (result, pos) = eval_tokens(
        &[
            ExpressionToken::Ref(b"a"),
            ExpressionToken::ArithOp(b"-"),
            ExpressionToken::Ref(b"b"),
        ],
        &mut context,
    )
    .unwrap();
    assert_eq!(result, PomlValue::Int(-1));
    assert_eq!(pos, 3);

    let (result, pos) = eval_tokens(
        &[
            ExpressionToken::Ref(b"a"),
            ExpressionToken::ArithOp(b"-"),
            ExpressionToken::Ref(b"c"),
        ],
        &mut context,
    )
    .unwrap();
    assert_eq!(result, float(-2.0));
    assert_eq!(pos, 3);
}

#[test]
fn tests_test_evaluate_minus_arith() {
    check_minus_arith();
}

#[test]
fn evaluate_test_evaluate_minus_arith() {
    check_minus_arith();
}

#[test]
fn test_evaluate_parenthesis() {
    let mut context = context(vec![
        ("a", PomlValue::Int(1)),
        ("b", PomlValue::Int(2)),
        ("s", text(" ")),
    ]);
    let (result, pos) = eval_tokens(
        &[
            ExpressionToken::Ref(b"a"),
            ExpressionToken::ArithOp(b"-"),
            ExpressionToken::LeftParenthesis,
            ExpressionToken::Ref(b"b"),
            ExpressionToken::ArithOp(b"-"),
            ExpressionToken::Ref(b"a"),
            ExpressionToken::RightParenthesis,
        ],
        &mut context,
    )
    .unwrap();
    assert_eq!(result, PomlValue::Int(0));
    assert_eq!(pos, 7);
}

#[test]
fn test_mix_int_string_plus() {
    let mut context = context(vec![
        ("a", PomlValue::Int(1)),
        ("b", PomlValue::Int(2)),
        ("s", text(" ")),
    ]);
    let (result, pos) = eval_tokens(
        &[
            ExpressionToken::Ref(b"s"),
            ExpressionToken::ArithOp(b"+"),
            ExpressionToken::LeftParenthesis,
            ExpressionToken::Ref(b"a"),
            ExpressionToken::ArithOp(b"+"),
            ExpressionToken::Ref(b"b"),
            ExpressionToken::RightParenthesis,
        ],
        &mut context,
    )
    .unwrap();
    assert_eq!(result, text(" 3"));
    assert_eq!(pos, 7);

    let (result, pos) = eval_tokens(
        &[
            ExpressionToken::Ref(b"s"),
            ExpressionToken::ArithOp(b"+"),
            ExpressionToken::Ref(b"a"),
            ExpressionToken::ArithOp(b"+"),
            ExpressionToken::Ref(b"b"),
        ],
        &mut context,
    )
    .unwrap();
    assert_eq!(result, text(" 12"));
    assert_eq!(pos, 5);
}

#[test]
fn test_evaluate_times() {
    let mut context = context(vec![
        ("a", PomlValue::Int(1)),
        ("b", PomlValue::Int(2)),
        ("c", PomlValue::Int(4)),
    ]);
    let (result, pos) = eval_tokens(
        &[
            ExpressionToken::Ref(b"a"),
            ExpressionToken::ArithOp(b"+"),
            ExpressionToken::Ref(b"b"),
            ExpressionToken::ArithOp(b"*"),
            ExpressionToken::Ref(b"c"),
        ],
        &mut context,
    )
    .unwrap();
    assert_eq!(result, PomlValue::Int(9));
    assert_eq!(pos, 5);
}

#[test]
fn test_evaluate_times_and_divide() {
    let mut context = context(vec![
        ("a", PomlValue::Int(1)),
        ("b", PomlValue::Int(2)),
        ("c", PomlValue::Int(4)),
    ]);
    let (result, pos) = eval_tokens(
        &[
            ExpressionToken::LeftParenthesis,
            ExpressionToken::Ref(b"a"),
            ExpressionToken::ArithOp(b"+"),
            ExpressionToken::Ref(b"b"),
            ExpressionToken::ArithOp(b"*"),
            ExpressionToken::Ref(b"c"),
            ExpressionToken::RightParenthesis,
            ExpressionToken::ArithOp(b"/"),
            ExpressionToken::Ref(b"b"),
        ],
        &mut context,
    )
    .unwrap();
    assert_eq!(result, float(4.5));
    assert_eq!(pos, 9);
}

#[test]
fn test_strict_equal_operator() {
    let mut context = context(vec![
        ("a", PomlValue::Int(1)),
        ("b", PomlValue::Int(1)),
        ("c", text("1")),
    ]);
    let (result, _) = eval_tokens(
        &[
            ExpressionToken::Ref(b"a"),
            ExpressionToken::ArithOp(b"==="),
            ExpressionToken::Ref(b"b"),
        ],
        &mut context,
    )
    .unwrap();
    assert_eq!(result, PomlValue::Bool(true));
    let (result, _) = eval_tokens(
        &[
            ExpressionToken::Ref(b"a"),
            ExpressionToken::ArithOp(b"==="),
            ExpressionToken::Ref(b"c"),
        ],
        &mut context,
    )
    .unwrap();
    assert_eq!(result, PomlValue::Bool(false));
}

#[test]
fn test_logical_operator() {
    let mut context = context(vec![("a", PomlValue::Bool(true)), ("b", PomlValue::Bool(false))]);
    let (result, _) = eval_tokens(
        &[
            ExpressionToken::Ref(b"a"),
            ExpressionToken::ArithOp(b"&&"),
            ExpressionToken::Ref(b"b"),
        ],
        &mut context,
    )
    .unwrap();
    assert_eq!(result, PomlValue::Bool(false));
    let (result, _) = eval_tokens(
        &[
            ExpressionToken::Ref(b"a"),
            ExpressionToken::ArithOp(b"||"),
            ExpressionToken::Ref(b"c"),
        ],
        &mut context,
    )
    .unwrap();
    assert_eq!(result, PomlValue::Bool(true));

    let (result, _) = eval_tokens(
        &[
            ExpressionToken::Ref(b"b"),
            ExpressionToken::ArithOp(b"||"),
            ExpressionToken::ArithOp(b"!"),
            ExpressionToken::Ref(b"a"),
        ],
        &mut context,
    )
    .unwrap();
    assert_eq!(result, PomlValue::Bool(false));

    let (result, _) = eval_tokens(
        &[
            ExpressionToken::ArithOp(b"!"),
            ExpressionToken::LeftParenthesis,
            ExpressionToken::Ref(b"a"),
            ExpressionToken::ArithOp(b"&&"),
            ExpressionToken::Ref(b"b"),
            ExpressionToken::RightParenthesis,
        ],
        &mut context,
    )
    .unwrap();
    assert_eq!(result, PomlValue::Bool(true));
}

#[test]
fn test_is_false_json_value() {
    assert!(is_false_json_value(&PomlValue::Int(0)));
    assert!(is_false_json_value(&PomlValue::Bool(false)));
    assert!(is_false_json_value(&text("")));
    assert!(is_false_json_value(&PomlValue::Null));
    assert!(!is_false_json_value(&text("0")));
    assert!(!is_false_json_value(&PomlValue::Array(vec![])));
    assert!(!is_false_json_value(&PomlValue::Object(vec![])));
    assert!(is_false_json_value(&float(0.0)));
    assert!(is_false_json_value(&float(-0.0)));
    assert!(!is_false_json_value(&float(0.5)));
}

#[test]
fn test_creation_with_hashmap() {
    let context = context(vec![("a", PomlValue::Int(1)), ("s", text("s"))]);
    assert_eq!(context.get_value("a"), Some(PomlValue::Int(1)).as_ref());
    assert_eq!(context.get_value("s"), Some(text("s")).as_ref());
}

#[test]
fn test_creation_with_hashmap_ref() {
    let variables = vec![(b"a".to_vec(), PomlValue::Int(1)), (b"s".to_vec(), text("s"))];
    let context = RenderContext::from_variables(variables.clone());
    assert_eq!(context.get_value("a"), Some(PomlValue::Int(1)).as_ref());
    assert_eq!(context.get_value("s"), Some(text("s")).as_ref());
    assert_eq!(variables.len(), 2);
}

#[test]
fn test_creation_with_json_map() {
    let context = context(vec![("s", text("s")), ("a", PomlValue::Int(1))]);
    assert_eq!(context.get_value("a"), Some(PomlValue::Int(1)).as_ref());
    assert_eq!(context.get_value("s"), Some(text("s")).as_ref());
}

#[test]
fn precedence() {
    let mut c = context(vec![]);
    assert_eq!(eval("1 + 2 * 3", &mut c).unwrap(), PomlValue::Int(7));
    assert_eq!(eval("(1 + 2) * 3", &mut c).unwrap(), PomlValue::Int(9));
    assert_eq!(eval("true || false && false", &mut c).unwrap(), PomlValue::Bool(true));
    assert_eq!(eval("1 + 2 < 2 * 2", &mut c).unwrap(), PomlValue::Bool(true));
    assert_eq!(eval("1 < 2 === 2 > 1", &mut c).unwrap(), PomlValue::Bool(true));
    assert_eq!(eval("!false && true", &mut c).unwrap(), PomlValue::Bool(true));
    assert_eq!(eval("10 - 4 - 3", &mut c).unwrap(), PomlValue::Int(3));
    assert_eq!(eval("2 * 3 % 4", &mut c).unwrap(), PomlValue::Int(2));
}

#[test]
fn ternary_associates_to_the_right() {
    let mut c = context(vec![
        ("a", PomlValue::Bool(false)),
        ("b", text("b")),
        ("c", PomlValue::Bool(true)),
        ("d", text("d")),
        ("e", text("e")),
    ]);
    assert_eq!(eval("a ? b : c ? d : e", &mut c).unwrap(), text("d"));
    assert_eq!(eval("c ? b : a ? d : e", &mut c).unwrap(), text("b"));
    assert_eq!(eval("a ? b : a ? d : e", &mut c).unwrap(), text("e"));
    assert_eq!(eval("a ? b", &mut c).unwrap_err().kind, ErrorKind::EvaluatorError);
    assert_eq!(eval("? b : c", &mut c).unwrap_err().kind, ErrorKind::EvaluatorError);
    assert_eq!(eval("b : c", &mut c).unwrap_err().kind, ErrorKind::EvaluatorError);
}

#[test]
fn division_and_modulo_by_zero() {
    let mut c = context(vec![]);
    let e = eval("1 / 0", &mut c).unwrap_err();
    assert_eq!(e.kind, ErrorKind::EvaluatorError);
    assert!(e.pending.is_none());
    let e = eval("5 % 0", &mut c).unwrap_err();
    assert_eq!(e.kind, ErrorKind::EvaluatorError);
    assert!(e.pending.is_none());
    assert_eq!(eval("1 / 0.0", &mut c).unwrap_err().kind, ErrorKind::EvaluatorError);
}

#[test]
fn literals_evaluate_to_themselves() {
    for variables in [vec![], vec![("true", PomlValue::Int(3)), ("x", text("y"))]] {
        let mut c = context(variables);
        assert_eq!(eval("42", &mut c).unwrap(), PomlValue::Int(42));
        assert_eq!(eval("'text'", &mut c).unwrap(), text("text"));
        assert_eq!(eval("\"text\"", &mut c).unwrap(), text("text"));
        assert_eq!(eval("true", &mut c).unwrap(), PomlValue::Bool(true));
        assert_eq!(eval("false", &mut c).unwrap(), PomlValue::Bool(false));
        assert_eq!(eval("null", &mut c).unwrap(), PomlValue::Null);
        assert_eq!(eval("1.5", &mut c).unwrap(), float(1.5));
        assert_eq!(eval(".5", &mut c).unwrap(), float(0.5));
    }
}

#[test]
fn arithmetic() {
    let mut c = context(vec![]);
    assert_eq!(eval("1.5 + 2", &mut c).unwrap(), float(3.5));
    assert_eq!(eval("2 * 1.5", &mut c).unwrap(), float(3.0));
    assert_eq!(eval("6 / 2", &mut c).unwrap(), float(3.0));
    assert_eq!(eval("7 % 3", &mut c).unwrap(), PomlValue::Int(1));
    assert_eq!(eval("(0 - 7) % 3", &mut c).unwrap(), PomlValue::Int(-1));
    assert_eq!(eval("7 % (0 - 3)", &mut c).unwrap(), PomlValue::Int(1));
    assert_eq!(eval("true + 1", &mut c).unwrap(), PomlValue::Int(2));
    assert_eq!(eval("'a' + 1.5", &mut c).unwrap(), text("a1.5"));
    assert_eq!(eval("'a' + 1.0", &mut c).unwrap(), text("a1.0"));
    assert_eq!(eval("'a' + null + true", &mut c).unwrap(), text("anulltrue"));
    assert_eq!(eval("null + 1", &mut c).unwrap(), text("null1"));
    assert_eq!(eval("null - 1", &mut c).unwrap_err().kind, ErrorKind::EvaluatorError);
    assert_eq!(eval("'a' - 1", &mut c).unwrap_err().kind, ErrorKind::EvaluatorError);
    assert_eq!(eval("[1] + 1", &mut c).unwrap_err().kind, ErrorKind::EvaluatorError);
    assert_eq!(eval("1.5 % 2", &mut c).unwrap_err().kind, ErrorKind::EvaluatorError);
    assert_eq!(
        eval("9223372036854775807 + 1", &mut c).unwrap_err().kind,
        ErrorKind::EvaluatorError
    );
    assert_eq!(
        eval("9223372036854775807 * 2", &mut c).unwrap_err().kind,
        ErrorKind::EvaluatorError
    );
    assert_eq!(eval("9223372036854775808", &mut c).unwrap_err().kind, ErrorKind::EvaluatorError);
    assert_eq!(eval("1 -", &mut c).unwrap_err().kind, ErrorKind::EvaluatorError);
    assert_eq!(eval("* 1", &mut c).unwrap_err().kind, ErrorKind::EvaluatorError);
    assert_eq!(eval("", &mut c).unwrap_err().kind, ErrorKind::EvaluatorError);
    assert_eq!(eval("1 2", &mut c).unwrap_err().kind, ErrorKind::EvaluatorError);
    assert_eq!(eval("(1", &mut c).unwrap_err().kind, ErrorKind::EvaluatorError);
    assert_eq!(eval("1)", &mut c).unwrap_err().kind, ErrorKind::EvaluatorError);
}

#[test]
fn relations() {
    let mut c = context(vec![]);
    assert_eq!(eval("1 < 2", &mut c).unwrap(), PomlValue::Bool(true));
    assert_eq!(eval("2 <= 2", &mut c).unwrap(), PomlValue::Bool(true));
    assert_eq!(eval("2 > 2", &mut c).unwrap(), PomlValue::Bool(false));
    assert_eq!(eval("2.5 >= 2", &mut c).unwrap(), PomlValue::Bool(true));
    assert_eq!(eval("0 - 1.5 < 0 - 1", &mut c).unwrap(), PomlValue::Bool(true));
    assert_eq!(eval("0 - 1.5 < 1", &mut c).unwrap(), PomlValue::Bool(true));
    assert_eq!(eval("1 < 0 - 1.5", &mut c).unwrap(), PomlValue::Bool(false));
    assert_eq!(eval("0.0 < 0 * (0 - 1.0)", &mut c).unwrap(), PomlValue::Bool(false));
    assert_eq!(eval("0.0 <= 0 * (0 - 1.0)", &mut c).unwrap(), PomlValue::Bool(true));
    assert_eq!(eval("true < 2", &mut c).unwrap(), PomlValue::Bool(true));
    assert_eq!(eval("'a' < 2", &mut c).unwrap_err().kind, ErrorKind::EvaluatorError);
    assert_eq!(eval("1 in [5, 6]", &mut c).unwrap(), PomlValue::Bool(true));
    assert_eq!(eval("2 in [5, 6]", &mut c).unwrap(), PomlValue::Bool(false));
    assert_eq!(eval("0 - 1 in [5, 6]", &mut c).unwrap(), PomlValue::Bool(false));
    assert_eq!(eval("'a' in [5, 6]", &mut c).unwrap_err().kind, ErrorKind::EvaluatorError);
    assert_eq!(eval("'a' in {a: 1}", &mut c).unwrap(), PomlValue::Bool(true));
    assert_eq!(eval("'b' in {a: 1}", &mut c).unwrap(), PomlValue::Bool(false));
    assert_eq!(eval("1 in {a: 1}", &mut c).unwrap_err().kind, ErrorKind::EvaluatorError);
    assert_eq!(eval("1 in 2", &mut c).unwrap_err().kind, ErrorKind::EvaluatorError);
}

#[test]
fn equality_is_structural() {
    let mut c = context(vec![]);
    assert_eq!(eval("1 === 1.0", &mut c).unwrap(), PomlValue::Bool(false));
    assert_eq!(eval("1.0 === 1.0", &mut c).unwrap(), PomlValue::Bool(true));
    assert_eq!(eval("0.0 === 0 * (0 - 1.0)", &mut c).unwrap(), PomlValue::Bool(true));
    assert_eq!(eval("'1' !== 1", &mut c).unwrap(), PomlValue::Bool(true));
    assert_eq!(eval("[1, [2]] === [1, [2]]", &mut c).unwrap(), PomlValue::Bool(true));
    assert_eq!(eval("[1, [2]] === [1, [3]]", &mut c).unwrap(), PomlValue::Bool(false));
    assert_eq!(eval("{a: 1, b: 2} === {b: 2, a: 1}", &mut c).unwrap(), PomlValue::Bool(true));
    assert_eq!(eval("{a: 1} !== {a: 2}", &mut c).unwrap(), PomlValue::Bool(true));
    assert_eq!(eval("null === null", &mut c).unwrap(), PomlValue::Bool(true));
    assert_eq!(eval("null === false", &mut c).unwrap(), PomlValue::Bool(false));
}

#[test]
fn references_fields_and_indexes() {
    let mut c = context(vec![
        (
            "user",
            PomlValue::Object(vec![
                (b"name".to_vec(), text("Ann")),
                (b"tags".to_vec(), PomlValue::Array(vec![text("x"), text("y")])),
            ]),
        ),
        ("k", text("name")),
    ]);
    assert_eq!(eval("user.name", &mut c).unwrap(), text("Ann"));
    assert_eq!(eval("user['name']", &mut c).unwrap(), text("Ann"));
    assert_eq!(eval("user[k]", &mut c).unwrap(), text("Ann"));
    assert_eq!(eval("user.tags[1]", &mut c).unwrap(), text("y"));
    assert_eq!(eval("user.tags[0 + 1]", &mut c).unwrap(), text("y"));
    assert_eq!(eval("user.age", &mut c).unwrap(), PomlValue::Null);
    assert_eq!(eval("nobody", &mut c).unwrap(), PomlValue::Null);
    assert_eq!(eval("user.age.x", &mut c).unwrap_err().kind, ErrorKind::EvaluatorError);
    assert_eq!(eval("nobody.x", &mut c).unwrap_err().kind, ErrorKind::EvaluatorError);
    assert_eq!(eval("user.name.x", &mut c).unwrap_err().kind, ErrorKind::EvaluatorError);
    assert_eq!(eval("user.tags[2]", &mut c).unwrap_err().kind, ErrorKind::EvaluatorError);
    assert_eq!(eval("user.tags[0 - 1]", &mut c).unwrap_err().kind, ErrorKind::EvaluatorError);
    assert_eq!(eval("user.tags[0.5]", &mut c).unwrap_err().kind, ErrorKind::EvaluatorError);
    assert_eq!(eval("user.tags['a']", &mut c).unwrap_err().kind, ErrorKind::EvaluatorError);
    assert_eq!(eval("user[0]", &mut c).unwrap_err().kind, ErrorKind::EvaluatorError);
    assert_eq!(eval("user[true]", &mut c).unwrap_err().kind, ErrorKind::EvaluatorError);
    assert_eq!(eval("user.", &mut c).unwrap_err().kind, ErrorKind::EvaluatorError);
    assert_eq!(eval("user.tags[1", &mut c).unwrap_err().kind, ErrorKind::EvaluatorError);
    assert_eq!(eval(". user", &mut c).unwrap_err().kind, ErrorKind::EvaluatorError);
}

#[test]
fn array_and_object_literals() {
    let mut c = context(vec![("x", PomlValue::Int(2))]);
    assert_eq!(eval("[]", &mut c).unwrap(), PomlValue::Array(vec![]));
    assert_eq!(
        eval("[x, x + 1]", &mut c).unwrap(),
        PomlValue::Array(vec![PomlValue::Int(2), PomlValue::Int(3)])
    );
    assert_eq!(eval("{}", &mut c).unwrap(), PomlValue::Object(vec![]));
    assert_eq!(
        eval("{b: 1, a: [x], b: 3,}", &mut c).unwrap(),
        PomlValue::Object(vec![
            (b"a".to_vec(), PomlValue::Array(vec![PomlValue::Int(2)])),
            (b"b".to_vec(), PomlValue::Int(3)),
        ])
    );
    assert_eq!(
        eval("{'k': 1}", &mut c).unwrap(),
        PomlValue::Object(vec![(b"'k'".to_vec(), PomlValue::Int(1))])
    );
    for bad in ["[1", "[1 2]", "[1,", "{a 1}", "{a: 1", "{1: 2}", "{a: 1 b: 2}", "{a:", "{a"] {
        assert_eq!(eval(bad, &mut c).unwrap_err().kind, ErrorKind::EvaluatorError, "{}", bad);
    }
}

#[test]
fn truthiness() {
    let mut c = context(vec![]);
    assert_eq!(eval("!0", &mut c).unwrap(), PomlValue::Bool(true));
    assert_eq!(eval("!''", &mut c).unwrap(), PomlValue::Bool(true));
    assert_eq!(eval("!null", &mut c).unwrap(), PomlValue::Bool(true));
    assert_eq!(eval("![]", &mut c).unwrap(), PomlValue::Bool(false));
    assert_eq!(eval("!{}", &mut c).unwrap(), PomlValue::Bool(false));
    assert_eq!(eval("!'0'", &mut c).unwrap(), PomlValue::Bool(false));
    assert_eq!(eval("!0.0", &mut c).unwrap(), PomlValue::Bool(true));
    assert_eq!(eval("1 && 'a'", &mut c).unwrap(), PomlValue::Bool(true));
    assert_eq!(eval("0 || ''", &mut c).unwrap(), PomlValue::Bool(false));
    assert_eq!(eval("!!1", &mut c).unwrap_err().kind, ErrorKind::EvaluatorError);
    assert_eq!(eval("!", &mut c).unwrap_err().kind, ErrorKind::EvaluatorError);
}

#[test]
fn a_request_without_an_answer_is_pending() {
    let c = context(vec![]);
    let e = evaluate_expression("1.5", &c).unwrap_err();
    assert_eq!(e.pending, Some(Request::ParseFloat(b"1.5".to_vec())));
    let e = evaluate_expression("1 < 2", &c).unwrap_err();
    assert_eq!(e.pending, Some(Request::IntToFloat(1)));
    let mut c = context(vec![("x", float(1.5))]);
    let e = evaluate_expression("x + x", &c).unwrap_err();
    assert_eq!(e.pending, Some(Request::FloatAdd(1.5f64.to_bits(), 1.5f64.to_bits())));
    c.add_fact(
        Request::FloatAdd(1.5f64.to_bits(), 1.5f64.to_bits()),
        Answer::Float(3.0f64.to_bits()),
    );
    assert_eq!(evaluate_expression("x + x", &c).unwrap(), float(3.0));
    c.add_fact(Request::FloatMul(1.5f64.to_bits(), 1.5f64.to_bits()), Answer::Float(f64::INFINITY.to_bits()));
    let e = evaluate_expression("x * x", &c).unwrap_err();
    assert_eq!(e.kind, ErrorKind::EvaluatorError);
    assert!(e.pending.is_none());
}

#[test]
fn string_literals_lose_their_quotes() {
    assert_eq!(evaluate_string(b"'ab'").unwrap(), text("ab"));
    assert_eq!(evaluate_string(b"''").unwrap(), text(""));
    assert_eq!(evaluate_string(b"'").unwrap_err().kind, ErrorKind::EvaluatorError);
}

#[test]
fn float_order_is_that_of_the_numbers() {
    let samples = [
        0.0f64, -0.0, 1.0, -1.0, 0.5, -0.5, 1e300, -1e300, 5e-324, -5e-324, 2.5, 3.0,
        f64::MAX, f64::MIN, f64::INFINITY, f64::NEG_INFINITY, f64::NAN,
    ];
    for a in samples {
        for b in samples {
            assert_eq!(mini_poml::value::less_float(a.to_bits(), b.to_bits()), a < b, "{} < {}", a, b);
            assert_eq!(mini_poml::value::same_float(a.to_bits(), b.to_bits()), a == b, "{} == {}", a, b);
        }
        assert_eq!(mini_poml::value::is_finite_float(a.to_bits()), a.is_finite());
        assert_eq!(mini_poml::value::is_zero_float(a.to_bits()), a == 0.0);
    }
}

#[test]
fn integers_from_text() {
    for s in ["0", "7", "-7", "+7", "007", "9223372036854775807", "-9223372036854775808",
              "9223372036854775808", "-9223372036854775809", "", "-", "+", "1a", " 1", "1 ", "--1", "1.0",
              "99999999999999999999999"] {
        assert_eq!(parse_int_bytes(s.as_bytes()), s.parse::<i64>().ok(), "{:?}", s);
    }
}

#[test]
fn failures_name_what_was_accessed() {
    let mut c = context(vec![(
        "user",
        PomlValue::Object(vec![(b"tags".to_vec(), PomlValue::Array(vec![text("x"), text("y")]))]),
    )]);
    let e = eval("user.age.x", &mut c).unwrap_err();
    assert_eq!(
        e.message,
        "Tried to access field `x` on undefined or null variable `user.age.x`."
    );
    let e = eval("user.tags[1].z", &mut c).unwrap_err();
    assert_eq!(e.message, "Variable `user.tags[1].z` is not an object and `z` is not available on it");
    let e = eval("user.tags[2]", &mut c).unwrap_err();
    assert_eq!(e.message, "Out of bound: index 2, array length: 2");
    assert_eq!(e.describe(), "EvaluatorError: Out of bound: index 2, array length: 2");
}
