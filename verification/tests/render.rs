use mini_poml::error::{Error, ErrorKind};
use mini_poml::render::render_context::RenderContext;
use mini_poml::render::tag_renderer::markdown::MarkdownTagRenderer;
use mini_poml::render::tag_renderer::{TagRenderer, TestTagRenderer};
use mini_poml::render::{render_text, render_value, Renderer};
use mini_poml::request::{Answer, Request};
use mini_poml::value::PomlValue;
use mini_poml::{MarkdownPomlRenderer, PomlParser};

fn to_json(v: &PomlValue) -> serde_json::Value {
    match v {
        PomlValue::Null => serde_json::Value::Null,
        PomlValue::Bool(b) => serde_json::Value::Bool(*b),
        PomlValue::Int(i) => serde_json::Value::Number(serde_json::Number::from(*i)),
        PomlValue::Float(bits) => {
            serde_json::Value::Number(serde_json::Number::from_f64(f64::from_bits(*bits)).unwrap())
        }
        PomlValue::String(s) => serde_json::Value::String(String::from_utf8_lossy(s).into_owned()),
        PomlValue::Array(a) => serde_json::Value::Array(a.iter().map(to_json).collect()),
        PomlValue::Object(o) => serde_json::Value::Object(
            o.iter()
                .map(|(k, v)| (String::from_utf8_lossy(k).into_owned(), to_json(v)))
                .collect(),
        ),
    }
}

fn answer(request: &Request) -> Option<Answer> {
    Some(match request {
        Request::ReadFile(_) => return None,
        Request::ParseFloat(t) => match std::str::from_utf8(t).ok().and_then(|s| s.parse::<f64>().ok()) {
            Some(f) => Answer::Float(f.to_bits()),
            None => Answer::Nothing,
        },
        Request::IntToFloat(i) => Answer::Float((*i as f64).to_bits()),
        Request::FloatAdd(a, b) => Answer::Float((f64::from_bits(*a) + f64::from_bits(*b)).to_bits()),
        Request::FloatSub(a, b) => Answer::Float((f64::from_bits(*a) - f64::from_bits(*b)).to_bits()),
        Request::FloatMul(a, b) => Answer::Float((f64::from_bits(*a) * f64::from_bits(*b)).to_bits()),
        Request::FloatDiv(a, b) => Answer::Float((f64::from_bits(*a) / f64::from_bits(*b)).to_bits()),
        Request::FloatText(a) => Answer::Text(format!("{}", f64::from_bits(*a)).into_bytes()),
        Request::FloatJsonText(a) => Answer::Text(
            serde_json::Number::from_f64(f64::from_bits(*a)).unwrap().to_string().into_bytes(),
        ),
        Request::DebugText(v) => Answer::Text(format!("{:?}", to_json(v)).into_bytes()),
    })
}

fn render_with<T: TagRenderer + Clone>(
    doc: &str,
    variables: Vec<(&str, PomlValue)>,
    files: &[(&str, &str)],
    tag_renderer: T,
) -> Result<String, Error> {
    let variables: Vec<(Vec<u8>, PomlValue)> =
        variables.into_iter().map(|(k, v)| (k.as_bytes().to_vec(), v)).collect();
    let mut facts: Vec<(Request, Answer)> = Vec::new();
    loop {
        let mut context = RenderContext::from_variables(variables.clone());
        for (name, content) in files {
            context.add_file(name, content);
        }
        for (request, answer) in &facts {
            context.add_fact(request.clone(), answer.clone());
        }
        let mut renderer = Renderer {
            parser: PomlParser::from_poml_str(doc),
            context,
            tag_renderer: tag_renderer.clone(),
        };
        match renderer.render() {
            Err(Error { pending: Some(request), kind, message }) => match answer(&request) {
                Some(a) => facts.push((request, a)),
                None => return Err(Error { pending: Some(request), kind, message }),
            },
            other => return other,
        }
    }
}

fn dump(doc: &str, variables: Vec<(&str, PomlValue)>) -> Result<String, Error> {
    render_with(doc, variables, &[], TestTagRenderer {})
}

fn markdown(doc: &str, variables: Vec<(&str, PomlValue)>) -> Result<String, Error> {
    render_with(doc, variables, &[], MarkdownTagRenderer {})
}

fn text(s: &str) -> PomlValue {
    PomlValue::String(s.as_bytes().to_vec())
}

#[test]
fn test_render_content() {
    let doc = r#"
            <poml syntax="markdown">
                <p> Hello, {{name}}! </p>
            </poml>
        "#;
    let output = dump(doc, vec![("name", text("world"))]).unwrap();
    assert!(output.contains("Hello, world!"));
}

#[test]
fn test_render_markdown() {
    let doc = r#"
            <poml syntax="markdown">
                <p> <b>This</b> is an <i>important</i> up<i>date</i>.</p>
                <p>Guess what?</p>
            </poml>
        "#;
    let output = markdown(doc, vec![]).unwrap();
    assert_eq!(
        output.trim(),
        "**This** is an *important* up*date*.\n\nGuess what?"
    );
}

#[test]
fn test_let_tag() {
    let doc = r#"
            <poml syntax="markdown">
              <let name="name" value="world" />
              <p> Hello, {{name}}! </p>
            </poml>
        "#;
    let output = dump(doc, vec![]).unwrap();
    assert!(output.contains("Hello, world!"));
}

#[test]
fn test_let_tag_children_value() {
    let doc = r#"
            <poml syntax="markdown">
              <let name="name">world</let>
              <p> Hello, {{name}}! </p>
            </poml>
        "#;
    let output = dump(doc, vec![]).unwrap();
    assert!(output.contains("Hello, world!"));
}

#[test]
fn test_let_tag_duplicated_values() {
    let doc = r#"
            <poml syntax="markdown">
              <let name="name" value="le monde">world</let>
              <p> Hello, {{name}}! </p>
            </poml>
        "#;
    assert!(dump(doc, vec![]).is_err());
}

#[test]
fn test_let_tag_with_type() {
    let doc = r#"
            <poml syntax="markdown">
              <let name="count" value="3" type="number" />
              <p> Count: {{count}} </p>
              <let name="isVisible" value="0" type="boolean" />
              <p if="{{ isVisible }}"> Not visible </p>
            </poml>
        "#;
    let output = dump(doc, vec![]).unwrap();
    assert!(output.contains("Count: 3"));
    assert!(!output.contains("Not visible"));
}

#[test]
fn test_let_tag_with_type_with_invalid_value() {
    let doc = r#"
            <poml syntax="markdown">
              <let name="count" value="three" type="integer" />
              <p> Count: {{count}} </p>
            </poml>
        "#;
    let output = dump(doc, vec![]);
    assert!(output.is_err());
}

#[test]
fn test_if_attributes() {
    let doc = r#"
            <poml syntax="markdown">
              <let name="name" value="world" />
              <let name="isFrenchVisible" value="1" />
              <p if="{{isVisible}}"> Hello, {{name}}! </p>
              <p if="{{isFrenchVisible}}"> Bonjour, {{name}}! </p>
              <p if="{{ !isVisible }}"> Something is hidden! </p>
            </poml>
        "#;
    let output = dump(doc, vec![]).unwrap();
    assert!(!output.contains("Hello, world!"));
    assert!(output.contains("Bonjour, world!"));
    assert!(output.contains("Something is hidden"));
}

#[test]
fn test_for_attributes() {
    let doc = r#"
            <poml syntax="markdown">
              <p for="name in ['apple', 'banana', 'cherry']"> 
                Hello, {{name}}! {{ loop.index }}
                <p if="{{ loop.last }}"> End: {{ name }}</p>
              </p>
            </poml>
        "#;
    let output = dump(doc, vec![]).unwrap();
    assert!(output.contains("Hello, apple! 0"));
    assert!(output.contains("Hello, banana! 1"));
    assert!(output.contains("Hello, cherry! 2"));
    assert!(output.contains("End: cherry"));
}

#[test]
fn test_code_tag() {
    let code_piece = r#"
import numpy as np

if __name__ == "__main__":
    x = np.random((3, 4))
    print(f"{x}")
"#
    .trim();
    let doc = format!(
        r#"
<poml syntax="markdown">
  <let name="name" value="world" />
<code lang="python">
{code_piece}
</code>
</poml>
"#
    );
    let output = markdown(&doc, vec![]).unwrap();
    assert!(output.contains("```python"));
    assert!(output.contains(code_piece))
}

#[test]
fn test_intentional_blocks() {
    let doc = r#"
<poml syntax="markdown">
  <role>You're a helpful assistant.</role>
  <task>
  Answer questions as much as possible. 
  
  <stepwise-instructions>
    Work! Work! Work!
  </stepwise-instructions>
  </task>
</poml>
"#;
    let output = markdown(doc, vec![]).unwrap();
    assert!(output.contains("# Role\n\nYou're a helpful assistant."));
    assert!(output.contains("# Task\n\n"));
    assert!(output.contains("## Stepwise Instructions\n\n"));
}

#[test]
fn test_variable_scope() {
    let doc = r#"
<poml syntax="markdown">
  Start {{a}}
  <let name="a" value="a" />
  <p>
  <let name="a" value="b" />
  Mid {{a}}
  </p>
  End {{a}}
</poml>
"#;
    let output = markdown(doc, vec![("a", text("0"))]).unwrap();
    assert!(output.contains("Start 0"));
    assert!(output.contains("Mid b"));
    assert!(output.contains("End a"));
}

#[test]
fn test_escaping() {
    let doc = r#"
<poml syntax="markdown">
  Start #lt; #gt; ###
</poml>
"#;
    let output = markdown(doc, vec![]).unwrap();
    assert!(output.contains("Start < > ###"));
}

#[test]
fn test_header_and_section() {
    let doc = r#"
<poml syntax="markdown">
  <h>Header 1</h>
  <section>
    <h>Header 2</h>
  </section>
  <h>Header 3</h>
</poml>
"#;
    let output = markdown(doc, vec![]).unwrap();
    assert!(output.contains("# Header 1"));
    assert!(output.contains("## Header 2"));
    assert!(output.contains("# Header 3"));
}

#[test]
fn test_include() {
    let doc = r#"
<poml syntax="markdown">
  <p>File a</p>
  <include src="a.poml"/>
</poml>
"#;
    let a_doc = r#"<h>AAA</h>"#;
    let output = render_with(doc, vec![], &[("a.poml", a_doc)], MarkdownTagRenderer {}).unwrap();
    assert!(output.contains("# AAA"));
}

#[test]
fn test_list_render() {
    let doc = r#"
<poml syntax="markdown">
  <list listStyle="star">
    <item>Head</item>
    <item for="v in [1,2,3]">{{ v }}</item>
  </list>
</poml>
"#;
    let output = markdown(doc, vec![]).unwrap();
    assert!(output.contains("* Head"));
    assert!(output.contains("* 1"));
    assert!(output.contains("* 2"));
    assert!(output.contains("* 3"));
}

#[test]
fn test_nested_list_render() {
    let doc = r#"
<poml syntax="markdown">
  <list>
    <item for="v in [1,2,3]">
      <list listStyle = "decimal">
        <item for="u in ['a', 'b', 'c']">({{v}}, {{ u }})</item>
      </list>
    </item>
  </list>
</poml>
"#;
    let output = markdown(doc, vec![]).unwrap();
    assert!(output.contains("-  1. (1, a)\n\t2. (1, b)\n\t3. (1, c)"));
    assert!(output.contains("-  1. (2, a)\n\t2. (2, b)\n\t3. (2, c)"));
}

#[test]
fn test_captioned_paragraph() {
    let doc = r#"
<cp caption="Constraints">
  <h>Sub-list</h>
  <list>
    <item>Do not exceed 1000 tokens.</item>
    <item>Please use simple words.</item>
  </list>
</cp>"#;
    let output = markdown(doc, vec![]).unwrap();
    assert!(output.contains("# Constraints\n\n"));
    assert!(output.contains("## Sub-list\n\n"));
    assert!(output.contains("\n - Do not exceed 1000 tokens."));
}

#[test]
fn test_let_src_include() {
    let doc = r#"
<poml syntax="markdown">
  <let name="foo" src="foo.json" />
  <p>{{ foo.bar }} </p>
</poml>
"#;
    let foo_doc = r#"{"bar":"fubar"}"#;
    let output = render_with(doc, vec![], &[("foo.json", foo_doc)], MarkdownTagRenderer {}).unwrap();
    assert!(output.contains("fubar"));
}

#[test]
fn test_let_object() {
    let doc = r#"
<poml syntax="markdown">
  <let name="foo" type="object">
    {"bar":"fubar"}
  </let>
  <p>{{ foo.bar }} </p>
</poml>
"#;
    let output = markdown(doc, vec![]).unwrap();
    assert!(output.contains("fubar"));
}

#[test]
fn test_let_array() {
    let doc = r#"
<poml syntax="markdown">
  <let name="foo" type="array">
    [1, "foobar", true]
  </let>
  <p for="v in foo"> {{ v }} </p>
</poml>
"#;
    let output = markdown(doc, vec![]).unwrap();
    assert!(output.contains("1"));
    assert!(output.contains("foobar"));
    assert!(output.contains("true"));
}

#[test]
fn test_examples() {
    let doc = r#"
<poml syntax="markdown">
  <examples>
    <example>
      <input>What is the capital of France?</input>
      <output>Paris</output>
    </example>
    <example>
      <input>What is the capital of Germany?</input>
      <output>Berlin</output>
    </example>
  </examples>
  <hint>No need to add any explanation</hint>
</poml>
"#;
    let output = markdown(doc, vec![]).unwrap();
    assert!(output.contains("# Examples"));
    assert!(output.contains("Paris\n"));
    assert!(output.contains("**Hint:** No need to add any explanation"));
}

#[test]
fn hello_world() {
    let output = markdown("<poml><p>Hello, {{name}}!</p></poml>", vec![("name", text("world"))]);
    assert_eq!(output.unwrap(), "Hello, world!\n\n");
}

#[test]
fn if_attribute() {
    assert_eq!(markdown(r#"<p if="{{ 0 }}">X</p>"#, vec![]).unwrap(), "");
    assert_eq!(markdown(r#"<p if="{{ 1 }}">X</p>"#, vec![]).unwrap(), "X\n\n");
    assert_eq!(markdown(r#"<p if=" false ">X{{ 1 / 0 }}</p>"#, vec![]).unwrap(), "");
    assert_eq!(markdown(r#"<p if="">X</p>"#, vec![]).unwrap(), "");
    assert_eq!(markdown(r#"<p if="null">X</p>"#, vec![]).unwrap(), "");
    assert_eq!(markdown(r#"<p if="NaN">X</p>"#, vec![]).unwrap(), "");
    assert_eq!(markdown(r#"<p if="no">X</p>"#, vec![]).unwrap(), "X\n\n");
    assert_eq!(markdown(r#"<p other="0">X</p>"#, vec![]).unwrap(), "X\n\n");
}

#[test]
fn decimal_list() {
    let output = markdown(
        r#"<list listStyle="decimal"><item for="v in [1,2,3]">{{v}}</item></list>"#,
        vec![],
    );
    assert_eq!(output.unwrap(), "1. 1\n2. 2\n3. 3\n\n");
}

#[test]
fn inner_let_is_gone_after_its_tag() {
    let doc = r#"<poml><let name="a" value="outer"/><p><let name="a" value="inner"/>{{a}}</p><p>{{a}}</p></poml>"#;
    assert_eq!(markdown(doc, vec![]).unwrap(), "inner\n\nouter\n\n");
    let doc = r#"<poml><p><let name="b" value="inner"/>{{b}}</p><p>{{b}}</p></poml>"#;
    assert_eq!(markdown(doc, vec![]).unwrap(), "inner\n\nnull\n\n");
}

#[test]
fn if_and_for_together_are_refused() {
    let e = markdown(r#"<p if="1" for="v in [1]">X</p>"#, vec![]).unwrap_err();
    assert_eq!(e.kind, ErrorKind::RendererError);
}

#[test]
fn for_errors() {
    for doc in [
        r#"<p for="v [1]">X</p>"#,
        r#"<p for="v in [1] in [2]">X</p>"#,
        r#"<p for="v in 1">X</p>"#,
        r#"<p for="v in {a: 1}">X</p>"#,
    ] {
        assert_eq!(markdown(doc, vec![]).unwrap_err().kind, ErrorKind::RendererError, "{}", doc);
    }
    assert_eq!(
        markdown(r#"<p for="v in [1">X</p>"#, vec![]).unwrap_err().kind,
        ErrorKind::EvaluatorError
    );
}

#[test]
fn loop_variable() {
    let doc = r#"<poml><p for="v in ['a','b']">{{loop.index}}/{{loop.length}} {{loop.first}} {{loop.last}} {{v}}</p></poml>"#;
    assert_eq!(
        markdown(doc, vec![]).unwrap(),
        "0/2 true false a\n\n1/2 false true b\n\n"
    );
    assert_eq!(markdown(r#"<poml><p for="v in []">x</p></poml>"#, vec![]).unwrap(), "");
    let doc = r#"<poml><p for="v in [1]">.</p>{{v}}{{loop}}</poml>"#;
    assert_eq!(markdown(doc, vec![]).unwrap(), ".\n\nnullnull");
}

#[test]
fn let_errors() {
    for doc in [
        r#"<let name="a"/>"#,
        r#"<let name="a" value="1">2</let>"#,
        r#"<let name="a" value="1" type="float"/>"#,
        r#"<let name="a" value="x" type="number"/>"#,
        r#"<let name="a" value="1.x" type="number"/>"#,
        r#"<let name="a" value="{}" type="array"/>"#,
        r#"<let name="a" value="[]" type="object"/>"#,
        r#"<let name="a" value="[" type="array"/>"#,
        r#"<let value="[1]"/>"#,
        r#"<let value="x"/>"#,
    ] {
        assert_eq!(markdown(doc, vec![]).unwrap_err().kind, ErrorKind::RendererError, "{}", doc);
    }
}

#[test]
fn let_guesses_the_type() {
    let doc = r#"<poml><let name="a" value="true"/><let name="b" value="12"/><let name="c" value="1.5"/><let name="d">[1,"x"]</let><let name="e">{"k":{"n":2.5}}</let><let name="f" value="text"/>{{a === true}} {{b + 1}} {{c + 1}} {{d[1]}} {{e.k.n}} {{f + 1}}</poml>"#;
    assert_eq!(markdown(doc, vec![]).unwrap(), "true 13 2.5 x 2.5 text1");
}

#[test]
fn let_with_types() {
    let doc = r#"<poml><let name="a" value="12" type="integer"/><let name="b" value="1.25" type="number"/><let name="c" value="7" type="number"/><let name="d" value="yes" type="boolean"/><let name="e" value="12" type="string"/>{{a + 1}} {{b * 2}} {{c + 1}} {{d}} {{e + 1}}</poml>"#;
    assert_eq!(markdown(doc, vec![]).unwrap(), "13 2.5 8 true 121");
}

#[test]
fn let_without_a_name_binds_the_fields() {
    let doc = r#"<poml><let>{"x": 1, "y": [true]}</let>{{x}} {{y[0]}}</poml>"#;
    assert_eq!(markdown(doc, vec![]).unwrap(), "1 true");
}

#[test]
fn values_in_text() {
    let doc = r#"<poml>{{1.0}} {{1.5}} {{1 / 4}} {{null}} {{false}} {{'s'}} {{[1, 'a', 1.5]}} {{ {a: null} }}</poml>"#;
    assert_eq!(
        markdown(doc, vec![]).unwrap(),
        "1 1.5 0.25 null false s Array [Number(1), String(\"a\"), Number(1.5)] Object {\"a\": Null}"
    );
}

#[test]
fn escapes() {
    let doc = "<poml>#quot;#apos;#amp;#lt;#gt;#hash;#lbrace;#rbrace;#x;#lt#</poml>";
    assert_eq!(markdown(doc, vec![]).unwrap(), "\"'&<>#{}#x;#lt#");
}

#[test]
fn unterminated_expression() {
    assert_eq!(
        markdown("<poml>{{ a </poml>", vec![]).unwrap_err().kind,
        ErrorKind::RendererError
    );
    assert_eq!(
        markdown("<poml>{{}}</poml>", vec![]).unwrap_err().kind,
        ErrorKind::EvaluatorError
    );
    assert_eq!(markdown("<poml>{ {a} }</poml>", vec![]).unwrap(), "{ {a} }");
}

#[test]
fn include_keeps_its_bindings_to_itself() {
    let doc = r#"<poml><let name="a" value="1"/><include src="x"/>{{a}}{{b}}</poml>"#;
    let x = r#"<poml><let name="a" value="2"/><let name="b" value="3"/>{{a}}{{b}}</poml>"#;
    let output = render_with(doc, vec![], &[("x", x)], MarkdownTagRenderer {}).unwrap();
    assert_eq!(output, "231null");
}

#[test]
fn include_errors() {
    let e = markdown(r#"<poml><include/></poml>"#, vec![]).unwrap_err();
    assert_eq!(e.kind, ErrorKind::RendererError);
    assert!(e.pending.is_none());
    let e = markdown(r#"<poml><include src="missing"/></poml>"#, vec![]).unwrap_err();
    assert_eq!(e.pending, Some(Request::ReadFile(b"missing".to_vec())));
    let e = render_with(r#"<poml><include src="x"/></poml>"#, vec![], &[("x", "<a>")], MarkdownTagRenderer {})
        .unwrap_err();
    assert_eq!(e.kind, ErrorKind::ParserError);
    let e = render_with(
        r#"<poml><include src="x"/></poml>"#,
        vec![],
        &[("x", r#"<poml><include src="x"/></poml>"#)],
        MarkdownTagRenderer {},
    )
    .unwrap_err();
    assert_eq!(e.kind, ErrorKind::RendererError);
}

#[test]
fn unknown_tag() {
    assert_eq!(
        markdown("<poml><nope/></poml>", vec![]).unwrap_err().kind,
        ErrorKind::RendererError
    );
}

#[test]
fn markdown_tags() {
    assert_eq!(markdown("<poml><b>x</b><i>y</i><s>z</s><strike>w</strike></poml>", vec![]).unwrap(), "**x***y*~~z~~~~w~~");
    assert_eq!(markdown("<poml>a<br/>b</poml>", vec![]).unwrap(), "a\n\nb");
    assert_eq!(markdown("<poml><meta>x</meta>y</poml>", vec![]).unwrap(), "y");
    assert_eq!(markdown("<poml><h>T</h></poml>", vec![]).unwrap(), "# T\n\n");
    assert_eq!(
        markdown("<poml><section><section><h>T</h></section>x</section></poml>", vec![]).unwrap(),
        "### T\n\nx"
    );
    assert_eq!(markdown("<poml><item>a<br/>b</item></poml>", vec![]).unwrap(), "a\n\t\n\tb\n");
    assert_eq!(markdown("<poml><item>a\nb</item></poml>", vec![]).unwrap(), "a b\n");
    assert_eq!(markdown(r#"<poml><code inline="true">a {{b}} #lt;</code></poml>"#, vec![]).unwrap(), "`a {{b}} #lt;`");
    assert_eq!(markdown("<poml><code>x</code></poml>", vec![]).unwrap(), "```\nx\n```");
    assert_eq!(markdown(r#"<poml><code inline="0" lang="c">x</code></poml>"#, vec![]).unwrap(), "```c\nx\n```");
    assert_eq!(markdown("<poml><code/></poml>", vec![]).unwrap_err().kind, ErrorKind::RendererError);
}

#[test]
fn lists() {
    assert_eq!(markdown("<list><item>a</item>x<p>y</p><item>b</item></list>", vec![]).unwrap(), "- a\n\n- b\n\n");
    assert_eq!(markdown(r#"<list listStyle="plus"><item>a</item></list>"#, vec![]).unwrap(), "+ a\n\n");
    assert_eq!(
        markdown(r#"<list listStyle="roman"><item>a</item></list>"#, vec![]).unwrap_err().kind,
        ErrorKind::RendererError
    );
    assert_eq!(markdown(r#"<list listStyle="roman"></list>"#, vec![]).unwrap(), "");
}

#[test]
fn captions() {
    assert_eq!(markdown("<role>x</role>", vec![]).unwrap(), "# Role\n\nx");
    assert_eq!(markdown(r#"<role captionColon="true">x</role>"#, vec![]).unwrap(), "# Role:\n\nx");
    assert_eq!(markdown(r#"<role captionStyle="bold">x</role>"#, vec![]).unwrap(), "**Role:** x\n");
    assert_eq!(
        markdown(r#"<role captionStyle="bold" captionColon="false">x</role>"#, vec![]).unwrap(),
        "**Role** x\n"
    );
    assert_eq!(markdown(r#"<role captionStyle="plain">x</role>"#, vec![]).unwrap(), "Role:\n\nx\n");
    assert_eq!(markdown(r#"<role captionStyle="hidden">x</role>"#, vec![]).unwrap(), "x\n");
    assert_eq!(markdown(r#"<role captionStyle="other">x</role>"#, vec![]).unwrap(), "# Role\n\nx");
    assert_eq!(markdown("<example>x</example>", vec![]).unwrap(), "x\n");
    assert_eq!(markdown("<hint>x</hint>", vec![]).unwrap(), "**Hint:** x\n");
    assert_eq!(markdown("<cp>x</cp>", vec![]).unwrap_err().kind, ErrorKind::RendererError);
    assert_eq!(markdown(r#"<cp caption="C"><h>x</h></cp>"#, vec![]).unwrap(), "# C\n\n## x\n\n");
}

#[test]
fn dump_renderer() {
    let output = dump(r#"<poml a="1"><p>x</p></poml>"#, vec![]).unwrap();
    assert_eq!(output, "Name: poml\n  - a: 1\n=====\nName: p\n=====\nx\n=====\n\n=====\n");
}

#[test]
fn text_and_values_directly() {
    let mut context = RenderContext::from_variables(vec![(b"n".to_vec(), PomlValue::Int(-12))]);
    assert_eq!(render_text(b"a {{n}} #amp; b", &context).unwrap(), b"a -12 & b");
    assert_eq!(render_value(&PomlValue::Int(i64::MIN), &context).unwrap(), b"-9223372036854775808");
    let e = render_value(&PomlValue::Float(1.5f64.to_bits()), &context).unwrap_err();
    assert_eq!(e.pending, Some(Request::FloatText(1.5f64.to_bits())));
    context.add_fact(Request::FloatText(1.5f64.to_bits()), Answer::Text(b"1.5".to_vec()));
    assert_eq!(render_value(&PomlValue::Float(1.5f64.to_bits()), &context).unwrap(), b"1.5");
}

#[test]
fn create_from_doc() {
    let mut renderer = MarkdownPomlRenderer::create_from_doc_and_variables(
        "<poml>{{x}}</poml>",
        vec![(b"x".to_vec(), PomlValue::Int(1))],
    );
    assert_eq!(renderer.render().unwrap(), "1");
    let context = RenderContext::from_variables(vec![(b"x".to_vec(), PomlValue::Int(2))]);
    let mut renderer = MarkdownPomlRenderer::create_from_doc_and_context("<poml>{{x}}</poml>", context);
    assert_eq!(renderer.render_bytes().unwrap(), b"2");
    assert_eq!(renderer.context.scope_layers.len(), 1);
}

#[test]
fn scopes() {
    let mut context = RenderContext::from_variables(vec![(b"a".to_vec(), PomlValue::Int(1))]);
    context.push_scope();
    assert_eq!(context.get_value("a"), Some(&PomlValue::Int(1)));
    context.set_value("a", PomlValue::Int(2));
    context.set_value("b", PomlValue::Int(3));
    assert_eq!(context.get_value("a"), Some(&PomlValue::Int(2)));
    assert_eq!(context.get_value("b"), Some(&PomlValue::Int(3)));
    context.pop_scope();
    assert_eq!(context.get_value("a"), Some(&PomlValue::Int(1)));
    assert_eq!(context.get_value("b"), None);
    context.pop_scope();
    context.pop_scope();
    context.set_value("a", PomlValue::Int(2));
    assert_eq!(context.get_value("a"), None);
}

#[test]
fn files_of_a_context() {
    let mut context = RenderContext::from_variables(vec![]);
    let e = context.read_file_content("a.txt").unwrap_err();
    assert_eq!(e.kind, ErrorKind::RendererError);
    assert_eq!(e.pending, Some(Request::ReadFile(b"a.txt".to_vec())));
    context.add_file("a.txt", "one");
    context.add_file("a.txt", "two");
    assert_eq!(context.read_file_content("a.txt").unwrap(), b"one");
    context.add_fact(Request::ReadFile(b"b".to_vec()), Answer::Nothing);
    let e = context.read_file_content("b").unwrap_err();
    assert_eq!(e.kind, ErrorKind::RendererError);
    assert!(e.pending.is_none());
    assert_eq!(context.evaluate("1 + 1").unwrap(), PomlValue::Int(2));
    let copy = context.clone();
    assert_eq!(copy.read_file_content("a.txt").unwrap(), b"one");
}

#[test]
fn messages_name_the_culprit() {
    assert_eq!(markdown("<poml><nope/></poml>", vec![]).unwrap_err().message, "Unknown tag: <nope>");
    assert_eq!(
        markdown(r#"<list listStyle="roman"><item>a</item></list>"#, vec![]).unwrap_err().message,
        "Unknown list style: roman"
    );
    assert_eq!(
        markdown(r#"<p for="v of [1]">X</p>"#, vec![]).unwrap_err().message,
        "Invalid for-loop attribute value: v of [1]"
    );
    assert_eq!(
        markdown(r#"<p for="v in 1 ">X</p>"#, vec![]).unwrap_err().message,
        "For loop range is not an array: 1"
    );
    assert_eq!(
        markdown(r#"<let name="a" value="three" type="integer"/>"#, vec![]).unwrap_err().message,
        "Failed to convert value to integer three"
    );
    assert_eq!(
        markdown(r#"<let name="a" value="3" type="int"/>"#, vec![]).unwrap_err().message,
        "Unknown type for variable: int"
    );
}

#[derive(Clone)]
struct Shouting {}

impl TagRenderer for Shouting {
    fn render_tag(
        &self,
        tag: &mini_poml::PomlTagNode,
        _attribute_values: &[(Vec<u8>, Vec<u8>)],
        children_result: Vec<Vec<u8>>,
        _source_buf: &[u8],
    ) -> Result<Vec<u8>, Error> {
        let mut out = tag.name.to_ascii_uppercase();
        out.push(b'(');
        out.extend(children_result.concat());
        out.push(b')');
        Ok(out)
    }
}

#[test]
fn a_renderer_of_ones_own() {
    let output = render_with("<poml><a>x<b>y</b></a></poml>", vec![], &[], Shouting {}).unwrap();
    assert_eq!(output, "POML(A(xB(y)))");
}
