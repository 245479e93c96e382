use drunk_snail::Parser;
use drunk_snail::Syntax;
use drunk_snail::TemplateParameters;
use drunk_snail::TemplateParametersValue;
use drunk_snail::Templates;

fn default_parser() -> Parser {
    Parser::from_syntax(&Syntax::default(), "param", "ref").unwrap()
}

fn scalar(text: &str) -> TemplateParametersValue {
    TemplateParametersValue::Value(text.to_string())
}

fn values(texts: &[&str]) -> TemplateParametersValue {
    TemplateParametersValue::ValuesVec(texts.iter().map(|t| t.to_string()).collect())
}

#[test]
fn render_param() {
    let parser = default_parser();
    let template = parser.parse("one <!-- (param)p --> two").unwrap();
    let mut parameters = TemplateParameters::new();
    parameters.insert("p", scalar("lalala"));
    let templates = Templates::new();
    assert_eq!(template.render(&parameters, &templates).unwrap(), "one lalala two\n");
}

#[test]
fn render_multivalued_param() {
    let parser = default_parser();
    let template = parser.parse("one <!-- (param)p --> two").unwrap();
    let mut parameters = TemplateParameters::new();
    parameters.insert("p", values(&["v1", "v2"]));
    let templates = Templates::new();
    assert_eq!(
        template.render(&parameters, &templates).unwrap(),
        "one v1 two\none v2 two\n"
    );
}

#[test]
fn render_multiple_params() {
    let parser = default_parser();
    let template = parser.parse("one <!-- (param)p1 --> <!-- (param)p2 --> two").unwrap();
    let mut parameters = TemplateParameters::new();
    parameters.insert("p1", scalar("v1"));
    parameters.insert("p2", scalar("v2"));
    let templates = Templates::new();
    assert_eq!(template.render(&parameters, &templates).unwrap(), "one v1 v2 two\n");
}

#[test]
fn render_optional_param() {
    let parser = default_parser();
    let template = parser.parse("one <!-- (optional)(param)p --> two").unwrap();
    let parameters = TemplateParameters::new();
    let templates = Templates::new();
    assert_eq!(template.render(&parameters, &templates).unwrap(), "one  two\n");
}

#[test]
fn render_optional_param_while_there_is_also_param_with_more_than_one_value() {
    let parser = default_parser();
    let template = parser
        .parse("left <!-- (param)p1 --> middle <!-- (optional)(param)p2 --> right\nplain text")
        .unwrap();
    let mut parameters = TemplateParameters::new();
    parameters.insert("p1", values(&["lalala", "lululu"]));
    parameters.insert("p2", scalar("lololo"));
    let templates = Templates::new();
    assert_eq!(
        template.render(&parameters, &templates).unwrap(),
        "left lalala middle lololo right\nleft lululu middle  right\nplain text\n"
    );
}

#[test]
fn render_ref() {
    let parser = default_parser();
    let template = parser.parse("one <!-- (ref)r --> two").unwrap();
    let mut sub = TemplateParameters::new();
    sub.insert("p", scalar("v"));
    let mut parameters = TemplateParameters::new();
    parameters.insert("r", TemplateParametersValue::Parameters(sub));
    let mut templates = Templates::new();
    templates.insert("r", parser.parse("three").unwrap());
    assert_eq!(template.render(&parameters, &templates).unwrap(), "one three two\n");
}

#[test]
fn render_2x2_html_table() {
    let parser = default_parser();
    let template = parser.parse("<table>\n    <!-- (ref)Row -->\n</table>").unwrap();
    let mut row1 = TemplateParameters::new();
    row1.insert("cell", values(&["1.1", "2.1"]));
    let mut row2 = TemplateParameters::new();
    row2.insert("cell", values(&["1.2", "2.2"]));
    let mut parameters = TemplateParameters::new();
    parameters.insert("Row", TemplateParametersValue::ParametersVec(vec![row1, row2]));
    let mut templates = Templates::new();
    templates.insert(
        "Row",
        parser.parse("<tr>\n    <td><!-- (param)cell --></td>\n</tr>").unwrap(),
    );
    assert_eq!(
        template.render(&parameters, &templates).unwrap(),
        "<table>\n    <tr>\n        <td>1.1</td>\n        <td>2.1</td>\n    </tr>\n    <tr>\n        <td>1.2</td>\n        <td>2.2</td>\n    </tr>\n</table>\n"
    );
}

#[test]
fn render_ref_with_param() {
    let parser = default_parser();
    let template = parser.parse("one <!-- (ref)r --> two").unwrap();
    let mut sub = TemplateParameters::new();
    sub.insert("p", scalar("three"));
    let mut parameters = TemplateParameters::new();
    parameters.insert("r", TemplateParametersValue::Parameters(sub));
    let mut templates = Templates::new();
    templates.insert("r", parser.parse("<!-- (param)p -->").unwrap());
    assert_eq!(template.render(&parameters, &templates).unwrap(), "one three two\n");
}

#[test]
fn render_multivalued_ref_with_param() {
    let parser = default_parser();
    let template = parser.parse("one <!-- (ref)r --> two").unwrap();
    let mut sub1 = TemplateParameters::new();
    sub1.insert("p", scalar("three"));
    let mut sub2 = TemplateParameters::new();
    sub2.insert("p", scalar("four"));
    let mut parameters = TemplateParameters::new();
    parameters.insert("r", TemplateParametersValue::ParametersVec(vec![sub1, sub2]));
    let mut templates = Templates::new();
    templates.insert("r", parser.parse("<!-- (param)p -->").unwrap());
    assert_eq!(
        template.render(&parameters, &templates).unwrap(),
        "one three two\none four two\n"
    );
}

#[test]
fn render_custom_syntax() {
    let syntax = Syntax::new("{{".to_string(), "}}".to_string(), "maybe".to_string());
    let parser = Parser::from_syntax(&syntax, "slot", "use").unwrap();
    let template = parser.parse("a {{ (slot)x }} b").unwrap();
    let mut parameters = TemplateParameters::new();
    parameters.insert("x", scalar("mid"));
    let templates = Templates::new();
    assert_eq!(template.render(&parameters, &templates).unwrap(), "a mid b\n");
}
