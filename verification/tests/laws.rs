use drunk_snail::Parser;
use drunk_snail::RenderError;
use drunk_snail::Syntax;
use drunk_snail::TemplateParameters;
use drunk_snail::TemplateParametersValue;
use drunk_snail::Templates;

fn default_parser() -> Parser {
    Parser::from_syntax(&Syntax::default(), "param", "ref").unwrap()
}

#[test]
fn raw_template_round_trips_with_normalized_line_endings() {
    let parser = default_parser();
    let template = parser.parse("alpha\r\nbeta\ngamma").unwrap();
    let parameters = TemplateParameters::new();
    let templates = Templates::new();
    assert_eq!(
        template.render(&parameters, &templates).unwrap(),
        "alpha\nbeta\ngamma\n"
    );
}

#[test]
fn fanout_count_matches_list_length() {
    let parser = default_parser();
    let template = parser.parse("row <!-- (param)cell --> end").unwrap();
    let mut parameters = TemplateParameters::new();
    parameters.insert(
        "cell",
        TemplateParametersValue::ValuesVec(vec![
            "a".to_string(),
            "b".to_string(),
            "c".to_string(),
        ]),
    );
    let templates = Templates::new();
    let output = template.render(&parameters, &templates).unwrap();
    assert_eq!(output, "row a end\nrow b end\nrow c end\n");
    assert_eq!(output.matches('\n').count(), 3);
}

#[test]
fn mandatory_scalar_stops_fanout_at_first_round() {
    let parser = default_parser();
    let template = parser.parse("a <!-- (param)s --> <!-- (param)l --> b").unwrap();
    let mut parameters = TemplateParameters::new();
    parameters.insert("s", TemplateParametersValue::Value("one".to_string()));
    parameters.insert(
        "l",
        TemplateParametersValue::ValuesVec(vec![
            "x".to_string(),
            "y".to_string(),
            "z".to_string(),
        ]),
    );
    let templates = Templates::new();
    assert_eq!(template.render(&parameters, &templates).unwrap(), "a one x b\n");
}

#[test]
fn unbound_reference_renders_nothing() {
    let parser = default_parser();
    let parameters = TemplateParameters::new();
    let templates = Templates::new();
    let mandatory = parser.parse("x <!-- (ref)r --> y").unwrap();
    assert_eq!(mandatory.render(&parameters, &templates).unwrap(), "");
    let optional = parser.parse("x <!-- (optional)(ref)r --> y").unwrap();
    assert_eq!(optional.render(&parameters, &templates).unwrap(), "");
}

#[test]
fn render_is_idempotent() {
    let parser = default_parser();
    let template = parser.parse("one <!-- (param)p --> two").unwrap();
    let mut parameters = TemplateParameters::new();
    parameters.insert(
        "p",
        TemplateParametersValue::ValuesVec(vec!["v1".to_string(), "v2".to_string()]),
    );
    let templates = Templates::new();
    let first = template.render(&parameters, &templates).unwrap();
    let second = template.render(&parameters, &templates).unwrap();
    assert_eq!(first, second);
}

#[test]
fn missing_mandatory_parameter_is_an_error() {
    let parser = default_parser();
    let template = parser.parse("a <!-- (param)p --> b").unwrap();
    let parameters = TemplateParameters::new();
    let templates = Templates::new();
    assert_eq!(
        template.render(&parameters, &templates),
        Err(RenderError::MissingParameter { name: "p".to_string() })
    );
}

#[test]
fn empty_value_list_is_an_error() {
    let parser = default_parser();
    let template = parser.parse("a <!-- (param)p --> b").unwrap();
    let mut parameters = TemplateParameters::new();
    parameters.insert("p", TemplateParametersValue::ValuesVec(Vec::new()));
    let templates = Templates::new();
    assert_eq!(
        template.render(&parameters, &templates),
        Err(RenderError::EmptyValuesVec { name: "p".to_string() })
    );
}

#[test]
fn subtree_bound_to_parameter_slot_is_an_error() {
    let parser = default_parser();
    let template = parser.parse("a <!-- (param)p --> b").unwrap();
    let mut parameters = TemplateParameters::new();
    parameters.insert(
        "p",
        TemplateParametersValue::Parameters(TemplateParameters::new()),
    );
    let templates = Templates::new();
    assert_eq!(
        template.render(&parameters, &templates),
        Err(RenderError::ParameterTypeMismatch { name: "p".to_string() })
    );
}

#[test]
fn bound_reference_without_registered_template_is_an_error() {
    let parser = default_parser();
    let template = parser.parse("<!-- (ref)r -->").unwrap();
    let mut parameters = TemplateParameters::new();
    parameters.insert(
        "r",
        TemplateParametersValue::Parameters(TemplateParameters::new()),
    );
    let templates = Templates::new();
    assert_eq!(
        template.render(&parameters, &templates),
        Err(RenderError::MissingTemplate { name: "r".to_string() })
    );
}

#[test]
fn optional_reference_without_registered_template_is_skipped() {
    let parser = default_parser();
    let template = parser.parse("<!-- (optional)(ref)r -->").unwrap();
    let mut parameters = TemplateParameters::new();
    parameters.insert(
        "r",
        TemplateParametersValue::Parameters(TemplateParameters::new()),
    );
    let templates = Templates::new();
    assert_eq!(template.render(&parameters, &templates).unwrap(), "");
}

#[test]
fn scalar_bound_to_reference_slot_is_an_error() {
    let parser = default_parser();
    let template = parser.parse("<!-- (ref)r -->").unwrap();
    let mut parameters = TemplateParameters::new();
    parameters.insert("r", TemplateParametersValue::Value("v".to_string()));
    let templates = Templates::new();
    assert_eq!(
        template.render(&parameters, &templates),
        Err(RenderError::ReferenceTypeMismatch { name: "r".to_string() })
    );
}

#[test]
fn reference_cycle_stops_at_depth_limit() {
    let parser = default_parser();
    let template = parser.parse("<!-- (ref)r -->").unwrap();
    let mut templates = Templates::new();
    templates.insert("r", parser.parse("<!-- (ref)r -->").unwrap());
    let mut parameters = TemplateParameters::new();
    for _ in 0..150 {
        let mut outer = TemplateParameters::new();
        outer.insert("r", TemplateParametersValue::Parameters(parameters));
        parameters = outer;
    }
    assert_eq!(
        template.render(&parameters, &templates),
        Err(RenderError::DepthLimitExceeded)
    );
}

#[test]
fn later_binding_shadows_earlier_one() {
    let parser = default_parser();
    let template = parser.parse("<!-- (param)p -->").unwrap();
    let mut parameters = TemplateParameters::new();
    parameters.insert("p", TemplateParametersValue::Value("first".to_string()));
    parameters.insert("p", TemplateParametersValue::Value("second".to_string()));
    let templates = Templates::new();
    assert_eq!(template.render(&parameters, &templates).unwrap(), "second\n");
}
