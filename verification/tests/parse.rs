use drunk_snail::Line;
use drunk_snail::ParametersLineToken;
use drunk_snail::Parser;
use drunk_snail::Syntax;

#[test]
fn lib_test_parse() {
    let parser = Parser::from_syntax(&Syntax::default(), "param", "ref").unwrap();
    let template_text = "<tr>\n    <td><!-- (param)cell1 --></td><td><!-- (optional)(param)cell2 --></td>\n</tr>\n<!-- (ref)Ref1 -->";
    let template = parser.parse(template_text).unwrap();

    assert_eq!(template.lines.len(), 4);

    assert_eq!(template.lines[0], Line::Raw { value: "<tr>".to_string() });
    assert_eq!(
        template.lines[1],
        Line::Parameters {
            tokens: Vec::from([
                ParametersLineToken::Raw { value: "    <td>".to_string() },
                ParametersLineToken::Parameter {
                    is_optional: false,
                    name: "cell1".to_string()
                },
                ParametersLineToken::Raw { value: "</td><td>".to_string() },
                ParametersLineToken::Parameter {
                    is_optional: true,
                    name: "cell2".to_string()
                },
                ParametersLineToken::Raw { value: "</td>".to_string() }
            ])
        }
    );
    assert_eq!(template.lines[2], Line::Raw { value: "</tr>".to_string() });
    assert_eq!(
        template.lines[3],
        Line::Reference {
            left: None,
            is_optional: false,
            name: "Ref1".to_string(),
            right: None
        }
    );
}

#[test]
fn main_test_parse() {
    let parser = Parser::default();
    println!("{parser:?}");

    let template_text = "<tr>\n    <td><!-- (param)cell1 --></td><td><!-- (optional)(param)cell2 --></td>\n</tr>\n<!-- (ref)Ref1 -->";
    let template = parser.parse(template_text).unwrap();

    assert_eq!(template.lines.len(), 4);

    assert_eq!(template.lines[0], Line::Raw { value: "<tr>".to_string() });
    assert_eq!(
        template.lines[1],
        Line::Parameters {
            tokens: Vec::from([
                ParametersLineToken::Raw { value: "    <td>".to_string() },
                ParametersLineToken::Parameter {
                    is_optional: false,
                    name: "cell1".to_string()
                },
                ParametersLineToken::Raw { value: "</td><td>".to_string() },
                ParametersLineToken::Parameter {
                    is_optional: true,
                    name: "cell2".to_string()
                },
                ParametersLineToken::Raw { value: "</td>".to_string() }
            ])
        }
    );
    assert_eq!(template.lines[2], Line::Raw { value: "</tr>".to_string() });
    assert_eq!(
        template.lines[3],
        Line::Reference {
            left: None,
            is_optional: false,
            name: "Ref1".to_string(),
            right: None
        }
    );
}

#[test]
fn parse_marker_at_line_start() {
    let parser = Parser::default();
    let template = parser.parse("<!-- (param)p -->").unwrap();
    assert_eq!(template.lines.len(), 1);
    assert_eq!(
        template.lines[0],
        Line::Parameters {
            tokens: Vec::from([
                ParametersLineToken::Parameter {
                    is_optional: false,
                    name: "p".to_string()
                },
                ParametersLineToken::Raw { value: "".to_string() }
            ])
        }
    );
}

#[test]
fn parse_reference_with_context() {
    let parser = Parser::default();
    let template = parser.parse("  <!-- (optional)(ref)Row --> tail").unwrap();
    assert_eq!(template.lines.len(), 1);
    assert_eq!(
        template.lines[0],
        Line::Reference {
            left: Some("  ".to_string()),
            is_optional: true,
            name: "Row".to_string(),
            right: Some(" tail".to_string())
        }
    );
}

#[test]
fn parse_text_without_markers_is_raw() {
    let parser = Parser::default();
    let template = parser.parse("plain\ntext <!-- not a marker\n").unwrap();
    assert_eq!(template.lines.len(), 2);
    assert_eq!(template.lines[0], Line::Raw { value: "plain".to_string() });
    assert_eq!(
        template.lines[1],
        Line::Raw { value: "text <!-- not a marker".to_string() }
    );
}

#[test]
fn parse_custom_syntax() {
    let syntax = Syntax::new("{{".to_string(), "}}".to_string(), "maybe".to_string());
    let parser = Parser::from_syntax(&syntax, "slot", "use").unwrap();
    let template = parser.parse("a {{ (maybe)(slot)x }} b\nc {{ (use)Sub }} d").unwrap();
    assert_eq!(
        template.lines[0],
        Line::Parameters {
            tokens: Vec::from([
                ParametersLineToken::Raw { value: "a ".to_string() },
                ParametersLineToken::Parameter {
                    is_optional: true,
                    name: "x".to_string()
                },
                ParametersLineToken::Raw { value: " b".to_string() }
            ])
        }
    );
    assert_eq!(
        template.lines[1],
        Line::Reference {
            left: Some("c ".to_string()),
            is_optional: false,
            name: "Sub".to_string(),
            right: Some(" d".to_string())
        }
    );
}
