use haapl_parser::{
    parse_events, parse_literal, parse_xml_string, Attribute, MarkupEvent, ParseError, Statements,
    StructuralKind, Value,
};

fn int_of(v: &Value) -> i32 {
    match v {
        Value::Int(i) => *i,
        other => panic!("not an integer: {:?}", other),
    }
}

fn start(name: &str, attrs: &[(&str, &str)]) -> MarkupEvent {
    MarkupEvent::StartElement {
        name: name.to_string(),
        attributes: attrs
            .iter()
            .map(|(n, v)| Attribute { name: n.to_string(), value: v.to_string() })
            .collect(),
    }
}

fn end(name: &str) -> MarkupEvent {
    MarkupEvent::EndElement { name: name.to_string() }
}

fn grammar_kind(r: Result<Vec<Statements>, ParseError>) -> StructuralKind {
    match r {
        Err(ParseError::Grammar(e)) => e.kind,
        other => panic!("expected a grammar error, got {:?}", other),
    }
}

#[test]
fn literal_booleans() {
    assert!(matches!(parse_literal("true"), Ok(Value::Boolean(true))));
    assert!(matches!(parse_literal("false"), Ok(Value::Boolean(false))));
}

#[test]
fn literal_string_strips_quotes() {
    match parse_literal("\"abc\"") {
        Ok(Value::String(s)) => assert_eq!(s, "abc"),
        other => panic!("{:?}", other),
    }
    match parse_literal("\"\"") {
        Ok(Value::String(s)) => assert_eq!(s, ""),
        other => panic!("{:?}", other),
    }
}

#[test]
fn literal_integer() {
    assert_eq!(int_of(&parse_literal("123").unwrap()), 123);
    assert_eq!(int_of(&parse_literal("0").unwrap()), 0);
    assert_eq!(int_of(&parse_literal("007").unwrap()), 7);
}

#[test]
fn literal_integer_bounds() {
    assert_eq!(int_of(&parse_literal("2147483647").unwrap()), i32::MAX);
    assert!(parse_literal("2147483648").is_err());
    assert!(parse_literal("99999999999999999999").is_err());
}

#[test]
fn literal_float_keeps_text() {
    match parse_literal("12.5") {
        Ok(Value::Float(t)) => {
            assert_eq!(t, "12.5");
            assert_eq!(t.parse::<f32>().unwrap(), 12.5f32);
        }
        other => panic!("{:?}", other),
    }
    for ok in ["-0.5", ".5", "5.", "+1.25e3", "2.0E-7"] {
        assert!(matches!(parse_literal(ok), Ok(Value::Float(_))), "{}", ok);
        assert!(ok.parse::<f32>().is_ok(), "{}", ok);
    }
}

#[test]
fn literal_float_malformed() {
    for bad in [".", "1.2.3", "1.5e", "a.b", "1.5e+", "--1.0"] {
        match parse_literal(bad) {
            Err(e) => assert_eq!(e.text, bad),
            Ok(v) => panic!("{} gave {:?}", bad, v),
        }
    }
}

#[test]
fn literal_list_of_integers() {
    match parse_literal("[1,2,3]") {
        Ok(Value::List(items)) => {
            assert_eq!(items.len(), 3);
            assert_eq!(int_of(&items[0]), 1);
            assert_eq!(int_of(&items[1]), 2);
            assert_eq!(int_of(&items[2]), 3);
        }
        other => panic!("{:?}", other),
    }
}

#[test]
fn literal_list_items_are_trimmed() {
    match parse_literal("[ 1 ,\ttrue , x ]") {
        Ok(Value::List(items)) => {
            assert_eq!(items.len(), 3);
            assert_eq!(int_of(&items[0]), 1);
            assert!(matches!(items[1], Value::Boolean(true)));
            assert!(matches!(&items[2], Value::Variable(n) if n == "x"));
        }
        other => panic!("{:?}", other),
    }
}

#[test]
fn literal_list_singleton_nesting() {
    match parse_literal("[[5]]") {
        Ok(Value::List(outer)) => {
            assert_eq!(outer.len(), 1);
            match &outer[0] {
                Value::List(inner) => assert_eq!(int_of(&inner[0]), 5),
                other => panic!("{:?}", other),
            }
        }
        other => panic!("{:?}", other),
    }
}

#[test]
fn literal_list_naive_split_rejects() {
    assert!(parse_literal("[]").is_err());
    assert!(parse_literal("[[1,2]]").is_err());
    assert!(parse_literal("[1,]").is_err());
    assert!(parse_literal("[1").is_err());
}

#[test]
fn literal_variable() {
    match parse_literal("x") {
        Ok(Value::Variable(n)) => assert_eq!(n, "x"),
        other => panic!("{:?}", other),
    }
    assert!(matches!(parse_literal("été"), Ok(Value::Variable(_))));
}

#[test]
fn literal_rejected() {
    for bad in ["", "1x2", "x1", "\"abc", "\"", "a b", "-5"] {
        match parse_literal(bad) {
            Err(e) => assert_eq!(e.text, bad),
            Ok(v) => panic!("{:?} gave {:?}", bad, v),
        }
    }
}

#[test]
fn document_define() {
    let r = parse_xml_string("<define name=\"x\">5</define>").unwrap();
    assert_eq!(r.len(), 1);
    match &r[0] {
        Statements::Define { name, value } => {
            assert_eq!(name, "x");
            assert_eq!(int_of(value), 5);
        }
        other => panic!("{:?}", other),
    }
}

#[test]
fn document_nested_call() {
    let r = parse_xml_string(
        "<call name=\"f\"><arg><call name=\"g\"><arg>1</arg></call></arg></call>",
    )
    .unwrap();
    assert_eq!(r.len(), 1);
    match &r[0] {
        Statements::Call { name, args } => {
            assert_eq!(name, "f");
            assert_eq!(args.len(), 1);
            match &args[0] {
                Value::Call { name, args } => {
                    assert_eq!(name, "g");
                    assert_eq!(args.len(), 1);
                    assert_eq!(int_of(&args[0]), 1);
                }
                other => panic!("{:?}", other),
            }
        }
        other => panic!("{:?}", other),
    }
}

#[test]
fn document_several_statements_in_order() {
    let text = r#"
        <define name="x">[10]</define>
        <call name="print">
            <arg>
                <call name="std.list.pop">
                    <arg>x</arg>
                </call>
            </arg>
            <arg>"done"</arg>
        </call>"#;
    let r = parse_xml_string(text).unwrap();
    assert_eq!(r.len(), 2);
    assert!(matches!(&r[0], Statements::Define { name, value: Value::List(_) } if name == "x"));
    match &r[1] {
        Statements::Call { name, args } => {
            assert_eq!(name, "print");
            assert_eq!(args.len(), 2);
            assert!(matches!(&args[0], Value::Call { name, .. } if name == "std.list.pop"));
            assert!(matches!(&args[1], Value::String(s) if s == "done"));
        }
        other => panic!("{:?}", other),
    }
}

#[test]
fn document_empty_and_blank() {
    assert_eq!(parse_xml_string("").unwrap().len(), 0);
    assert_eq!(parse_xml_string("   \n\t  ").unwrap().len(), 0);
}

#[test]
fn document_parsed_twice_is_equal() {
    let text = "<define name=\"a\">[1,2]</define><call name=\"f\"><arg>a</arg><arg>2.5</arg></call>";
    let first = format!("{:?}", parse_xml_string(text));
    let second = format!("{:?}", parse_xml_string(text));
    assert_eq!(first, second);
    let bad = "<foo/>";
    assert_eq!(format!("{:?}", parse_xml_string(bad)), format!("{:?}", parse_xml_string(bad)));
}

#[test]
fn document_unsupported_element() {
    assert_eq!(grammar_kind(parse_xml_string("<foo/>")), StructuralKind::UnsupportedElement);
}

#[test]
fn events_wrong_close_in_call() {
    let events = vec![
        MarkupEvent::StartDocument,
        start("call", &[("name", "f")]),
        start("arg", &[]),
        MarkupEvent::Characters("1".to_string()),
        end("arg"),
        end("arg"),
        MarkupEvent::EndDocument,
    ];
    match parse_events(&events) {
        Err(ParseError::Grammar(e)) => {
            assert_eq!(e.kind, StructuralKind::Malformed);
            assert_eq!(e.element, "arg");
        }
        other => panic!("{:?}", other),
    }
}

#[test]
fn events_missing_end() {
    let events = vec![MarkupEvent::StartDocument, start("call", &[("name", "f")])];
    assert_eq!(grammar_kind(parse_events(&events)), StructuralKind::UnexpectedEnd);
    assert_eq!(grammar_kind(parse_events(&Vec::new())), StructuralKind::UnexpectedEnd);
}

#[test]
fn events_close_at_top_level() {
    let events = vec![MarkupEvent::StartDocument, end("call"), MarkupEvent::EndDocument];
    assert_eq!(grammar_kind(parse_events(&events)), StructuralKind::UnmatchedClose);
}

#[test]
fn events_text_at_top_level() {
    let events = vec![
        MarkupEvent::StartDocument,
        MarkupEvent::Characters("5".to_string()),
        MarkupEvent::EndDocument,
    ];
    assert_eq!(grammar_kind(parse_events(&events)), StructuralKind::UnexpectedText);
}

#[test]
fn events_syntax_error_passes_through() {
    let events = vec![MarkupEvent::StartDocument, MarkupEvent::SyntaxError("bad".to_string())];
    assert!(matches!(parse_events(&events), Err(ParseError::XmlSyntax(m)) if m == "bad"));
}

#[test]
fn document_ill_formed_markup() {
    assert!(matches!(
        parse_xml_string("<call name=\"f\"><arg>1</arg></arg></call>"),
        Err(ParseError::XmlSyntax(_))
    ));
    assert!(matches!(parse_xml_string("<define name=\"x\">5"), Err(ParseError::XmlSyntax(_))));
}

#[test]
fn document_attribute_errors() {
    assert_eq!(
        grammar_kind(parse_xml_string("<define>5</define>")),
        StructuralKind::Attribute
    );
    assert_eq!(
        grammar_kind(parse_xml_string("<define id=\"x\">5</define>")),
        StructuralKind::Attribute
    );
    assert_eq!(
        grammar_kind(parse_xml_string("<define name=\"x\" id=\"y\">5</define>")),
        StructuralKind::Attribute
    );
    assert_eq!(
        grammar_kind(parse_xml_string("<call><arg>1</arg></call>")),
        StructuralKind::Attribute
    );
}

#[test]
fn document_define_without_literal() {
    assert_eq!(
        grammar_kind(parse_xml_string("<define name=\"x\"></define>")),
        StructuralKind::ExpectedLiteral
    );
    assert_eq!(
        grammar_kind(parse_xml_string("<define name=\"x\"><arg>1</arg></define>")),
        StructuralKind::ExpectedLiteral
    );
}

#[test]
fn document_unexpected_element_in_call() {
    assert_eq!(
        grammar_kind(parse_xml_string("<call name=\"f\"><define name=\"x\">1</define></call>")),
        StructuralKind::UnexpectedElement
    );
    assert_eq!(
        grammar_kind(parse_xml_string("<call name=\"f\"><arg><arg>1</arg></arg></call>")),
        StructuralKind::UnexpectedElement
    );
}

#[test]
fn document_second_value_in_arg() {
    assert_eq!(
        grammar_kind(parse_xml_string(
            "<call name=\"f\"><arg><call name=\"g\"></call><call name=\"h\"></call></arg></call>"
        )),
        StructuralKind::Malformed
    );
}

#[test]
fn document_bad_literal() {
    match parse_xml_string("<define name=\"x\">1x2</define>") {
        Err(ParseError::Literal(e)) => assert_eq!(e.text, "1x2"),
        other => panic!("{:?}", other),
    }
    match parse_xml_string("<call name=\"f\"><arg>[1,]</arg></call>") {
        Err(ParseError::Literal(e)) => assert_eq!(e.text, "[1,]"),
        other => panic!("{:?}", other),
    }
}

#[test]
fn document_call_without_args() {
    let r = parse_xml_string("<call name=\"now\"/>").unwrap();
    assert!(matches!(&r[0], Statements::Call { name, args } if name == "now" && args.is_empty()));
}
