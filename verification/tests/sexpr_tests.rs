use libkicaddy::sexpr::{format_error, Decimal, ParseErrorKind, SExpr, SExprParser};

fn dec(mantissa: i64, scale: u32) -> Decimal {
    Decimal { mantissa, scale }
}

#[test]
fn test_parse_symbol() {
    let (rest, expr) = SExprParser::parse("kicad_symbol_lib").unwrap();
    assert_eq!(rest, "");
    assert_eq!(expr, SExpr::Symbol("kicad_symbol_lib".to_string()));
}

#[test]
fn test_parse_string() {
    let (rest, expr) = SExprParser::parse(r#""Resistor""#).unwrap();
    assert_eq!(rest, "");
    assert_eq!(expr, SExpr::String("Resistor".to_string()));
}

#[test]
fn test_parse_string_with_escape() {
    let (rest, expr) = SExprParser::parse(r#""Hello \"World\"""#).unwrap();
    assert_eq!(rest, "");
    assert_eq!(expr, SExpr::String("Hello \"World\"".to_string()));
}

#[test]
fn test_parse_number() {
    let (rest, expr) = SExprParser::parse("42").unwrap();
    assert_eq!(rest, "");
    assert_eq!(expr, SExpr::Number(dec(42, 0)));

    let (rest, expr) = SExprParser::parse("-3.14").unwrap();
    assert_eq!(rest, "");
    assert_eq!(expr, SExpr::Number(dec(-314, 2)));

    let (rest, expr) = SExprParser::parse("1.5e-3").unwrap();
    assert_eq!(rest, "");
    assert_eq!(expr, SExpr::Number(dec(15, 4)));
}

#[test]
fn test_parse_simple_list() {
    let (rest, expr) = SExprParser::parse("(version 20241209)").unwrap();
    assert_eq!(rest, "");
    assert!(matches!(expr, SExpr::List(_)));
    if let SExpr::List(items) = expr {
        assert_eq!(items.len(), 2);
        assert_eq!(items[0], SExpr::Symbol("version".to_string()));
        assert_eq!(items[1], SExpr::Number(dec(20241209, 0)));
    }
}

#[test]
fn test_parse_nested_list() {
    let input = r#"(property "Reference" "R" (at 0 0 90))"#;
    let (rest, expr) = SExprParser::parse(input).unwrap();
    assert_eq!(rest, "");
    if let SExpr::List(items) = &expr {
        assert_eq!(items.len(), 4);
        assert!(items[3].is_list_starting_with("at"));
    }
}

#[test]
fn test_as_list_starting_with() {
    let input = "(pin passive line)";
    let (_, expr) = SExprParser::parse(input).unwrap();
    let contents = expr.as_list_starting_with("pin").unwrap();
    assert_eq!(contents.len(), 2);
    assert_eq!(contents[0].as_symbol(), Some("passive"));
}

#[test]
fn number_forms_are_canonical() {
    assert_eq!(SExprParser::parse("1.50").unwrap().1, SExpr::Number(dec(15, 1)));
    assert_eq!(SExprParser::parse("1500").unwrap().1, SExpr::Number(dec(1500, 0)));
    assert_eq!(SExprParser::parse("1.5e3").unwrap().1, SExpr::Number(dec(1500, 0)));
    assert_eq!(SExprParser::parse("-0").unwrap().1, SExpr::Number(dec(0, 0)));
    assert_eq!(SExprParser::parse("0.000").unwrap().1, SExpr::Number(dec(0, 0)));
    assert_eq!(SExprParser::parse("0e99999999999999999999999").unwrap().1, SExpr::Number(dec(0, 0)));
    assert_eq!(SExprParser::parse("7.").unwrap().1, SExpr::Number(dec(7, 0)));
    assert_eq!(
        SExprParser::parse("-9223372036854775808").unwrap().1,
        SExpr::Number(dec(i64::MIN, 0))
    );
}

#[test]
fn number_stops_where_its_grammar_ends() {
    let (rest, expr) = SExprParser::parse("10k").unwrap();
    assert_eq!(expr, SExpr::Number(dec(10, 0)));
    assert_eq!(rest, "k");
    let (rest, expr) = SExprParser::parse("1e").unwrap();
    assert_eq!(expr, SExpr::Number(dec(1, 0)));
    assert_eq!(rest, "e");
    let (_, expr) = SExprParser::parse("(3V3 -x)").unwrap();
    assert_eq!(
        expr,
        SExpr::List(vec![
            SExpr::Number(dec(3, 0)),
            SExpr::Symbol("V3".to_string()),
            SExpr::Symbol("-x".to_string()),
        ])
    );
}

#[test]
fn leading_whitespace_and_rest() {
    let (rest, expr) = SExprParser::parse(" \t\r\n(a) (b)").unwrap();
    assert_eq!(expr, SExpr::List(vec![SExpr::Symbol("a".to_string())]));
    assert_eq!(rest, " (b)");
}

#[test]
fn error_expected_expression() {
    let e = SExprParser::parse("  )").unwrap_err();
    assert_eq!(e.kind, ParseErrorKind::ExpectedExpression);
    assert_eq!(e.position, 2);
    let e = SExprParser::parse("").unwrap_err();
    assert_eq!(e.kind, ParseErrorKind::ExpectedExpression);
    assert_eq!(e.position, 0);
}

#[test]
fn error_unclosed_list() {
    let e = SExprParser::parse("(a b").unwrap_err();
    assert_eq!(e.kind, ParseErrorKind::UnclosedList);
    assert_eq!(e.position, 4);
    let e = SExprParser::parse("(a $)").unwrap_err();
    assert_eq!(e.kind, ParseErrorKind::UnclosedList);
    assert_eq!(e.position, 3);
}

#[test]
fn error_unclosed_string() {
    let e = SExprParser::parse("\"abc").unwrap_err();
    assert_eq!(e.kind, ParseErrorKind::UnclosedString);
    assert_eq!(e.position, 4);
}

#[test]
fn error_invalid_escape() {
    let e = SExprParser::parse("\"a\\qb\"").unwrap_err();
    assert_eq!(e.kind, ParseErrorKind::InvalidEscape);
    assert_eq!(e.position, 2);
    let e = SExprParser::parse("\"a\\").unwrap_err();
    assert_eq!(e.kind, ParseErrorKind::InvalidEscape);
}

#[test]
fn error_number_out_of_range() {
    let e = SExprParser::parse("(x 99999999999999999999)").unwrap_err();
    assert_eq!(e.kind, ParseErrorKind::NumberOutOfRange);
    assert_eq!(e.position, 3);
}

#[test]
fn format_error_gives_line_and_column() {
    let input = "(a\n  (b \"c\\x\"))";
    let e = SExprParser::parse(input).unwrap_err();
    assert_eq!(e.kind, ParseErrorKind::InvalidEscape);
    assert_eq!(format_error(input, &e), "line 2, column 8: invalid escape in string");
}

#[test]
fn string_escapes_decode() {
    let (_, expr) = SExprParser::parse(r#""a\\b\nc\td\re""#).unwrap();
    assert_eq!(expr.as_string(), Some("a\\b\nc\td\re"));
    let (_, expr) = SExprParser::parse(r#""""#).unwrap();
    assert_eq!(expr.as_string(), Some(""));
}

#[test]
fn accessors_pick_their_variant() {
    let n = SExpr::number(dec(5, 1));
    assert_eq!(n.as_number(), Some(dec(5, 1)));
    assert_eq!(n.as_symbol(), None);
    assert_eq!(n.as_string(), None);
    assert!(n.as_list().is_none());
    let l = SExpr::list(vec![SExpr::symbol("at"), SExpr::string("x")]);
    assert_eq!(l.as_list().unwrap().len(), 2);
    assert!(l.is_list_starting_with("at"));
    assert!(!l.is_list_starting_with("x"));
    assert!(l.as_list_starting_with("x").is_none());
}

#[test]
fn writes_numbers_like_kicad() {
    let cases: Vec<(Decimal, &str)> = vec![
        (dec(42, 0), "42"),
        (dec(-314, 2), "-3.14"),
        (dec(15, 4), "0.0015"),
        (dec(100, 2), "1"),
        (dec(1234567, 7), "0.123457"),
        (dec(5, 7), "0"),
        (dec(15, 7), "0.000002"),
        (dec(25, 7), "0.000002"),
        (dec(-4, 7), "-0"),
        (dec(-1000000004, 9), "-1"),
        (dec(1, 30), "0"),
        (dec(i64::MIN, 0), "-9223372036854775808"),
    ];
    for (d, text) in cases {
        assert_eq!(SExpr::Number(d).to_kicad_string(), text);
    }
}

#[test]
fn writes_strings_escaped() {
    let e = SExpr::string("say \"hi\"\\\n\t\r");
    assert_eq!(e.to_kicad_string(), "\"say \\\"hi\\\"\\\\\\n\\t\\r\"");
}

#[test]
fn writes_lists_in_kicad_layout() {
    let (_, e) = SExprParser::parse(
        r#"(kicad_sch (version 20231120) (symbol "R1" (at 1 2 0) (property "Value" "10k")) (lib_id x))"#,
    )
    .unwrap();
    let expected = "(kicad_sch\n\t(version 20231120)\n\t(symbol \"R1\"\n\t\t(at 1 2 0)\n\t\t(property \"Value\"\n\t\t\t\"10k\"\n\t\t)\n\t)\n\t(lib_id x)\n)";
    assert_eq!(e.to_kicad_string(), expected);
    assert_eq!(SExpr::list(vec![]).to_kicad_string(), "()");
    assert_eq!(SExpr::list(vec![SExpr::symbol("a")]).to_kicad_string(), "(a)");
}

#[test]
fn read_after_write_gives_back_the_expression() {
    let inputs = [
        r#"(kicad_sch (version 20231120) (generator "eeschema") (uuid "abc-def") (paper "A4") (wire (pts (xy 100.33 50.8) (xy -150 50.8)) (stroke (width 0) (type default))) (label "NET\"1" (at 1.27 2.54 0)))"#,
        "(a)",
        "()",
        "sym",
        "\"s\\n\"",
        "-0.5",
    ];
    for input in inputs {
        let (_, e) = SExprParser::parse(input).unwrap();
        let text = e.to_kicad_string();
        let (rest, again) = SExprParser::parse(&text).unwrap();
        assert_eq!(rest, "");
        assert_eq!(again, e);
    }
}
