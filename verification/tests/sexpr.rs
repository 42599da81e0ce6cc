use kicad_netlist::error::{ParseError, Span};
use kicad_netlist::sexpr::lexer::{Token, TokenIter, TokenKind};
use kicad_netlist::sexpr::parser::{ParsedSExpr, Parser};
use kicad_netlist::sexpr::SExpr;

fn kvt() -> String {
    String::from(
        r#"(export (version "E")
  (design
    (source "/home/user/kvt/kvt.kicad_sch")
    (date "2023-05-04T12:00:00+0200")
    (tool "Eeschema 7.0.2")
    (sheet (number "1") (name "/") (tstamps "/")
      (title_block
        (title "KVT")
        (company)
        (rev "1")
        (comment (number "1") (value "")))))
  (components
    (comp (ref "J1")
      (value "Conn_01x05")
      (footprint "Connector_PinHeader_2.54mm:PinHeader_1x05_P2.54mm_Vertical")
      (libsource (lib "Connector_Generic") (part "Conn_01x05") (description "Generic connector, single row, 01x05"))
      (property (name "Sheetname") (value ""))
      (property (name "Sheetfile") (value "kvt.kicad_sch"))
      (sheetpath (names "/") (tstamps "/"))
      (tstamps "0a5a2b3c-0000-4000-8000-000000000001"))
    (comp (ref "R1")
      (value "10k")
      (footprint "Resistor_SMD:R_0603_1608Metric")
      (datasheet "~")
      (libsource (lib "Device") (part "R") (description "Resistor"))
      (property (name "Sheetname") (value ""))
      (property (name "Sheetfile") (value "kvt.kicad_sch"))
      (sheetpath (names "/") (tstamps "/"))
      (tstamps "0a5a2b3c-0000-4000-8000-000000000002"))
    (comp (ref "U1")
      (value "LMV321")
      (footprint "Package_TO_SOT_SMD:SOT-23-5")
      (libsource (lib "Amplifier_Operational") (part "LMV321") (description "Single op amp"))
      (property (name "Sheetname") (value ""))
      (sheetpath (names "/") (tstamps "/"))
      (tstamps "0a5a2b3c-0000-4000-8000-000000000003"))
    (comp (ref "U2")
      (value "LMV321")
      (libsource (lib "Amplifier_Operational") (part "LMV321") (description "Single op amp"))
      (property (name "Sheetname") (value ""))
      (sheetpath (names "/") (tstamps "/"))
      (tstamps "0a5a2b3c-0000-4000-8000-000000000004")))
  (libparts
    (libpart (lib "Amplifier_Operational") (part "LMV321")
      (description "Single op amp")
      (docs "http://www.ti.com/lit/ds/symlink/lmv324.pdf")
      (footprints
        (fp "SOT?23*"))
      (fields
        (field (name "Reference") "U")
        (field (name "Value") "LMV321"))
      (pins
        (pin (num "1") (name "+") (type "input"))
        (pin (num "2") (name "V-") (type "power_in"))
        (pin (num "3") (name "-") (type "input"))
        (pin (num "4") (name "~") (type "output"))
        (pin (num "5") (name "V+") (type "power_in"))))
    (libpart (lib "Connector_Generic") (part "Conn_01x05")
      (description "Generic connector, single row, 01x05")
      (docs "~")
      (fields
        (field (name "Reference") "J")
        (field (name "Value") "Conn_01x05"))
      (pins
        (pin (num "1") (name "Pin_1") (type "passive"))
        (pin (num "2") (name "Pin_2") (type "passive"))
        (pin (num "3") (name "Pin_3") (type "passive"))
        (pin (num "4") (name "Pin_4") (type "passive"))
        (pin (num "5") (name "Pin_5") (type "passive"))))
    (libpart (lib "Device") (part "R")
      (description "Resistor")
      (docs "~")
      (footprints
        (fp "R_*"))
      (fields
        (field (name "Reference") "R")
        (field (name "Value") "R"))
      (pins
        (pin (num "1") (name "~") (type "passive"))
        (pin (num "2") (name "~") (type "passive")))))
  (libraries
    (library (logical "Amplifier_Operational")
      (uri "/usr/share/kicad/symbols/Amplifier_Operational.kicad_sym"))
    (library (logical "Connector_Generic")
      (uri "/usr/share/kicad/symbols/Connector_Generic.kicad_sym"))
    (library (logical "Device")
      (uri "/usr/share/kicad/symbols/Device.kicad_sym")))
  (nets
    (net (code "1") (name "+3V3")
      (node (ref "J1") (pin "1") (pinfunction "Pin_1") (pintype "passive"))
      (node (ref "U1") (pin "5") (pinfunction "V+") (pintype "power_in"))
      (node (ref "U2") (pin "5") (pinfunction "V+") (pintype "power_in")))
    (net (code "2") (name "GND")
      (node (ref "J1") (pin "2") (pinfunction "Pin_2") (pintype "passive"))
      (node (ref "U1") (pin "2") (pinfunction "V-") (pintype "power_in"))
      (node (ref "U2") (pin "2") (pinfunction "V-") (pintype "power_in")))
    (net (code "3") (name "/IN")
      (node (ref "J1") (pin "3") (pinfunction "Pin_3") (pintype "passive"))
      (node (ref "R1") (pin "1") (pintype "passive")))
    (net (code "4") (name "Net-(U1-+)")
      (node (ref "R1") (pin "2") (pintype "passive"))
      (node (ref "U1") (pin "1") (pinfunction "+") (pintype "input")))
    (net (code "5") (name "/OUT")
      (node (ref "J1") (pin "4") (pinfunction "Pin_4") (pintype "passive"))
      (node (ref "U1") (pin "3") (pinfunction "-") (pintype "input"))
      (node (ref "U1") (pin "4") (pintype "output"))
      (node (ref "U2") (pin "1") (pinfunction "+") (pintype "input")))
    (net (code "6") (name "/REF")
      (node (ref "J1") (pin "5") (pinfunction "Pin_5") (pintype "passive"))
      (node (ref "U2") (pin "3") (pinfunction "-") (pintype "input")))
    (net (code "7") (name "unconnected-(U2-Pad4)")
      (node (ref "U2") (pin "4") (pintype "output+no_connect")))))
"#,
    )
}

fn tokens(input: &str) -> Vec<(TokenKind, &str)> {
    let mut it = TokenIter::new(input);
    let mut result = vec![];
    while let Some(token) = it.next() {
        result.push((token.kind, &input[token.span.start..token.span.end]));
    }
    result
}

#[test]
fn test() {
    let input = "(a \"b\" \"\" \n)";
    let mut it = TokenIter::new(input);
    let expected = vec![
        (TokenKind::LParen, "("),
        (TokenKind::String, "a"),
        (TokenKind::String, "b"),
        (TokenKind::String, ""),
        (TokenKind::RParen, ")"),
    ];

    let mut result = vec![];

    while let Some(token) = it.next() {
        result.push((token.kind, &input[token.span.start..token.span.end]));
    }

    assert_eq!(result, expected);
}

#[test]
fn sexpr_can_parse_full_file() {
    let i = &kvt();
    let _ = SExpr::try_from(i).unwrap();
}

#[test]
fn can_parse_sexpr_plain() {
    let sexpr = SExpr::try_from("(abc)").unwrap();
    assert_eq!(&sexpr.to_string(), "(abc)");
}

#[test]
fn can_parse_sexpr_with_line_break() {
    let sexpr = SExpr::try_from("(abc\n)").unwrap();
    assert_eq!(&sexpr.to_string(), "(abc)");
}

#[test]
fn to_string_quotes_atoms_and_nests() {
    let sexpr = SExpr::try_from("(a b \"c d\" (e f) ())x").unwrap_err();
    assert!(matches!(sexpr, ParseError::UnexpectedToken { .. }));
    let sexpr = SExpr::try_from("  (a b \"c d\" (e f) (g))").unwrap();
    assert_eq!(sexpr.to_string(), "(a \"b\" \"c d\" (e \"f\") (g))");
}

#[test]
fn tokens_carry_exact_spans() {
    let input = "  (ab \"cd\")";
    let mut it = TokenIter::new(input);
    assert_eq!(
        it.next(),
        Some(Token { kind: TokenKind::LParen, span: Span { start: 2, end: 3 } })
    );
    assert_eq!(
        it.next(),
        Some(Token { kind: TokenKind::String, span: Span { start: 3, end: 5 } })
    );
    assert_eq!(
        it.next(),
        Some(Token { kind: TokenKind::String, span: Span { start: 7, end: 9 } })
    );
    assert_eq!(
        it.next(),
        Some(Token { kind: TokenKind::RParen, span: Span { start: 10, end: 11 } })
    );
    assert_eq!(it.next(), None);
    assert_eq!(it.next(), None);
}

#[test]
fn white_space_separates_and_is_dropped() {
    assert_eq!(
        tokens("a\tb\rc\nd\x0ce f"),
        vec![
            (TokenKind::String, "a"),
            (TokenKind::String, "b"),
            (TokenKind::String, "c"),
            (TokenKind::String, "d"),
            (TokenKind::String, "e"),
            (TokenKind::String, "f"),
        ]
    );
    assert_eq!(tokens(" \t\r\n\x0c"), vec![]);
    assert_eq!(tokens(""), vec![]);
}

#[test]
fn bare_strings_end_at_parentheses_and_quotes() {
    assert_eq!(
        tokens("ab(cd)ef\"gh\"ij"),
        vec![
            (TokenKind::String, "ab"),
            (TokenKind::LParen, "("),
            (TokenKind::String, "cd"),
            (TokenKind::RParen, ")"),
            (TokenKind::String, "ef"),
            (TokenKind::String, "gh"),
            (TokenKind::String, "ij"),
        ]
    );
}

#[test]
fn quoted_strings_keep_their_escapes() {
    assert_eq!(
        tokens(r#""a\"b" "c\\" "\b\f\n\r\t" "éx" "(x y)""#),
        vec![
            (TokenKind::String, r#"a\"b"#),
            (TokenKind::String, r#"c\\"#),
            (TokenKind::String, r#"\b\f\n\r\t"#),
            (TokenKind::String, r#"éx"#),
            (TokenKind::String, "(x y)"),
        ]
    );
}

#[test]
fn strings_may_hold_any_characters() {
    assert_eq!(
        tokens("(µF \"10 kΩ\" 47µ)"),
        vec![
            (TokenKind::LParen, "("),
            (TokenKind::String, "µF"),
            (TokenKind::String, "10 kΩ"),
            (TokenKind::String, "47µ"),
            (TokenKind::RParen, ")"),
        ]
    );
}

#[test]
fn unterminated_string_is_an_error_token() {
    assert_eq!(tokens("(a \"bc"), vec![
        (TokenKind::LParen, "("),
        (TokenKind::String, "a"),
        (TokenKind::Error, "\"bc"),
    ]);
}

#[test]
fn unknown_escape_is_an_error_token() {
    assert_eq!(
        tokens(r#""ab\x" c"#),
        vec![
            (TokenKind::Error, "\"ab"),
            (TokenKind::String, "\\x"),
            (TokenKind::Error, "\" c"),
        ]
    );
    assert_eq!(tokens(r#""\u12g4""#)[0], (TokenKind::Error, "\""));
    assert_eq!(tokens("\"ab\\")[0], (TokenKind::Error, "\"ab"));
}

#[test]
fn parser_builds_the_tree_of_spans() {
    let mut parser = Parser::new("(a b (c) \"d\")");
    let tree = parser.parse_sexpr().unwrap();
    assert_eq!(
        tree,
        ParsedSExpr::SExpr(
            Span { start: 1, end: 2 },
            vec![
                ParsedSExpr::String(Span { start: 3, end: 4 }),
                ParsedSExpr::SExpr(Span { start: 6, end: 7 }, vec![]),
                ParsedSExpr::String(Span { start: 10, end: 11 }),
            ]
        )
    );
}

#[test]
fn parser_gives_slices_of_the_source() {
    let input = String::from("(net (code \"1\") (name \"GND\") extra)");
    let tree = SExpr::try_from(&input).unwrap();
    assert_eq!(
        tree,
        SExpr::SExpr(
            "net",
            vec![
                SExpr::SExpr("code", vec![SExpr::String("1")]),
                SExpr::SExpr("name", vec![SExpr::String("GND")]),
                SExpr::String("extra"),
            ]
        )
    );
}

#[test]
fn parser_stops_behind_the_first_expression() {
    assert_eq!(SExpr::try_from("(a) (b").unwrap(), SExpr::SExpr("a", vec![]));
    assert_eq!(SExpr::try_from("(a))").unwrap(), SExpr::SExpr("a", vec![]));
}

#[test]
fn peek_and_get_walk_the_tokens() {
    let mut parser = Parser::new("(a)");
    assert_eq!(parser.peek(), Some(TokenKind::LParen));
    assert_eq!(parser.peek(), Some(TokenKind::LParen));
    assert_eq!(parser.get().unwrap().kind, TokenKind::LParen);
    assert_eq!(parser.expect(TokenKind::String).unwrap().span, Span { start: 1, end: 2 });
    parser.skip();
    assert_eq!(parser.peek(), None);
    assert!(matches!(
        parser.get(),
        Err(ParseError::UnexpectedEof { at: Span { start: 3, end: 3 } })
    ));
}

#[test]
fn empty_input_is_unexpected_eof() {
    assert!(matches!(
        SExpr::try_from(""),
        Err(ParseError::UnexpectedEof { at: Span { start: 0, end: 0 } })
    ));
    assert!(matches!(
        SExpr::try_from("  \n"),
        Err(ParseError::UnexpectedEof { at: Span { start: 3, end: 3 } })
    ));
}

#[test]
fn missing_close_is_unexpected_eof() {
    assert!(matches!(
        SExpr::try_from("(a (b c)"),
        Err(ParseError::UnexpectedEof { at: Span { start: 8, end: 8 } })
    ));
    assert!(matches!(
        SExpr::try_from("("),
        Err(ParseError::UnexpectedEof { at: Span { start: 1, end: 1 } })
    ));
}

#[test]
fn wrong_token_is_reported_with_both_kinds() {
    match SExpr::try_from("abc") {
        Err(ParseError::UnexpectedToken { expected, found, at }) => {
            assert_eq!(expected, "LParen");
            assert_eq!(found, "String");
            assert_eq!(at, Span { start: 0, end: 3 });
        }
        other => panic!("{:?}", other),
    }
    match SExpr::try_from(" ((a))") {
        Err(ParseError::UnexpectedToken { expected, found, at }) => {
            assert_eq!(expected, "String");
            assert_eq!(found, "LParen");
            assert_eq!(at, Span { start: 2, end: 3 });
        }
        other => panic!("{:?}", other),
    }
    match SExpr::try_from("()") {
        Err(ParseError::UnexpectedToken { expected, found, at }) => {
            assert_eq!(expected, "String");
            assert_eq!(found, "RParen");
            assert_eq!(at, Span { start: 1, end: 2 });
        }
        other => panic!("{:?}", other),
    }
    match SExpr::try_from("(\"a") {
        Err(ParseError::UnexpectedToken { expected, found, at }) => {
            assert_eq!(expected, "String");
            assert_eq!(found, "Error");
            assert_eq!(at, Span { start: 1, end: 3 });
        }
        other => panic!("{:?}", other),
    }
}

#[test]
fn lex_error_among_children_is_unknown_token() {
    match SExpr::try_from("(a b \"cd") {
        Err(ParseError::UnknownToken { found, at }) => {
            assert_eq!(found, "Error");
            assert_eq!(at, Span { start: 5, end: 8 });
        }
        other => panic!("{:?}", other),
    }
    assert!(matches!(
        SExpr::try_from("(a (b \"c\\q\"))"),
        Err(ParseError::UnknownToken { at: Span { start: 6, end: 8 }, .. })
    ));
}

#[test]
fn value_gives_the_leading_string() {
    let root = SExpr::try_from("(comp (ref \"R1\") (value 10k) (ref \"R2\"))").unwrap();
    assert_eq!(root.value("ref").unwrap(), "R1");
    assert_eq!(root.value("value").unwrap(), "10k");
}

#[test]
fn value_tells_missing_child_from_missing_value() {
    let root = SExpr::try_from("(comp (empty) (nested (x y)) (ok z (x y)) atom)").unwrap();
    match root.value("other") {
        Err(ParseError::MissingChild(label)) => assert_eq!(label, "other"),
        other => panic!("{:?}", other),
    }
    assert!(matches!(root.value("atom"), Err(ParseError::MissingChild(_))));
    assert!(matches!(root.value("empty"), Err(ParseError::MissingValue())));
    assert!(matches!(root.value("nested"), Err(ParseError::MissingValue())));
    assert_eq!(root.value("ok").unwrap(), "z");
    assert!(matches!(
        SExpr::String("s").value("s"),
        Err(ParseError::MissingChild(_))
    ));
}

#[test]
fn child_gives_the_first_with_the_label() {
    let root = SExpr::try_from("(a (b 1) c (d) (b 2))").unwrap();
    assert_eq!(
        root.child("b").unwrap(),
        &SExpr::SExpr("b", vec![SExpr::String("1")])
    );
    assert_eq!(root.child("d").unwrap(), &SExpr::SExpr("d", vec![]));
    match root.child("c") {
        Err(ParseError::MissingChild(label)) => assert_eq!(label, "c"),
        other => panic!("{:?}", other),
    }
    assert!(matches!(root.child("a"), Err(ParseError::MissingChild(_))));
}

#[test]
fn children_come_in_document_order() {
    let root = SExpr::try_from("(a (b 1) b (c 2) (b 3) (b))").unwrap();
    let mut it = root.children("b");
    assert_eq!(it.next(), Some(&SExpr::SExpr("b", vec![SExpr::String("1")])));
    assert_eq!(it.next(), Some(&SExpr::SExpr("b", vec![SExpr::String("3")])));
    assert_eq!(it.next(), Some(&SExpr::SExpr("b", vec![])));
    assert_eq!(it.next(), None);
    assert_eq!(it.next(), None);
    let mut again = root.children("b");
    assert!(again.next().is_some());
    let mut none = root.children("x");
    assert_eq!(none.next(), None);
    let atom = SExpr::String("b");
    let mut of_atom = atom.children("b");
    assert_eq!(of_atom.next(), None);
}

#[test]
fn clones_are_equal() {
    let root = SExpr::try_from("(a (b 1) c (d (e f)))").unwrap();
    assert_eq!(root.clone(), root);
    let mut parser = Parser::new("(a (b 1) c (d (e f)))");
    let tree = parser.parse_sexpr().unwrap();
    assert_eq!(tree.clone(), tree);
}
