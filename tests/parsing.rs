use script_parser::{parser, Expression, Token};

fn show(src: &str) -> String {
    match parser(src) {
        Ok(v) => format!("{:?}", v),
        Err(es) => format!("error at {}: {:?}", es[0].position, es[0].found),
    }
}

#[test]
fn import_declaration() {
    assert_eq!(show("import fs/read"), r#"[Import("fs/read")]"#);
}

#[test]
fn function_with_one_call() {
    assert_eq!(
        show(r#"fun main() { console.log("hi") }"#),
        r#"[Function("main", Scope([FunctionCall(Chain([Ident("console"), Ident("log")]), [String("hi")])]))]"#
    );
}

#[test]
fn empty_function_body() {
    assert_eq!(show("fun f() { }"), r#"[Function("f", Scope([]))]"#);
    assert_eq!(show("fun f(){}"), r#"[Function("f", Scope([]))]"#);
}

#[test]
fn parameters_are_rejected() {
    let es = parser("fun f(x) { }").unwrap_err();
    assert_eq!(es.len(), 1);
    assert_eq!(es[0].position, 6);
    assert_eq!(es[0].expected, vec![Token::Char(')')]);
    assert_eq!(es[0].found, Some('x'));
}

#[test]
fn bare_call_at_top_level_is_rejected() {
    let es = parser(r#"a.b.c("x","y")"#).unwrap_err();
    assert_eq!(es.len(), 1);
    assert_eq!(es[0].position, 0);
    assert_eq!(es[0].expected, vec![Token::Import, Token::Fun, Token::End]);
    assert_eq!(es[0].found, Some('a'));
}

#[test]
fn quote_ends_a_string_literal() {
    let es = parser(r#"fun f() { g("a"b") }"#).unwrap_err();
    assert_eq!(es[0].position, 15);
    assert_eq!(es[0].expected, vec![Token::Char(','), Token::Char(')')]);
    assert_eq!(es[0].found, Some('b'));
    assert_eq!(show(r#"fun f() { g("a", "b") }"#), r#"[Function("f", Scope([FunctionCall(Chain([Ident("g")]), [String("a"), String("b")])]))]"#);
}

#[test]
fn trailing_input_is_rejected() {
    let es = parser("import fs/read\n  }").unwrap_err();
    assert_eq!(es[0].position, 17);
    assert_eq!(es[0].expected, vec![Token::Import, Token::Fun, Token::End]);
    assert_eq!(es[0].found, Some('}'));
    assert!(parser("import fs/read x").is_err());
}

#[test]
fn empty_program() {
    assert_eq!(show(""), "[]");
    assert_eq!(show(" \n\t "), "[]");
}

#[test]
fn declarations_in_order() {
    let src = "import a/b\nfun main() {\n  x.y(\"1\")\n\n  z( \"2\" , \"3\" )\n}\nimport c/d\n";
    assert_eq!(
        show(src),
        r#"[Import("a/b"), Function("main", Scope([FunctionCall(Chain([Ident("x"), Ident("y")]), [String("1")]), FunctionCall(Chain([Ident("z")]), [String("2"), String("3")])])), Import("c/d")]"#
    );
}

#[test]
fn calls_on_one_line_are_rejected() {
    assert!(parser(r#"fun f() { a() b() }"#).is_err());
    assert!(parser("fun f() {\n a() \n b()\n}").is_err());
}

#[test]
fn spaced_names_and_dots() {
    assert_eq!(
        show("import  fs / read\nfun g () {a . b ()}"),
        r#"[Import("fs/read"), Function("g", Scope([FunctionCall(Chain([Ident("a"), Ident("b")]), [])]))]"#
    );
}

#[test]
fn malformed_pieces_are_rejected() {
    for src in [
        "importfs/read",
        "import fs/read/x",
        "funf() {}",
        "fun f( ) {}",
        "fun f() { a.() }",
        "fun f() { a( ) }",
        "fun f() { a(\"x\",) }",
        "fun f() { (\"x\") }",
        "fun f() { a(b) }",
        "fun f() { a(\"x\" }",
        "fun f() { a(\"x) }",
        "fun f() {",
    ] {
        assert!(parser(src).is_err(), "{}", src);
    }
}

#[test]
fn unicode_whitespace_and_identifiers() {
    assert_eq!(show("\u{3000}import a_1/_b2\u{A0}"), r#"[Import("a_1/_b2")]"#);
    assert!(parser("import é/x").is_err());
}

#[test]
fn string_text_is_kept_as_written() {
    assert_eq!(
        show("fun f() { p(\"a b\n\\n\") }"),
        "[Function(\"f\", Scope([FunctionCall(Chain([Ident(\"p\")]), [String(\"a b\\n\\\\n\")])]))]"
    );
}

#[test]
fn nodes_can_be_taken_apart() {
    let v = parser("fun main() { a(\"x\") }").unwrap();
    match &v[0] {
        Expression::Function(name, body) => {
            assert_eq!(name, "main");
            assert!(matches!(&**body, Expression::Scope(calls) if calls.len() == 1));
        }
        _ => panic!("not a function"),
    }
}

#[test]
fn canonical_text_reads_back() {
    let text = "import fs/read\nfun main() {\nconsole.log(\"hi\",\"\")\nx()\n}\nfun f() {\n}\n";
    assert_eq!(
        show(text),
        r#"[Import("fs/read"), Function("main", Scope([FunctionCall(Chain([Ident("console"), Ident("log")]), [String("hi"), String("")]), FunctionCall(Chain([Ident("x")]), [])])), Function("f", Scope([]))]"#
    );
}

#[test]
fn error_reports_furthest_mismatch() {
    let es = parser("import a/b\nfun f() { a(\"x\") }\n  fun g(y) {}").unwrap_err();
    assert_eq!(es.len(), 1);
    assert_eq!(es[0].position, 38);
    assert_eq!(es[0].expected, vec![Token::Char(')')]);
    assert_eq!(es[0].found, Some('y'));
    let es = parser("fun f() {").unwrap_err();
    assert_eq!(es[0].position, 9);
    assert_eq!(es[0].expected, vec![Token::Identifier, Token::Char('}')]);
    assert_eq!(es[0].found, None);
}

#[test]
fn error_expected_tokens_at_each_rule() {
    let cases: Vec<(&str, usize, Vec<Token>, Option<char>)> = vec![
        ("import fs read", 10, vec![Token::Char('/')], Some('r')),
        ("import fs/", 10, vec![Token::Identifier], None),
        ("fun () {}", 4, vec![Token::Identifier], Some('(')),
        ("fun f() x", 8, vec![Token::Char('{')], Some('x')),
        ("fun f() { a.b }", 14, vec![Token::Char('.'), Token::Char('(')], Some('}')),
        ("fun f() { a. }", 13, vec![Token::Identifier], Some('}')),
        ("fun f() { a(x) }", 12, vec![Token::Char('"'), Token::Char(')')], Some('x')),
        ("fun f() { a(\"x) }", 17, vec![Token::Char('"')], None),
        ("fun f() { a()b() }", 13, vec![Token::Newline, Token::Char('}')], Some('b')),
        ("fun f() { a()\n b( }", 18, vec![Token::Char('"')], Some('}')),
        ("fun f() { a()\n 1 }", 15, vec![Token::Identifier, Token::Char('}')], Some('1')),
    ];
    for (src, position, expected, found) in cases {
        let es = parser(src).unwrap_err();
        assert_eq!(es.len(), 1, "{}", src);
        assert_eq!(es[0].position, position, "{}", src);
        assert_eq!(es[0].expected, expected, "{}", src);
        assert_eq!(es[0].found, found, "{}", src);
    }
}

#[test]
fn keywords_may_name_things() {
    assert_eq!(show("fun import() {\nfun.import()\n}"), r#"[Function("import", Scope([FunctionCall(Chain([Ident("fun"), Ident("import")]), [])]))]"#);
    assert_eq!(show("import fun/import"), r#"[Import("fun/import")]"#);
}

#[test]
fn appended_character_is_rejected() {
    let accepted = ["import fs/read", "fun f() { a(\"x\") }", "import a/b\nfun g() {\n}\n"];
    for src in accepted {
        assert!(parser(src).is_ok(), "{}", src);
        for c in [')', '"', '.', ',', '/', '{', '(', '}'] {
            let longer = format!("{}{}", src, c);
            assert!(parser(&longer).is_err(), "{}", longer);
        }
    }
    let es = parser("import fs/read )").unwrap_err();
    assert_eq!(es[0].position, 15);
    assert_eq!(es[0].expected, vec![Token::Import, Token::Fun, Token::End]);
}
