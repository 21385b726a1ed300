use poml::event::Event;
use poml::grammar::root;
use poml::kind::SyntaxKind;
use poml::lexer::lex;
use poml::lexer::Trivia;
use poml::parse::parse;
use poml::parser::Marker;
use poml::parser::Parser;

/// The events of a text, written down: `(Kind` for a start, `Kind` for a
/// token, `)` for a finish, `!message` for an error.
fn trace(text: &str) -> Vec<String> {
    let lexed = lex(text);
    let mut parser = Parser::new(lexed.tokens(Trivia::Skip));
    root(&mut parser);
    parser
        .finish()
        .into_iter()
        .map(|e| match e {
            Event::Start { kind } => format!("({:?}", kind),
            Event::Token { kind } => format!("{:?}", kind),
            Event::Finish => ")".to_string(),
            Event::Error { msg } => format!("!{}", msg),
        })
        .collect()
}

/// The syntax tree of a text, written down with its kinds and token texts.
fn outline(node: &rowan::cursor::SyntaxNode) -> String {
    let mut out = String::new();
    out.push('(');
    out.push_str(SyntaxKind::from_raw(node.kind().0).name());
    for child in node.children_with_tokens() {
        out.push(' ');
        match child {
            rowan::NodeOrToken::Node(n) => out.push_str(&outline(&n)),
            rowan::NodeOrToken::Token(t) => {
                out.push_str(&format!("{}{:?}", SyntaxKind::from_raw(t.kind().0).name(), t.text()))
            }
        }
    }
    out.push(')');
    out
}

fn tree(text: &str) -> String {
    outline(&parse(&lex(text)).syntax())
}

fn syntax_errors(text: &str) -> Vec<String> {
    parse(&lex(text)).errors().clone()
}

#[test]
fn events_of_an_object() {
    assert_eq!(
        trace("[1.0, r];"),
        vec![
            "(Root", "(Object", "(ParamList", "OpenSquare", "(Param", "(Value", "Literal", ")",
            ")", "Comma", "(Param", "(Name", "Ident", ")", ")", "CloseSquare", ")", "SemiColon",
            ")", ")",
        ]
    );
}

#[test]
fn events_of_a_shape() {
    assert_eq!(
        trace("let r: circle;"),
        vec![
            "(Root", "(Shape", "Let", "(Label", "(Name", "Ident", ")", "Colon", ")", "(Name",
            "Ident", ")", "SemiColon", ")", ")",
        ]
    );
}

#[test]
fn events_of_an_empty_text() {
    assert_eq!(trace(""), vec!["(Root", ")"]);
    assert_eq!(trace("  // nothing\n"), vec!["(Root", ")"]);
}

#[test]
fn events_of_a_token_that_begins_no_statement() {
    assert_eq!(
        trace(";"),
        vec!["(Root", "(Error", "!Expected to find a statement", "SemiColon", ")", ")"]
    );
    // an identifier other than `let` begins no statement either
    assert_eq!(
        trace("r"),
        vec!["(Root", "(Error", "!Expected to find a statement", "Ident", ")", ")"]
    );
}

#[test]
fn events_of_a_shape_without_anything() {
    assert_eq!(
        trace("let"),
        vec![
            "(Root",
            "(Shape",
            "Let",
            "(Label",
            "!Expected to find a name",
            "!expected Colon",
            ")",
            "!Expected to find a name",
            "!expected SemiColon",
            ")",
            ")",
        ]
    );
}

#[test]
fn events_of_a_list_that_is_not_closed() {
    assert_eq!(
        trace("[1.0, ;"),
        vec![
            "(Root", "(Object", "(ParamList", "OpenSquare", "(Param", "(Value", "Literal", ")",
            ")", "Comma", "!expected CloseSquare", ")", "SemiColon", ")", ")",
        ]
    );
    assert_eq!(
        trace("[1.0 2.0]"),
        vec![
            "(Root",
            "(Object",
            "(ParamList",
            "OpenSquare",
            "(Param",
            "(Value",
            "Literal",
            ")",
            ")",
            "!expected CloseSquare",
            ")",
            "!expected SemiColon",
            ")",
            "(Error",
            "!Expected to find a statement",
            "Literal",
            ")",
            "(Error",
            "!Expected to find a statement",
            "CloseSquare",
            ")",
            ")",
        ]
    );
}

#[test]
fn a_comma_may_stand_behind_the_last_parameter() {
    assert_eq!(syntax_errors("[1.0, 2.0,];"), Vec::<String>::new());
    assert_eq!(syntax_errors("let r: circle();"), Vec::<String>::new());
}

#[test]
fn marker_sets_the_kind_of_its_node() {
    let lexed = lex("x");
    let mut parser = Parser::new(lexed.tokens(Trivia::Skip));
    let m = parser.start();
    assert_eq!(parser.current(), SyntaxKind::Ident);
    assert_eq!(parser.nth(0), SyntaxKind::Ident);
    assert_eq!(parser.nth(1), SyntaxKind::Eof);
    assert!(parser.at(SyntaxKind::Ident));
    assert!(parser.at_str("x"));
    assert!(!parser.at_str("let"));
    assert!(!parser.eat(SyntaxKind::Colon));
    assert!(!parser.expect(SyntaxKind::Colon));
    parser.bump_remap(SyntaxKind::Let);
    assert!(parser.at(SyntaxKind::Eof));
    assert!(!parser.at_str("x"));
    parser.error("done");
    m.finish(&mut parser, SyntaxKind::Stmt);
    let events: Vec<String> = parser
        .finish()
        .into_iter()
        .map(|e| format!("{:?}", e))
        .collect();
    assert_eq!(
        events,
        vec![
            "Start { kind: Stmt }",
            "Error { msg: \"expected Colon\" }",
            "Token { kind: Let }",
            "Error { msg: \"done\" }",
            "Finish",
        ]
    );
    // a marker made by hand finishes the slot that it names
    let lexed = lex("");
    let mut parser = Parser::new(lexed.tokens(Trivia::Skip));
    parser.start();
    parser.start();
    Marker::new(1).finish(&mut parser, SyntaxKind::Name);
    Marker::new(0).finish(&mut parser, SyntaxKind::Root);
    let events: Vec<String> = parser
        .finish()
        .into_iter()
        .map(|e| format!("{:?}", e))
        .collect();
    assert_eq!(
        events,
        vec!["Start { kind: Root }", "Start { kind: Name }", "Finish", "Finish"]
    );
    assert_eq!(format!("{:?}", Event::tombstone()), "Start { kind: Tombstone }");
}

#[test]
fn tree_of_a_shape_and_an_object() {
    // trivia stands right before the token that follows it, as deep as that token
    assert_eq!(
        tree("let r: circle(1.0);\n[1.0, 0.0, 0.0, r];\n"),
        "(Root (Shape Let\"let\" (Label (Name Whitespace\" \" Ident\"r\") Colon\":\") \
         (Name Whitespace\" \" Ident\"circle\") (ParamList OpenRound\"(\" \
         (Param (Value Literal\"1.0\")) CloseRound\")\") SemiColon\";\") \
         (Object (ParamList Whitespace\"\\n\" OpenSquare\"[\" \
         (Param (Value Literal\"1.0\")) Comma\",\" \
         (Param (Value Whitespace\" \" Literal\"0.0\")) Comma\",\" \
         (Param (Value Whitespace\" \" Literal\"0.0\")) Comma\",\" \
         (Param (Name Whitespace\" \" Ident\"r\")) CloseSquare\"]\") SemiColon\";\") \
         Whitespace\"\\n\")"
    );
}

#[test]
fn trivia_stands_right_before_the_token_that_follows() {
    // the comment before `]` is inside the list, the one at the end inside the root
    assert_eq!(
        tree("[ // in\n] ; // out"),
        "(Root (Object (ParamList OpenSquare\"[\" Whitespace\" \" Comment\"// in\" \
         Whitespace\"\\n\" CloseSquare\"]\") Whitespace\" \" SemiColon\";\") \
         Whitespace\" \" Comment\"// out\")"
    );
    assert_eq!(tree(""), "(Root)");
    assert_eq!(tree(" "), "(Root Whitespace\" \")");
}

#[test]
fn tree_is_lossless() {
    for text in [
        "",
        " ",
        "let r: circle(1.0);\n[1.0, 0.0, 0.0, r];\n",
        "@@@\n[1.0,0.0,0.0,r];\n",
        "let let // é\n [ ( ) ] ;; 1. .5 -",
        "😀 [1.0, // half\n 2.0",
    ] {
        let parsed = parse(&lex(text));
        assert_eq!(parsed.syntax().text().to_string(), text);
    }
}

#[test]
fn parse_errors_are_in_the_order_of_the_text() {
    assert_eq!(
        syntax_errors("let : ( ; @"),
        vec![
            "Expected to find a name",
            "Expected to find a name",
            "expected CloseRound",
            "Expected to find a statement",
        ]
    );
}

#[test]
fn one_bad_token_changes_nothing_around_it() {
    let shape = "let r: circle(1.0);\n";
    let object = "[1.0, 0.0, 0.0, r];\n";
    let good = format!("{}{}", shape, object);
    let bad = format!("{}){}", shape, object);
    assert_eq!(syntax_errors(&good), Vec::<String>::new());
    assert_eq!(syntax_errors(&bad), vec!["Expected to find a statement"]);
    // the statements around the bad token are parsed as they are alone
    let inner = |text: &str| {
        let all = trace(text);
        all[1..all.len() - 1].to_vec()
    };
    let mut expected = inner(shape);
    expected.extend(
        ["(Error", "!Expected to find a statement", "CloseRound", ")"].map(String::from),
    );
    expected.extend(inner(object));
    assert_eq!(inner(&bad), expected);
    let all = tree(&bad);
    assert!(all.contains("(Error Whitespace\"\\n\" CloseRound\")\")"));
    assert_eq!(all.matches("(Error").count(), 1);
    assert_eq!(all.matches("(Shape").count(), 1);
    assert_eq!(all.matches("(Object").count(), 1);
}

#[test]
fn tokens_and_events_are_bounded_by_the_length() {
    for text in [
        "",
        "let",
        "let (",
        "[",
        "let r: circle(1.0);\n[1.0, 0.0, 0.0, r];\n",
        "@@@ ) ] ; let let [ [ a, b, 1.0,",
    ] {
        let lexed = lex(text);
        let all = lexed.tokens(Trivia::Keep).len();
        assert!(all <= text.len());
        let mut seen = 0;
        let skip = lexed.tokens(Trivia::Skip);
        while skip.get(seen).is_some() {
            seen += 1;
        }
        assert!(trace(text).len() <= 9 * seen + 2, "{}", text);
    }
    // the bound is met
    assert_eq!(trace("let").len(), 9 + 2);
}

#[test]
fn every_text_has_a_lossless_tree() {
    let alphabet = [
        "let", " ", "\n", "\t", "r", "circle", ":", ";", ",", "(", ")", "[", "]", "1.0", "-2",
        ".5", "1_0.", "-", ".", "/", "//", "// é\n", "@", "é", "€", "😀", "_", "x_y", "0", "\r",
    ];
    let mut state: u64 = 0x2545_f491_4f6c_dd1d;
    let mut next = move || {
        state ^= state << 13;
        state ^= state >> 7;
        state ^= state << 17;
        state
    };
    for _ in 0..2_000 {
        let len = (next() % 24) as usize;
        let mut text = String::new();
        for _ in 0..len {
            text.push_str(alphabet[(next() % alphabet.len() as u64) as usize]);
        }
        let lexed = lex(&text);
        let parsed = parse(&lexed);
        assert_eq!(parsed.syntax().text().to_string(), text);
        // every token of the text is in the tree once, in its place
        let tokens = lexed.tokens(Trivia::Keep);
        let in_text: Vec<String> =
            (0..tokens.len()).map(|i| tokens.text(i).unwrap().to_string()).collect();
        let in_tree: Vec<String> = parsed
            .syntax()
            .descendants_with_tokens()
            .filter_map(|e| e.into_token())
            .map(|t| t.text().to_string())
            .collect();
        assert_eq!(in_tree, in_text);
        // and the typed view finds what it looks for
        for stmt in parsed.root().stmts() {
            if let poml::ast::StmtKind::Shape(shape) = stmt.kind() {
                shape.label();
            }
            if let Some(params) = stmt.params() {
                for param in params.rest() {
                    match param.kind() {
                        poml::ast::ParamKind::Name(name) => assert!(!name.text().is_empty()),
                        poml::ast::ParamKind::Value(value) => assert!(value.literal().is_some()),
                    }
                }
            }
        }
    }
}

#[test]
fn builder_by_hand() {
    let lexed = lex(" a // c\n b ");
    let mut tb = poml::builder::TreeBuilder::new(lexed.tokens(Trivia::Keep));
    tb.start_node(SyntaxKind::Root);
    tb.start_node(SyntaxKind::Name);
    tb.token(SyntaxKind::Ident);
    tb.finish_node();
    tb.error("one".to_string());
    tb.start_node(SyntaxKind::Label);
    tb.eat_trivias();
    tb.do_token(SyntaxKind::Let);
    tb.finish_node();
    tb.finish_node();
    tb.error("two".to_string());
    let (node, errors) = tb.finish();
    assert_eq!(errors, vec!["one", "two"]);
    assert_eq!(
        outline(&rowan::cursor::SyntaxNode::new_root(node)),
        "(Root (Name Whitespace\" \" Ident\"a\") (Label Whitespace\" \" Comment\"// c\" \
         Whitespace\"\\n \" Let\"b\") Whitespace\" \")"
    );
}

#[test]
fn a_start_without_a_kind_begins_no_node() {
    let lexed = lex("x y");
    let mut tb = poml::builder::TreeBuilder::new(lexed.tokens(Trivia::Keep));
    let events = vec![
        Event::Start { kind: SyntaxKind::Root },
        Event::tombstone(),
        Event::Token { kind: SyntaxKind::Ident },
        Event::Error { msg: "lost".to_string() },
        Event::Start { kind: SyntaxKind::Name },
        Event::Token { kind: SyntaxKind::Ident },
        Event::Finish,
        Event::Finish,
    ];
    poml::event::process(&mut tb, events);
    let (node, errors) = tb.finish();
    assert_eq!(errors, vec!["lost"]);
    assert_eq!(
        outline(&rowan::cursor::SyntaxNode::new_root(node)),
        "(Root Ident\"x\" (Name Whitespace\" \" Ident\"y\"))"
    );
}
