use poml::ast::AstNode;
use poml::ast::ParamKind;
use poml::ast::Root;
use poml::ast::StmtKind;
use poml::compile;
use poml::kind::SyntaxKind;
use poml::lexer::lex;
use poml::parse::parse;
use poml::registry::Registry;
use poml::validation::decimal_string;
use poml::validation::validate;

fn registry() -> Registry {
    Registry::default().register("circle", 1)
}

fn errors(text: &str) -> Vec<String> {
    match compile(text, &registry()) {
        Ok(_) => Vec::new(),
        Err(errors) => errors,
    }
}

#[test]
fn a_shape_and_an_object_compile() {
    let parse = compile("let r: circle(1.0);\n[1.0, 0.0, 0.0, r];\n", &registry()).unwrap();
    let stmts = parse.root().stmts();
    assert_eq!(stmts.len(), 2);
    match stmts[0].kind() {
        StmtKind::Shape(shape) => {
            assert_eq!(shape.label().text(), Some("r".to_string()));
            assert_eq!(shape.try_label().unwrap().text(), Some("r".to_string()));
            assert_eq!(shape.name().unwrap().text(), "circle");
            let params = stmts[0].params().unwrap().rest();
            assert_eq!(params.len(), 1);
            match params[0].kind() {
                ParamKind::Value(v) => {
                    assert_eq!(v.literal(), Some("1.0".to_string()));
                    assert_eq!(v.literal().unwrap().parse::<f32>(), Ok(1.0));
                }
                ParamKind::Name(_) => panic!("a number was expected"),
            }
        }
        StmtKind::Object(_) => panic!("a shape was expected"),
    }
    match stmts[1].kind() {
        StmtKind::Object(_) => {
            let mut params = stmts[1].params().unwrap();
            assert_eq!(params.next_value().unwrap().literal(), Some("1.0".to_string()));
            assert_eq!(params.next_value().unwrap().literal(), Some("0.0".to_string()));
            assert_eq!(params.next_value().unwrap().literal(), Some("0.0".to_string()));
            assert_eq!(params.next_name().unwrap().text(), "r");
            assert!(params.next().is_none());
            assert!(params.next_name().is_none());
        }
        StmtKind::Shape(_) => panic!("an object was expected"),
    }
}

#[test]
fn a_label_defined_twice_is_reported() {
    assert_eq!(
        errors("let r: circle(1.0);\nlet r: circle(2.0);\n"),
        vec!["label `r` has multiple definitions"]
    );
}

#[test]
fn a_wrong_number_of_parameters_is_reported() {
    assert_eq!(
        errors("let r: circle(1.0, 2.0);"),
        vec!["expected to find 1 args, found 2"]
    );
}

#[test]
fn an_object_without_four_parameters_is_reported() {
    assert_eq!(
        errors("[1.0, 0.0];"),
        vec!["objects must be a tuple of [value, x, y, shape]"]
    );
}

#[test]
fn an_unknown_shape_is_reported() {
    // no message about the number of parameters comes with it
    assert_eq!(
        errors("let r: blob(1.0);"),
        vec!["shape `blob` is not recognised"]
    );
    assert_eq!(
        errors("let r: blob(1.0, 2.0, 3.0);"),
        vec!["shape `blob` is not recognised"]
    );
}

#[test]
fn garbage_before_a_statement_is_recovered_from() {
    let text = "@@@\n[1.0,0.0,0.0,r];\n";
    // each character that the lexer does not know is a token of its own, and
    // each of them is one statement that could not be begun
    assert_eq!(
        errors(text),
        vec![
            "Expected to find a statement",
            "Expected to find a statement",
            "Expected to find a statement",
        ]
    );
    let parsed = parse(&lex(text));
    let stmts = parsed.root().stmts();
    assert_eq!(stmts.len(), 1);
    assert!(matches!(stmts[0].kind(), StmtKind::Object(_)));
    let mut params = stmts[0].params().unwrap();
    assert_eq!(params.next_value().unwrap().literal(), Some("1.0".to_string()));
    assert_eq!(params.next_value().unwrap().literal(), Some("0.0".to_string()));
    assert_eq!(params.next_value().unwrap().literal(), Some("0.0".to_string()));
    assert_eq!(params.next_name().unwrap().text(), "r");
    assert!(params.next().is_none());
    assert!(validate(&parsed.syntax(), &registry()).is_empty());
}

#[test]
fn one_unknown_character_is_one_syntax_error() {
    assert_eq!(
        errors("@\n[1.0,0.0,0.0,r];\n"),
        vec!["Expected to find a statement"]
    );
}

#[test]
fn compile_accepts_an_empty_text() {
    let parse = compile("", &registry()).unwrap();
    assert!(parse.root().stmts().is_empty());
    assert!(parse.errors().is_empty());
    let parse = compile(" // nothing here\n", &Registry::default()).unwrap();
    assert!(parse.root().stmts().is_empty());
    assert_eq!(parse.syntax().text().to_string(), " // nothing here\n");
}

#[test]
fn compile_is_lossless() {
    let text = "// shapes\nlet r: circle( 1.0 ) ; // one\n\n[ 1.0 , 0.0 , 0.0 , r ];\n\t";
    let parse = compile(text, &registry()).unwrap();
    assert_eq!(parse.syntax().text().to_string(), text);
}

#[test]
fn compile_twice_gives_the_same() {
    for text in [
        "let r: circle(1.0);\n[1.0, 0.0, 0.0, r];\n",
        "let r: blob(a, 2.0;\n[r, r];@",
    ] {
        let first = compile(text, &registry());
        let second = compile(text, &registry());
        match (first, second) {
            (Ok(a), Ok(b)) => {
                assert_eq!(format!("{:#?}", a.syntax()), format!("{:#?}", b.syntax()));
                assert_eq!(a.syntax().green(), b.syntax().green());
            }
            (Err(a), Err(b)) => assert_eq!(a, b),
            _ => panic!("one run accepted what the other refused"),
        }
    }
}

#[test]
fn syntax_errors_come_before_what_the_validator_finds() {
    assert_eq!(
        errors("let r: blob(a, 2.0;\n[r, r];@"),
        vec![
            "expected CloseRound",
            "Expected to find a statement",
            "shape `blob` is not recognised",
            "shapes only have `Value` parameters, found a `Name` instead",
            "objects must be a tuple of [value, x, y, shape]",
            "expected to find a `Value`, got a `Name` instead",
            "expected to find a `Value`, got a `Name` instead",
        ]
    );
}

#[test]
fn every_wrong_place_of_an_object_is_reported() {
    assert_eq!(
        errors("[a, 1.0, b, 2.0];"),
        vec![
            "expected to find a `Value`, got a `Name` instead",
            "expected to find a `Value`, got a `Name` instead",
            "expected to find a `Name`, got a `Value` instead",
        ]
    );
    // only the first four places are checked
    assert_eq!(
        errors("[1.0, 1.0, 1.0, r, s, 2.0];"),
        vec!["objects must be a tuple of [value, x, y, shape]"]
    );
    assert_eq!(
        errors("[];"),
        vec!["objects must be a tuple of [value, x, y, shape]"]
    );
}

#[test]
fn shape_parameters_are_numbers() {
    assert_eq!(
        errors("let r: circle(x);"),
        vec!["shapes only have `Value` parameters, found a `Name` instead"]
    );
    // a shape without a list has no parameters
    assert_eq!(
        errors("let r: circle;"),
        vec!["expected to find 1 args, found 0"]
    );
    let none = Registry::default().register("dot", 0);
    assert!(compile("let d: dot;", &none).is_ok());
    assert!(compile("let d: dot();", &none).is_ok());
}

#[test]
fn labels_are_defined_once() {
    assert_eq!(
        errors("let a: circle(1.0);let b: circle(1.0);let a: circle(1.0);let a: circle(1.0);"),
        vec![
            "label `a` has multiple definitions",
            "label `a` has multiple definitions",
        ]
    );
    // a label and the name of a shape have nothing to do with one another
    assert!(compile("let circle: circle(1.0);", &registry()).is_ok());
}

#[test]
fn validate_reads_the_whole_tree() {
    let parsed = parse(&lex("let r: blob(1.0);\nlet r: circle(1.0, 2.0);\n[r];"));
    assert_eq!(
        validate(&parsed.syntax(), &registry()),
        vec![
            "shape `blob` is not recognised",
            "expected to find 1 args, found 2",
            "label `r` has multiple definitions",
            "objects must be a tuple of [value, x, y, shape]",
            "expected to find a `Value`, got a `Name` instead",
        ]
    );
}

#[test]
fn numbers_in_messages_are_decimal() {
    assert_eq!(decimal_string(0), "0");
    assert_eq!(decimal_string(7), "7");
    assert_eq!(decimal_string(10), "10");
    assert_eq!(decimal_string(1234567890), "1234567890");
    assert_eq!(decimal_string(usize::MAX), usize::MAX.to_string());
    let twelve = Registry::default().register("poly", 12);
    let errors = compile("let p: poly(1.0);", &twelve).unwrap_err();
    assert_eq!(errors, vec!["expected to find 12 args, found 1"]);
}

#[test]
fn registry_keeps_the_last_entry_of_a_name() {
    let r = Registry::default();
    assert!(!r.contains("circle"));
    assert_eq!(r.arity("circle"), None);
    let r = r.register("circle", 1).register("square", 2).register("circle", 3);
    assert!(r.contains("circle"));
    assert!(r.contains("square"));
    assert!(!r.contains("circl"));
    assert_eq!(r.arity("circle"), Some(3));
    assert_eq!(r.arity("square"), Some(2));
    assert_eq!(r.arity(""), None);
}

#[test]
fn casting_goes_by_the_kind() {
    let parsed = parse(&lex("let r: circle(1.0);"));
    let syntax = parsed.syntax();
    assert!(Root::cast(syntax.clone()).is_some());
    assert!(poml::ast::Stmt::cast(syntax.clone()).is_none());
    assert!(poml::ast::Shape::cast(syntax.clone()).is_none());
    let shape = syntax.first_child().unwrap();
    assert_eq!(SyntaxKind::from_raw(shape.kind().0), SyntaxKind::Shape);
    assert!(poml::ast::Stmt::cast(shape.clone()).is_some());
    assert!(poml::ast::Shape::cast(shape.clone()).is_some());
    assert!(poml::ast::Object::cast(shape.clone()).is_none());
    assert!(poml::ast::Label::cast(shape.clone()).is_none());
    assert!(poml::ast::Name::cast(shape.clone()).is_none());
    assert!(poml::ast::Value::cast(shape.clone()).is_none());
    assert!(poml::ast::Param::cast(shape.clone()).is_none());
    assert!(poml::ast::ParamList::cast(shape.clone()).is_none());
    assert!(ParamKind::cast(shape.clone()).is_none());
    let stmt = poml::ast::Stmt::cast(shape.clone()).unwrap();
    assert_eq!(stmt.syntax(), &shape);
    let label = shape.first_child().unwrap();
    assert!(poml::ast::Label::cast(label.clone()).is_some());
    let name = label.first_child().unwrap();
    let kind = ParamKind::cast(name.clone()).unwrap();
    assert!(kind.as_name().is_some());
    assert!(kind.as_value().is_none());
    assert_eq!(kind.as_name().unwrap().text(), "r");
    assert_eq!(kind.syntax(), &name);
    let kind = kind.try_into_value().unwrap_err();
    assert_eq!(kind.try_into_name().unwrap().try_text(), Some("r".to_string()));
}

#[test]
fn params_hand_out_numbers_and_names() {
    let parsed = parse(&lex("[1.0, r, 2.0, s, 3.0];"));
    let stmts = parsed.root().stmts();
    let values: Vec<String> = stmts[0]
        .params()
        .unwrap()
        .values()
        .iter()
        .map(|v| v.literal().unwrap())
        .collect();
    assert_eq!(values, vec!["1.0", "2.0", "3.0"]);
    let mut params = stmts[0].params().unwrap();
    // a parameter of the other kind is taken, and not handed out
    assert!(params.next_name().is_none());
    assert!(params.next_value().is_none());
    assert_eq!(params.next_value().unwrap().literal(), Some("2.0".to_string()));
    let rest = params.rest();
    assert_eq!(rest.len(), 2);
    assert_eq!(rest[0].kind().as_name().unwrap().text(), "s");
    assert_eq!(
        rest[1].try_kind().unwrap().try_into_value().unwrap().literal(),
        Some("3.0".to_string())
    );
    // an error node is no statement, and a statement without a list has no parameters
    let parsed = parse(&lex("; let r: circle;"));
    let stmts = parsed.root().stmts();
    assert_eq!(stmts.len(), 1);
    assert!(stmts[0].params().is_none());
}

#[test]
fn long_texts_compile_in_one_pass() {
    let mut text = String::new();
    text.push_str("let r: circle(1.0); // the one shape\n");
    for i in 0..20_000 {
        text.push_str(&format!("[{}.5, -{}, .25, r];\n", i, i));
    }
    let parse = compile(&text, &registry()).unwrap();
    assert_eq!(parse.root().stmts().len(), 20_001);
    assert_eq!(parse.syntax().text().len(), rowan::TextSize::of(text.as_str()));
    // and a long text of nothing that can be parsed
    let garbage = "@".repeat(50_000);
    assert_eq!(errors(&garbage).len(), 50_000);
}

#[test]
fn many_labels_are_checked_in_one_pass() {
    let mut text = String::new();
    let mut letters = String::new();
    for i in 0..20_000u32 {
        letters.clear();
        let mut n = i;
        loop {
            letters.push((b'a' + (n % 26) as u8) as char);
            n /= 26;
            if n == 0 {
                break;
            }
        }
        text.push_str(&format!("let {}: circle(1.0);\n", letters));
    }
    assert!(compile(&text, &registry()).is_ok());
    text.push_str("let a: circle(1.0);\n");
    assert_eq!(errors(&text), vec!["label `a` has multiple definitions"]);
}
