use poml::kind::SyntaxKind;
use poml::lexer::lex;
use poml::lexer::LexedStr;
use poml::lexer::Token;
use poml::lexer::Trivia;
use poml::text::TextRange;
use poml::text::TextSize;

fn all_tokens(text: &str) -> Vec<(SyntaxKind, String)> {
    let lexed = lex(text);
    let tokens = lexed.tokens(Trivia::Keep);
    (0..tokens.len())
        .map(|i| (tokens.kind(i), tokens.text(i).unwrap().to_string()))
        .collect()
}

fn pairs(expected: &[(SyntaxKind, &str)]) -> Vec<(SyntaxKind, String)> {
    expected.iter().map(|(k, t)| (*k, t.to_string())).collect()
}

#[test]
fn lex_shape_statement() {
    let text = lex("let r: circle(1.0);");
    let tokens = text.tokens(Trivia::Skip);
    let kinds: Vec<SyntaxKind> = (0..10).map(|i| tokens.kind(i)).collect();
    assert_eq!(
        kinds,
        vec![
            SyntaxKind::Ident,
            SyntaxKind::Ident,
            SyntaxKind::Colon,
            SyntaxKind::Ident,
            SyntaxKind::OpenRound,
            SyntaxKind::Literal,
            SyntaxKind::CloseRound,
            SyntaxKind::SemiColon,
            SyntaxKind::Eof,
            SyntaxKind::Eof,
        ]
    );
    assert_eq!(tokens.text(0), Some("let"));
    assert_eq!(tokens.text(1), Some("r"));
    assert_eq!(tokens.text(3), Some("circle"));
    assert_eq!(tokens.text(5), Some("1.0"));
    assert_eq!(tokens.text(8), None);
}

#[test]
fn lex_keeps_trivia() {
    assert_eq!(
        all_tokens("a \t\n// note ;\nb"),
        pairs(&[
            (SyntaxKind::Ident, "a"),
            (SyntaxKind::Whitespace, " \t\n"),
            (SyntaxKind::Comment, "// note ;"),
            (SyntaxKind::Whitespace, "\n"),
            (SyntaxKind::Ident, "b"),
        ])
    );
}

#[test]
fn lex_token_ranges_are_in_bytes() {
    let lexed = lex("ab  [é]");
    let tokens = lexed.tokens(Trivia::Keep);
    let ranges: Vec<(u32, u32)> = (0..tokens.len())
        .map(|i| {
            let t = tokens.get(i).unwrap();
            (u32::from(t.range.start()), u32::from(t.range.end()))
        })
        .collect();
    assert_eq!(ranges, vec![(0, 2), (2, 4), (4, 5), (5, 7), (7, 8)]);
    assert_eq!(tokens.kind(3), SyntaxKind::Unknown);
    assert_eq!(tokens.text(3), Some("é"));
}

#[test]
fn lex_skip_view_leaves_trivia_out() {
    let lexed = lex(" a // c\n b ");
    let skip = lexed.tokens(Trivia::Skip);
    assert_eq!(skip.kind(0), SyntaxKind::Ident);
    assert_eq!(skip.text(0), Some("a"));
    assert_eq!(skip.kind(1), SyntaxKind::Ident);
    assert_eq!(skip.text(1), Some("b"));
    assert_eq!(skip.kind(2), SyntaxKind::Eof);
    assert!(skip.get(2).is_none());
    // the length is that of all the tokens, trivia included
    assert_eq!(skip.len(), 7);
    assert_eq!(lexed.tokens(Trivia::Keep).len(), 7);
}

#[test]
fn lex_literal_forms() {
    for text in ["0", "0.", "0.0", ".0", "-0", "-0.0", "1_000.5_0", "12.", "-7_"] {
        assert_eq!(all_tokens(text), pairs(&[(SyntaxKind::Literal, text)]), "{}", text);
    }
}

#[test]
fn lex_lone_minus_and_dot_are_unknown() {
    assert_eq!(
        all_tokens("-"),
        pairs(&[(SyntaxKind::Unknown, "-")])
    );
    assert_eq!(
        all_tokens("."),
        pairs(&[(SyntaxKind::Unknown, ".")])
    );
    assert_eq!(
        all_tokens("-a"),
        pairs(&[(SyntaxKind::Unknown, "-"), (SyntaxKind::Ident, "a")])
    );
    assert_eq!(
        all_tokens("-.5"),
        pairs(&[(SyntaxKind::Unknown, "-"), (SyntaxKind::Literal, ".5")])
    );
    assert_eq!(
        all_tokens("._5"),
        pairs(&[
            (SyntaxKind::Unknown, "."),
            (SyntaxKind::Ident, "_"),
            (SyntaxKind::Literal, "5"),
        ])
    );
}

#[test]
fn lex_literal_has_one_decimal_point() {
    assert_eq!(
        all_tokens("1.2.3"),
        pairs(&[(SyntaxKind::Literal, "1.2"), (SyntaxKind::Literal, ".3")])
    );
    assert_eq!(
        all_tokens("1.."),
        pairs(&[(SyntaxKind::Literal, "1."), (SyntaxKind::Unknown, ".")])
    );
    assert_eq!(
        all_tokens(".5.5"),
        pairs(&[(SyntaxKind::Literal, ".5"), (SyntaxKind::Literal, ".5")])
    );
}

#[test]
fn lex_punctuation() {
    assert_eq!(
        all_tokens(":;,()[]"),
        pairs(&[
            (SyntaxKind::Colon, ":"),
            (SyntaxKind::SemiColon, ";"),
            (SyntaxKind::Comma, ","),
            (SyntaxKind::OpenRound, "("),
            (SyntaxKind::CloseRound, ")"),
            (SyntaxKind::OpenSquare, "["),
            (SyntaxKind::CloseSquare, "]"),
        ])
    );
}

#[test]
fn lex_unknown_is_one_character() {
    assert_eq!(
        all_tokens("@@"),
        pairs(&[(SyntaxKind::Unknown, "@"), (SyntaxKind::Unknown, "@")])
    );
    assert_eq!(
        all_tokens("/x"),
        pairs(&[(SyntaxKind::Unknown, "/"), (SyntaxKind::Ident, "x")])
    );
    assert_eq!(
        all_tokens("é€😀a"),
        pairs(&[
            (SyntaxKind::Unknown, "é"),
            (SyntaxKind::Unknown, "€"),
            (SyntaxKind::Unknown, "😀"),
            (SyntaxKind::Ident, "a"),
        ])
    );
}

#[test]
fn lex_identifier_has_letters_and_underscores_only() {
    assert_eq!(
        all_tokens("a_b1"),
        pairs(&[(SyntaxKind::Ident, "a_b"), (SyntaxKind::Literal, "1")])
    );
    assert_eq!(all_tokens("_"), pairs(&[(SyntaxKind::Ident, "_")]));
}

#[test]
fn lex_comment_runs_to_the_end_of_the_line() {
    assert_eq!(
        all_tokens("// é ü\r\nx"),
        pairs(&[
            (SyntaxKind::Comment, "// é ü\r"),
            (SyntaxKind::Whitespace, "\n"),
            (SyntaxKind::Ident, "x"),
        ])
    );
    assert_eq!(all_tokens("//"), pairs(&[(SyntaxKind::Comment, "//")]));
}

#[test]
fn lex_whitespace_is_ascii_whitespace() {
    assert_eq!(
        all_tokens(" \t\n\x0c\r"),
        pairs(&[(SyntaxKind::Whitespace, " \t\n\x0c\r")])
    );
    // a vertical tab and a no-break space are no whitespace here
    assert_eq!(
        all_tokens("\x0b\u{a0}"),
        pairs(&[(SyntaxKind::Unknown, "\x0b"), (SyntaxKind::Unknown, "\u{a0}")])
    );
}

#[test]
fn lex_empty_text_has_no_tokens() {
    let lexed = lex("");
    assert_eq!(lexed.tokens(Trivia::Keep).len(), 0);
    assert_eq!(lexed.tokens(Trivia::Keep).kind(0), SyntaxKind::Eof);
}

#[test]
fn lex_is_lossless() {
    for text in [
        "",
        "let r: circle(1.0);\n[1.0, 0.0, 0.0, r];\n",
        "@@@ // é\n\t-.5 1..2 /",
        "😀[[[;;;let let let",
    ] {
        let joined: String = all_tokens(text).into_iter().map(|(_, t)| t).collect();
        assert_eq!(joined, text);
    }
}

#[test]
fn lexed_str_holds_what_it_is_given() {
    let tokens = vec![Token {
        kind: SyntaxKind::Ident,
        range: TextRange::at(TextSize::from(0), TextSize::from(2)),
    }];
    let lexed = LexedStr::new("ab", tokens);
    let view = lexed.tokens(Trivia::Keep);
    assert_eq!(view.len(), 1);
    assert_eq!(view.kind(0), SyntaxKind::Ident);
    assert_eq!(view.text(0), Some("ab"));
    assert_eq!(view.source, "ab");
}

#[test]
fn text_range_ends() {
    let r = TextRange::new(TextSize::from(3), TextSize::from(8));
    assert_eq!(u32::from(r.start()), 3);
    assert_eq!(u32::from(r.end()), 8);
    let r = TextRange::at(TextSize::from(3), TextSize::from(5));
    assert_eq!(r, TextRange::new(TextSize::from(3), TextSize::from(8)));
    assert_eq!(TextSize::from(3) + TextSize::from(5), TextSize::from(8));
    assert_eq!(TextSize::from(7).to_usize(), 7);
    assert_eq!(usize::from(TextSize::from(7)), 7);
    assert_eq!(TextSize::try_from_usize(9), Some(TextSize::from(9)));
    assert_eq!(TextSize::try_from_usize(usize::MAX), None);
}

#[test]
fn kinds_and_their_numbers() {
    assert!(SyntaxKind::Whitespace.is_trivia());
    assert!(SyntaxKind::Comment.is_trivia());
    assert!(!SyntaxKind::Ident.is_trivia());
    assert!(!SyntaxKind::Eof.is_trivia());
    assert_eq!(SyntaxKind::Whitespace.raw(), 0);
    assert_eq!(SyntaxKind::Root.raw(), 11);
    assert_eq!(SyntaxKind::Last.raw(), 25);
    for raw in 0..=25u16 {
        assert_eq!(SyntaxKind::from_raw(raw).raw(), raw);
        assert_eq!(u16::from(SyntaxKind::from(raw)), raw);
    }
    // a number that stands for no kind falls back on the placeholder
    assert_eq!(SyntaxKind::from_raw(26), SyntaxKind::Tombstone);
    assert_eq!(SyntaxKind::from_raw(u16::MAX), SyntaxKind::Tombstone);
    assert_eq!(SyntaxKind::SemiColon.name(), "SemiColon");
    assert_eq!(SyntaxKind::Value.name(), format!("{:?}", SyntaxKind::Value));
}
