//! How much work a text is: every token is at least one byte long, and the
//! parser gives a bounded number of events for each token that it reads. So
//! the tokens, the events and the tree of a text are no more than a fixed
//! multiple of its length.

use crate::containment::taken;
use crate::grammar::expect_parsed;
use crate::grammar::label_parsed;
use crate::grammar::lemma_expect_sound;
use crate::grammar::lemma_label_sound;
use crate::grammar::lemma_list_sound;
use crate::grammar::lemma_name_sound;
use crate::grammar::lemma_param_sound;
use crate::grammar::lemma_params_sound;
use crate::grammar::lemma_shape_sound;
use crate::grammar::lemma_stmt_sound;
use crate::grammar::lemma_stmts_sound;
use crate::grammar::list_parsed;
use crate::grammar::name_parsed;
use crate::grammar::param_parsed;
use crate::grammar::params_parsed;
use crate::grammar::root_parsed;
use crate::grammar::shape_parsed;
use crate::grammar::stmt_parsed;
use crate::grammar::stmts_parsed;
use crate::grammar::begins_shape;
use crate::grammar::object_parsed;
use crate::grammar::Brackets;
use crate::grammar::Parsed;
use crate::kind::SyntaxKind;
use crate::lexer::chained;
use crate::lexer::lemma_lex_from_chained;
use crate::lexer::lexed;
use crate::lexer::Lexeme;
use crate::lexer::Span;
use crate::parser::at_kind;
use vstd::prelude::*;
use vstd::utf8::*;

verus! {

/// Tokens that follow one another, none of them empty, are no more than the
/// bytes that they cover.
pub proof fn lemma_chained_len(spans: Seq<Span>, s: Seq<u8>, from: int)
    requires
        chained(spans, s, from),
        0 <= from <= s.len(),
    ensures
        spans.len() <= s.len() - from,
    decreases spans.len(),
{
    if spans.len() > 0 {
        lemma_chained_len(spans.drop_first(), s, spans[0].end);
    }
}

/// A text has no more tokens than bytes.
pub proof fn lemma_tokens_bounded(text: Seq<char>)
    ensures
        lexed(text).len() <= encode_utf8(text).len(),
{
    let s = encode_utf8(text);
    encode_utf8_valid_utf8(text);
    is_char_boundary_start_end_of_seq(s);
    lemma_lex_from_chained(s, 0);
    lemma_chained_len(lexed(text), s, 0);
}

/// A piece of the grammar gives at most six events for each token that it
/// reads, and `extra` more.
pub open spec fn brief(p: Parsed, r: Seq<Lexeme>, extra: int) -> bool {
    0 <= taken(p, r) && p.events.len() <= 6 * taken(p, r) + extra
}

/// An expected token is one event.
pub proof fn lemma_expect_brief(r: Seq<Lexeme>, kind: SyntaxKind)
    requires
        r.len() > 0 || kind != SyntaxKind::Eof,
    ensures
        brief(expect_parsed(r, kind), r, 1),
{
    lemma_expect_sound(r, kind, 1);
}

/// A name is three events for its token, or one for its absence.
pub proof fn lemma_name_brief(r: Seq<Lexeme>)
    ensures
        brief(name_parsed(r), r, 1),
{
    lemma_name_sound(r, 1);
}

/// A row of parameters is at most six events for each token.
pub proof fn lemma_params_brief(r: Seq<Lexeme>, close: SyntaxKind)
    ensures
        brief(params_parsed(r, close), r, 0),
    decreases r.len(),
{
    lemma_params_sound(r, close, 1);
    if !(at_kind(r, SyntaxKind::Eof) || at_kind(r, close)) {
        match param_parsed(r) {
            None => {},
            Some(first) => {
                lemma_param_sound(r, 1);
                if at_kind(first.rest, SyntaxKind::Comma) {
                    lemma_params_sound(first.rest.skip(1), close, 1);
                    lemma_params_brief(first.rest.skip(1), close);
                }
            },
        }
    }
}

/// A list of parameters is at most six events for each token.
pub proof fn lemma_list_brief(r: Seq<Lexeme>, brack: Brackets)
    requires
        r.len() > 0,
    ensures
        brief(list_parsed(r, brack), r, 0),
{
    let inner = params_parsed(r.skip(1), brack.spec_close());
    lemma_list_sound(r, brack, 1);
    lemma_params_sound(r.skip(1), brack.spec_close(), 1);
    lemma_params_brief(r.skip(1), brack.spec_close());
    lemma_expect_sound(inner.rest, brack.spec_close(), 1);
    lemma_expect_brief(inner.rest, brack.spec_close());
}

/// A label is at most six events for each token, and four more.
pub proof fn lemma_label_brief(r: Seq<Lexeme>)
    ensures
        brief(label_parsed(r), r, 4),
{
    let name = name_parsed(r);
    lemma_label_sound(r, 1);
    lemma_name_sound(r, 1);
    lemma_name_brief(r);
    lemma_expect_sound(name.rest, SyntaxKind::Colon, 1);
    lemma_expect_brief(name.rest, SyntaxKind::Colon);
}

/// What stands inside a shape is at most six events for each token.
pub proof fn lemma_shape_brief(r: Seq<Lexeme>)
    requires
        r.len() > 0,
    ensures
        brief(shape_parsed(r), r, 0),
{
    let label = label_parsed(r.skip(1));
    let name = name_parsed(label.rest);
    lemma_shape_sound(r, 1);
    lemma_label_sound(r.skip(1), 1);
    lemma_label_brief(r.skip(1));
    lemma_name_sound(label.rest, 1);
    lemma_name_brief(label.rest);
    if at_kind(name.rest, SyntaxKind::OpenRound) {
        lemma_list_sound(name.rest, Brackets::Round, 1);
        lemma_list_brief(name.rest, Brackets::Round);
    }
}

/// A statement reads at least one token, and gives at most nine events for
/// each token that it reads.
pub proof fn lemma_stmt_brief(r: Seq<Lexeme>)
    requires
        r.len() > 0,
    ensures
        1 <= taken(stmt_parsed(r), r),
        stmt_parsed(r).events.len() <= 9 * taken(stmt_parsed(r), r),
{
    lemma_stmt_sound(r, 1);
    if at_kind(r, SyntaxKind::OpenSquare) {
        let body = object_parsed(r);
        lemma_list_sound(r, Brackets::Square, 1);
        lemma_list_brief(r, Brackets::Square);
        lemma_expect_sound(body.rest, SyntaxKind::SemiColon, 1);
        lemma_expect_brief(body.rest, SyntaxKind::SemiColon);
    } else if begins_shape(r) {
        let body = shape_parsed(r);
        lemma_shape_sound(r, 1);
        lemma_shape_brief(r);
        lemma_expect_sound(body.rest, SyntaxKind::SemiColon, 1);
        lemma_expect_brief(body.rest, SyntaxKind::SemiColon);
    }
}

/// The statements of a text give at most nine events for each token.
pub proof fn lemma_stmts_brief(r: Seq<Lexeme>)
    ensures
        0 <= taken(stmts_parsed(r), r) <= r.len(),
        stmts_parsed(r).events.len() <= 9 * taken(stmts_parsed(r), r),
    decreases r.len(),
{
    lemma_stmts_sound(r, 1);
    if !at_kind(r, SyntaxKind::Eof) {
        let first = stmt_parsed(r);
        lemma_stmt_sound(r, 1);
        lemma_stmt_brief(r);
        lemma_stmts_sound(first.rest, 1);
        lemma_stmts_brief(first.rest);
    }
}

/// Parsing gives at most nine events for each token of the text, and two
/// for the root.
pub proof fn lemma_events_bounded(r: Seq<Lexeme>)
    ensures
        root_parsed(r).events.len() <= 9 * r.len() + 2,
{
    lemma_stmts_brief(r);
}

} // verus!
