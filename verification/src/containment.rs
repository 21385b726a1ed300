//! How far the parser looks: a piece of the grammar is decided by the tokens
//! that it reads and the one behind them, and a statement without an error
//! by the tokens that it reads alone. So what stands around a statement does
//! not change how it is parsed.

use crate::event::Step;
use crate::grammar::begins_shape;
use crate::grammar::begins_statement;
use crate::grammar::expect_parsed;
use crate::grammar::is_suffix;
use crate::grammar::label_parsed;
use crate::grammar::lemma_expect_sound;
use crate::grammar::lemma_label_sound;
use crate::grammar::lemma_list_sound;
use crate::grammar::lemma_name_sound;
use crate::grammar::lemma_param_sound;
use crate::grammar::lemma_params_sound;
use crate::grammar::lemma_shape_sound;
use crate::grammar::lemma_stmt_sound;
use crate::grammar::lemma_stmts_sound;
use crate::grammar::list_parsed;
use crate::grammar::name_parsed;
use crate::grammar::node;
use crate::grammar::object_parsed;
use crate::grammar::param_parsed;
use crate::grammar::params_parsed;
use crate::grammar::shape_parsed;
use crate::grammar::statement_message;
use crate::grammar::stmt_parsed;
use crate::grammar::stmts_parsed;
use crate::grammar::Brackets;
use crate::grammar::Parsed;
use crate::kind::SyntaxKind;
use crate::lexer::Lexeme;
use crate::nesting::errors_in;
use crate::nesting::lemma_node;
use crate::nesting::lemma_one;
use crate::nesting::lemma_sum;
use crate::parser::at_kind;
use vstd::prelude::*;

verus! {

/// The token at place `i`, where there is one.
pub open spec fn look(r: Seq<Lexeme>, i: int) -> Option<Lexeme> {
    if 0 <= i < r.len() {
        Some(r[i])
    } else {
        None
    }
}

/// The two lists of tokens are the same in their first `k` places.
pub open spec fn agree(a: Seq<Lexeme>, b: Seq<Lexeme>, k: int) -> bool {
    forall|i: int| 0 <= i < k ==> #[trigger] look(a, i) == look(b, i)
}

/// How many tokens a piece of the grammar has read.
pub open spec fn taken(p: Parsed, r: Seq<Lexeme>) -> int {
    r.len() - p.rest.len()
}

/// The piece `q` over the tokens `r2` is the piece `p` over the tokens `r`:
/// the same events, and as many tokens read.
pub open spec fn alike(p: Parsed, r: Seq<Lexeme>, q: Parsed, r2: Seq<Lexeme>) -> bool {
    &&& q.events == p.events
    &&& is_suffix(p.rest, r)
    &&& is_suffix(q.rest, r2)
    &&& taken(q, r2) == taken(p, r)
}

/// Tokens that are the same in their first places are the same behind any of
/// those places.
pub proof fn lemma_agree_skip(a: Seq<Lexeme>, b: Seq<Lexeme>, k: int, n: int)
    requires
        agree(a, b, k),
        0 <= n <= k,
        n <= a.len(),
        n <= b.len(),
    ensures
        agree(a.skip(n), b.skip(n), k - n),
{
    assert forall|i: int| 0 <= i < k - n implies #[trigger] look(a.skip(n), i) == look(
        b.skip(n),
        i,
    ) by {
        assert(look(a, i + n) == look(b, i + n));
    }
}

/// Where the first token is the same, the same kind comes next.
pub proof fn lemma_agree_kind(a: Seq<Lexeme>, b: Seq<Lexeme>, k: int)
    requires
        agree(a, b, k),
        k >= 1,
    ensures
        forall|kind: SyntaxKind| at_kind(a, kind) == at_kind(b, kind),
        a.len() > 0 <==> b.len() > 0,
        a.len() > 0 ==> a[0] == b[0],
        begins_shape(a) == begins_shape(b),
{
    assert(look(a, 0) == look(b, 0));
}

/// An expected token is decided by the token that comes next.
pub proof fn lemma_expect_local(r: Seq<Lexeme>, r2: Seq<Lexeme>, kind: SyntaxKind)
    requires
        kind != SyntaxKind::Eof,
        agree(r, r2, taken(expect_parsed(r, kind), r) + 1),
    ensures
        alike(expect_parsed(r, kind), r, expect_parsed(r2, kind), r2),
{
    lemma_expect_sound(r, kind, 1);
    lemma_expect_sound(r2, kind, 1);
    lemma_agree_kind(r, r2, 1);
}

/// A name is decided by the token that comes next.
pub proof fn lemma_name_local(r: Seq<Lexeme>, r2: Seq<Lexeme>)
    requires
        agree(r, r2, taken(name_parsed(r), r) + 1),
    ensures
        alike(name_parsed(r), r, name_parsed(r2), r2),
{
    lemma_name_sound(r, 1);
    lemma_name_sound(r2, 1);
    lemma_agree_kind(r, r2, 1);
}

/// A parameter is decided by the token that comes next, which it reads.
pub proof fn lemma_param_local(r: Seq<Lexeme>, r2: Seq<Lexeme>)
    requires
        agree(r, r2, 1),
    ensures
        param_parsed(r) is Some == param_parsed(r2) is Some,
        param_parsed(r) is Some ==> alike(
            param_parsed(r).unwrap(),
            r,
            param_parsed(r2).unwrap(),
            r2,
        ) && taken(param_parsed(r).unwrap(), r) == 1,
{
    lemma_agree_kind(r, r2, 1);
    if param_parsed(r) is Some {
        lemma_param_sound(r, 1);
        lemma_param_sound(r2, 1);
    }
}

/// A row of parameters is decided by the tokens that it reads and the one
/// behind them.
pub proof fn lemma_params_local(r: Seq<Lexeme>, r2: Seq<Lexeme>, close: SyntaxKind)
    requires
        agree(r, r2, taken(params_parsed(r, close), r) + 1),
    ensures
        alike(params_parsed(r, close), r, params_parsed(r2, close), r2),
    decreases r.len(),
{
    lemma_params_sound(r, close, 1);
    lemma_params_sound(r2, close, 1);
    lemma_agree_kind(r, r2, 1);
    if !(at_kind(r, SyntaxKind::Eof) || at_kind(r, close)) {
        lemma_param_local(r, r2);
        match param_parsed(r) {
            None => {},
            Some(first) => {
                let first2 = param_parsed(r2).unwrap();
                lemma_param_sound(r, 1);
                lemma_param_sound(r2, 1);
                if at_kind(first.rest, SyntaxKind::Comma) {
                    let more = params_parsed(first.rest.skip(1), close);
                    lemma_params_sound(first.rest.skip(1), close, 1);
                    assert(first.rest.skip(1) =~= r.skip(2));
                    assert(taken(params_parsed(r, close), r) == 2 + taken(more, r.skip(2)));
                    lemma_agree_skip(r, r2, taken(params_parsed(r, close), r) + 1, 1);
                    lemma_agree_kind(r.skip(1), r2.skip(1), 1);
                    assert(first2.rest.skip(1) =~= r2.skip(2));
                    lemma_agree_skip(r, r2, taken(params_parsed(r, close), r) + 1, 2);
                    lemma_params_local(r.skip(2), r2.skip(2), close);
                    lemma_params_sound(r2.skip(2), close, 1);
                    let more2 = params_parsed(r2.skip(2), close);
                    assert(more.rest =~= r.skip(r.len() - more.rest.len()));
                    assert(more2.rest =~= r2.skip(r2.len() - more2.rest.len()));
                } else {
                    lemma_agree_skip(r, r2, 2, 1);
                    lemma_agree_kind(r.skip(1), r2.skip(1), 1);
                }
            },
        }
    }
}

/// A list of parameters is decided by the tokens that it reads and the one
/// behind them.
pub proof fn lemma_list_local(r: Seq<Lexeme>, r2: Seq<Lexeme>, brack: Brackets)
    requires
        r.len() > 0,
        agree(r, r2, taken(list_parsed(r, brack), r) + 1),
    ensures
        alike(list_parsed(r, brack), r, list_parsed(r2, brack), r2),
{
    let close = brack.spec_close();
    lemma_list_sound(r, brack, 1);
    lemma_agree_kind(r, r2, 1);
    lemma_list_sound(r2, brack, 1);
    let inner = params_parsed(r.skip(1), close);
    let inner2 = params_parsed(r2.skip(1), close);
    let end = expect_parsed(inner.rest, close);
    lemma_params_sound(r.skip(1), close, 1);
    lemma_params_sound(r2.skip(1), close, 1);
    lemma_expect_sound(inner.rest, close, 1);
    let n = taken(list_parsed(r, brack), r);
    assert(n == 1 + taken(inner, r.skip(1)) + taken(end, inner.rest));
    lemma_agree_skip(r, r2, n + 1, 1);
    lemma_params_local(r.skip(1), r2.skip(1), close);
    let m = taken(inner, r.skip(1));
    assert(inner.rest =~= r.skip(1 + m));
    assert(inner2.rest =~= r2.skip(1 + m));
    lemma_agree_skip(r, r2, n + 1, 1 + m);
    lemma_expect_local(inner.rest, inner2.rest, close);
    lemma_expect_sound(inner2.rest, close, 1);
}

/// A label is decided by the tokens that it reads and the one behind them.
pub proof fn lemma_label_local(r: Seq<Lexeme>, r2: Seq<Lexeme>)
    requires
        agree(r, r2, taken(label_parsed(r), r) + 1),
    ensures
        alike(label_parsed(r), r, label_parsed(r2), r2),
{
    lemma_label_sound(r, 1);
    lemma_label_sound(r2, 1);
    let name = name_parsed(r);
    let name2 = name_parsed(r2);
    let colon = expect_parsed(name.rest, SyntaxKind::Colon);
    lemma_name_sound(r, 1);
    lemma_name_sound(r2, 1);
    lemma_expect_sound(name.rest, SyntaxKind::Colon, 1);
    let n = taken(label_parsed(r), r);
    assert(n == taken(name, r) + taken(colon, name.rest));
    lemma_name_local(r, r2);
    let m = taken(name, r);
    assert(name.rest =~= r.skip(m));
    assert(name2.rest =~= r2.skip(m));
    lemma_agree_skip(r, r2, n + 1, m);
    lemma_expect_local(name.rest, name2.rest, SyntaxKind::Colon);
}

/// What stands inside a shape is decided by the tokens that it reads and the
/// one behind them.
pub proof fn lemma_shape_local(r: Seq<Lexeme>, r2: Seq<Lexeme>)
    requires
        r.len() > 0,
        agree(r, r2, taken(shape_parsed(r), r) + 1),
    ensures
        alike(shape_parsed(r), r, shape_parsed(r2), r2),
{
    lemma_shape_sound(r, 1);
    lemma_agree_kind(r, r2, 1);
    lemma_shape_sound(r2, 1);
    let n = taken(shape_parsed(r), r);
    let label = label_parsed(r.skip(1));
    let label2 = label_parsed(r2.skip(1));
    let name = name_parsed(label.rest);
    let name2 = name_parsed(label2.rest);
    lemma_label_sound(r.skip(1), 1);
    lemma_label_sound(r2.skip(1), 1);
    lemma_name_sound(label.rest, 1);
    lemma_name_sound(label2.rest, 1);
    if at_kind(name.rest, SyntaxKind::OpenRound) {
        lemma_list_sound(name.rest, Brackets::Round, 1);
    }
    let a = taken(label, r.skip(1));
    let b = taken(name, label.rest);
    assert(n >= 1 + a + b);
    lemma_agree_skip(r, r2, n + 1, 1);
    lemma_label_local(r.skip(1), r2.skip(1));
    assert(label.rest =~= r.skip(1 + a));
    assert(label2.rest =~= r2.skip(1 + a));
    lemma_agree_skip(r, r2, n + 1, 1 + a);
    lemma_name_local(label.rest, label2.rest);
    assert(name.rest =~= r.skip(1 + a + b));
    assert(name2.rest =~= r2.skip(1 + a + b));
    lemma_agree_skip(r, r2, n + 1, 1 + a + b);
    lemma_agree_kind(name.rest, name2.rest, 1);
    if at_kind(name.rest, SyntaxKind::OpenRound) {
        lemma_list_local(name.rest, name2.rest, Brackets::Round);
        lemma_list_sound(name2.rest, Brackets::Round, 1);
    }
}

/// A statement without an error is decided by the tokens that it reads: over
/// other tokens that begin with the same, it is parsed the same.
pub proof fn lemma_stmt_contained(r: Seq<Lexeme>, r2: Seq<Lexeme>)
    requires
        r.len() > 0,
        errors_in(stmt_parsed(r).events).len() == 0,
        agree(r, r2, taken(stmt_parsed(r), r)),
    ensures
        alike(stmt_parsed(r), r, stmt_parsed(r2), r2),
        taken(stmt_parsed(r), r) >= 1,
{
    lemma_stmt_sound(r, 1);
    let n = taken(stmt_parsed(r), r);
    lemma_agree_kind(r, r2, n);
    lemma_stmt_sound(r2, 1);
    if at_kind(r, SyntaxKind::OpenSquare) || begins_shape(r) {
        let body = if at_kind(r, SyntaxKind::OpenSquare) {
            object_parsed(r)
        } else {
            shape_parsed(r)
        };
        let body2 = if at_kind(r, SyntaxKind::OpenSquare) {
            object_parsed(r2)
        } else {
            shape_parsed(r2)
        };
        let kind = if at_kind(r, SyntaxKind::OpenSquare) {
            SyntaxKind::Object
        } else {
            SyntaxKind::Shape
        };
        let semi = expect_parsed(body.rest, SyntaxKind::SemiColon);
        if at_kind(r, SyntaxKind::OpenSquare) {
            lemma_list_sound(r, Brackets::Square, 2);
        } else {
            lemma_shape_sound(r, 2);
        }
        lemma_expect_sound(body.rest, SyntaxKind::SemiColon, 2);
        crate::grammar::lemma_chain(body, semi, r, 2);
        lemma_node(kind, body.events + semi.events, 1);
        lemma_sum(body.events, semi.events);
        assert(errors_in(semi.events).len() == 0);
        if !at_kind(body.rest, SyntaxKind::SemiColon) {
            lemma_one(Step::Error { msg: crate::parser::expected_message(SyntaxKind::SemiColon) });
            assert(false);
        }
        let m = taken(body, r);
        assert(n == m + 1);
        if at_kind(r, SyntaxKind::OpenSquare) {
            lemma_list_local(r, r2, Brackets::Square);
        } else {
            lemma_shape_local(r, r2);
        }
        assert(body.rest =~= r.skip(m));
        assert(body2.rest =~= r2.skip(m));
        assert(look(r, m) == look(r2, m));
        assert(body2.rest[0] == body.rest[0]);
    } else {
        lemma_error_node(r[0].kind);
        assert(false);
    }
}

/// What a node of kind `Error` holds: one message.
pub proof fn lemma_error_node(kind: SyntaxKind)
    ensures
        errors_in(
            node(
                SyntaxKind::Error,
                seq![Step::Error { msg: statement_message() }, Step::Token { kind }],
            ),
        ) == seq![statement_message()],
{
    let one = seq![Step::Error { msg: statement_message() }];
    let two = seq![Step::Token { kind }];
    let start = seq![Step::Start { kind: SyntaxKind::Error }];
    let finish = seq![Step::Finish];
    lemma_one(Step::Error { msg: statement_message() });
    lemma_one(Step::Token { kind });
    lemma_one(Step::Start { kind: SyntaxKind::Error });
    lemma_one(Step::Finish);
    lemma_sum(one, two);
    assert(one + two =~= seq![Step::Error { msg: statement_message() }, Step::Token { kind }]);
    lemma_sum(start, one + two);
    lemma_sum(start + (one + two), finish);
    assert(errors_in(start) + (errors_in(one) + errors_in(two)) + errors_in(finish) =~= seq![
        statement_message(),
    ]);
}

/// The statements of a text without a syntax error are parsed the same with
/// anything behind them, and what stands behind them is parsed as it is alone.
pub proof fn lemma_stmts_contained(a: Seq<Lexeme>, b: Seq<Lexeme>)
    requires
        errors_in(stmts_parsed(a).events).len() == 0,
        stmts_parsed(a).rest.len() == 0,
    ensures
        stmts_parsed(a + b).events == stmts_parsed(a).events + stmts_parsed(b).events,
        stmts_parsed(a + b).rest == stmts_parsed(b).rest,
    decreases a.len(),
{
    if a.len() == 0 {
        assert(a + b =~= b);
        assert(stmts_parsed(a).events + stmts_parsed(b).events =~= stmts_parsed(b).events);
    } else {
        let first = stmt_parsed(a);
        let all = a + b;
        lemma_stmt_sound(a, 1);
        lemma_stmts_sound(first.rest, 1);
        let more = stmts_parsed(first.rest);
        lemma_sum(first.events, more.events);
        let n = taken(first, a);
        assert forall|i: int| 0 <= i < n implies #[trigger] look(a, i) == look(all, i) by {}
        lemma_stmt_contained(a, all);
        lemma_stmt_sound(all, 1);
        let first2 = stmt_parsed(all);
        assert(first2.rest =~= first.rest + b);
        lemma_stmts_contained(first.rest, b);
        assert(all[0] == a[0]);
        assert((first.events + more.events) + stmts_parsed(b).events =~= first.events + (
        more.events + stmts_parsed(b).events));
    }
}

/// A token that begins no statement, between statements without a syntax
/// error and anything else: the token alone becomes a node of kind `Error`,
/// with one message; the statements before it are parsed as they are without
/// it, and what stands behind it is parsed as it is alone.
pub proof fn lemma_error_contained(a: Seq<Lexeme>, t: Lexeme, b: Seq<Lexeme>)
    requires
        errors_in(stmts_parsed(a).events).len() == 0,
        stmts_parsed(a).rest.len() == 0,
        t.kind != SyntaxKind::Eof,
        !begins_statement(seq![t]),
    ensures
        stmts_parsed(a + seq![t] + b).events == stmts_parsed(a).events + node(
            SyntaxKind::Error,
            seq![Step::Error { msg: statement_message() }, Step::Token { kind: t.kind }],
        ) + stmts_parsed(b).events,
        stmts_parsed(a + b).events == stmts_parsed(a).events + stmts_parsed(b).events,
        errors_in(stmts_parsed(a + seq![t] + b).events) == seq![statement_message()] + errors_in(
            stmts_parsed(a + b).events,
        ),
{
    let rest = seq![t] + b;
    let bad = node(
        SyntaxKind::Error,
        seq![Step::Error { msg: statement_message() }, Step::Token { kind: t.kind }],
    );
    assert(a + seq![t] + b =~= a + rest);
    lemma_stmts_contained(a, rest);
    lemma_stmts_contained(a, b);
    // the token alone
    assert(rest[0] == t);
    assert(rest.skip(1) =~= b);
    assert(seq![t][0] == t);
    assert(!begins_statement(rest));
    assert(stmt_parsed(rest).events == bad);
    assert(stmts_parsed(rest).events == bad + stmts_parsed(b).events);
    assert(stmts_parsed(a).events + (bad + stmts_parsed(b).events) =~= stmts_parsed(a).events + bad
        + stmts_parsed(b).events);
    // the messages
    lemma_error_node(t.kind);
    lemma_sum(bad, stmts_parsed(b).events);
    lemma_sum(stmts_parsed(a).events, bad + stmts_parsed(b).events);
    lemma_sum(stmts_parsed(a).events, stmts_parsed(b).events);
    assert(errors_in(stmts_parsed(a).events) =~= Seq::<Seq<char>>::empty());
    assert(errors_in(stmts_parsed(a + seq![t] + b).events) =~= seq![statement_message()]
        + errors_in(stmts_parsed(b).events));
    assert(errors_in(stmts_parsed(a + b).events) =~= errors_in(stmts_parsed(b).events));
}

} // verus!
