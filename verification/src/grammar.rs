//! The grammar, twice: as spec functions from the tokens that are left to the
//! events that parsing them gives, and as the functions that drive the parser.
//!
//! ```text
//! root      := stmt*
//! stmt      := (shape | object) ';'
//! shape     := 'let' label ident ('(' paramList? ')')?
//! object    := '[' paramList ']'
//! paramList := param (',' param)*
//! param     := ident | literal
//! label     := ident ':'
//! ```
//!
//! A token that begins no statement is read alone, into a node of kind `Error`.

use crate::event::Step;
use crate::kind::SyntaxKind;
use crate::lexer::Lexeme;
use crate::nesting::lemma_node;
use crate::nesting::lemma_one;
use crate::nesting::lemma_runs_add;
use crate::nesting::lemma_sum;
use crate::nesting::net;
use crate::nesting::runs;
use crate::nesting::tokens_in;
use crate::parser::at_kind;
use crate::parser::expected_message;
use crate::parser::Parser;
use vstd::prelude::*;

verus! {

/// What parsing a piece of the text gives: the events, and the tokens that
/// are left behind it.
pub struct Parsed {
    pub events: Seq<Step>,
    pub rest: Seq<Lexeme>,
}

/// The two pairs of brackets that hold a list of parameters.
#[derive(Clone, Copy)]
pub enum Brackets {
    Round,
    Square,
}

impl Brackets {
    /// The kind of the bracket that opens the list.
    pub open spec fn spec_open(self) -> SyntaxKind {
        match self {
            Brackets::Round => SyntaxKind::OpenRound,
            Brackets::Square => SyntaxKind::OpenSquare,
        }
    }

    /// The kind of the bracket that closes the list.
    pub open spec fn spec_close(self) -> SyntaxKind {
        match self {
            Brackets::Round => SyntaxKind::CloseRound,
            Brackets::Square => SyntaxKind::CloseSquare,
        }
    }

    #[verifier::when_used_as_spec(spec_open)]
    fn open(self) -> (k: SyntaxKind)
        ensures
            k == self.spec_open(),
    {
        match self {
            Brackets::Round => SyntaxKind::OpenRound,
            Brackets::Square => SyntaxKind::OpenSquare,
        }
    }

    #[verifier::when_used_as_spec(spec_close)]
    fn close(self) -> (k: SyntaxKind)
        ensures
            k == self.spec_close(),
    {
        match self {
            Brackets::Round => SyntaxKind::CloseRound,
            Brackets::Square => SyntaxKind::CloseSquare,
        }
    }
}

/// The events of a node of kind `kind` around the events `inner`.
pub open spec fn node(kind: SyntaxKind, inner: Seq<Step>) -> Seq<Step> {
    seq![Step::Start { kind }] + inner + seq![Step::Finish]
}

/// The message for a token that begins no statement.
pub open spec fn statement_message() -> Seq<char> {
    "Expected to find a statement"@
}

/// The message for a name that is missing.
pub open spec fn name_message() -> Seq<char> {
    "Expected to find a name"@
}

/// A token of kind `kind` is read, or its absence recorded.
pub open spec fn expect_parsed(r: Seq<Lexeme>, kind: SyntaxKind) -> Parsed {
    if at_kind(r, kind) {
        Parsed { events: seq![Step::Token { kind }], rest: r.skip(1) }
    } else {
        Parsed { events: seq![Step::Error { msg: expected_message(kind) }], rest: r }
    }
}

/// `ident`, as a node of kind `Name`; without an identifier, an error and
/// nothing read.
pub open spec fn name_parsed(r: Seq<Lexeme>) -> Parsed {
    if at_kind(r, SyntaxKind::Ident) {
        Parsed {
            events: node(SyntaxKind::Name, seq![Step::Token { kind: SyntaxKind::Ident }]),
            rest: r.skip(1),
        }
    } else {
        Parsed { events: seq![Step::Error { msg: name_message() }], rest: r }
    }
}

/// `literal`, as a node of kind `Value`.
pub open spec fn value_parsed(r: Seq<Lexeme>) -> Parsed {
    Parsed {
        events: node(SyntaxKind::Value, seq![Step::Token { kind: SyntaxKind::Literal }]),
        rest: r.skip(1),
    }
}

/// `param := ident | literal`, as a node of kind `Param`; `None` where the
/// next token is neither.
pub open spec fn param_parsed(r: Seq<Lexeme>) -> Option<Parsed> {
    if at_kind(r, SyntaxKind::Ident) {
        Some(
            Parsed { events: node(SyntaxKind::Param, name_parsed(r).events), rest: name_parsed(r).rest },
        )
    } else if at_kind(r, SyntaxKind::Literal) {
        Some(
            Parsed {
                events: node(SyntaxKind::Param, value_parsed(r).events),
                rest: value_parsed(r).rest,
            },
        )
    } else {
        None
    }
}

/// `param (',' param)*`, up to the closing bracket, the end of the text, or
/// the first token that is no parameter. A comma may stand behind the last
/// parameter.
pub open spec fn params_parsed(r: Seq<Lexeme>, close: SyntaxKind) -> Parsed
    decreases r.len(),
{
    if at_kind(r, SyntaxKind::Eof) || at_kind(r, close) {
        Parsed { events: Seq::empty(), rest: r }
    } else {
        match param_parsed(r) {
            None => Parsed { events: Seq::empty(), rest: r },
            Some(first) => {
                if at_kind(first.rest, SyntaxKind::Comma) && first.rest.len() <= r.len() {
                    let more = params_parsed(first.rest.skip(1), close);
                    Parsed {
                        events: first.events + seq![Step::Token { kind: SyntaxKind::Comma }]
                            + more.events,
                        rest: more.rest,
                    }
                } else {
                    first
                }
            },
        }
    }
}

/// A list of parameters in its brackets, as a node of kind `ParamList`. The
/// opening bracket is the next token.
pub open spec fn list_parsed(r: Seq<Lexeme>, brack: Brackets) -> Parsed {
    let inner = params_parsed(r.skip(1), brack.spec_close());
    let close = expect_parsed(inner.rest, brack.spec_close());
    Parsed {
        events: node(
            SyntaxKind::ParamList,
            seq![Step::Token { kind: brack.spec_open() }] + inner.events + close.events,
        ),
        rest: close.rest,
    }
}

/// `label := ident ':'`, as a node of kind `Label`.
pub open spec fn label_parsed(r: Seq<Lexeme>) -> Parsed {
    let name = name_parsed(r);
    let colon = expect_parsed(name.rest, SyntaxKind::Colon);
    Parsed { events: node(SyntaxKind::Label, name.events + colon.events), rest: colon.rest }
}

/// What stands inside a shape: `'let' label ident ('(' paramList? ')')?`. The
/// keyword is the next token.
pub open spec fn shape_parsed(r: Seq<Lexeme>) -> Parsed {
    let label = label_parsed(r.skip(1));
    let name = name_parsed(label.rest);
    let head = seq![Step::Token { kind: SyntaxKind::Let }] + label.events + name.events;
    if at_kind(name.rest, SyntaxKind::OpenRound) {
        let list = list_parsed(name.rest, Brackets::Round);
        Parsed { events: head + list.events, rest: list.rest }
    } else {
        Parsed { events: head, rest: name.rest }
    }
}

/// What stands inside an object: `'[' paramList ']'`.
pub open spec fn object_parsed(r: Seq<Lexeme>) -> Parsed {
    list_parsed(r, Brackets::Square)
}

/// Whether the next token is the keyword `let`.
pub open spec fn begins_shape(r: Seq<Lexeme>) -> bool {
    at_kind(r, SyntaxKind::Ident) && r.len() > 0 && r[0].text == "let"@
}

/// Whether the next token begins a statement.
pub open spec fn begins_statement(r: Seq<Lexeme>) -> bool {
    at_kind(r, SyntaxKind::OpenSquare) || begins_shape(r)
}

/// One statement with its `;`, as a node of kind `Object` or `Shape`; or,
/// where the next token begins no statement, that token alone in a node of
/// kind `Error`. There is a next token.
pub open spec fn stmt_parsed(r: Seq<Lexeme>) -> Parsed {
    if at_kind(r, SyntaxKind::OpenSquare) {
        let body = object_parsed(r);
        let semi = expect_parsed(body.rest, SyntaxKind::SemiColon);
        Parsed { events: node(SyntaxKind::Object, body.events + semi.events), rest: semi.rest }
    } else if begins_shape(r) {
        let body = shape_parsed(r);
        let semi = expect_parsed(body.rest, SyntaxKind::SemiColon);
        Parsed { events: node(SyntaxKind::Shape, body.events + semi.events), rest: semi.rest }
    } else {
        Parsed {
            events: node(
                SyntaxKind::Error,
                seq![Step::Error { msg: statement_message() }, Step::Token { kind: r[0].kind }],
            ),
            rest: r.skip(1),
        }
    }
}

/// `stmt*`, to the end of the tokens.
pub open spec fn stmts_parsed(r: Seq<Lexeme>) -> Parsed
    decreases r.len(),
{
    if at_kind(r, SyntaxKind::Eof) {
        Parsed { events: Seq::empty(), rest: r }
    } else {
        let first = stmt_parsed(r);
        if first.rest.len() < r.len() {
            let more = stmts_parsed(first.rest);
            Parsed { events: first.events + more.events, rest: more.rest }
        } else {
            first
        }
    }
}

/// The whole text, as a node of kind `Root`.
pub open spec fn root_parsed(r: Seq<Lexeme>) -> Parsed {
    Parsed { events: node(SyntaxKind::Root, stmts_parsed(r).events), rest: stmts_parsed(r).rest }
}

/// Parses the whole text.
pub fn root(p: &mut Parser)
    requires
        old(p).well_formed(),
    ensures
        final(p).well_formed(),
        final(p).trace() == old(p).trace() + root_parsed(old(p).rest()).events,
        final(p).rest() == root_parsed(old(p).rest()).rest,
{
    let ghost before = p.trace();
    let ghost all = stmts_parsed(p.rest());
    let ghost mut done: Seq<Step> = Seq::empty();
    let m = p.start();
    let ghost opened = p.trace();
    proof {
        assert(opened + done =~= opened);
        assert(done + all.events =~= all.events);
    }
    while !p.at(SyntaxKind::Eof)
        invariant
            p.well_formed(),
            opened == before.push(Step::Start { kind: SyntaxKind::Tombstone }),
            m.place() == before.len(),
            p.trace() == opened + done,
            done + stmts_parsed(p.rest()).events == all.events,
            stmts_parsed(p.rest()).rest == all.rest,
        decreases p.rest().len(),
    {
        let ghost r = p.rest();
        let ghost here = p.trace();
        let ghost first = stmt_parsed(r);
        let m = p.start();
        if p.at(SyntaxKind::OpenSquare) {
            let kind = object(p);
            p.expect(SyntaxKind::SemiColon);
            m.finish(p, kind);
        } else if p.at(SyntaxKind::Ident) && p.at_str("let") {
            let kind = shape(p);
            p.expect(SyntaxKind::SemiColon);
            m.finish(p, kind);
        } else {
            p.error("Expected to find a statement");
            p.bump_any();
            m.finish(p, SyntaxKind::Error);
        }
        proof {
            lemma_stmt_shrinks(r);
            assert(p.trace() =~= here + first.events);
            assert(p.rest() == first.rest);
            assert(opened + (done + first.events) =~= (opened + done) + first.events);
            assert((done + first.events) + stmts_parsed(first.rest).events =~= done + (first.events
                + stmts_parsed(first.rest).events));
            done = done + first.events;
        }
    }
    m.finish(p, SyntaxKind::Root);
    proof {
        assert(done + Seq::<Step>::empty() =~= done);
        assert(p.trace() =~= before + node(SyntaxKind::Root, all.events));
    }
}

/// Parses what stands inside a shape, and says that it was a shape.
fn shape(p: &mut Parser) -> (kind: SyntaxKind)
    requires
        old(p).well_formed(),
        old(p).rest().len() > 0,
        at_kind(old(p).rest(), SyntaxKind::Ident),
    ensures
        final(p).well_formed(),
        kind == SyntaxKind::Shape,
        final(p).trace() == old(p).trace() + shape_parsed(old(p).rest()).events,
        final(p).rest() == shape_parsed(old(p).rest()).rest,
{
    let ghost before = p.trace();
    let ghost r = p.rest();
    p.bump_remap(SyntaxKind::Let);
    label(p);
    name(p);
    if p.at(SyntaxKind::OpenRound) {
        list(p, Brackets::Round);
    }
    proof {
        assert(p.trace() =~= before + shape_parsed(r).events);
    }
    SyntaxKind::Shape
}

/// Parses what stands inside an object, and says that it was an object.
fn object(p: &mut Parser) -> (kind: SyntaxKind)
    requires
        old(p).well_formed(),
        at_kind(old(p).rest(), SyntaxKind::OpenSquare),
    ensures
        final(p).well_formed(),
        kind == SyntaxKind::Object,
        final(p).trace() == old(p).trace() + object_parsed(old(p).rest()).events,
        final(p).rest() == object_parsed(old(p).rest()).rest,
{
    list(p, Brackets::Square);
    SyntaxKind::Object
}

/// Parses one parameter, if one comes next.
fn param(p: &mut Parser) -> (found: bool)
    requires
        old(p).well_formed(),
    ensures
        final(p).well_formed(),
        found == param_parsed(old(p).rest()).is_some(),
        found ==> final(p).trace() == old(p).trace() + param_parsed(old(p).rest()).unwrap().events
            && final(p).rest() == param_parsed(old(p).rest()).unwrap().rest,
        !found ==> final(p).trace() == old(p).trace() && final(p).rest() == old(p).rest(),
{
    let ghost before = p.trace();
    let ghost r = p.rest();
    match p.current() {
        SyntaxKind::Ident => {
            let m = p.start();
            name(p);
            m.finish(p, SyntaxKind::Param);
            proof {
                assert(p.trace() =~= before + node(SyntaxKind::Param, name_parsed(r).events));
            }
            true
        },
        SyntaxKind::Literal => {
            let m = p.start();
            value(p);
            m.finish(p, SyntaxKind::Param);
            proof {
                assert(p.trace() =~= before + node(SyntaxKind::Param, value_parsed(r).events));
            }
            true
        },
        _ => false,
    }
}

/// Parses a list of parameters in its brackets.
fn list(p: &mut Parser, brack: Brackets)
    requires
        old(p).well_formed(),
        at_kind(old(p).rest(), brack.spec_open()),
    ensures
        final(p).well_formed(),
        final(p).trace() == old(p).trace() + list_parsed(old(p).rest(), brack).events,
        final(p).rest() == list_parsed(old(p).rest(), brack).rest,
{
    let ghost before = p.trace();
    let ghost r = p.rest();
    let open = brack.open();
    let close = brack.close();
    let m = p.start();
    p.bump(open);
    let ghost opened = p.trace();
    let ghost all = params_parsed(p.rest(), close);
    let ghost mut done: Seq<Step> = Seq::empty();
    proof {
        assert(opened + done =~= opened);
        assert(done + all.events =~= all.events);
    }
    while !p.at(SyntaxKind::Eof) && !p.at(close)
        invariant_except_break
            done + params_parsed(p.rest(), close).events == all.events,
            params_parsed(p.rest(), close).rest == all.rest,
        invariant
            p.well_formed(),
            close == brack.spec_close(),
            close != SyntaxKind::Eof,
            opened == before.push(Step::Start { kind: SyntaxKind::Tombstone }).push(
                Step::Token { kind: brack.spec_open() },
            ),
            m.place() == before.len(),
            p.trace() == opened + done,
        ensures
            done == all.events,
            p.rest() == all.rest,
        decreases p.rest().len(),
    {
        let ghost here = p.rest();
        let ghost first = param_parsed(here);
        if !param(p) {
            break ;
        }
        proof {
            assert(opened + (done + first.unwrap().events) =~= (opened + done)
                + first.unwrap().events);
            done = done + first.unwrap().events;
        }
        if !p.eat(SyntaxKind::Comma) {
            break ;
        }
        proof {
            let comma = seq![Step::Token { kind: SyntaxKind::Comma }];
            let more = params_parsed(first.unwrap().rest.skip(1), close);
            assert(opened + (done + comma) =~= (opened + done).push(
                Step::Token { kind: SyntaxKind::Comma },
            ));
            assert((done + comma) + more.events =~= (done.subrange(
                0,
                done.len() - first.unwrap().events.len(),
            )) + (first.unwrap().events + comma + more.events));
            done = done + comma;
        }
    }
    proof {
        assert(done + Seq::<Step>::empty() =~= done);
    }
    p.expect(close);
    m.finish(p, SyntaxKind::ParamList);
    proof {
        assert(p.trace() =~= before + list_parsed(r, brack).events);
    }
}

/// Parses the label of a shape.
fn label(p: &mut Parser)
    requires
        old(p).well_formed(),
    ensures
        final(p).well_formed(),
        final(p).trace() == old(p).trace() + label_parsed(old(p).rest()).events,
        final(p).rest() == label_parsed(old(p).rest()).rest,
{
    let ghost before = p.trace();
    let ghost r = p.rest();
    let m = p.start();
    name(p);
    p.expect(SyntaxKind::Colon);
    m.finish(p, SyntaxKind::Label);
    proof {
        assert(p.trace() =~= before + label_parsed(r).events);
    }
}

/// Parses a name.
fn name(p: &mut Parser)
    requires
        old(p).well_formed(),
    ensures
        final(p).well_formed(),
        final(p).trace() == old(p).trace() + name_parsed(old(p).rest()).events,
        final(p).rest() == name_parsed(old(p).rest()).rest,
{
    let ghost before = p.trace();
    let ghost r = p.rest();
    if p.at(SyntaxKind::Ident) {
        let m = p.start();
        p.bump(SyntaxKind::Ident);
        m.finish(p, SyntaxKind::Name);
    } else {
        p.error("Expected to find a name");
    }
    proof {
        assert(p.trace() =~= before + name_parsed(r).events);
    }
}

/// Parses a number. The literal is the next token.
fn value(p: &mut Parser)
    requires
        old(p).well_formed(),
        old(p).rest().len() > 0,
        at_kind(old(p).rest(), SyntaxKind::Literal),
    ensures
        final(p).well_formed(),
        final(p).trace() == old(p).trace() + value_parsed(old(p).rest()).events,
        final(p).rest() == value_parsed(old(p).rest()).rest,
{
    let ghost before = p.trace();
    let ghost r = p.rest();
    let m = p.start();
    p.bump(SyntaxKind::Literal);
    m.finish(p, SyntaxKind::Value);
    proof {
        assert(p.trace() =~= before + value_parsed(r).events);
    }
}

/// `rest` is an end of `r`.
pub open spec fn is_suffix(rest: Seq<Lexeme>, r: Seq<Lexeme>) -> bool {
    rest.len() <= r.len() && rest == r.skip(r.len() - rest.len())
}

/// A piece of the grammar is sound: with `d` nodes open its events run and
/// leave as many open, it leaves an end of the tokens behind, and it takes one
/// token for each that it reads.
pub open spec fn sound(p: Parsed, r: Seq<Lexeme>, d: int) -> bool {
    &&& runs(p.events, d)
    &&& net(p.events) == 0
    &&& is_suffix(p.rest, r)
    &&& tokens_in(p.events) == r.len() - p.rest.len()
}

/// One piece of the grammar behind another.
pub open spec fn chain(a: Parsed, b: Parsed) -> Parsed {
    Parsed { events: a.events + b.events, rest: b.rest }
}

/// A piece of the grammar that reads nothing is sound.
pub proof fn lemma_nothing(r: Seq<Lexeme>, d: int)
    ensures
        sound(Parsed { events: Seq::empty(), rest: r }, r, d),
{
    assert(r =~= r.skip(0));
}

/// Reading one token is sound.
pub proof fn lemma_bump(r: Seq<Lexeme>, kind: SyntaxKind, d: int)
    requires
        r.len() > 0,
        d >= 1,
    ensures
        sound(Parsed { events: seq![Step::Token { kind }], rest: r.skip(1) }, r, d),
{
    lemma_one(Step::Token { kind });
}

/// Recording an error is sound.
pub proof fn lemma_note(r: Seq<Lexeme>, msg: Seq<char>, d: int)
    ensures
        sound(Parsed { events: seq![Step::Error { msg }], rest: r }, r, d),
{
    lemma_one(Step::Error { msg });
    assert(r =~= r.skip(0));
}

/// A sound piece behind a sound piece is sound.
pub proof fn lemma_chain(a: Parsed, b: Parsed, r: Seq<Lexeme>, d: int)
    requires
        sound(a, r, d),
        sound(b, a.rest, d),
    ensures
        sound(chain(a, b), r, d),
{
    lemma_sum(a.events, b.events);
    lemma_runs_add(a.events, b.events, d);
    assert(b.rest =~= r.skip(r.len() - b.rest.len()));
}

/// A node around a sound piece is sound.
pub proof fn lemma_wrap(kind: SyntaxKind, a: Parsed, r: Seq<Lexeme>, d: int)
    requires
        kind != SyntaxKind::Tombstone,
        d >= 1,
        sound(a, r, d + 1),
    ensures
        sound(Parsed { events: node(kind, a.events), rest: a.rest }, r, d),
{
    lemma_node(kind, a.events, d);
}

/// An expected token is sound, read or missing.
pub proof fn lemma_expect_sound(r: Seq<Lexeme>, kind: SyntaxKind, d: int)
    requires
        d >= 1,
        r.len() > 0 || kind != SyntaxKind::Eof,
    ensures
        sound(expect_parsed(r, kind), r, d),
{
    if at_kind(r, kind) {
        lemma_bump(r, kind, d);
    } else {
        lemma_note(r, expected_message(kind), d);
    }
}

/// A name is sound, there or missing.
pub proof fn lemma_name_sound(r: Seq<Lexeme>, d: int)
    requires
        d >= 1,
    ensures
        sound(name_parsed(r), r, d),
{
    if at_kind(r, SyntaxKind::Ident) {
        lemma_bump(r, SyntaxKind::Ident, d + 1);
        lemma_wrap(
            SyntaxKind::Name,
            Parsed { events: seq![Step::Token { kind: SyntaxKind::Ident }], rest: r.skip(1) },
            r,
            d,
        );
    } else {
        lemma_note(r, name_message(), d);
    }
}

/// A parameter is sound, and reads one token.
pub proof fn lemma_param_sound(r: Seq<Lexeme>, d: int)
    requires
        d >= 1,
        param_parsed(r) is Some,
    ensures
        sound(param_parsed(r).unwrap(), r, d),
        param_parsed(r).unwrap().rest == r.skip(1),
        r.len() > 0,
{
    if at_kind(r, SyntaxKind::Ident) {
        lemma_name_sound(r, d + 1);
        lemma_wrap(SyntaxKind::Param, name_parsed(r), r, d);
    } else {
        lemma_bump(r, SyntaxKind::Literal, d + 2);
        lemma_wrap(
            SyntaxKind::Value,
            Parsed { events: seq![Step::Token { kind: SyntaxKind::Literal }], rest: r.skip(1) },
            r,
            d + 1,
        );
        lemma_wrap(SyntaxKind::Param, value_parsed(r), r, d);
    }
}

/// A row of parameters is sound.
pub proof fn lemma_params_sound(r: Seq<Lexeme>, close: SyntaxKind, d: int)
    requires
        d >= 1,
    ensures
        sound(params_parsed(r, close), r, d),
    decreases r.len(),
{
    if at_kind(r, SyntaxKind::Eof) || at_kind(r, close) {
        lemma_nothing(r, d);
    } else {
        match param_parsed(r) {
            None => {
                lemma_nothing(r, d);
            },
            Some(first) => {
                lemma_param_sound(r, d);
                if at_kind(first.rest, SyntaxKind::Comma) {
                    let comma = Parsed {
                        events: seq![Step::Token { kind: SyntaxKind::Comma }],
                        rest: first.rest.skip(1),
                    };
                    let more = params_parsed(first.rest.skip(1), close);
                    lemma_bump(first.rest, SyntaxKind::Comma, d);
                    lemma_params_sound(first.rest.skip(1), close, d);
                    lemma_chain(first, comma, r, d);
                    lemma_chain(chain(first, comma), more, r, d);
                }
            },
        }
    }
}

/// A list of parameters is sound, and reads at least its opening bracket.
pub proof fn lemma_list_sound(r: Seq<Lexeme>, brack: Brackets, d: int)
    requires
        d >= 1,
        r.len() > 0,
    ensures
        sound(list_parsed(r, brack), r, d),
        list_parsed(r, brack).rest.len() < r.len(),
{
    let open = Parsed { events: seq![Step::Token { kind: brack.spec_open() }], rest: r.skip(1) };
    let inner = params_parsed(r.skip(1), brack.spec_close());
    let close = expect_parsed(inner.rest, brack.spec_close());
    lemma_bump(r, brack.spec_open(), d + 1);
    lemma_params_sound(r.skip(1), brack.spec_close(), d + 1);
    lemma_expect_sound(inner.rest, brack.spec_close(), d + 1);
    lemma_chain(open, inner, r, d + 1);
    lemma_chain(chain(open, inner), close, r, d + 1);
    lemma_wrap(SyntaxKind::ParamList, chain(chain(open, inner), close), r, d);
}

/// A label is sound.
pub proof fn lemma_label_sound(r: Seq<Lexeme>, d: int)
    requires
        d >= 1,
    ensures
        sound(label_parsed(r), r, d),
{
    let name = name_parsed(r);
    let colon = expect_parsed(name.rest, SyntaxKind::Colon);
    lemma_name_sound(r, d + 1);
    lemma_expect_sound(name.rest, SyntaxKind::Colon, d + 1);
    lemma_chain(name, colon, r, d + 1);
    lemma_wrap(SyntaxKind::Label, chain(name, colon), r, d);
}

/// What stands inside a shape is sound, and reads at least the keyword.
pub proof fn lemma_shape_sound(r: Seq<Lexeme>, d: int)
    requires
        d >= 1,
        r.len() > 0,
    ensures
        sound(shape_parsed(r), r, d),
        shape_parsed(r).rest.len() < r.len(),
{
    let word = Parsed { events: seq![Step::Token { kind: SyntaxKind::Let }], rest: r.skip(1) };
    let label = label_parsed(r.skip(1));
    let name = name_parsed(label.rest);
    lemma_bump(r, SyntaxKind::Let, d);
    lemma_label_sound(r.skip(1), d);
    lemma_name_sound(label.rest, d);
    lemma_chain(word, label, r, d);
    lemma_chain(chain(word, label), name, r, d);
    if at_kind(name.rest, SyntaxKind::OpenRound) {
        let list = list_parsed(name.rest, Brackets::Round);
        lemma_list_sound(name.rest, Brackets::Round, d);
        lemma_chain(chain(chain(word, label), name), list, r, d);
    }
}

/// A statement is sound, and reads at least one token.
pub proof fn lemma_stmt_sound(r: Seq<Lexeme>, d: int)
    requires
        d >= 1,
        r.len() > 0,
    ensures
        sound(stmt_parsed(r), r, d),
        stmt_parsed(r).rest.len() < r.len(),
{
    if at_kind(r, SyntaxKind::OpenSquare) {
        let body = object_parsed(r);
        let semi = expect_parsed(body.rest, SyntaxKind::SemiColon);
        lemma_list_sound(r, Brackets::Square, d + 1);
        lemma_expect_sound(body.rest, SyntaxKind::SemiColon, d + 1);
        lemma_chain(body, semi, r, d + 1);
        lemma_wrap(SyntaxKind::Object, chain(body, semi), r, d);
    } else if begins_shape(r) {
        let body = shape_parsed(r);
        let semi = expect_parsed(body.rest, SyntaxKind::SemiColon);
        lemma_shape_sound(r, d + 1);
        lemma_expect_sound(body.rest, SyntaxKind::SemiColon, d + 1);
        lemma_chain(body, semi, r, d + 1);
        lemma_wrap(SyntaxKind::Shape, chain(body, semi), r, d);
    } else {
        let note = Parsed { events: seq![Step::Error { msg: statement_message() }], rest: r };
        let token = Parsed { events: seq![Step::Token { kind: r[0].kind }], rest: r.skip(1) };
        lemma_note(r, statement_message(), d + 1);
        lemma_bump(r, r[0].kind, d + 1);
        lemma_chain(note, token, r, d + 1);
        assert(chain(note, token).events =~= seq![
            Step::Error { msg: statement_message() },
            Step::Token { kind: r[0].kind },
        ]);
        lemma_wrap(SyntaxKind::Error, chain(note, token), r, d);
    }
}

/// A statement reads at least one token.
pub proof fn lemma_stmt_shrinks(r: Seq<Lexeme>)
    requires
        r.len() > 0,
    ensures
        stmt_parsed(r).rest.len() < r.len(),
{
    lemma_stmt_sound(r, 1);
}

/// The statements of a text are sound; and where no token is of kind `Eof`,
/// they leave no token behind.
pub proof fn lemma_stmts_sound(r: Seq<Lexeme>, d: int)
    requires
        d >= 1,
    ensures
        sound(stmts_parsed(r), r, d),
        (forall|k: int| 0 <= k < r.len() ==> (#[trigger] r[k]).kind != SyntaxKind::Eof)
            ==> stmts_parsed(r).rest.len() == 0,
    decreases r.len(),
{
    if at_kind(r, SyntaxKind::Eof) {
        lemma_nothing(r, d);
        if r.len() > 0 {
            assert(r[0].kind == SyntaxKind::Eof);
        }
    } else {
        let first = stmt_parsed(r);
        lemma_stmt_sound(r, d);
        lemma_stmts_sound(first.rest, d);
        lemma_chain(first, stmts_parsed(first.rest), r, d);
        if forall|k: int| 0 <= k < r.len() ==> (#[trigger] r[k]).kind != SyntaxKind::Eof {
            assert forall|k: int| 0 <= k < first.rest.len() implies (
            #[trigger] first.rest[k]).kind != SyntaxKind::Eof by {
                assert(first.rest[k] == r[k + (r.len() - first.rest.len())]);
            }
        }
    }
}

} // verus!
