//! The shape of the trees that parsing gives. Whatever the text, a parameter
//! in its tree holds a name or a number, a name holds an identifier, a number
//! holds a literal, and a shape holds a label: the typed view finds what it
//! looks for.

use crate::ast::first_accepted;
use crate::ast::first_token_text;
use crate::ast::kind_of;
use crate::ast::name_text;
use crate::ast::param_kind;
use crate::ast::value_text;
use crate::ast::AstNode;
use crate::ast::Label;
use crate::builder::Machine;
use crate::builder::State;
use crate::event::Step;
use crate::grammar::begins_shape;
use crate::grammar::chain;
use crate::grammar::expect_parsed;
use crate::grammar::label_parsed;
use crate::grammar::list_parsed;
use crate::grammar::name_message;
use crate::grammar::name_parsed;
use crate::grammar::node;
use crate::grammar::object_parsed;
use crate::grammar::param_parsed;
use crate::grammar::params_parsed;
use crate::grammar::root_parsed;
use crate::grammar::shape_parsed;
use crate::grammar::statement_message;
use crate::grammar::stmt_parsed;
use crate::grammar::stmts_parsed;
use crate::grammar::value_parsed;
use crate::grammar::Brackets;
use crate::grammar::Parsed;
use crate::green::nodes_among;
use crate::green::preorder;
use crate::green::preorder_all;
use crate::green::Green;
use crate::kind::SyntaxKind;
use crate::lexer::Lexeme;
use crate::parse::syntax_of;
use crate::parser::at_kind;
use crate::parser::expected_message;
use vstd::prelude::*;

verus! {

/// A node holds what the typed view looks for in a node of its kind.
pub open spec fn node_ok(t: Green) -> bool {
    &&& kind_of(t) == SyntaxKind::Param ==> param_kind(t) is Some
    &&& kind_of(t) == SyntaxKind::Name ==> name_text(t) is Some
    &&& kind_of(t) == SyntaxKind::Value ==> value_text(t) is Some
    &&& kind_of(t) == SyntaxKind::Shape ==> first_accepted::<Label>(t.nodes()) is Some
}

/// Every node of the tree holds what the typed view looks for in it.
pub open spec fn shaped(t: Green) -> bool
    decreases t,
{
    match t {
        Green::Leaf { .. } => true,
        Green::Node { children, .. } => node_ok(t) && forall|i: int|
            0 <= i < children.len() ==> shaped(#[trigger] children[i]),
    }
}

/// Every tree of the row is shaped.
pub open spec fn all_shaped(f: Seq<Green>) -> bool {
    forall|i: int| 0 <= i < f.len() ==> shaped(#[trigger] f[i])
}

/// The row holds tokens only.
pub open spec fn flat(f: Seq<Green>) -> bool {
    forall|i: int| 0 <= i < f.len() ==> (#[trigger] f[i]) is Leaf
}

/// The row holds trivia only.
pub open spec fn only_trivia(f: Seq<Green>) -> bool {
    forall|i: int| 0 <= i < f.len() ==> (#[trigger] f[i]) is Leaf && kind_of(f[i]).is_trivia()
}

/// The row holds trivia, and behind it one token of kind `kind`.
pub open spec fn trivia_and(f: Seq<Green>, kind: SyntaxKind) -> bool {
    &&& f.len() >= 1
    &&& f.last() is Leaf
    &&& f.last().kind() == kind.spec_raw()
    &&& only_trivia(f.drop_last())
}

/// The row is one shaped node of kind `kind`.
pub open spec fn one_node(f: Seq<Green>, kind: SyntaxKind) -> bool {
    f.len() == 1 && f[0] is Node && kind_of(f[0]) == kind && shaped(f[0])
}

/// What the innermost open node has got since the builder was `m`, the
/// builder being `m2` now.
pub open spec fn grown(m: Machine, m2: Machine) -> Seq<Green> {
    m2.settle().children.skip(m.settle().children.len() as int)
}

/// Since the builder was `m` the innermost open node has got the row `f`,
/// and nothing else has changed in the tree.
pub open spec fn grows(m: Machine, m2: Machine, f: Seq<Green>) -> bool {
    m2.settle().parents == m.settle().parents && m2.settle().children == m.settle().children + f
}

/// What a node has got is what `grown` says.
pub proof fn lemma_grown(m: Machine, m2: Machine, f: Seq<Green>)
    requires
        grows(m, m2, f),
    ensures
        grown(m, m2) == f,
{
    assert(grown(m, m2) =~= f);
}

/// The nodes of two rows, one behind the other.
pub proof fn lemma_nodes_add(a: Seq<Green>, b: Seq<Green>)
    ensures
        nodes_among(a + b) == nodes_among(a) + nodes_among(b),
    decreases b.len(),
{
    if b.len() == 0 {
        assert(a + b =~= a);
        assert(nodes_among(a) + nodes_among(b) =~= nodes_among(a));
    } else {
        lemma_nodes_add(a, b.drop_last());
        assert((a + b).drop_last() =~= a + b.drop_last());
        assert((a + b).last() == b.last());
        if b.last() is Node {
            assert((nodes_among(a) + nodes_among(b.drop_last())).push(b.last()) =~= nodes_among(a)
                + nodes_among(b.drop_last()).push(b.last()));
        }
    }
}

/// A row of tokens has no nodes.
pub proof fn lemma_nodes_flat(f: Seq<Green>)
    requires
        flat(f),
    ensures
        nodes_among(f) == Seq::<Green>::empty(),
    decreases f.len(),
{
    if f.len() > 0 {
        assert(f.last() is Leaf);
        assert forall|i: int| 0 <= i < f.drop_last().len() implies (#[trigger] f.drop_last()[i]) is Leaf by {
            assert(f.drop_last()[i] == f[i]);
        }
        lemma_nodes_flat(f.drop_last());
    }
}

/// One node is its own row of nodes.
pub proof fn lemma_nodes_one(t: Green)
    requires
        t is Node,
    ensures
        nodes_among(seq![t]) == seq![t],
{
    assert(seq![t].drop_last() =~= Seq::<Green>::empty());
    assert(nodes_among(Seq::<Green>::empty()) =~= Seq::<Green>::empty());
    assert(Seq::<Green>::empty().push(t) =~= seq![t]);
}

/// What is first in a row is first in the row with more behind it.
pub proof fn lemma_first_accepted_add<T: AstNode>(a: Seq<Green>, b: Seq<Green>)
    requires
        first_accepted::<T>(a) is Some,
    ensures
        first_accepted::<T>(a + b) is Some,
    decreases a.len(),
{
    assert((a + b)[0] == a[0]);
    if !T::accepts(kind_of(a[0])) {
        lemma_first_accepted_add::<T>(a.drop_first(), b);
        assert((a + b).drop_first() =~= a.drop_first() + b);
    }
}

/// Behind trivia, a token of a kind that is no trivia is the first of its kind.
pub proof fn lemma_first_token(f: Seq<Green>, kind: SyntaxKind)
    requires
        trivia_and(f, kind),
        !kind.is_trivia(),
    ensures
        first_token_text(f, kind) is Some,
    decreases f.len(),
{
    if f.len() > 1 {
        assert(f.drop_last()[0] == f[0]);
        assert(kind_of(f[0]).is_trivia());
        assert(f[0].kind() != kind.spec_raw()) by {
            kind.lemma_raw_round_trip();
        }
        let rest = f.drop_first();
        assert(rest.last() == f.last());
        assert forall|i: int| 0 <= i < rest.drop_last().len() implies (
        #[trigger] rest.drop_last()[i]) is Leaf && kind_of(rest.drop_last()[i]).is_trivia() by {
            assert(rest.drop_last()[i] == f.drop_last()[i + 1]);
        }
        lemma_first_token(rest, kind);
    }
}

/// Trivia and a token are a row of tokens, all of them shaped.
pub proof fn lemma_trivia_and(f: Seq<Green>, kind: SyntaxKind)
    requires
        trivia_and(f, kind),
    ensures
        flat(f),
        all_shaped(f),
{
    assert forall|i: int| 0 <= i < f.len() implies (#[trigger] f[i]) is Leaf by {
        if i < f.len() - 1 {
            assert(f.drop_last()[i] == f[i]);
        }
    }
}

/// Two rows of shaped trees are one.
pub proof fn lemma_all_shaped_add(a: Seq<Green>, b: Seq<Green>)
    requires
        all_shaped(a),
        all_shaped(b),
    ensures
        all_shaped(a + b),
{
    assert forall|i: int| 0 <= i < (a + b).len() implies shaped(#[trigger] (a + b)[i]) by {
        if i < a.len() {
            assert((a + b)[i] == a[i]);
        } else {
            assert((a + b)[i] == b[i - a.len()]);
        }
    }
}

impl Machine {
    /// Events in two parts are taken part by part.
    pub proof fn lemma_run_add(self, toks: Seq<Lexeme>, a: Seq<Step>, b: Seq<Step>)
        ensures
            self.run(toks, a + b) == self.run(toks, a).run(toks, b),
        decreases a.len(),
    {
        if a.len() == 0 {
            assert(a + b =~= b);
        } else {
            assert((a + b)[0] == a[0]);
            assert((a + b).drop_first() =~= a.drop_first() + b);
            self.step(toks, a[0]).lemma_run_add(toks, a.drop_first(), b);
        }
    }

    /// One event is one step.
    pub proof fn lemma_run_one(self, toks: Seq<Lexeme>, e: Step)
        ensures
            self.run(toks, seq![e]) == self.step(toks, e),
    {
        assert(seq![e].drop_first() =~= Seq::<Step>::empty());
        assert(self.step(toks, e).run(toks, Seq::<Step>::empty()) == self.step(toks, e));
    }

    /// Taking in the trivia puts trivia behind what the builder holds.
    pub proof fn lemma_trivia_grown(self, toks: Seq<Lexeme>)
        ensures
            self.trivia(toks).parents == self.parents,
            self.trivia(toks).state == self.state,
            self.trivia(toks).children.len() >= self.children.len(),
            self.trivia(toks).children.take(self.children.len() as int) == self.children,
            only_trivia(self.trivia(toks).children.skip(self.children.len() as int)),
        decreases toks.len() - self.pos,
    {
        let n = self.children.len() as int;
        if self.pos < toks.len() && toks[self.pos as int].kind.is_trivia() {
            let kind = toks[self.pos as int].kind;
            let next = self.leaf(toks, kind);
            next.lemma_trivia_grown(toks);
            let end = self.trivia(toks).children;
            assert(end.take(n) =~= end.take(n + 1).take(n));
            assert(next.children.take(n) =~= self.children);
            kind.lemma_raw_round_trip();
            assert forall|i: int| 0 <= i < end.skip(n).len() implies (#[trigger] end.skip(n)[i]) is Leaf
                && kind_of(end.skip(n)[i]).is_trivia() by {
                if i == 0 {
                    assert(end.skip(n)[0] == end.take(n + 1)[n]);
                    assert(end.take(n + 1)[n] == next.children[n]);
                } else {
                    assert(end.skip(n)[i] == end.skip(n + 1)[i - 1]);
                }
            }
        } else {
            assert(self.children.take(n) =~= self.children);
        }
    }

    /// A token puts the trivia before it, and itself, into the innermost open
    /// node.
    pub proof fn lemma_token_grown(self, toks: Seq<Lexeme>, kind: SyntaxKind)
        ensures
            grows(self, self.token(toks, kind), grown(self, self.token(toks, kind))),
            trivia_and(grown(self, self.token(toks, kind)), kind),
    {
        let before = self.settle();
        let n = before.children.len() as int;
        let ready = before.trivia(toks);
        let after = self.token(toks, kind);
        before.lemma_trivia_grown(toks);
        let f = after.children.skip(n);
        assert(after.settle() == after);
        assert(after.children =~= before.children + f) by {
            assert(ready.children.take(n) == before.children);
            assert(after.children.take(n) =~= ready.children.take(n));
        }
        assert(f.drop_last() =~= ready.children.skip(n));
        assert(f.last() == after.children.last());
    }

    /// A node around events puts itself into the innermost open node, with
    /// what the events put into it.
    pub proof fn lemma_node_grown(
        self,
        toks: Seq<Lexeme>,
        kind: SyntaxKind,
        inner: Seq<Step>,
        f: Seq<Green>,
    )
        requires
            kind != SyntaxKind::Tombstone,
            grows(self.start_node(kind), self.start_node(kind).run(toks, inner), f),
        ensures
            grows(
                self,
                self.run(toks, node(kind, inner)),
                seq![Green::Node { kind: kind.spec_raw(), children: f }],
            ),
    {
        let e = node(kind, inner);
        let m1 = self.start_node(kind);
        let m2 = m1.run(toks, inner);
        let m3 = m2.finish_node();
        assert(e[0] == Step::Start { kind });
        assert(e.drop_first() =~= inner + seq![Step::Finish]);
        m1.lemma_run_add(toks, inner, seq![Step::Finish]);
        m2.lemma_run_one(toks, Step::Finish);
        assert(self.run(toks, e) == m3);
        let base = self.settle().children;
        let n = base.len() as int;
        assert(m1.settle() == m1);
        assert(m3.parents == m2.settle().parents);
        assert(m3.children == m2.settle().children);
        assert(m3.parents.last() == (kind.spec_raw(), n as nat));
        assert(m3.parents.drop_last() =~= self.settle().parents);
        assert((base + f).take(n) =~= base);
        assert((base + f).skip(n) =~= f);
        assert(base.push(Green::Node { kind: kind.spec_raw(), children: f }) =~= base + seq![
            Green::Node { kind: kind.spec_raw(), children: f },
        ]);
    }

    /// An error puts nothing into the tree.
    pub proof fn lemma_error_grown(self, toks: Seq<Lexeme>, msg: Seq<char>)
        ensures
            grows(self, self.run(toks, seq![Step::Error { msg }]), Seq::empty()),
    {
        self.lemma_run_one(toks, Step::Error { msg });
        assert(self.settle().children + Seq::<Green>::empty() =~= self.settle().children);
    }

    /// No event puts nothing into the tree.
    pub proof fn lemma_nothing_grown(self, toks: Seq<Lexeme>)
        ensures
            grows(self, self.run(toks, Seq::empty()), Seq::empty()),
    {
        assert(self.settle().children + Seq::<Green>::empty() =~= self.settle().children);
    }

    /// One token alone.
    pub proof fn lemma_bump_grown(self, toks: Seq<Lexeme>, kind: SyntaxKind)
        ensures
            grows(
                self,
                self.run(toks, seq![Step::Token { kind }]),
                grown(self, self.run(toks, seq![Step::Token { kind }])),
            ),
            trivia_and(grown(self, self.run(toks, seq![Step::Token { kind }])), kind),
    {
        self.lemma_run_one(toks, Step::Token { kind });
        self.lemma_token_grown(toks, kind);
    }

    /// What two parts of the events put into the tree, one behind the other.
    pub proof fn lemma_chain_grown(
        self,
        toks: Seq<Lexeme>,
        a: Seq<Step>,
        b: Seq<Step>,
        fa: Seq<Green>,
        fb: Seq<Green>,
    )
        requires
            grows(self, self.run(toks, a), fa),
            grows(self.run(toks, a), self.run(toks, a).run(toks, b), fb),
        ensures
            grows(self, self.run(toks, a + b), fa + fb),
    {
        self.lemma_run_add(toks, a, b);
        assert((self.settle().children + fa) + fb =~= self.settle().children + (fa + fb));
    }
}

/// What a piece of the grammar puts into the tree, from the builder `m`.
pub open spec fn put(m: Machine, toks: Seq<Lexeme>, p: Parsed) -> Seq<Green> {
    grown(m, m.run(toks, p.events))
}

/// What a piece of the grammar puts into the tree goes into the innermost
/// open node, and nothing else changes in the tree.
pub open spec fn puts(m: Machine, toks: Seq<Lexeme>, p: Parsed) -> bool {
    grows(m, m.run(toks, p.events), put(m, toks, p))
}

/// What two pieces of the grammar put into the tree, one behind the other.
pub proof fn lemma_chain_put(m: Machine, toks: Seq<Lexeme>, a: Parsed, b: Parsed)
    requires
        puts(m, toks, a),
        puts(m.run(toks, a.events), toks, b),
    ensures
        puts(m, toks, chain(a, b)),
        put(m, toks, chain(a, b)) == put(m, toks, a) + put(m.run(toks, a.events), toks, b),
{
    m.lemma_chain_grown(
        toks,
        a.events,
        b.events,
        put(m, toks, a),
        put(m.run(toks, a.events), toks, b),
    );
    lemma_grown(
        m,
        m.run(toks, chain(a, b).events),
        put(m, toks, a) + put(m.run(toks, a.events), toks, b),
    );
}

/// What a node around a piece of the grammar puts into the tree: itself.
pub proof fn lemma_wrap_put(m: Machine, toks: Seq<Lexeme>, kind: SyntaxKind, a: Parsed)
    requires
        kind != SyntaxKind::Tombstone,
        puts(m.start_node(kind), toks, a),
    ensures
        puts(m, toks, Parsed { events: node(kind, a.events), rest: a.rest }),
        put(m, toks, Parsed { events: node(kind, a.events), rest: a.rest }) == seq![
            Green::Node { kind: kind.spec_raw(), children: put(m.start_node(kind), toks, a) },
        ],
{
    let f = put(m.start_node(kind), toks, a);
    m.lemma_node_grown(toks, kind, a.events, f);
    lemma_grown(
        m,
        m.run(toks, node(kind, a.events)),
        seq![Green::Node { kind: kind.spec_raw(), children: f }],
    );
}

/// An expected token puts tokens into the tree, or nothing.
pub proof fn lemma_expect_put(m: Machine, toks: Seq<Lexeme>, r: Seq<Lexeme>, kind: SyntaxKind)
    ensures
        puts(m, toks, expect_parsed(r, kind)),
        flat(put(m, toks, expect_parsed(r, kind))),
        all_shaped(put(m, toks, expect_parsed(r, kind))),
{
    if at_kind(r, kind) {
        m.lemma_bump_grown(toks, kind);
        lemma_trivia_and(put(m, toks, expect_parsed(r, kind)), kind);
    } else {
        m.lemma_error_grown(toks, expected_message(kind));
        lemma_grown(m, m.run(toks, expect_parsed(r, kind).events), Seq::empty());
    }
}

/// A name puts one shaped node into the tree, or nothing where it is missing.
pub proof fn lemma_name_put(m: Machine, toks: Seq<Lexeme>, r: Seq<Lexeme>)
    ensures
        puts(m, toks, name_parsed(r)),
        at_kind(r, SyntaxKind::Ident) ==> one_node(put(m, toks, name_parsed(r)), SyntaxKind::Name),
        !at_kind(r, SyntaxKind::Ident) ==> put(m, toks, name_parsed(r)).len() == 0,
        all_shaped(put(m, toks, name_parsed(r))),
{
    if at_kind(r, SyntaxKind::Ident) {
        let m1 = m.start_node(SyntaxKind::Name);
        let token = Parsed {
            events: seq![Step::Token { kind: SyntaxKind::Ident }],
            rest: r.skip(1),
        };
        m1.lemma_bump_grown(toks, SyntaxKind::Ident);
        let f = put(m1, toks, token);
        lemma_trivia_and(f, SyntaxKind::Ident);
        lemma_first_token(f, SyntaxKind::Ident);
        lemma_wrap_put(m, toks, SyntaxKind::Name, token);
        SyntaxKind::Name.lemma_raw_round_trip();
    } else {
        m.lemma_error_grown(toks, name_message());
        lemma_grown(m, m.run(toks, name_parsed(r).events), Seq::empty());
    }
}

/// A number puts one shaped node into the tree.
pub proof fn lemma_value_put(m: Machine, toks: Seq<Lexeme>, r: Seq<Lexeme>)
    ensures
        puts(m, toks, value_parsed(r)),
        one_node(put(m, toks, value_parsed(r)), SyntaxKind::Value),
{
    let m1 = m.start_node(SyntaxKind::Value);
    let token = Parsed { events: seq![Step::Token { kind: SyntaxKind::Literal }], rest: r.skip(1) };
    m1.lemma_bump_grown(toks, SyntaxKind::Literal);
    let f = put(m1, toks, token);
    lemma_trivia_and(f, SyntaxKind::Literal);
    lemma_first_token(f, SyntaxKind::Literal);
    lemma_wrap_put(m, toks, SyntaxKind::Value, token);
    SyntaxKind::Value.lemma_raw_round_trip();
}

/// A parameter puts one shaped node into the tree.
pub proof fn lemma_param_put(m: Machine, toks: Seq<Lexeme>, r: Seq<Lexeme>)
    requires
        param_parsed(r) is Some,
    ensures
        puts(m, toks, param_parsed(r).unwrap()),
        one_node(put(m, toks, param_parsed(r).unwrap()), SyntaxKind::Param),
{
    let m1 = m.start_node(SyntaxKind::Param);
    SyntaxKind::Param.lemma_raw_round_trip();
    if at_kind(r, SyntaxKind::Ident) {
        lemma_name_put(m1, toks, r);
        lemma_nodes_one(put(m1, toks, name_parsed(r))[0]);
        assert(put(m1, toks, name_parsed(r)) =~= seq![put(m1, toks, name_parsed(r))[0]]);
        lemma_wrap_put(m, toks, SyntaxKind::Param, name_parsed(r));
    } else {
        lemma_value_put(m1, toks, r);
        lemma_nodes_one(put(m1, toks, value_parsed(r))[0]);
        assert(put(m1, toks, value_parsed(r)) =~= seq![put(m1, toks, value_parsed(r))[0]]);
        lemma_wrap_put(m, toks, SyntaxKind::Param, value_parsed(r));
    }
}

/// A row of parameters puts shaped trees into the tree.
pub proof fn lemma_params_put(m: Machine, toks: Seq<Lexeme>, r: Seq<Lexeme>, close: SyntaxKind)
    ensures
        puts(m, toks, params_parsed(r, close)),
        all_shaped(put(m, toks, params_parsed(r, close))),
    decreases r.len(),
{
    if at_kind(r, SyntaxKind::Eof) || at_kind(r, close) {
        m.lemma_nothing_grown(toks);
        lemma_grown(m, m.run(toks, params_parsed(r, close).events), Seq::empty());
    } else {
        match param_parsed(r) {
            None => {
                m.lemma_nothing_grown(toks);
                lemma_grown(m, m.run(toks, params_parsed(r, close).events), Seq::empty());
            },
            Some(first) => {
                lemma_param_put(m, toks, r);
                if at_kind(first.rest, SyntaxKind::Comma) && first.rest.len() <= r.len() {
                    let comma = Parsed {
                        events: seq![Step::Token { kind: SyntaxKind::Comma }],
                        rest: first.rest.skip(1),
                    };
                    let more = params_parsed(first.rest.skip(1), close);
                    let m1 = m.run(toks, first.events);
                    m1.lemma_bump_grown(toks, SyntaxKind::Comma);
                    lemma_trivia_and(put(m1, toks, comma), SyntaxKind::Comma);
                    lemma_chain_put(m, toks, first, comma);
                    let m2 = m.run(toks, chain(first, comma).events);
                    lemma_params_put(m2, toks, first.rest.skip(1), close);
                    lemma_chain_put(m, toks, chain(first, comma), more);
                    lemma_all_shaped_add(put(m, toks, first), put(m1, toks, comma));
                    lemma_all_shaped_add(put(m, toks, chain(first, comma)), put(m2, toks, more));
                }
            },
        }
    }
}

/// A list of parameters puts one shaped node into the tree.
pub proof fn lemma_list_put(m: Machine, toks: Seq<Lexeme>, r: Seq<Lexeme>, brack: Brackets)
    ensures
        puts(m, toks, list_parsed(r, brack)),
        one_node(put(m, toks, list_parsed(r, brack)), SyntaxKind::ParamList),
{
    let m1 = m.start_node(SyntaxKind::ParamList);
    let open = Parsed { events: seq![Step::Token { kind: brack.spec_open() }], rest: r.skip(1) };
    let inner = params_parsed(r.skip(1), brack.spec_close());
    let close = expect_parsed(inner.rest, brack.spec_close());
    m1.lemma_bump_grown(toks, brack.spec_open());
    lemma_trivia_and(put(m1, toks, open), brack.spec_open());
    let m2 = m1.run(toks, open.events);
    lemma_params_put(m2, toks, r.skip(1), brack.spec_close());
    lemma_chain_put(m1, toks, open, inner);
    let m3 = m1.run(toks, chain(open, inner).events);
    lemma_expect_put(m3, toks, inner.rest, brack.spec_close());
    lemma_chain_put(m1, toks, chain(open, inner), close);
    lemma_all_shaped_add(put(m1, toks, open), put(m2, toks, inner));
    lemma_all_shaped_add(put(m1, toks, chain(open, inner)), put(m3, toks, close));
    lemma_wrap_put(m, toks, SyntaxKind::ParamList, chain(chain(open, inner), close));
    SyntaxKind::ParamList.lemma_raw_round_trip();
}

/// A label puts one shaped node into the tree.
pub proof fn lemma_label_put(m: Machine, toks: Seq<Lexeme>, r: Seq<Lexeme>)
    ensures
        puts(m, toks, label_parsed(r)),
        one_node(put(m, toks, label_parsed(r)), SyntaxKind::Label),
{
    let m1 = m.start_node(SyntaxKind::Label);
    let name = name_parsed(r);
    let colon = expect_parsed(name.rest, SyntaxKind::Colon);
    lemma_name_put(m1, toks, r);
    let m2 = m1.run(toks, name.events);
    lemma_expect_put(m2, toks, name.rest, SyntaxKind::Colon);
    lemma_chain_put(m1, toks, name, colon);
    lemma_all_shaped_add(put(m1, toks, name), put(m2, toks, colon));
    lemma_wrap_put(m, toks, SyntaxKind::Label, chain(name, colon));
    SyntaxKind::Label.lemma_raw_round_trip();
}

/// What stands inside a shape is shaped, and holds a label.
pub proof fn lemma_shape_put(m: Machine, toks: Seq<Lexeme>, r: Seq<Lexeme>)
    ensures
        puts(m, toks, shape_parsed(r)),
        all_shaped(put(m, toks, shape_parsed(r))),
        first_accepted::<Label>(nodes_among(put(m, toks, shape_parsed(r)))) is Some,
{
    let word = Parsed { events: seq![Step::Token { kind: SyntaxKind::Let }], rest: r.skip(1) };
    let label = label_parsed(r.skip(1));
    let name = name_parsed(label.rest);
    m.lemma_bump_grown(toks, SyntaxKind::Let);
    let f0 = put(m, toks, word);
    lemma_trivia_and(f0, SyntaxKind::Let);
    let m1 = m.run(toks, word.events);
    lemma_label_put(m1, toks, r.skip(1));
    let f1 = put(m1, toks, label);
    lemma_chain_put(m, toks, word, label);
    let m2 = m.run(toks, chain(word, label).events);
    lemma_name_put(m2, toks, label.rest);
    let f2 = put(m2, toks, name);
    lemma_chain_put(m, toks, chain(word, label), name);
    lemma_all_shaped_add(f0, f1);
    lemma_all_shaped_add(f0 + f1, f2);
    // the label is the first node
    lemma_nodes_flat(f0);
    lemma_nodes_add(f0, f1);
    lemma_nodes_one(f1[0]);
    assert(f1 =~= seq![f1[0]]);
    assert(nodes_among(f0 + f1) =~= seq![f1[0]]);
    assert(first_accepted::<Label>(seq![f1[0]]) is Some);
    lemma_nodes_add(f0 + f1, f2);
    lemma_first_accepted_add::<Label>(nodes_among(f0 + f1), nodes_among(f2));
    if at_kind(name.rest, SyntaxKind::OpenRound) {
        let list = list_parsed(name.rest, Brackets::Round);
        let m3 = m.run(toks, chain(chain(word, label), name).events);
        lemma_list_put(m3, toks, name.rest, Brackets::Round);
        let f3 = put(m3, toks, list);
        lemma_chain_put(m, toks, chain(chain(word, label), name), list);
        lemma_all_shaped_add(f0 + f1 + f2, f3);
        lemma_nodes_add(f0 + f1 + f2, f3);
        lemma_first_accepted_add::<Label>(nodes_among(f0 + f1 + f2), nodes_among(f3));
    }
}

/// A statement puts one shaped node into the tree.
pub proof fn lemma_stmt_put(m: Machine, toks: Seq<Lexeme>, r: Seq<Lexeme>)
    requires
        r.len() > 0,
    ensures
        puts(m, toks, stmt_parsed(r)),
        all_shaped(put(m, toks, stmt_parsed(r))),
{
    if at_kind(r, SyntaxKind::OpenSquare) {
        let m1 = m.start_node(SyntaxKind::Object);
        let body = object_parsed(r);
        let semi = expect_parsed(body.rest, SyntaxKind::SemiColon);
        lemma_list_put(m1, toks, r, Brackets::Square);
        let m2 = m1.run(toks, body.events);
        lemma_expect_put(m2, toks, body.rest, SyntaxKind::SemiColon);
        lemma_chain_put(m1, toks, body, semi);
        lemma_all_shaped_add(put(m1, toks, body), put(m2, toks, semi));
        lemma_wrap_put(m, toks, SyntaxKind::Object, chain(body, semi));
        SyntaxKind::Object.lemma_raw_round_trip();
    } else if begins_shape(r) {
        let m1 = m.start_node(SyntaxKind::Shape);
        let body = shape_parsed(r);
        let semi = expect_parsed(body.rest, SyntaxKind::SemiColon);
        lemma_shape_put(m1, toks, r);
        let m2 = m1.run(toks, body.events);
        lemma_expect_put(m2, toks, body.rest, SyntaxKind::SemiColon);
        lemma_chain_put(m1, toks, body, semi);
        lemma_all_shaped_add(put(m1, toks, body), put(m2, toks, semi));
        lemma_nodes_add(put(m1, toks, body), put(m2, toks, semi));
        lemma_first_accepted_add::<Label>(
            nodes_among(put(m1, toks, body)),
            nodes_among(put(m2, toks, semi)),
        );
        lemma_wrap_put(m, toks, SyntaxKind::Shape, chain(body, semi));
        SyntaxKind::Shape.lemma_raw_round_trip();
    } else {
        let m1 = m.start_node(SyntaxKind::Error);
        let note = Parsed { events: seq![Step::Error { msg: statement_message() }], rest: r };
        let token = Parsed { events: seq![Step::Token { kind: r[0].kind }], rest: r.skip(1) };
        m1.lemma_error_grown(toks, statement_message());
        lemma_grown(m1, m1.run(toks, note.events), Seq::empty());
        let m2 = m1.run(toks, note.events);
        m2.lemma_bump_grown(toks, r[0].kind);
        lemma_trivia_and(put(m2, toks, token), r[0].kind);
        lemma_chain_put(m1, toks, note, token);
        assert(chain(note, token).events =~= seq![
            Step::Error { msg: statement_message() },
            Step::Token { kind: r[0].kind },
        ]);
        lemma_all_shaped_add(put(m1, toks, note), put(m2, toks, token));
        lemma_wrap_put(m, toks, SyntaxKind::Error, chain(note, token));
        SyntaxKind::Error.lemma_raw_round_trip();
    }
}

/// The statements of a text put shaped nodes into the tree.
pub proof fn lemma_stmts_put(m: Machine, toks: Seq<Lexeme>, r: Seq<Lexeme>)
    ensures
        puts(m, toks, stmts_parsed(r)),
        all_shaped(put(m, toks, stmts_parsed(r))),
    decreases r.len(),
{
    if at_kind(r, SyntaxKind::Eof) {
        m.lemma_nothing_grown(toks);
        lemma_grown(m, m.run(toks, stmts_parsed(r).events), Seq::empty());
    } else {
        let first = stmt_parsed(r);
        lemma_stmt_put(m, toks, r);
        if first.rest.len() < r.len() {
            let more = stmts_parsed(first.rest);
            let m1 = m.run(toks, first.events);
            lemma_stmts_put(m1, toks, first.rest);
            lemma_chain_put(m, toks, first, more);
            lemma_all_shaped_add(put(m, toks, first), put(m1, toks, more));
        }
    }
}

/// Every node of a shaped tree is shaped itself.
pub proof fn lemma_shaped_nodes(t: Green)
    requires
        shaped(t),
    ensures
        all_shaped(preorder(t)),
        forall|i: int| 0 <= i < preorder(t).len() ==> (#[trigger] preorder(t)[i]) is Node,
    decreases t,
{
    match t {
        Green::Leaf { .. } => {},
        Green::Node { children, .. } => {
            lemma_shaped_rows(children);
            lemma_all_shaped_add(seq![t], preorder_all(children));
            assert forall|i: int| 0 <= i < preorder(t).len() implies (#[trigger] preorder(
                t,
            )[i]) is Node by {
                if i > 0 {
                    assert(preorder(t)[i] == preorder_all(children)[i - 1]);
                }
            }
        },
    }
}

/// Every node of a row of shaped trees is shaped itself.
pub proof fn lemma_shaped_rows(f: Seq<Green>)
    requires
        all_shaped(f),
    ensures
        all_shaped(preorder_all(f)),
        forall|i: int| 0 <= i < preorder_all(f).len() ==> (#[trigger] preorder_all(f)[i]) is Node,
    decreases f,
{
    if f.len() > 0 {
        assert forall|i: int| 0 <= i < f.drop_last().len() implies shaped(
            #[trigger] f.drop_last()[i],
        ) by {
            assert(f.drop_last()[i] == f[i]);
        }
        lemma_shaped_rows(f.drop_last());
        lemma_shaped_nodes(f.last());
        lemma_all_shaped_add(preorder_all(f.drop_last()), preorder(f.last()));
        let a = preorder_all(f.drop_last());
        let b = preorder(f.last());
        assert forall|i: int| 0 <= i < preorder_all(f).len() implies (#[trigger] preorder_all(
            f,
        )[i]) is Node by {
            if i < a.len() {
                assert(preorder_all(f)[i] == a[i]);
            } else {
                assert(preorder_all(f)[i] == b[i - a.len()]);
            }
        }
    }
}

/// The tree that parsing gives is shaped, whatever the tokens: every node of
/// it holds what the typed view looks for in a node of its kind.
pub proof fn lemma_syntax_shaped(all: Seq<Lexeme>, visible: Seq<Lexeme>)
    ensures
        shaped(syntax_of(all, visible).children[0]),
{
    let init = Machine::init();
    let inner = stmts_parsed(visible);
    let m1 = init.start_node(SyntaxKind::Root);
    lemma_stmts_put(m1, all, visible);
    let f = put(m1, all, inner);
    init.lemma_node_grown(all, SyntaxKind::Root, inner.events, f);
    let m3 = init.run(all, root_parsed(visible).events);
    // the root has ended, and is closed when the builder is sealed
    let e = node(SyntaxKind::Root, inner.events);
    assert(e[0] == Step::Start { kind: SyntaxKind::Root });
    assert(e.drop_first() =~= inner.events + seq![Step::Finish]);
    m1.lemma_run_add(all, inner.events, seq![Step::Finish]);
    m1.run(all, inner.events).lemma_run_one(all, Step::Finish);
    assert(m3.state == State::PendingFinish);
    assert(m3.settle().children == init.settle().children + seq![
        Green::Node { kind: SyntaxKind::Root.spec_raw(), children: f },
    ]);
    m3.lemma_trivia_grown(all);
    let m4 = m3.trivia(all);
    let n = m3.children.len() as int;
    let g = m4.children.skip(n);
    assert(m4.children =~= m3.children + g);
    let (kind, first) = m3.parents.last();
    assert(m3.close().children == m3.children.take(first as int).push(
        Green::Node { kind, children: m3.children.skip(first as int) },
    ));
    assert(m3.close().children =~= seq![
        Green::Node { kind: SyntaxKind::Root.spec_raw(), children: f },
    ]);
    assert(first == 0 && kind == SyntaxKind::Root.spec_raw()) by {
        assert(m3.close().children.len() == first + 1);
    }
    assert(m3.children.skip(0) =~= m3.children);
    assert(m3.children == f) by {
        assert(m3.close().children[0] == Green::Node { kind, children: m3.children.skip(0) });
    }
    let root = syntax_of(all, visible).children[0];
    assert(m4.children.take(0) =~= Seq::<Green>::empty());
    assert(m4.children.skip(0) =~= m4.children);
    assert(root == Green::Node { kind: SyntaxKind::Root.spec_raw(), children: f + g });
    assert forall|i: int| 0 <= i < (f + g).len() implies shaped(#[trigger] (f + g)[i]) by {
        if i < f.len() {
            assert((f + g)[i] == f[i]);
        } else {
            assert((f + g)[i] == g[i - f.len()]);
        }
    }
    SyntaxKind::Root.lemma_raw_round_trip();
}

} // verus!
