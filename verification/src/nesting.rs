//! When a list of events builds a tree: the nodes must lie one inside the
//! other, every token and node must stand inside a node, and the text must
//! have a token for every `Token`. This file says so over plain values, and
//! proves that the builder then never stops half way.

use crate::builder::first_texts;
use crate::builder::joined;
use crate::builder::lemma_forest_texts_push;
use crate::builder::lemma_forest_text_push;
use crate::builder::Machine;
use crate::builder::State;
use crate::event::Step;
use crate::green::forest_text;
use crate::green::forest_texts;
use crate::green::tree_texts;
use crate::green::tree_text;
use crate::green::Green;
use crate::kind::SyntaxKind;
use crate::lexer::Lexeme;
use vstd::prelude::*;

verus! {

/// By how much an event changes the number of open nodes.
pub open spec fn rise(e: Step) -> int {
    match e {
        Step::Start { kind } => if kind == SyntaxKind::Tombstone {
            0
        } else {
            1
        },
        Step::Finish => -1,
        _ => 0,
    }
}

/// By how much a list of events changes the number of open nodes.
pub open spec fn net(e: Seq<Step>) -> int
    decreases e.len(),
{
    if e.len() == 0 {
        0
    } else {
        rise(e[0]) + net(e.drop_first())
    }
}

/// How many tokens a list of events takes.
pub open spec fn tokens_in(e: Seq<Step>) -> int
    decreases e.len(),
{
    if e.len() == 0 {
        0
    } else {
        (if e[0] is Token {
            1int
        } else {
            0int
        }) + tokens_in(e.drop_first())
    }
}

/// The messages of the errors in a list of events, in order.
pub open spec fn errors_in(e: Seq<Step>) -> Seq<Seq<char>>
    decreases e.len(),
{
    if e.len() == 0 {
        Seq::empty()
    } else {
        (match e[0] {
            Step::Error { msg } => seq![msg],
            _ => Seq::empty(),
        }) + errors_in(e.drop_first())
    }
}

/// With `d` nodes open, every token, every new node and every end of a node
/// in the events stands inside a node.
pub open spec fn runs(e: Seq<Step>, d: int) -> bool
    decreases e.len(),
{
    e.len() == 0 || ({
        &&& e[0] is Error || (e[0] matches Step::Start { kind } && kind == SyntaxKind::Tombstone)
            || d >= 1
        &&& runs(e.drop_first(), d + rise(e[0]))
    })
}

/// How many of the first `n` tokens are no trivia.
pub open spec fn seen(toks: Seq<Lexeme>, n: int) -> int
    decreases n,
{
    if n <= 0 {
        0
    } else {
        seen(toks, n - 1) + (if toks[n - 1].kind.is_trivia() {
            0int
        } else {
            1int
        })
    }
}

/// What two lists of events hold, one behind the other.
pub proof fn lemma_sum(a: Seq<Step>, b: Seq<Step>)
    ensures
        net(a + b) == net(a) + net(b),
        tokens_in(a + b) == tokens_in(a) + tokens_in(b),
        errors_in(a + b) == errors_in(a) + errors_in(b),
        tokens_in(a) >= 0,
    decreases a.len(),
{
    if a.len() == 0 {
        assert(a + b =~= b);
        assert(errors_in(a) + errors_in(b) =~= errors_in(b));
    } else {
        lemma_sum(a.drop_first(), b);
        assert((a + b).drop_first() =~= a.drop_first() + b);
        assert((a + b)[0] == a[0]);
        let head = match a[0] {
            Step::Error { msg } => seq![msg],
            _ => Seq::<Seq<char>>::empty(),
        };
        assert(head + (errors_in(a.drop_first()) + errors_in(b)) =~= (head + errors_in(
            a.drop_first(),
        )) + errors_in(b));
    }
}

/// Events that run, behind events that run, run.
pub proof fn lemma_runs_add(a: Seq<Step>, b: Seq<Step>, d: int)
    requires
        runs(a, d),
        runs(b, d + net(a)),
    ensures
        runs(a + b, d),
    decreases a.len(),
{
    if a.len() == 0 {
        assert(a + b =~= b);
    } else {
        lemma_runs_add(a.drop_first(), b, d + rise(a[0]));
        assert((a + b).drop_first() =~= a.drop_first() + b);
        assert((a + b)[0] == a[0]);
    }
}

/// What one event holds.
pub proof fn lemma_one(e: Step)
    ensures
        net(seq![e]) == rise(e),
        tokens_in(seq![e]) == (if e is Token {
            1int
        } else {
            0int
        }),
        errors_in(seq![e]) == (match e {
            Step::Error { msg } => seq![msg],
            _ => Seq::<Seq<char>>::empty(),
        }),
        forall|d: int|
            (e is Error || d >= 1) ==> #[trigger] runs(seq![e], d),
{
    let s = seq![e];
    assert(s.drop_first() =~= Seq::<Step>::empty());
    assert(net(s.drop_first()) == 0);
    assert(tokens_in(s.drop_first()) == 0);
    assert(errors_in(s.drop_first()) =~= Seq::<Seq<char>>::empty());
    let head = match e {
        Step::Error { msg } => seq![msg],
        _ => Seq::<Seq<char>>::empty(),
    };
    assert(head + Seq::<Seq<char>>::empty() =~= head);
    assert forall|d: int| (e is Error || d >= 1) implies #[trigger] runs(s, d) by {
        assert(runs(s.drop_first(), d + rise(e)));
    }
}

/// A node around events that run inside it runs, and opens nothing for good.
pub proof fn lemma_node(kind: SyntaxKind, inner: Seq<Step>, d: int)
    requires
        kind != SyntaxKind::Tombstone,
        d >= 1,
        runs(inner, d + 1),
        net(inner) == 0,
    ensures
        runs(crate::grammar::node(kind, inner), d),
        net(crate::grammar::node(kind, inner)) == 0,
        tokens_in(crate::grammar::node(kind, inner)) == tokens_in(inner),
        errors_in(crate::grammar::node(kind, inner)) == errors_in(inner),
{
    let start = seq![Step::Start { kind }];
    let finish = seq![Step::Finish];
    lemma_one(Step::Start { kind });
    lemma_one(Step::Finish);
    lemma_sum(start, inner);
    lemma_sum(start + inner, finish);
    assert(runs(start, d));
    lemma_runs_add(start, inner, d);
    assert(runs(finish, d + 1));
    lemma_runs_add(start + inner, finish, d);
    assert(errors_in(start) + errors_in(inner) + errors_in(finish) =~= errors_in(inner));
}

/// Between two places with only trivia between them, no token is seen.
pub proof fn lemma_seen_trivia(toks: Seq<Lexeme>, a: int, b: int)
    requires
        0 <= a <= b <= toks.len(),
        forall|k: int| a <= k < b ==> (#[trigger] toks[k]).kind.is_trivia(),
    ensures
        seen(toks, b) == seen(toks, a),
    decreases b - a,
{
    if a < b {
        lemma_seen_trivia(toks, a, b - 1);
    }
}

/// The count of tokens seen never falls.
pub proof fn lemma_seen_grows(toks: Seq<Lexeme>, a: int, b: int)
    requires
        0 <= a <= b,
    ensures
        seen(toks, a) <= seen(toks, b),
    decreases b - a,
{
    if a < b {
        lemma_seen_grows(toks, a, b - 1);
    }
}

impl Machine {
    /// Closing a node that has ended, inside another, keeps the builder in order.
    pub proof fn lemma_settle(self, toks: Seq<Lexeme>)
        requires
            self.wf(toks),
            self.inside(),
        ensures
            self.settle().wf(toks),
            self.settle().state == State::Normal,
            self.settle().depth() == self.depth(),
            self.settle().pos == self.pos,
            self.settle().errors == self.errors,
            self.settle().parents[0] == self.parents[0],
    {
        if self.state == State::PendingFinish {
            self.lemma_close(toks);
        }
    }

    /// The trivia is no token that the parser saw; and where the parser saw one
    /// more, the text is not at its end behind the trivia.
    pub proof fn lemma_trivia_seen(self, toks: Seq<Lexeme>)
        requires
            self.wf(toks),
            self.state != State::PendingStart,
        ensures
            seen(toks, self.trivia(toks).pos as int) == seen(toks, self.pos as int),
            seen(toks, toks.len() as int) > seen(toks, self.pos as int) ==> self.trivia(toks).pos
                < toks.len(),
            seen(toks, toks.len() as int) == seen(toks, self.pos as int) ==> self.trivia(toks).pos
                == toks.len(),
    {
        self.lemma_trivia(toks);
        let after = self.trivia(toks).pos as int;
        lemma_seen_trivia(toks, self.pos as int, after);
        if after < toks.len() {
            lemma_seen_grows(toks, after + 1, toks.len() as int);
        }
    }

    /// A new node keeps the builder in order, one node deeper.
    pub proof fn lemma_start_node(self, toks: Seq<Lexeme>, kind: SyntaxKind)
        requires
            self.wf(toks),
            self.can_start_node(),
        ensures
            self.start_node(kind).wf(toks),
            self.start_node(kind).state == State::Normal,
            self.start_node(kind).depth() == self.depth() + 1,
            self.start_node(kind).pos == self.pos,
            self.start_node(kind).errors == self.errors,
            self.state != State::PendingStart ==> self.start_node(kind).parents[0]
                == self.parents[0],
            self.state == State::PendingStart ==> self.start_node(kind).parents[0] == (
                kind.spec_raw(),
                0nat,
            ),
    {
        let before = self.settle();
        let after = self.start_node(kind);
        if self.state != State::PendingStart {
            self.lemma_settle(toks);
        }
        assert(after.parents.last().1 == after.children.len());
        assert forall|i: int, j: int|
            0 <= i && j == i + 1 && j < after.parents.len() implies (#[trigger] after.parents[i]).1
            <= (#[trigger] after.parents[j]).1 by {
            if j < before.parents.len() {
                assert(after.parents[i] == before.parents[i]);
                assert(after.parents[j] == before.parents[j]);
            } else {
                assert(after.parents[i] == before.parents.last());
            }
        }
        if before.parents.len() > 0 {
            assert(after.parents[0] == before.parents[0]);
        }
    }

    /// A token keeps the builder in order, where the text has one.
    pub proof fn lemma_token(self, toks: Seq<Lexeme>, kind: SyntaxKind)
        requires
            self.wf(toks),
            self.inside(),
            seen(toks, toks.len() as int) > seen(toks, self.pos as int),
        ensures
            self.can_token(toks),
            self.token(toks, kind).wf(toks),
            self.token(toks, kind).state == State::Normal,
            self.token(toks, kind).depth() == self.depth(),
            seen(toks, self.token(toks, kind).pos as int) == seen(toks, self.pos as int) + 1,
            self.token(toks, kind).errors == self.errors,
            self.token(toks, kind).parents[0] == self.parents[0],
    {
        self.lemma_settle(toks);
        let settled = self.settle();
        settled.lemma_trivia(toks);
        settled.lemma_trivia_seen(toks);
        let ready = settled.trivia(toks);
        ready.lemma_leaf(toks, kind);
    }

    /// The end of a node keeps the builder in order, one node less deep.
    pub proof fn lemma_finish_node(self, toks: Seq<Lexeme>)
        requires
            self.wf(toks),
            self.inside(),
        ensures
            self.finish_node().wf(toks),
            self.finish_node().state == State::PendingFinish,
            self.finish_node().depth() == self.depth() - 1,
            self.finish_node().pos == self.pos,
            self.finish_node().errors == self.errors,
            self.finish_node().parents[0] == self.parents[0],
    {
        if self.state == State::PendingFinish {
            self.lemma_close(toks);
        }
    }

    /// Events that run, over a text that has a token for each `Token`, are
    /// events that the builder can take; and what the builder holds after them.
    pub proof fn lemma_run(self, toks: Seq<Lexeme>, e: Seq<Step>)
        requires
            self.wf(toks),
            self.state != State::PendingStart,
            runs(e, self.depth()),
            seen(toks, self.pos as int) + tokens_in(e) <= seen(toks, toks.len() as int),
        ensures
            self.can_run(toks, e),
            self.run(toks, e).wf(toks),
            self.run(toks, e).state != State::PendingStart,
            self.run(toks, e).depth() == self.depth() + net(e),
            seen(toks, self.run(toks, e).pos as int) == seen(toks, self.pos as int) + tokens_in(e),
            self.run(toks, e).errors == self.errors + errors_in(e),
            self.run(toks, e).parents[0] == self.parents[0],
        decreases e.len(),
    {
        if e.len() == 0 {
            assert(self.errors + errors_in(e) =~= self.errors);
        } else {
            let rest = e.drop_first();
            lemma_sum(seq![e[0]], rest);
            lemma_sum(rest, Seq::empty());
            assert(seq![e[0]] + rest =~= e);
            lemma_one(e[0]);
            let next = self.step(toks, e[0]);
            match e[0] {
                Step::Start { kind } => {
                    if kind != SyntaxKind::Tombstone {
                        self.lemma_start_node(toks, kind);
                    }
                },
                Step::Token { kind } => {
                    self.lemma_token(toks, kind);
                },
                Step::Finish => {
                    self.lemma_finish_node(toks);
                },
                Step::Error { msg } => {},
            }
            next.lemma_run(toks, rest);
            assert(self.errors + errors_in(e) =~= next.errors + errors_in(rest));
        }
    }

    /// The events of a root node around events that run inside it build a tree:
    /// the builder can take them all and can then be sealed, and what it holds
    /// then is one node.
    pub proof fn lemma_builds(toks: Seq<Lexeme>, kind: SyntaxKind, inner: Seq<Step>)
        requires
            kind != SyntaxKind::Tombstone,
            runs(inner, 1),
            net(inner) == 0,
            tokens_in(inner) <= seen(toks, toks.len() as int),
            vstd::utf8::encode_utf8(joined(toks, toks.len() as int)).len() <= u32::MAX,
        ensures
            Machine::init().wf(toks),
            Machine::init().can_run(toks, crate::grammar::node(kind, inner)),
            built(toks, crate::grammar::node(kind, inner)).wf(toks),
            built(toks, crate::grammar::node(kind, inner)).can_seal(),
            built(toks, crate::grammar::node(kind, inner)).errors == errors_in(inner),
            seen(toks, built(toks, crate::grammar::node(kind, inner)).pos as int) == tokens_in(
                inner,
            ),
            built(toks, crate::grammar::node(kind, inner)).parents[0].0 == kind.spec_raw(),
    {
        let e = crate::grammar::node(kind, inner);
        let first = Machine::init().start_node(kind);
        let rest = inner + seq![Step::Finish];
        assert(e.drop_first() =~= rest);
        assert(e[0] == Step::Start { kind });
        Machine::init().lemma_start_node(toks, kind);
        lemma_one(Step::Finish);
        lemma_sum(inner, seq![Step::Finish]);
        assert(runs(seq![Step::Finish], 1));
        lemma_runs_add(inner, seq![Step::Finish], 1);
        first.lemma_run(toks, rest);
        assert(errors_in(inner) + errors_in(seq![Step::Finish]) =~= errors_in(inner));
        assert(first.errors + errors_in(rest) =~= errors_in(inner));
    }

    /// Sealing a builder that has seen all the tokens gives one node, whose text
    /// is the whole text.
    pub proof fn lemma_seal(self, toks: Seq<Lexeme>)
        requires
            self.wf(toks),
            self.can_seal(),
        ensures
            self.seal(toks).children.len() == 1,
            self.seal(toks).children[0] is Node,
            self.seal(toks).children[0].kind() == self.parents[0].0,
            self.seal(toks).errors == self.errors,
            seen(toks, self.pos as int) == seen(toks, toks.len() as int) ==> tree_text(
                self.seal(toks).children[0],
            ) == joined(toks, toks.len() as int),
            seen(toks, self.pos as int) == seen(toks, toks.len() as int) ==> tree_texts(
                self.seal(toks).children[0],
            ) == first_texts(toks, toks.len() as int),
    {
        self.lemma_trivia(toks);
        self.lemma_trivia_seen(toks);
        let ready = self.trivia(toks);
        ready.lemma_close(toks);
        let node = ready.close().children[0];
        assert(ready.close().children =~= seq![node]);
        lemma_forest_text_push(Seq::empty(), node);
        assert(Seq::<Green>::empty().push(node) =~= seq![node]);
        assert(forest_text(Seq::<Green>::empty()) + tree_text(node) =~= tree_text(node));
        lemma_forest_texts_push(Seq::empty(), node);
        assert(forest_texts(Seq::<Green>::empty()) + tree_texts(node) =~= tree_texts(node));
    }
}

/// The builder after a list of events, from the beginning.
pub open spec fn built(toks: Seq<Lexeme>, events: Seq<Step>) -> Machine {
    Machine::init().run(toks, events)
}

} // verus!
