//! The tree builder: from the parser's events and all the tokens of the text,
//! trivia included, to the syntax tree.
//!
//! The parser never saw the trivia. The builder puts each piece of trivia
//! right before the token that follows it, and what is left at the end of the
//! text inside the root. For that the end of a node is held back until the
//! next event comes: the builder is a machine of three states.

use crate::encoding::lemma_piece_all;
use crate::encoding::lemma_piece_join;
use crate::green::builder_children;
use crate::green::builder_finish;
use crate::green::builder_finish_node;
use crate::green::builder_new;
use crate::green::builder_parents;
use crate::green::builder_start_node;
use crate::green::builder_token;
use crate::green::forest_text;
use crate::green::forest_texts;
use crate::green::tree_texts;
use crate::green::green_tree;
use crate::green::tree_text;
use crate::event::Step;
use crate::encoding::texts;
use crate::green::Green;
use crate::kind::SyntaxKind;
use crate::encoding::piece;
use crate::lexer::lemma_shown;
use crate::lexer::lexemes_of;
use crate::lexer::tiled;
use crate::lexer::Lexeme;
use crate::lexer::Span;
use crate::lexer::Trivia;
use crate::lexer::Tokens;
use vstd::prelude::*;
use vstd::utf8::*;

verus! {

/// Where the builder stands between two events.
#[derive(Clone, Copy, PartialEq, Eq, Structural)]
pub enum State {
    /// Nothing has begun yet.
    PendingStart,
    /// Inside a node.
    Normal,
    /// A node has ended, and is not closed yet.
    PendingFinish,
}

/// The texts of the first `n` tokens, one after the other.
pub open spec fn joined(toks: Seq<Lexeme>, n: int) -> Seq<char>
    decreases n,
{
    if n <= 0 {
        Seq::empty()
    } else {
        joined(toks, n - 1) + toks[n - 1].text
    }
}

/// The texts of the first `n` tokens, one by one.
pub open spec fn first_texts(toks: Seq<Lexeme>, n: int) -> Seq<Seq<char>>
    decreases n,
{
    if n <= 0 {
        Seq::empty()
    } else {
        first_texts(toks, n - 1).push(toks[n - 1].text)
    }
}

/// The builder as plain values.
pub struct Machine {
    /// The nodes that are begun and not closed, outermost first: the kind of
    /// each, and where among `children` its own children begin.
    pub parents: Seq<(u16, nat)>,
    /// The tokens and closed nodes so far.
    pub children: Seq<Green>,
    /// How many of the tokens are in the tree.
    pub pos: nat,
    pub state: State,
    /// The messages of the errors so far.
    pub errors: Seq<Seq<char>>,
}

impl Machine {
    /// The builder before the first event.
    pub open spec fn init() -> Machine {
        Machine {
            parents: Seq::empty(),
            children: Seq::empty(),
            pos: 0,
            state: State::PendingStart,
            errors: Seq::empty(),
        }
    }

    /// How many nodes are open, a node that has ended not counted.
    pub open spec fn depth(self) -> int {
        if self.state == State::PendingFinish {
            self.parents.len() - 1
        } else {
            self.parents.len() as int
        }
    }

    /// The innermost node is closed: it takes what came since it began as its
    /// children, and becomes the last child of the node around it.
    pub open spec fn close(self) -> Machine {
        let (kind, first) = self.parents.last();
        Machine {
            parents: self.parents.drop_last(),
            children: self.children.take(first as int).push(
                Green::Node { kind, children: self.children.skip(first as int) },
            ),
            ..self
        }
    }

    /// A node that has ended is closed now.
    pub open spec fn settle(self) -> Machine {
        if self.state == State::PendingFinish {
            Machine { state: State::Normal, ..self.close() }
        } else {
            Machine { state: State::Normal, ..self }
        }
    }

    /// The next token of the text goes into the tree, under the kind `kind`.
    pub open spec fn leaf(self, toks: Seq<Lexeme>, kind: SyntaxKind) -> Machine {
        Machine {
            children: self.children.push(
                Green::Leaf { kind: kind.spec_raw(), text: toks[self.pos as int].text },
            ),
            pos: self.pos + 1,
            ..self
        }
    }

    /// The trivia that comes next goes into the tree.
    pub open spec fn trivia(self, toks: Seq<Lexeme>) -> Machine
        decreases toks.len() - self.pos,
    {
        if self.pos < toks.len() && toks[self.pos as int].kind.is_trivia() {
            self.leaf(toks, toks[self.pos as int].kind).trivia(toks)
        } else {
            self
        }
    }

    /// On `Token`: a node that has ended is closed, the trivia that comes next
    /// goes into the tree, then the token.
    pub open spec fn token(self, toks: Seq<Lexeme>, kind: SyntaxKind) -> Machine {
        self.settle().trivia(toks).leaf(toks, kind)
    }

    /// On `Start`: a node that has ended is closed, then the new node begins.
    pub open spec fn start_node(self, kind: SyntaxKind) -> Machine {
        let m = self.settle();
        Machine { parents: m.parents.push((kind.spec_raw(), m.children.len())), ..m }
    }

    /// On `Finish`: a node that has ended before is closed; the node that ends
    /// now is closed later.
    pub open spec fn finish_node(self) -> Machine {
        if self.state == State::PendingFinish {
            Machine { state: State::PendingFinish, ..self.close() }
        } else {
            Machine { state: State::PendingFinish, ..self }
        }
    }

    /// On `Error`: the message is kept.
    pub open spec fn error(self, msg: Seq<char>) -> Machine {
        Machine { errors: self.errors.push(msg), ..self }
    }

    /// At the end: the trivia that is left goes into the tree, and the node
    /// that has ended, the root, is closed.
    pub open spec fn seal(self, toks: Seq<Lexeme>) -> Machine {
        self.trivia(toks).close()
    }

    /// What one event does to the builder. A `Start` of kind `Tombstone` does
    /// nothing.
    pub open spec fn step(self, toks: Seq<Lexeme>, e: Step) -> Machine {
        match e {
            Step::Start { kind } => if kind == SyntaxKind::Tombstone {
                self
            } else {
                self.start_node(kind)
            },
            Step::Token { kind } => self.token(toks, kind),
            Step::Finish => self.finish_node(),
            Step::Error { msg } => self.error(msg),
        }
    }

    /// What a list of events does to the builder, from first to last.
    pub open spec fn run(self, toks: Seq<Lexeme>, events: Seq<Step>) -> Machine
        decreases events.len(),
    {
        if events.len() == 0 {
            self
        } else {
            self.step(toks, events[0]).run(toks, events.drop_first())
        }
    }

    /// A token or a new node has a node to go into.
    pub open spec fn inside(self) -> bool {
        self.state != State::PendingStart && self.depth() >= 1
    }

    /// `token` has a token to take: after the trivia, the text is not at its end.
    pub open spec fn can_token(self, toks: Seq<Lexeme>) -> bool {
        self.inside() && self.settle().trivia(toks).pos < toks.len()
    }

    /// `start_node` begins the root, or a node inside another.
    pub open spec fn can_start_node(self) -> bool {
        self.state == State::PendingStart || self.inside()
    }

    /// The builder can take the event.
    pub open spec fn can_step(self, toks: Seq<Lexeme>, e: Step) -> bool {
        match e {
            Step::Start { kind } => kind == SyntaxKind::Tombstone || self.can_start_node(),
            Step::Token { kind } => self.can_token(toks),
            Step::Finish => self.inside(),
            Step::Error { msg } => true,
        }
    }

    /// The builder can take the events, one after the other.
    pub open spec fn can_run(self, toks: Seq<Lexeme>, events: Seq<Step>) -> bool
        decreases events.len(),
    {
        events.len() == 0 || (self.can_step(toks, events[0]) && self.step(toks, events[0]).can_run(
            toks,
            events.drop_first(),
        ))
    }

    /// `seal` has the root to close, and nothing else.
    pub open spec fn can_seal(self) -> bool {
        self.state == State::PendingFinish && self.depth() == 0
    }

    /// What the builder holds are the tokens that are in the tree, each once
    /// and in their order; the open nodes lie one inside the other, the
    /// outermost is the root, and the whole text is within the size that a tree
    /// can hold.
    pub open spec fn wf(self, toks: Seq<Lexeme>) -> bool {
        &&& self.pos <= toks.len()
        &&& forest_text(self.children) == joined(toks, self.pos as int)
        &&& forest_texts(self.children) == first_texts(toks, self.pos as int)
        &&& encode_utf8(joined(toks, toks.len() as int)).len() <= u32::MAX
        &&& self.parents.len() > 0 ==> self.parents.last().1 <= self.children.len()
        &&& forall|i: int, j: int|
            0 <= i && j == i + 1 && j < self.parents.len() ==> (#[trigger] self.parents[i]).1 <= (
            #[trigger] self.parents[j]).1
        &&& self.state == State::PendingStart ==> self.parents.len() == 0 && self.children.len()
            == 0
        &&& self.state != State::PendingStart ==> self.parents.len() > 0 && self.parents[0].1 == 0
    }
}

/// The text of a row of trees with one more tree behind it.
pub proof fn lemma_forest_text_push(f: Seq<Green>, t: Green)
    ensures
        forest_text(f.push(t)) == forest_text(f) + tree_text(t),
{
    assert(f.push(t).drop_last() =~= f);
}

/// The text of two rows of trees, one behind the other.
pub proof fn lemma_forest_text_add(a: Seq<Green>, b: Seq<Green>)
    ensures
        forest_text(a + b) == forest_text(a) + forest_text(b),
    decreases b.len(),
{
    if b.len() == 0 {
        assert(a + b =~= a);
        assert(forest_text(a) + forest_text(b) =~= forest_text(a));
    } else {
        lemma_forest_text_add(a, b.drop_last());
        assert((a + b).drop_last() =~= a + b.drop_last());
        assert((a + b).last() == b.last());
        assert(forest_text(a) + (forest_text(b.drop_last()) + tree_text(b.last())) =~= (forest_text(
            a,
        ) + forest_text(b.drop_last())) + tree_text(b.last()));
    }
}

/// The tokens of a row of trees with one more tree behind it.
pub proof fn lemma_forest_texts_push(f: Seq<Green>, t: Green)
    ensures
        forest_texts(f.push(t)) == forest_texts(f) + tree_texts(t),
{
    assert(f.push(t).drop_last() =~= f);
}

/// The tokens of two rows of trees, one behind the other.
pub proof fn lemma_forest_texts_add(a: Seq<Green>, b: Seq<Green>)
    ensures
        forest_texts(a + b) == forest_texts(a) + forest_texts(b),
    decreases b.len(),
{
    if b.len() == 0 {
        assert(a + b =~= a);
        assert(forest_texts(a) + forest_texts(b) =~= forest_texts(a));
    } else {
        lemma_forest_texts_add(a, b.drop_last());
        assert((a + b).drop_last() =~= a + b.drop_last());
        assert((a + b).last() == b.last());
        assert(forest_texts(a) + (forest_texts(b.drop_last()) + tree_texts(b.last()))
            =~= (forest_texts(a) + forest_texts(b.drop_last())) + tree_texts(b.last()));
    }
}

/// Closing a node changes no text, and no token.
pub proof fn lemma_close_text(children: Seq<Green>, kind: u16, first: int)
    requires
        0 <= first <= children.len(),
    ensures
        forest_text(
            children.take(first).push(Green::Node { kind, children: children.skip(first) }),
        ) == forest_text(children),
        forest_texts(
            children.take(first).push(Green::Node { kind, children: children.skip(first) }),
        ) == forest_texts(children),
{
    let node = Green::Node { kind, children: children.skip(first) };
    lemma_forest_text_push(children.take(first), node);
    lemma_forest_text_add(children.take(first), children.skip(first));
    lemma_forest_texts_push(children.take(first), node);
    lemma_forest_texts_add(children.take(first), children.skip(first));
    assert(children.take(first) + children.skip(first) =~= children);
}

/// The bytes of a text are the bytes of its parts.
pub proof fn lemma_encode_add(a: Seq<char>, b: Seq<char>)
    ensures
        encode_utf8(a + b) == encode_utf8(a) + encode_utf8(b),
    decreases a.len(),
{
    if a.len() == 0 {
        assert(a + b =~= b);
        assert(encode_utf8(a) + encode_utf8(b) =~= encode_utf8(b));
    } else {
        lemma_encode_add(a.drop_first(), b);
        assert((a + b).drop_first() =~= a.drop_first() + b);
        assert((a + b)[0] == a[0]);
        assert(encode_scalar(a[0] as u32) + (encode_utf8(a.drop_first()) + encode_utf8(b))
            =~= (encode_scalar(a[0] as u32) + encode_utf8(a.drop_first())) + encode_utf8(b));
    }
}

/// The first tokens of a text have no more bytes than all of them.
pub proof fn lemma_joined_grows(toks: Seq<Lexeme>, i: int, j: int)
    requires
        0 <= i <= j,
    ensures
        encode_utf8(joined(toks, i)).len() <= encode_utf8(joined(toks, j)).len(),
    decreases j - i,
{
    if i < j {
        lemma_joined_grows(toks, i, j - 1);
        lemma_encode_add(joined(toks, j - 1), toks[j - 1].text);
    }
}

impl Machine {
    /// A node can be closed where one is open: the tree stays what it should be.
    pub proof fn lemma_close(self, toks: Seq<Lexeme>)
        requires
            self.wf(toks),
            self.parents.len() >= 2 || (self.parents.len() == 1 && self.state
                == State::PendingFinish),
        ensures
            self.close().parents == self.parents.drop_last(),
            self.close().pos == self.pos,
            self.close().errors == self.errors,
            self.close().state == self.state,
            self.close().children.len() == self.parents.last().1 + 1,
            self.close().children.last() is Node,
            forest_text(self.close().children) == joined(toks, self.pos as int),
            forest_texts(self.close().children) == first_texts(toks, self.pos as int),
            self.parents.len() >= 2 ==> self.close().wf(toks),
            encode_utf8(forest_text(self.children)).len() <= u32::MAX,
    {
        let (kind, first) = self.parents.last();
        lemma_close_text(self.children, kind, first as int);
        lemma_joined_grows(toks, self.pos as int, toks.len() as int);
        if self.parents.len() >= 2 {
            let after = self.close();
            let n = self.parents.len() as int;
            assert(self.parents[n - 2].1 <= self.parents[n - 1].1);
            assert(after.parents.last() == self.parents[n - 2]);
            assert forall|i: int, j: int|
                0 <= i && j == i + 1 && j < after.parents.len() implies (
            #[trigger] after.parents[i]).1 <= (#[trigger] after.parents[j]).1 by {
                assert(after.parents[i] == self.parents[i]);
                assert(after.parents[j] == self.parents[j]);
            }
            assert(after.parents[0] == self.parents[0]);
        }
    }

    /// The next token can go into the tree where there is one and a node is open.
    pub proof fn lemma_leaf(self, toks: Seq<Lexeme>, kind: SyntaxKind)
        requires
            self.wf(toks),
            self.state != State::PendingStart,
            self.pos < toks.len(),
        ensures
            self.leaf(toks, kind).wf(toks),
            self.leaf(toks, kind).depth() == self.depth(),
    {
        let leaf = Green::Leaf { kind: kind.spec_raw(), text: toks[self.pos as int].text };
        lemma_forest_text_push(self.children, leaf);
        lemma_forest_texts_push(self.children, leaf);
        assert(first_texts(toks, self.pos as int) + seq![toks[self.pos as int].text]
            =~= first_texts(toks, self.pos as int).push(toks[self.pos as int].text));
    }

    /// Taking in the trivia keeps the builder in order.
    pub proof fn lemma_trivia(self, toks: Seq<Lexeme>)
        requires
            self.wf(toks),
            self.state != State::PendingStart,
        ensures
            self.trivia(toks).wf(toks),
            self.trivia(toks).parents == self.parents,
            self.trivia(toks).state == self.state,
            self.trivia(toks).errors == self.errors,
            self.pos <= self.trivia(toks).pos <= toks.len(),
            self.trivia(toks).pos < toks.len() ==> !toks[self.trivia(toks).pos as int].kind.is_trivia(),
            forall|k: int| self.pos <= k < self.trivia(toks).pos ==> (#[trigger] toks[k]).kind.is_trivia(),
        decreases toks.len() - self.pos,
    {
        if self.pos < toks.len() && toks[self.pos as int].kind.is_trivia() {
            let next = self.leaf(toks, toks[self.pos as int].kind);
            self.lemma_leaf(toks, toks[self.pos as int].kind);
            next.lemma_trivia(toks);
        }
    }
}

/// The builder of the syntax tree.
pub struct TreeBuilder<'t> {
    tokens: Tokens<'t>,
    inner: rowan::GreenNodeBuilder<'static>,
    errors: Vec<String>,
    state: State,
    pos: usize,
}

impl<'t> View for TreeBuilder<'t> {
    type V = Machine;

    closed spec fn view(&self) -> Machine {
        Machine {
            parents: builder_parents(self.inner),
            children: builder_children(self.inner),
            pos: self.pos as nat,
            state: self.state,
            errors: texts(self.errors@),
        }
    }
}

impl<'t> TreeBuilder<'t> {
    /// All the tokens of the text, as the grammar sees them.
    pub closed spec fn lexemes(&self) -> Seq<Lexeme> {
        self.tokens@
    }

    /// The tokens are those of a text, all of them, and the builder is in order.
    pub closed spec fn well_formed(&self) -> bool {
        &&& self.tokens.well_formed()
        &&& self.tokens.whole()
        &&& self@.wf(self.tokens@)
    }

    /// A builder over all the tokens of a text.
    pub fn new(tokens: Tokens<'t>) -> (tb: TreeBuilder<'t>)
        requires
            tokens.well_formed(),
            tokens.whole(),
        ensures
            tb.well_formed(),
            tb.lexemes() == tokens@,
            tb@ == Machine::init(),
    {
        let tb = TreeBuilder {
            tokens,
            inner: builder_new(),
            errors: Vec::new(),
            state: State::PendingStart,
            pos: 0,
        };
        proof {
            assert(tb@.errors =~= Seq::<Seq<char>>::empty());
            lemma_whole_tokens(tb.tokens);
        }
        tb
    }

    /// The tree, and the messages of the errors, when all events are in.
    pub fn finish(self) -> (r: (rowan::GreenNode, Vec<String>))
        requires
            self.well_formed(),
            self@.can_seal(),
        ensures
            green_tree(r.0) == self@.seal(self.lexemes()).children[0],
            self@.seal(self.lexemes()).children.len() == 1,
            texts(r.1@) == self@.errors,
    {
        let mut this = self;
        this.eat_trivias();
        proof {
            self@.lemma_trivia(self.tokens@);
            this@.lemma_close(this.tokens@);
            assert(this@.close().children =~= seq![this@.close().children[0]]);
        }
        builder_finish_node(&mut this.inner);
        (builder_finish(this.inner), this.errors)
    }

    /// Puts the next token of the text into the tree, under the kind `kind`,
    /// with the trivia before it.
    pub fn token(&mut self, kind: SyntaxKind)
        requires
            old(self).well_formed(),
            old(self)@.can_token(old(self).lexemes()),
        ensures
            final(self).well_formed(),
            final(self).lexemes() == old(self).lexemes(),
            final(self)@ == old(self)@.token(old(self).lexemes(), kind),
    {
        self.close_pending();
        self.state = State::Normal;
        proof {
            self@.lemma_trivia(self.tokens@);
        }
        self.eat_trivias();
        self.do_token(kind);
    }

    /// Begins a node of kind `kind`.
    pub fn start_node(&mut self, kind: SyntaxKind)
        requires
            old(self).well_formed(),
            old(self)@.can_start_node(),
        ensures
            final(self).well_formed(),
            final(self).lexemes() == old(self).lexemes(),
            final(self)@ == old(self)@.start_node(kind),
    {
        self.close_pending();
        self.state = State::Normal;
        builder_start_node(&mut self.inner, kind.raw());
        proof {
            let before = old(self)@.settle();
            let after = self@;
            assert(after.parents.last().1 == after.children.len());
            assert forall|i: int, j: int|
                0 <= i && j == i + 1 && j < after.parents.len() implies (
            #[trigger] after.parents[i]).1 <= (#[trigger] after.parents[j]).1 by {
                if j < before.parents.len() {
                    assert(after.parents[i] == before.parents[i]);
                    assert(after.parents[j] == before.parents[j]);
                } else if i >= 0 && before.parents.len() > 0 {
                    assert(after.parents[i] == before.parents.last());
                }
            }
            if before.parents.len() > 0 {
                assert(after.parents[0] == before.parents[0]);
            }
        }
    }

    /// Ends the node that began last. It is closed when the next event comes,
    /// so that the trivia behind it can still be put where it belongs.
    pub fn finish_node(&mut self)
        requires
            old(self).well_formed(),
            old(self)@.inside(),
        ensures
            final(self).well_formed(),
            final(self).lexemes() == old(self).lexemes(),
            final(self)@ == old(self)@.finish_node(),
    {
        match self.state {
            State::PendingFinish => {
                proof {
                    self@.lemma_close(self.tokens@);
                }
                builder_finish_node(&mut self.inner);
            },
            _ => {},
        }
        self.state = State::PendingFinish;
    }

    /// Keeps the message of an error.
    pub fn error(&mut self, error: String)
        requires
            old(self).well_formed(),
        ensures
            final(self).well_formed(),
            final(self).lexemes() == old(self).lexemes(),
            final(self)@ == old(self)@.error(error@),
    {
        proof {
            assert(texts(self.errors@.push(error)) =~= texts(self.errors@).push(error@));
        }
        self.errors.push(error);
    }

    /// Puts the trivia that comes next into the tree.
    pub fn eat_trivias(&mut self)
        requires
            old(self).well_formed(),
            old(self)@.state != State::PendingStart,
        ensures
            final(self).well_formed(),
            final(self).lexemes() == old(self).lexemes(),
            final(self)@ == old(self)@.trivia(old(self).lexemes()),
    {
        loop
            invariant
                self.well_formed(),
                self.lexemes() == old(self).lexemes(),
                self@.state != State::PendingStart,
                self@.trivia(self.lexemes()) == old(self)@.trivia(old(self).lexemes()),
            ensures
                self@ == old(self)@.trivia(old(self).lexemes()),
            decreases self.lexemes().len() - self@.pos,
        {
            if self.pos >= self.tokens.len() {
                break ;
            }
            let kind = self.tokens.kind(self.pos);
            if !kind.is_trivia() {
                break ;
            }
            self.do_token(kind);
        }
    }

    /// Puts the next token of the text into the tree, under the kind `kind`.
    pub fn do_token(&mut self, kind: SyntaxKind)
        requires
            old(self).well_formed(),
            old(self)@.state != State::PendingStart,
            old(self)@.pos < old(self).lexemes().len(),
        ensures
            final(self).well_formed(),
            final(self).lexemes() == old(self).lexemes(),
            final(self)@ == old(self)@.leaf(old(self).lexemes(), kind),
    {
        proof {
            self@.lemma_leaf(self.tokens@, kind);
        }
        let text = match self.tokens.text(self.pos) {
            Some(text) => text,
            None => unreached(),
        };
        self.pos += 1;
        builder_token(&mut self.inner, kind.raw(), text);
    }

    /// Closes a node that has ended.
    fn close_pending(&mut self)
        requires
            old(self).well_formed(),
            old(self)@.can_start_node(),
        ensures
            final(self).tokens == old(self).tokens,
            final(self).pos == old(self).pos,
            final(self).state == old(self).state,
            final(self).errors == old(self).errors,
            builder_parents(final(self).inner) == old(self)@.settle().parents,
            builder_children(final(self).inner) == old(self)@.settle().children,
            old(self)@.state != State::PendingStart ==> old(self)@.settle().wf(old(self).lexemes()),
    {
        match self.state {
            State::PendingFinish => {
                proof {
                    self@.lemma_close(self.tokens@);
                }
                builder_finish_node(&mut self.inner);
            },
            _ => {},
        }
    }
}

/// The texts of the first tokens of a text are the text up to where they end.
pub proof fn lemma_joined_pieces(text: Seq<char>, spans: Seq<Span>, n: int)
    requires
        tiled(spans, encode_utf8(text)),
        0 <= n <= spans.len(),
    ensures
        lexemes_of(encode_utf8(text), spans, Trivia::Keep).len() == spans.len(),
        n == 0 ==> joined(lexemes_of(encode_utf8(text), spans, Trivia::Keep), n)
            == Seq::<char>::empty(),
        n > 0 ==> joined(lexemes_of(encode_utf8(text), spans, Trivia::Keep), n) == piece(
            encode_utf8(text),
            0,
            spans[n - 1].end,
        ),
    decreases n,
{
    let s = encode_utf8(text);
    let all = lexemes_of(s, spans, Trivia::Keep);
    encode_utf8_valid_utf8(text);
    lemma_shown(spans, Trivia::Keep, spans.len() as int);
    if n > 0 {
        lemma_joined_pieces(text, spans, n - 1);
        let span = spans[n - 1];
        assert(all[n - 1].text == piece(s, span.start, span.end));
        if n == 1 {
            is_char_boundary_start_end_of_seq(s);
            assert(span.start == 0);
            assert(s.subrange(0, 0) =~= Seq::<u8>::empty());
            assert(piece(s, 0, 0) =~= Seq::<char>::empty());
        } else {
            assert(spans[n - 2].end == span.start);
        }
        lemma_piece_join(s, span.start, span.end);
    }
}

/// The texts of all the tokens of a text are the text: nothing is lost in
/// lexing.
pub proof fn lemma_joined_all(text: Seq<char>, spans: Seq<Span>)
    requires
        tiled(spans, encode_utf8(text)),
    ensures
        joined(
            lexemes_of(encode_utf8(text), spans, Trivia::Keep),
            lexemes_of(encode_utf8(text), spans, Trivia::Keep).len() as int,
        ) == text,
{
    let n = spans.len() as int;
    lemma_joined_pieces(text, spans, n);
    lemma_piece_all(text);
    if n == 0 {
        let s = encode_utf8(text);
        assert(s.subrange(0, 0) =~= s);
    }
}

/// A view that shows all the tokens shows them as they are.
pub proof fn lemma_whole_tokens(tokens: Tokens<'_>)
    requires
        tokens.well_formed(),
        tokens.whole(),
    ensures
        tokens@ == lexemes_of(encode_utf8(tokens.source_text()), tokens.spans(), Trivia::Keep),
        joined(tokens@, tokens@.len() as int) == tokens.source_text(),
{
    lemma_shown(tokens.spans(), Trivia::Keep, tokens.spans().len() as int);
    assert(tokens@ =~= lexemes_of(
        encode_utf8(tokens.source_text()),
        tokens.spans(),
        Trivia::Keep,
    ));
    lemma_joined_all(tokens.source_text(), tokens.spans());
}

} // verus!
