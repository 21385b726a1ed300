//! Parsing: from the tokens of a text to its syntax tree and the messages of
//! its syntax errors.

use crate::ast::AstNode;
use crate::ast::Root;
use crate::builder::first_texts;
use crate::builder::joined;
use crate::builder::lemma_whole_tokens;
use crate::builder::Machine;
use crate::builder::TreeBuilder;
use crate::event::process;
use crate::event::Step;
use crate::grammar::lemma_stmts_sound;
use crate::grammar::root;
use crate::grammar::root_parsed;
use crate::grammar::stmts_parsed;
use crate::green::green_clone;
use crate::green::green_tree;
use crate::green::node_tree;
use crate::green::syntax_root;
use crate::green::tree_text;
use crate::green::tree_texts;
use crate::encoding::texts;
use crate::green::Green;
use crate::kind::SyntaxKind;
use crate::lexer::is_lexical;
use crate::lexer::lexed;
use crate::lexer::lexemes_of;
use crate::lexer::lemma_shown;
use crate::lexer::shown;
use crate::lexer::Lexeme;
use crate::lexer::LexedStr;
use crate::lexer::Span;
use crate::lexer::Trivia;
use crate::nesting::built;
use crate::nesting::errors_in;
use crate::nesting::seen;
use crate::parser::Parser;
use crate::shaped::lemma_syntax_shaped;
use crate::shaped::shaped;
use vstd::prelude::*;
use vstd::utf8::*;

verus! {

/// The builder when it has taken the events of the tokens `visible`, over the
/// text of the tokens `all`, and is sealed: it holds the syntax tree, and the
/// messages of the syntax errors.
pub open spec fn syntax_of(all: Seq<Lexeme>, visible: Seq<Lexeme>) -> Machine {
    built(all, root_parsed(visible).events).seal(all)
}

/// The syntax tree of a text, as plain values.
pub open spec fn syntax_tree(text: Seq<char>) -> Green {
    syntax_of(
        lexemes_of(encode_utf8(text), lexed(text), Trivia::Keep),
        lexemes_of(encode_utf8(text), lexed(text), Trivia::Skip),
    ).children[0]
}

/// The messages of the syntax errors of a text, in the order of the text.
pub open spec fn syntax_errors(text: Seq<char>) -> Seq<Seq<char>> {
    errors_in(stmts_parsed(lexemes_of(encode_utf8(text), lexed(text), Trivia::Skip)).events)
}

/// What parsing a text gives: its syntax tree, and the messages of its syntax
/// errors.
#[derive(Debug)]
pub struct Parse {
    node: rowan::GreenNode,
    errors: Vec<String>,
}

/// As many tokens are shown without the trivia as are no trivia.
pub proof fn lemma_shown_seen(spans: Seq<Span>, toks: Seq<Lexeme>, n: int)
    requires
        0 <= n <= spans.len(),
        n <= toks.len(),
        forall|k: int| 0 <= k < n ==> (#[trigger] toks[k]).kind == spans[k].kind,
    ensures
        shown(spans, Trivia::Skip, n).len() == seen(toks, n),
    decreases n,
{
    if n > 0 {
        lemma_shown_seen(spans, toks, n - 1);
        assert(toks[n - 1].kind == spans[n - 1].kind);
    }
}

/// What parsing gives is a tree, for every text: the builder can take all the
/// events of the grammar, and holds one node of kind `Root` in the end. Where
/// every token is of a kind that the lexer gives, the text of the tree is the
/// text of all the tokens.
pub proof fn lemma_syntax_of(all: Seq<Lexeme>, visible: Seq<Lexeme>)
    requires
        visible.len() == seen(all, all.len() as int),
        vstd::utf8::encode_utf8(joined(all, all.len() as int)).len() <= u32::MAX,
    ensures
        Machine::init().can_run(all, root_parsed(visible).events),
        built(all, root_parsed(visible).events).wf(all),
        built(all, root_parsed(visible).events).can_seal(),
        syntax_of(all, visible).children.len() == 1,
        syntax_of(all, visible).children[0] is Node,
        syntax_of(all, visible).children[0].kind() == SyntaxKind::Root.spec_raw(),
        syntax_of(all, visible).errors == errors_in(stmts_parsed(visible).events),
        syntax_of(all, visible).errors == built(all, root_parsed(visible).events).errors,
        (forall|k: int| 0 <= k < visible.len() ==> (#[trigger] visible[k]).kind != SyntaxKind::Eof)
            ==> tree_text(syntax_of(all, visible).children[0]) == joined(all, all.len() as int),
        (forall|k: int| 0 <= k < visible.len() ==> (#[trigger] visible[k]).kind != SyntaxKind::Eof)
            ==> tree_texts(syntax_of(all, visible).children[0]) == first_texts(
            all,
            all.len() as int,
        ),
{
    let inner = stmts_parsed(visible).events;
    lemma_stmts_sound(visible, 1);
    Machine::lemma_builds(all, SyntaxKind::Root, inner);
    built(all, root_parsed(visible).events).lemma_seal(all);
}

impl Parse {
    #[verifier::type_invariant]
    closed spec fn rooted(self) -> bool {
        green_tree(self.node) is Node && green_tree(self.node).kind()
            == SyntaxKind::Root.spec_raw()
    }

    /// The syntax tree, as plain values.
    pub closed spec fn tree(&self) -> Green {
        green_tree(self.node)
    }

    /// The messages of the syntax errors, in the order of the text.
    pub closed spec fn messages(&self) -> Seq<Seq<char>> {
        texts(self.errors@)
    }

    /// The root node of the syntax tree.
    pub fn syntax(&self) -> (n: rowan::cursor::SyntaxNode)
        ensures
            node_tree(n) == self.tree(),
            self.tree() is Node,
            self.tree().kind() == SyntaxKind::Root.spec_raw(),
    {
        proof {
            use_type_invariant(self);
        }
        syntax_root(green_clone(&self.node))
    }

    /// The typed view of the root of the syntax tree.
    pub fn root(&self) -> (r: Root)
        ensures
            r.tree() == self.tree(),
    {
        match Root::cast(self.syntax()) {
            Some(root) => root,
            None => unreached(),
        }
    }

    /// The messages of the syntax errors, in the order of the text.
    pub fn errors(&self) -> (r: &Vec<String>)
        ensures
            texts(r@) == self.messages(),
    {
        &self.errors
    }
}

/// Parses a text that has been split into tokens. Every text has a tree:
/// what cannot be parsed is in it as nodes of kind `Error`, with a message each.
pub fn parse(text: &LexedStr) -> (p: Parse)
    requires
        text.well_formed(),
    ensures
        p.tree() == syntax_of(text.lexemes(Trivia::Keep), text.lexemes(Trivia::Skip)).children[0],
        p.messages() == syntax_of(text.lexemes(Trivia::Keep), text.lexemes(Trivia::Skip)).errors,
        p.messages() == errors_in(stmts_parsed(text.lexemes(Trivia::Skip)).events),
        text.lexical() ==> tree_text(p.tree()) == text.source_text(),
        shaped(p.tree()),
{
    let ghost all = text.lexemes(Trivia::Keep);
    let ghost visible = text.lexemes(Trivia::Skip);
    let mut parser = Parser::new(text.tokens(Trivia::Skip));
    root(&mut parser);
    let events = parser.finish();
    let keep = text.tokens(Trivia::Keep);
    proof {
        lemma_whole_tokens(keep);
        lemma_shown(text.spans(), Trivia::Keep, text.spans().len() as int);
        lemma_shown(text.spans(), Trivia::Skip, text.spans().len() as int);
        lemma_shown_seen(text.spans(), all, text.spans().len() as int);
        lemma_syntax_of(all, visible);
        lemma_syntax_shaped(all, visible);
        assert(Seq::<Step>::empty() + root_parsed(visible).events =~= root_parsed(visible).events);
        if text.lexical() {
            assert forall|k: int| 0 <= k < visible.len() implies (#[trigger] visible[k]).kind
                != SyntaxKind::Eof by {
                let j = shown(text.spans(), Trivia::Skip, text.spans().len() as int)[k];
                assert(is_lexical(text.spans()[j].kind));
            }
        }
    }
    let mut builder = TreeBuilder::new(keep);
    process(&mut builder, events);
    let (node, errors) = builder.finish();
    Parse { node, errors }
}

} // verus!
