//! What holds of every text: laws of the lexer, the parser and the tree
//! builder together, each stated over plain values and proved.

use crate::builder::first_texts;
use crate::builder::lemma_joined_all;
use crate::green::preorder;
use crate::green::tree_text;
use crate::green::tree_texts;
use crate::kind::SyntaxKind;
use crate::lexer::is_lexical;
use crate::lexer::lemma_lex_from_lexical;
use crate::lexer::lemma_lexed_tiled;
use crate::lexer::lemma_shown;
use crate::lexer::lexed;
use crate::lexer::lexemes_of;
use crate::lexer::shown;
use crate::lexer::Trivia;
use crate::parse::lemma_shown_seen;
use crate::parse::lemma_syntax_of;
use crate::parse::syntax_tree;
use crate::shaped::lemma_shaped_nodes;
use crate::shaped::lemma_syntax_shaped;
use crate::shaped::node_ok;
use crate::shaped::shaped;
use vstd::prelude::*;
use vstd::utf8::*;

verus! {

/// Nothing is lost: the texts of the tokens of the syntax tree of a text,
/// trivia included and from first to last, are the text. The tree is one node
/// of kind `Root`, whatever the text, and every token of the text is in it
/// once, in its place.
pub proof fn lemma_lossless(text: Seq<char>)
    requires
        encode_utf8(text).len() <= u32::MAX,
    ensures
        tree_text(syntax_tree(text)) == text,
        syntax_tree(text) is Node,
        syntax_tree(text).kind() == SyntaxKind::Root.spec_raw(),
        tree_texts(syntax_tree(text)) == first_texts(
            lexemes_of(encode_utf8(text), lexed(text), Trivia::Keep),
            lexed(text).len() as int,
        ),
{
    let s = encode_utf8(text);
    let spans = lexed(text);
    let n = spans.len() as int;
    let all = lexemes_of(s, spans, Trivia::Keep);
    let visible = lexemes_of(s, spans, Trivia::Skip);
    lemma_lexed_tiled(text);
    lemma_lex_from_lexical(s, 0);
    lemma_joined_all(text, spans);
    lemma_shown(spans, Trivia::Keep, n);
    lemma_shown(spans, Trivia::Skip, n);
    lemma_shown_seen(spans, all, n);
    assert forall|k: int| 0 <= k < visible.len() implies (#[trigger] visible[k]).kind
        != SyntaxKind::Eof by {
        let j = shown(spans, Trivia::Skip, n)[k];
        assert(is_lexical(spans[j].kind));
    }
    lemma_syntax_of(all, visible);
}

/// The typed view finds what it looks for: in the syntax tree of every text,
/// every parameter holds a name or a number, every name an identifier, every
/// number a literal and every shape a label.
pub proof fn lemma_well_shaped(text: Seq<char>)
    ensures
        shaped(syntax_tree(text)),
        forall|i: int|
            0 <= i < preorder(syntax_tree(text)).len() ==> node_ok(
                #[trigger] preorder(syntax_tree(text))[i],
            ),
{
    let s = encode_utf8(text);
    let all = lexemes_of(s, lexed(text), Trivia::Keep);
    let visible = lexemes_of(s, lexed(text), Trivia::Skip);
    lemma_syntax_shaped(all, visible);
    lemma_shaped_nodes(syntax_tree(text));
    assert forall|i: int| 0 <= i < preorder(syntax_tree(text)).len() implies node_ok(
        #[trigger] preorder(syntax_tree(text))[i],
    ) by {
        assert(shaped(preorder(syntax_tree(text))[i]));
    }
}

} // verus!
