//! The syntax tree, which the `rowan` crate holds: what this library believes
//! of `rowan` without proof is all in this file. A tree is modelled as plain
//! values by [`Green`]; each function below says, over that model, what the
//! `rowan` function that it calls does.

use vstd::prelude::*;

verus! {

/// `rowan::GreenNode`: a finished tree, immutable and shared by reference.
#[verifier::external_type_specification]
#[verifier::external_body]
pub struct ExGreenNode(rowan::GreenNode);

/// `rowan::GreenNodeBuilder`: what a tree is built with.
#[verifier::external_type_specification]
#[verifier::external_body]
pub struct ExGreenNodeBuilder<'cache>(rowan::GreenNodeBuilder<'cache>);

/// `rowan::cursor::SyntaxNode`: a node of a tree, with its place in it.
#[verifier::external_type_specification]
#[verifier::external_body]
pub struct ExSyntaxNode(rowan::cursor::SyntaxNode);

/// A syntax tree as plain values: a leaf is a token with its kind and its
/// exact text, a node has a kind and its children in order.
pub enum Green {
    Leaf { kind: u16, text: Seq<char> },
    Node { kind: u16, children: Seq<Green> },
}

impl Green {
    /// The kind of the token or node, as the number that stands for it.
    pub open spec fn kind(self) -> u16 {
        match self {
            Green::Leaf { kind, .. } => kind,
            Green::Node { kind, .. } => kind,
        }
    }

    /// The children of a node; a token has none.
    pub open spec fn children(self) -> Seq<Green> {
        match self {
            Green::Leaf { .. } => Seq::empty(),
            Green::Node { children, .. } => children,
        }
    }

    /// The children of a node that are nodes themselves.
    pub open spec fn nodes(self) -> Seq<Green> {
        nodes_among(self.children())
    }
}

/// Those of the trees `f` that are nodes, in order.
pub open spec fn nodes_among(f: Seq<Green>) -> Seq<Green>
    decreases f.len(),
{
    if f.len() == 0 {
        Seq::empty()
    } else if f.last() is Node {
        nodes_among(f.drop_last()).push(f.last())
    } else {
        nodes_among(f.drop_last())
    }
}

/// The text of a tree: the texts of its tokens, from first to last.
pub open spec fn tree_text(t: Green) -> Seq<char>
    decreases t,
{
    match t {
        Green::Leaf { text, .. } => text,
        Green::Node { children, .. } => forest_text(children),
    }
}

/// The text of a row of trees.
pub open spec fn forest_text(f: Seq<Green>) -> Seq<char>
    decreases f,
{
    if f.len() == 0 {
        Seq::empty()
    } else {
        forest_text(f.drop_last()) + tree_text(f.last())
    }
}

/// The texts of the tokens of a tree, one by one, from first to last.
pub open spec fn tree_texts(t: Green) -> Seq<Seq<char>>
    decreases t,
{
    match t {
        Green::Leaf { text, .. } => seq![text],
        Green::Node { children, .. } => forest_texts(children),
    }
}

/// The texts of the tokens of a row of trees, one by one.
pub open spec fn forest_texts(f: Seq<Green>) -> Seq<Seq<char>>
    decreases f,
{
    if f.len() == 0 {
        Seq::empty()
    } else {
        forest_texts(f.drop_last()) + tree_texts(f.last())
    }
}

/// The nodes of a tree, each before its children and the children in order:
/// the tree itself comes first. A token has no nodes.
pub open spec fn preorder(t: Green) -> Seq<Green>
    decreases t,
{
    match t {
        Green::Leaf { .. } => Seq::empty(),
        Green::Node { children, .. } => seq![t] + preorder_all(children),
    }
}

/// The nodes of a row of trees, tree by tree.
pub open spec fn preorder_all(f: Seq<Green>) -> Seq<Green>
    decreases f,
{
    if f.len() == 0 {
        Seq::empty()
    } else {
        preorder_all(f.drop_last()) + preorder(f.last())
    }
}

/// The kind of a finished green node, as the number that stands for it.
pub uninterp spec fn green_kind(node: rowan::GreenNode) -> u16;

/// The children of a finished green node, in order.
pub uninterp spec fn green_children(node: rowan::GreenNode) -> Seq<Green>;

/// The tree that a finished green node holds: a node, never a token.
pub open spec fn green_tree(node: rowan::GreenNode) -> Green {
    Green::Node { kind: green_kind(node), children: green_children(node) }
}

/// The nodes that a builder has begun and not yet finished, outermost first:
/// the kind of each, and how many finished children the builder held when the
/// node began.
pub uninterp spec fn builder_parents(b: rowan::GreenNodeBuilder<'static>) -> Seq<(u16, nat)>;

/// The finished tokens and nodes that a builder holds, in order. Those from
/// the place that the innermost unfinished node remembers are its children.
pub uninterp spec fn builder_children(b: rowan::GreenNodeBuilder<'static>) -> Seq<Green>;

/// The kind of a node of the syntax tree, as the number that stands for it.
/// The trees meant are those that `new_root` makes, which never change.
pub uninterp spec fn node_kind(node: rowan::cursor::SyntaxNode) -> u16;

/// The children of a node of the syntax tree, tokens and nodes, in order.
pub uninterp spec fn node_children(node: rowan::cursor::SyntaxNode) -> Seq<Green>;

/// The tree below a node of the syntax tree, the node itself included.
pub open spec fn node_tree(node: rowan::cursor::SyntaxNode) -> Green {
    Green::Node { kind: node_kind(node), children: node_children(node) }
}

/// One child of a node, handed out by value.
pub enum Element {
    Node(rowan::GreenNode),
    Token { kind: u16, text: String },
}

impl View for Element {
    type V = Green;

    open spec fn view(&self) -> Green {
        match self {
            Element::Node(node) => green_tree(*node),
            Element::Token { kind, text } => Green::Leaf { kind: *kind, text: text@ },
        }
    }
}

/// `rowan::GreenNodeBuilder::new`: a builder that holds nothing.
#[verifier::external_body]
pub(crate) fn builder_new() -> (b: rowan::GreenNodeBuilder<'static>)
    ensures
        builder_parents(b) == Seq::<(u16, nat)>::empty(),
        builder_children(b) == Seq::<Green>::empty(),
{
    rowan::GreenNodeBuilder::new()
}

/// `rowan::GreenNodeBuilder::start_node`: a node of kind `kind` begins; what
/// is finished from now on, until the node is, becomes its children.
#[verifier::external_body]
pub(crate) fn builder_start_node(b: &mut rowan::GreenNodeBuilder<'static>, kind: u16)
    ensures
        builder_parents(*final(b)) == builder_parents(*old(b)).push(
            (kind, builder_children(*old(b)).len()),
        ),
        builder_children(*final(b)) == builder_children(*old(b)),
{
    b.start_node(rowan::SyntaxKind(kind))
}

/// `rowan::GreenNodeBuilder::token`: a token of kind `kind` with the text
/// `text` is added behind what the builder holds.
#[verifier::external_body]
pub(crate) fn builder_token(b: &mut rowan::GreenNodeBuilder<'static>, kind: u16, text: &str)
    ensures
        builder_parents(*final(b)) == builder_parents(*old(b)),
        builder_children(*final(b)) == builder_children(*old(b)).push(
            Green::Leaf { kind, text: text@ },
        ),
{
    b.token(rowan::SyntaxKind(kind), text)
}

/// `rowan::GreenNodeBuilder::finish_node`: the innermost unfinished node is
/// finished, and takes as its children what was added since it began. `rowan`
/// panics where no node is unfinished, and counts the bytes of a node's text
/// in 32 bits: both are left out here, the second by asking that all the text
/// that the builder holds fits.
#[verifier::external_body]
pub(crate) fn builder_finish_node(b: &mut rowan::GreenNodeBuilder<'static>)
    requires
        builder_parents(*old(b)).len() > 0,
        builder_parents(*old(b)).last().1 <= builder_children(*old(b)).len(),
        vstd::utf8::encode_utf8(forest_text(builder_children(*old(b)))).len() <= u32::MAX,
    ensures
        builder_parents(*final(b)) == builder_parents(*old(b)).drop_last(),
        builder_children(*final(b)) == builder_children(*old(b)).take(
            builder_parents(*old(b)).last().1 as int,
        ).push(
            Green::Node {
                kind: builder_parents(*old(b)).last().0,
                children: builder_children(*old(b)).skip(builder_parents(*old(b)).last().1 as int),
            },
        ),
{
    b.finish_node()
}

/// `rowan::GreenNodeBuilder::finish`: the one node that the builder holds.
/// `rowan` panics where the builder holds anything but one node.
#[verifier::external_body]
pub(crate) fn builder_finish(b: rowan::GreenNodeBuilder<'static>) -> (g: rowan::GreenNode)
    requires
        builder_children(b).len() == 1,
        builder_children(b)[0] is Node,
    ensures
        green_kind(g) == builder_children(b)[0].kind(),
        green_children(g) == builder_children(b)[0].children(),
{
    b.finish()
}

/// `Clone` of `rowan::GreenNode`: another handle on the same tree.
#[verifier::external_body]
pub(crate) fn green_clone(g: &rowan::GreenNode) -> (r: rowan::GreenNode)
    ensures
        green_kind(r) == green_kind(*g),
        green_children(r) == green_children(*g),
{
    g.clone()
}

/// `rowan::cursor::SyntaxNode::new_root`: the root node of a tree.
#[verifier::external_body]
pub(crate) fn syntax_root(green: rowan::GreenNode) -> (n: rowan::cursor::SyntaxNode)
    ensures
        node_kind(n) == green_kind(green),
        node_children(n) == green_children(green),
{
    rowan::cursor::SyntaxNode::new_root(green)
}

/// `Clone` of `rowan::cursor::SyntaxNode`: another handle on the same node.
#[verifier::external_body]
pub(crate) fn syntax_clone(n: &rowan::cursor::SyntaxNode) -> (r: rowan::cursor::SyntaxNode)
    ensures
        node_kind(r) == node_kind(*n),
        node_children(r) == node_children(*n),
{
    n.clone()
}

/// `rowan::cursor::SyntaxNode::kind`: the kind of a node.
#[verifier::external_body]
pub(crate) fn syntax_kind(n: &rowan::cursor::SyntaxNode) -> (k: u16)
    ensures
        k == node_kind(*n),
{
    n.kind().0
}

/// `rowan::cursor::SyntaxNode::children`: the children of a node that are
/// nodes, in order.
#[verifier::external_body]
pub(crate) fn syntax_children(n: &rowan::cursor::SyntaxNode) -> (r: Vec<rowan::cursor::SyntaxNode>)
    ensures
        r@.map_values(|c: rowan::cursor::SyntaxNode| node_tree(c)) == nodes_among(
            node_children(*n),
        ),
{
    n.children().collect()
}

/// `rowan::cursor::SyntaxNode::descendants`: the node and all the nodes below
/// it, each before its children.
#[verifier::external_body]
pub(crate) fn syntax_descendants(n: &rowan::cursor::SyntaxNode) -> (r: Vec<
    rowan::cursor::SyntaxNode,
>)
    ensures
        r@.map_values(|c: rowan::cursor::SyntaxNode| node_tree(c)) == preorder(node_tree(*n)),
{
    n.descendants().collect()
}

/// `rowan::cursor::SyntaxNode::green` and `rowan::GreenNodeData::children`:
/// all the children of a node, tokens and nodes, in order.
#[verifier::external_body]
pub(crate) fn syntax_elements(n: &rowan::cursor::SyntaxNode) -> (r: Vec<Element>)
    ensures
        r@.map_values(|e: Element| e@) == node_children(*n),
{
    n.green().children().map(
        |c| match c {
            rowan::NodeOrToken::Node(it) => Element::Node(it.to_owned()),
            rowan::NodeOrToken::Token(it) => Element::Token {
                kind: it.kind().0,
                text: it.text().to_string(),
            },
        },
    ).collect()
}

} // verus!
