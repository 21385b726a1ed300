//! The typed view of the syntax tree: each type wraps a node of one kind, and
//! finds what belongs to it among the node's children.

use crate::green::node_tree;
use crate::green::syntax_children;
use crate::green::syntax_clone;
use crate::green::syntax_elements;
use crate::green::syntax_kind;
use crate::green::Element;
use crate::green::Green;
use crate::kind::SyntaxKind;
use vstd::prelude::*;

verus! {

/// The kind of a token or node of the tree.
pub open spec fn kind_of(t: Green) -> SyntaxKind {
    SyntaxKind::spec_from_raw(t.kind())
}

/// The text of the first token of kind `kind` among the trees `f`.
pub open spec fn first_token_text(f: Seq<Green>, kind: SyntaxKind) -> Option<Seq<char>>
    decreases f.len(),
{
    if f.len() == 0 {
        None
    } else if f[0] is Leaf && f[0].kind() == kind.spec_raw() {
        Some(f[0]->text)
    } else {
        first_token_text(f.drop_first(), kind)
    }
}

/// Whether a node of kind `kind` is a statement.
pub open spec fn is_statement(kind: SyntaxKind) -> bool {
    kind == SyntaxKind::Shape || kind == SyntaxKind::Object
}

/// What a parameter is, a name or a number: the first node among its children,
/// where that is of kind `Name` or `Value`.
pub open spec fn param_kind(param: Green) -> Option<Green> {
    if param.nodes().len() > 0 && (kind_of(param.nodes()[0]) == SyntaxKind::Name || kind_of(
        param.nodes()[0],
    ) == SyntaxKind::Value) {
        Some(param.nodes()[0])
    } else {
        None
    }
}

/// The text of a name: that of the first identifier among its children.
pub open spec fn name_text(name: Green) -> Option<Seq<char>> {
    first_token_text(name.children(), SyntaxKind::Ident)
}

/// The text of a number: that of the first literal among its children.
pub open spec fn value_text(value: Green) -> Option<Seq<char>> {
    first_token_text(value.children(), SyntaxKind::Literal)
}

/// The text of a label: that of the first name among its children.
pub open spec fn label_text(label: Green) -> Option<Seq<char>> {
    match first_accepted::<Name>(label.nodes()) {
        Some(name) => name_text(name),
        None => None,
    }
}

/// The statements of a root node, in order.
pub open spec fn statements_of(root: Green) -> Seq<Green> {
    accepted_among::<Stmt>(root.nodes())
}

/// The parameters of a statement, in order: the nodes of kind `Param` in its
/// first list of parameters. A statement without a list has none.
pub open spec fn params_of(stmt: Green) -> Seq<Green> {
    match first_accepted::<ParamList>(stmt.nodes()) {
        Some(list) => accepted_among::<Param>(list.nodes()),
        None => Seq::empty(),
    }
}

/// The trees below a list of nodes.
pub open spec fn trees(nodes: Seq<rowan::cursor::SyntaxNode>) -> Seq<Green> {
    nodes.map_values(|n: rowan::cursor::SyntaxNode| node_tree(n))
}

/// A typed view of a node of the syntax tree.
pub trait AstNode: Sized {
    /// Whether the type is a view of nodes of kind `kind`.
    spec fn accepts(kind: SyntaxKind) -> bool;

    /// The tree below the node.
    spec fn tree(&self) -> Green;

    /// The view of `node`, where the node is of the type's kind.
    fn cast(node: rowan::cursor::SyntaxNode) -> (r: Option<Self>)
        ensures
            r.is_some() == Self::accepts(kind_of(node_tree(node))),
            r.is_some() ==> r.unwrap().tree() == node_tree(node),
    ;

    /// The node that this is a view of.
    fn syntax(&self) -> (r: &rowan::cursor::SyntaxNode)
        ensures
            node_tree(*r) == self.tree(),
            self.tree() is Node,
            Self::accepts(kind_of(self.tree())),
    ;
}

/// The kind of a node.
pub(crate) fn kind_of_node(node: &rowan::cursor::SyntaxNode) -> (kind: SyntaxKind)
    ensures
        kind == kind_of(node_tree(*node)),
        node_tree(*node) is Node,
{
    SyntaxKind::from_raw(syntax_kind(node))
}

/// The text of the first token of kind `kind` among the children of a node.
fn find_token(node: &rowan::cursor::SyntaxNode, kind: SyntaxKind) -> (r: Option<String>)
    ensures
        r.is_some() == first_token_text(node_tree(*node).children(), kind).is_some(),
        r.is_some() ==> Some(r.unwrap()@) == first_token_text(node_tree(*node).children(), kind),
{
    let elements = syntax_elements(node);
    let ghost all = node_tree(*node).children();
    let raw = kind.raw();
    let mut i: usize = 0;
    proof {
        assert(all.skip(0) =~= all);
    }
    while i < elements.len()
        invariant
            0 <= i <= elements@.len(),
            raw == kind.spec_raw(),
            all == elements@.map_values(|e: Element| e@),
            all == node_tree(*node).children(),
            first_token_text(all.skip(i as int), kind) == first_token_text(all, kind),
        decreases elements@.len() - i,
    {
        proof {
            assert(all.skip(i as int)[0] == elements@[i as int]@);
            assert(all.skip(i as int).drop_first() =~= all.skip(i + 1));
        }
        match &elements[i] {
            Element::Token { kind: found, text } => {
                if *found == raw {
                    let r = text.clone();
                    proof {
                        assert(elements@[i as int]@ == Green::Leaf { kind: *found, text: text@ });
                        assert(all.skip(i as int)[0] is Leaf);
                        assert(all.skip(i as int)[0]->text == r@);
                    }
                    return Some(r);
                }
            },
            Element::Node(_) => {},
        }
        i += 1;
    }
    None
}

/// The whole text.
#[derive(Debug)]
pub struct Root(rowan::cursor::SyntaxNode);

impl Root {
    #[verifier::type_invariant]
    closed spec fn tagged(self) -> bool {
        node_tree(self.0) is Node && kind_of(node_tree(self.0)) == SyntaxKind::Root
    }
}

impl AstNode for Root {
    open spec fn accepts(kind: SyntaxKind) -> bool {
        kind == SyntaxKind::Root
    }

    closed spec fn tree(&self) -> Green {
        node_tree(self.0)
    }

    fn cast(node: rowan::cursor::SyntaxNode) -> (r: Option<Self>) {
        match kind_of_node(&node) {
            SyntaxKind::Root => Some(Root(node)),
            _ => None,
        }
    }

    fn syntax(&self) -> (r: &rowan::cursor::SyntaxNode) {
        proof {
            use_type_invariant(self);
        }
        &self.0
    }
}

/// The definition of a shape: `let label name (params)`.
#[derive(Debug)]
pub struct Shape(rowan::cursor::SyntaxNode);

impl Shape {
    #[verifier::type_invariant]
    closed spec fn tagged(self) -> bool {
        node_tree(self.0) is Node && kind_of(node_tree(self.0)) == SyntaxKind::Shape
    }
}

impl AstNode for Shape {
    open spec fn accepts(kind: SyntaxKind) -> bool {
        kind == SyntaxKind::Shape
    }

    closed spec fn tree(&self) -> Green {
        node_tree(self.0)
    }

    fn cast(node: rowan::cursor::SyntaxNode) -> (r: Option<Self>) {
        match kind_of_node(&node) {
            SyntaxKind::Shape => Some(Shape(node)),
            _ => None,
        }
    }

    fn syntax(&self) -> (r: &rowan::cursor::SyntaxNode) {
        proof {
            use_type_invariant(self);
        }
        &self.0
    }
}

/// An object: `[value, x, y, shape]`.
#[derive(Debug)]
pub struct Object(rowan::cursor::SyntaxNode);

impl Object {
    #[verifier::type_invariant]
    closed spec fn tagged(self) -> bool {
        node_tree(self.0) is Node && kind_of(node_tree(self.0)) == SyntaxKind::Object
    }
}

impl AstNode for Object {
    open spec fn accepts(kind: SyntaxKind) -> bool {
        kind == SyntaxKind::Object
    }

    closed spec fn tree(&self) -> Green {
        node_tree(self.0)
    }

    fn cast(node: rowan::cursor::SyntaxNode) -> (r: Option<Self>) {
        match kind_of_node(&node) {
            SyntaxKind::Object => Some(Object(node)),
            _ => None,
        }
    }

    fn syntax(&self) -> (r: &rowan::cursor::SyntaxNode) {
        proof {
            use_type_invariant(self);
        }
        &self.0
    }
}

/// A number.
#[derive(Debug)]
pub struct Value(rowan::cursor::SyntaxNode);

impl Value {
    #[verifier::type_invariant]
    closed spec fn tagged(self) -> bool {
        node_tree(self.0) is Node && kind_of(node_tree(self.0)) == SyntaxKind::Value
    }
}

impl AstNode for Value {
    open spec fn accepts(kind: SyntaxKind) -> bool {
        kind == SyntaxKind::Value
    }

    closed spec fn tree(&self) -> Green {
        node_tree(self.0)
    }

    fn cast(node: rowan::cursor::SyntaxNode) -> (r: Option<Self>) {
        match kind_of_node(&node) {
            SyntaxKind::Value => Some(Value(node)),
            _ => None,
        }
    }

    fn syntax(&self) -> (r: &rowan::cursor::SyntaxNode) {
        proof {
            use_type_invariant(self);
        }
        &self.0
    }
}

/// The label of a shape: `name:`.
#[derive(Debug)]
pub struct Label(rowan::cursor::SyntaxNode);

impl Label {
    #[verifier::type_invariant]
    closed spec fn tagged(self) -> bool {
        node_tree(self.0) is Node && kind_of(node_tree(self.0)) == SyntaxKind::Label
    }
}

impl AstNode for Label {
    open spec fn accepts(kind: SyntaxKind) -> bool {
        kind == SyntaxKind::Label
    }

    closed spec fn tree(&self) -> Green {
        node_tree(self.0)
    }

    fn cast(node: rowan::cursor::SyntaxNode) -> (r: Option<Self>) {
        match kind_of_node(&node) {
            SyntaxKind::Label => Some(Label(node)),
            _ => None,
        }
    }

    fn syntax(&self) -> (r: &rowan::cursor::SyntaxNode) {
        proof {
            use_type_invariant(self);
        }
        &self.0
    }
}

/// A name.
#[derive(Debug)]
pub struct Name(rowan::cursor::SyntaxNode);

impl Name {
    #[verifier::type_invariant]
    closed spec fn tagged(self) -> bool {
        node_tree(self.0) is Node && kind_of(node_tree(self.0)) == SyntaxKind::Name
    }
}

impl AstNode for Name {
    open spec fn accepts(kind: SyntaxKind) -> bool {
        kind == SyntaxKind::Name
    }

    closed spec fn tree(&self) -> Green {
        node_tree(self.0)
    }

    fn cast(node: rowan::cursor::SyntaxNode) -> (r: Option<Self>) {
        match kind_of_node(&node) {
            SyntaxKind::Name => Some(Name(node)),
            _ => None,
        }
    }

    fn syntax(&self) -> (r: &rowan::cursor::SyntaxNode) {
        proof {
            use_type_invariant(self);
        }
        &self.0
    }
}

/// A list of parameters in its brackets.
#[derive(Debug)]
pub struct ParamList(rowan::cursor::SyntaxNode);

impl ParamList {
    #[verifier::type_invariant]
    closed spec fn tagged(self) -> bool {
        node_tree(self.0) is Node && kind_of(node_tree(self.0)) == SyntaxKind::ParamList
    }
}

impl AstNode for ParamList {
    open spec fn accepts(kind: SyntaxKind) -> bool {
        kind == SyntaxKind::ParamList
    }

    closed spec fn tree(&self) -> Green {
        node_tree(self.0)
    }

    fn cast(node: rowan::cursor::SyntaxNode) -> (r: Option<Self>) {
        match kind_of_node(&node) {
            SyntaxKind::ParamList => Some(ParamList(node)),
            _ => None,
        }
    }

    fn syntax(&self) -> (r: &rowan::cursor::SyntaxNode) {
        proof {
            use_type_invariant(self);
        }
        &self.0
    }
}

/// One parameter: a name or a number.
#[derive(Debug)]
pub struct Param(rowan::cursor::SyntaxNode);

impl Param {
    #[verifier::type_invariant]
    closed spec fn tagged(self) -> bool {
        node_tree(self.0) is Node && kind_of(node_tree(self.0)) == SyntaxKind::Param
    }
}

impl AstNode for Param {
    open spec fn accepts(kind: SyntaxKind) -> bool {
        kind == SyntaxKind::Param
    }

    closed spec fn tree(&self) -> Green {
        node_tree(self.0)
    }

    fn cast(node: rowan::cursor::SyntaxNode) -> (r: Option<Self>) {
        match kind_of_node(&node) {
            SyntaxKind::Param => Some(Param(node)),
            _ => None,
        }
    }

    fn syntax(&self) -> (r: &rowan::cursor::SyntaxNode) {
        proof {
            use_type_invariant(self);
        }
        &self.0
    }
}


/// The trees below a list of typed nodes.
pub open spec fn trees_of<T: AstNode>(s: Seq<T>) -> Seq<Green> {
    s.map_values(|x: T| x.tree())
}

/// Those of the trees `f` that type `T` is a view of, in order.
pub open spec fn accepted_among<T: AstNode>(f: Seq<Green>) -> Seq<Green>
    decreases f.len(),
{
    if f.len() == 0 {
        Seq::empty()
    } else if T::accepts(kind_of(f.last())) {
        accepted_among::<T>(f.drop_last()).push(f.last())
    } else {
        accepted_among::<T>(f.drop_last())
    }
}

/// Those of the nodes that are views of type `T`, in order.
fn cast_all<T: AstNode>(nodes: &Vec<rowan::cursor::SyntaxNode>) -> (r: Vec<T>)
    ensures
        trees_of(r@) == accepted_among::<T>(trees(nodes@)),
{
    let mut r: Vec<T> = Vec::new();
    let mut i: usize = 0;
    proof {
        assert(trees(nodes@).take(0) =~= Seq::<Green>::empty());
        assert(trees_of(r@) =~= Seq::<Green>::empty());
    }
    while i < nodes.len()
        invariant
            0 <= i <= nodes@.len(),
            trees_of(r@) == accepted_among::<T>(trees(nodes@).take(i as int)),
        decreases nodes@.len() - i,
    {
        proof {
            assert(trees(nodes@).take(i + 1).drop_last() =~= trees(nodes@).take(i as int));
            assert(trees(nodes@).take(i + 1).last() == node_tree(nodes@[i as int]));
        }
        match T::cast(syntax_clone(&nodes[i])) {
            Some(it) => {
                proof {
                    assert(trees_of(r@.push(it)) =~= trees_of(r@).push(it.tree()));
                }
                r.push(it);
            },
            None => {},
        }
        i += 1;
    }
    proof {
        assert(trees(nodes@).take(nodes@.len() as int) =~= trees(nodes@));
    }
    r
}

/// The first of the nodes that is a view of type `T`.
fn find_cast<T: AstNode>(nodes: &Vec<rowan::cursor::SyntaxNode>) -> (r: Option<T>)
    ensures
        r.is_some() == first_accepted::<T>(trees(nodes@)).is_some(),
        r.is_some() ==> Some(r.unwrap().tree()) == first_accepted::<T>(trees(nodes@)),
{
    let mut i: usize = 0;
    proof {
        assert(trees(nodes@).skip(0) =~= trees(nodes@));
    }
    while i < nodes.len()
        invariant
            0 <= i <= nodes@.len(),
            first_accepted::<T>(trees(nodes@).skip(i as int)) == first_accepted::<T>(trees(nodes@)),
        decreases nodes@.len() - i,
    {
        proof {
            assert(trees(nodes@).skip(i as int)[0] == node_tree(nodes@[i as int]));
            assert(trees(nodes@).skip(i as int).drop_first() =~= trees(nodes@).skip(i + 1));
        }
        match T::cast(syntax_clone(&nodes[i])) {
            Some(it) => {
                return Some(it);
            },
            None => {},
        }
        i += 1;
    }
    None
}

/// The first of the trees `f` that type `T` is a view of.
pub open spec fn first_accepted<T: AstNode>(f: Seq<Green>) -> Option<Green>
    decreases f.len(),
{
    if f.len() == 0 {
        None
    } else if T::accepts(kind_of(f[0])) {
        Some(f[0])
    } else {
        first_accepted::<T>(f.drop_first())
    }
}

/// A statement: the definition of a shape, or an object.
#[derive(Debug)]
pub struct Stmt(rowan::cursor::SyntaxNode);

/// What a statement is.
pub enum StmtKind {
    Shape(Shape),
    Object(Object),
}

impl Stmt {
    #[verifier::type_invariant]
    closed spec fn tagged(self) -> bool {
        node_tree(self.0) is Node && is_statement(kind_of(node_tree(self.0)))
    }
}

impl AstNode for Stmt {
    open spec fn accepts(kind: SyntaxKind) -> bool {
        is_statement(kind)
    }

    closed spec fn tree(&self) -> Green {
        node_tree(self.0)
    }

    fn cast(node: rowan::cursor::SyntaxNode) -> (r: Option<Self>) {
        match kind_of_node(&node) {
            SyntaxKind::Shape => Some(Stmt(node)),
            SyntaxKind::Object => Some(Stmt(node)),
            _ => None,
        }
    }

    fn syntax(&self) -> (r: &rowan::cursor::SyntaxNode) {
        proof {
            use_type_invariant(self);
        }
        &self.0
    }
}

impl StmtKind {
    /// The tree below the statement.
    pub open spec fn tree(&self) -> Green {
        match self {
            StmtKind::Shape(it) => it.tree(),
            StmtKind::Object(it) => it.tree(),
        }
    }
}

impl Root {
    /// The statements of the text, in order.
    pub fn stmts(&self) -> (r: Vec<Stmt>)
        ensures
            trees_of(r@) == statements_of(self.tree()),
    {
        let children = syntax_children(self.syntax());
        cast_all::<Stmt>(&children)
    }
}

impl Stmt {
    /// What the statement is: the definition of a shape, or an object.
    pub fn kind(&self) -> (r: StmtKind)
        ensures
            r.tree() == self.tree(),
            r is Shape == (kind_of(self.tree()) == SyntaxKind::Shape),
    {
        proof {
            use_type_invariant(self);
        }
        match kind_of_node(&self.0) {
            SyntaxKind::Shape => StmtKind::Shape(Shape(syntax_clone(&self.0))),
            _ => StmtKind::Object(Object(syntax_clone(&self.0))),
        }
    }

    /// The parameters of the statement, where it has a list of them.
    pub fn params(&self) -> (r: Option<Params>)
        ensures
            r.is_some() == first_accepted::<ParamList>(self.tree().nodes()).is_some(),
            r.is_some() ==> r.unwrap()@ == params_of(self.tree()),
    {
        let children = syntax_children(self.syntax());
        match find_cast::<ParamList>(&children) {
            Some(list) => Some(list.params()),
            None => None,
        }
    }
}

impl Shape {
    /// Whether the shape has a label.
    pub open spec fn has_label(&self) -> bool {
        first_accepted::<Label>(self.tree().nodes()).is_some()
    }

    /// The label of the shape.
    pub fn label(&self) -> (r: Label)
        requires
            self.has_label(),
        ensures
            Some(r.tree()) == first_accepted::<Label>(self.tree().nodes()),
    {
        let children = syntax_children(self.syntax());
        match find_cast::<Label>(&children) {
            Some(label) => label,
            None => unreached(),
        }
    }

    /// The label of the shape, where it has one.
    pub fn try_label(&self) -> (r: Option<Label>)
        ensures
            r.is_some() == self.has_label(),
            r.is_some() ==> Some(r.unwrap().tree()) == first_accepted::<Label>(self.tree().nodes()),
    {
        let children = syntax_children(self.syntax());
        find_cast::<Label>(&children)
    }

    /// The name of the kind of shape, where it is there.
    pub fn name(&self) -> (r: Option<Name>)
        ensures
            r.is_some() == first_accepted::<Name>(self.tree().nodes()).is_some(),
            r.is_some() ==> Some(r.unwrap().tree()) == first_accepted::<Name>(self.tree().nodes()),
    {
        let children = syntax_children(self.syntax());
        find_cast::<Name>(&children)
    }
}

impl ParamList {
    /// The parameters of the list, in order.
    fn params(&self) -> (r: Params)
        ensures
            r@ == accepted_among::<Param>(self.tree().nodes()),
    {
        let children = syntax_children(self.syntax());
        let items = cast_all::<Param>(&children);
        Params::new(items)
    }
}

/// The parameters of a statement that have not been taken yet.
pub struct Params {
    items: Vec<Param>,
    pos: usize,
}

impl View for Params {
    type V = Seq<Green>;

    closed spec fn view(&self) -> Seq<Green> {
        trees_of(self.items@).skip(self.pos as int)
    }
}

/// What a parameter is: a name or a number.
#[derive(Debug)]
pub enum ParamKind {
    Name(Name),
    Value(Value),
}

/// Whether a node of kind `kind` can be a parameter.
pub open spec fn is_param_kind(kind: SyntaxKind) -> bool {
    kind == SyntaxKind::Name || kind == SyntaxKind::Value
}

/// What the parameter `param` is, where it is a number.
pub open spec fn value_of(param: Green) -> Option<Green> {
    match param_kind(param) {
        Some(it) => if kind_of(it) == SyntaxKind::Value {
            Some(it)
        } else {
            None
        },
        None => None,
    }
}

/// What the parameter `param` is, where it is a name.
pub open spec fn name_of(param: Green) -> Option<Green> {
    match param_kind(param) {
        Some(it) => if kind_of(it) == SyntaxKind::Name {
            Some(it)
        } else {
            None
        },
        None => None,
    }
}

/// The numbers among the parameters `f`, in order.
pub open spec fn values_among(f: Seq<Green>) -> Seq<Green>
    decreases f.len(),
{
    if f.len() == 0 {
        Seq::empty()
    } else {
        match value_of(f.last()) {
            Some(it) => values_among(f.drop_last()).push(it),
            None => values_among(f.drop_last()),
        }
    }
}

impl Params {
    #[verifier::type_invariant]
    closed spec fn bounded(self) -> bool {
        self.pos <= self.items@.len()
    }

    fn new(items: Vec<Param>) -> (r: Params)
        ensures
            r@ == trees_of(items@),
    {
        proof {
            assert(trees_of(items@).skip(0) =~= trees_of(items@));
        }
        Params { items, pos: 0 }
    }

    /// The next parameter.
    pub fn next(&mut self) -> (r: Option<Param>)
        ensures
            old(self)@.len() == 0 ==> r.is_none() && final(self)@ == old(self)@,
            old(self)@.len() > 0 ==> r.is_some() && r.unwrap().tree() == old(self)@[0],
            old(self)@.len() > 0 ==> final(self)@ == old(self)@.drop_first(),
    {
        proof {
            use_type_invariant(&*self);
        }
        if self.pos < self.items.len() {
            let r = Param(syntax_clone(self.items[self.pos].syntax()));
            proof {
                assert(trees_of(self.items@).skip(self.pos as int).drop_first() =~= trees_of(
                    self.items@,
                ).skip(self.pos + 1));
            }
            self.pos += 1;
            Some(r)
        } else {
            None
        }
    }

    /// All the parameters that are left, in order.
    pub fn rest(self) -> (r: Vec<Param>)
        ensures
            trees_of(r@) == self@,
    {
        proof {
            use_type_invariant(&self);
        }
        let mut r: Vec<Param> = Vec::new();
        let mut i: usize = self.pos;
        let ghost all = self@;
        proof {
            assert(all.take(0) =~= Seq::<Green>::empty());
            assert(trees_of(r@) =~= Seq::<Green>::empty());
        }
        while i < self.items.len()
            invariant
                self.pos <= i <= self.items@.len(),
                all == trees_of(self.items@).skip(self.pos as int),
                trees_of(r@) == all.take(i - self.pos),
            decreases self.items@.len() - i,
        {
            let it = Param(syntax_clone(self.items[i].syntax()));
            proof {
                assert(trees_of(r@.push(it)) =~= trees_of(r@).push(it.tree()));
                assert(all.take(i - self.pos + 1) =~= all.take(i - self.pos).push(
                    self.items@[i as int].tree(),
                ));
            }
            r.push(it);
            i += 1;
        }
        proof {
            assert(all.take(all.len() as int) =~= all);
        }
        r
    }

    /// The parameters that are numbers, in order.
    pub fn values(self) -> (r: Vec<Value>)
        ensures
            trees_of(r@) == values_among(self@),
    {
        proof {
            use_type_invariant(&self);
        }
        let mut r: Vec<Value> = Vec::new();
        let mut i: usize = self.pos;
        let ghost all = self@;
        proof {
            assert(all.take(0) =~= Seq::<Green>::empty());
            assert(trees_of(r@) =~= Seq::<Green>::empty());
        }
        while i < self.items.len()
            invariant
                self.pos <= i <= self.items@.len(),
                all == trees_of(self.items@).skip(self.pos as int),
                trees_of(r@) == values_among(all.take(i - self.pos)),
            decreases self.items@.len() - i,
        {
            proof {
                assert(all.take(i - self.pos + 1).drop_last() =~= all.take(i - self.pos));
                assert(all.take(i - self.pos + 1).last() == self.items@[i as int].tree());
            }
            match self.items[i].try_kind() {
                Some(ParamKind::Value(it)) => {
                    proof {
                        assert(trees_of(r@.push(it)) =~= trees_of(r@).push(it.tree()));
                    }
                    r.push(it);
                },
                _ => {},
            }
            i += 1;
        }
        proof {
            assert(all.take(all.len() as int) =~= all);
        }
        r
    }

    /// Takes the next parameter, and hands it out if it is a number.
    pub fn next_value(&mut self) -> (r: Option<Value>)
        ensures
            old(self)@.len() == 0 ==> r.is_none() && final(self)@ == old(self)@,
            old(self)@.len() > 0 ==> final(self)@ == old(self)@.drop_first() && r.is_some()
                == value_of(old(self)@[0]).is_some() && (r.is_some() ==> Some(r.unwrap().tree())
                == value_of(old(self)@[0])),
    {
        match self.next() {
            Some(p) => match p.try_kind() {
                Some(ParamKind::Value(it)) => Some(it),
                _ => None,
            },
            None => None,
        }
    }

    /// Takes the next parameter, and hands it out if it is a name.
    pub fn next_name(&mut self) -> (r: Option<Name>)
        ensures
            old(self)@.len() == 0 ==> r.is_none() && final(self)@ == old(self)@,
            old(self)@.len() > 0 ==> final(self)@ == old(self)@.drop_first() && r.is_some()
                == name_of(old(self)@[0]).is_some() && (r.is_some() ==> Some(r.unwrap().tree())
                == name_of(old(self)@[0])),
    {
        match self.next() {
            Some(p) => match p.try_kind() {
                Some(ParamKind::Name(it)) => Some(it),
                _ => None,
            },
            None => None,
        }
    }
}

impl ParamKind {
    /// The view of `node` as a name or a number, where it is one.
    fn of(node: rowan::cursor::SyntaxNode) -> (r: Option<ParamKind>)
        ensures
            r.is_some() == is_param_kind(kind_of(node_tree(node))),
            r.is_some() ==> r.unwrap().tree() == node_tree(node),
            r.is_some() ==> (r.unwrap() is Name) == (kind_of(node_tree(node)) == SyntaxKind::Name),
    {
        match kind_of_node(&node) {
            SyntaxKind::Name => Some(ParamKind::Name(Name(node))),
            SyntaxKind::Value => Some(ParamKind::Value(Value(node))),
            _ => None,
        }
    }

    /// The name, where the parameter is one.
    pub fn as_name(&self) -> (r: Option<&Name>)
        ensures
            r.is_some() == (self is Name),
            r.is_some() ==> *r.unwrap() == self->Name_0,
    {
        match self {
            ParamKind::Name(v) => Some(v),
            _ => None,
        }
    }

    /// The number, where the parameter is one.
    pub fn as_value(&self) -> (r: Option<&Value>)
        ensures
            r.is_some() == (self is Value),
            r.is_some() ==> *r.unwrap() == self->Value_0,
    {
        match self {
            ParamKind::Value(v) => Some(v),
            _ => None,
        }
    }

    /// The name, where the parameter is one; else the parameter back.
    pub fn try_into_name(self) -> (r: Result<Name, ParamKind>)
        ensures
            r.is_ok() == (self is Name),
            r.is_ok() ==> r.unwrap() == self->Name_0,
            r.is_err() ==> r.unwrap_err() == self,
    {
        match self {
            ParamKind::Name(v) => Ok(v),
            other => Err(other),
        }
    }

    /// The number, where the parameter is one; else the parameter back.
    pub fn try_into_value(self) -> (r: Result<Value, ParamKind>)
        ensures
            r.is_ok() == (self is Value),
            r.is_ok() ==> r.unwrap() == self->Value_0,
            r.is_err() ==> r.unwrap_err() == self,
    {
        match self {
            ParamKind::Value(v) => Ok(v),
            other => Err(other),
        }
    }
}

impl AstNode for ParamKind {
    open spec fn accepts(kind: SyntaxKind) -> bool {
        is_param_kind(kind)
    }

    open spec fn tree(&self) -> Green {
        match self {
            ParamKind::Name(it) => it.tree(),
            ParamKind::Value(it) => it.tree(),
        }
    }

    fn cast(node: rowan::cursor::SyntaxNode) -> (r: Option<Self>) {
        ParamKind::of(node)
    }

    fn syntax(&self) -> (r: &rowan::cursor::SyntaxNode) {
        match self {
            ParamKind::Name(it) => it.syntax(),
            ParamKind::Value(it) => it.syntax(),
        }
    }
}

impl Param {
    /// What the parameter is, where its first child node is a name or a number.
    pub fn try_kind(&self) -> (r: Option<ParamKind>)
        ensures
            r.is_some() == param_kind(self.tree()).is_some(),
            r.is_some() ==> Some(r.unwrap().tree()) == param_kind(self.tree()),
            r.is_some() ==> (r.unwrap() is Name) == (kind_of(r.unwrap().tree())
                == SyntaxKind::Name),
    {
        let children = syntax_children(self.syntax());
        if children.len() == 0 {
            return None;
        }
        proof {
            assert(trees(children@)[0] == node_tree(children@[0]));
        }
        ParamKind::of(syntax_clone(&children[0]))
    }

    /// What the parameter is: a name or a number.
    pub fn kind(&self) -> (r: ParamKind)
        requires
            param_kind(self.tree()).is_some(),
        ensures
            Some(r.tree()) == param_kind(self.tree()),
            (r is Name) == (kind_of(r.tree()) == SyntaxKind::Name),
    {
        match self.try_kind() {
            Some(kind) => kind,
            None => unreached(),
        }
    }
}

impl Label {
    /// The text of the label: that of its name, where it has one.
    pub fn text(&self) -> (r: Option<String>)
        ensures
            r.is_some() == label_text(self.tree()).is_some(),
            r.is_some() ==> Some(r.unwrap()@) == label_text(self.tree()),
    {
        let children = syntax_children(self.syntax());
        match find_cast::<Name>(&children) {
            Some(name) => name.try_text(),
            None => None,
        }
    }
}

impl Name {
    /// The text of the name, where it holds an identifier.
    pub fn try_text(&self) -> (r: Option<String>)
        ensures
            r.is_some() == name_text(self.tree()).is_some(),
            r.is_some() ==> Some(r.unwrap()@) == name_text(self.tree()),
    {
        find_token(self.syntax(), SyntaxKind::Ident)
    }

    /// The text of the name.
    pub fn text(&self) -> (r: String)
        requires
            name_text(self.tree()).is_some(),
        ensures
            Some(r@) == name_text(self.tree()),
    {
        match self.try_text() {
            Some(text) => text,
            None => unreached(),
        }
    }
}

impl Value {
    /// The text of the number, as it stands in the source, where the node
    /// holds a literal.
    pub fn literal(&self) -> (r: Option<String>)
        ensures
            r.is_some() == value_text(self.tree()).is_some(),
            r.is_some() ==> Some(r.unwrap()@) == value_text(self.tree()),
    {
        find_token(self.syntax(), SyntaxKind::Literal)
    }
}

} // verus!
