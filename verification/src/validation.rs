//! The validator: what is wrong with a text that parses. It walks the whole
//! tree and gathers a message for everything that it finds.
//!
//! - A shape must be registered, with as many parameters as it is registered
//!   for, all of them numbers.
//! - An object has four parameters: three numbers and the name of a shape.
//! - A label is defined once.

use crate::ast::first_accepted;
use crate::ast::is_statement;
use crate::ast::kind_of;
use crate::ast::kind_of_node;
use crate::ast::label_text;
use crate::ast::name_text;
use crate::ast::param_kind;
use crate::ast::params_of;
use crate::ast::trees;
use crate::ast::trees_of;
use crate::ast::AstNode;
use crate::ast::Label;
use crate::ast::Name;
use crate::ast::Param;
use crate::ast::Stmt;
use crate::ast::StmtKind;
use crate::encoding::texts;
use crate::green::node_tree;
use crate::green::preorder;
use crate::green::syntax_clone;
use crate::green::syntax_descendants;
use crate::green::Green;
use crate::kind::SyntaxKind;
use crate::registry::Registry;
use vstd::hash_set::StringHashSet;
use vstd::prelude::*;
use vstd::string::*;

verus! {

/// A decimal digit as text.
pub open spec fn digit_text(d: nat) -> Seq<char> {
    if d == 0 {
        "0"@
    } else if d == 1 {
        "1"@
    } else if d == 2 {
        "2"@
    } else if d == 3 {
        "3"@
    } else if d == 4 {
        "4"@
    } else if d == 5 {
        "5"@
    } else if d == 6 {
        "6"@
    } else if d == 7 {
        "7"@
    } else if d == 8 {
        "8"@
    } else {
        "9"@
    }
}

/// A number as text, in decimal digits.
pub open spec fn decimal(n: nat) -> Seq<char>
    decreases n,
{
    if n < 10 {
        digit_text(n)
    } else {
        decimal(n / 10) + digit_text(n % 10)
    }
}

/// The message for a shape whose name is not registered.
pub open spec fn unknown_shape_message(name: Seq<char>) -> Seq<char> {
    "shape `"@ + name + "` is not recognised"@
}

/// The message for a shape with the wrong number of parameters.
pub open spec fn arity_message(arity: nat, found: nat) -> Seq<char> {
    "expected to find "@ + decimal(arity) + " args, found "@ + decimal(found)
}

/// The message for a parameter of a shape that is no number.
pub open spec fn shape_param_message(found: SyntaxKind) -> Seq<char> {
    "shapes only have `Value` parameters, found a `"@ + found.spec_name() + "` instead"@
}

/// The message for an object that has not four parameters.
pub open spec fn object_shape_message() -> Seq<char> {
    "objects must be a tuple of [value, x, y, shape]"@
}

/// The message for a parameter of an object that is of the wrong kind.
pub open spec fn object_param_message(expected: SyntaxKind, found: SyntaxKind) -> Seq<char> {
    "expected to find a `"@ + expected.spec_name() + "`, got a `"@ + found.spec_name()
        + "` instead"@
}

/// The message for a label that is defined again.
pub open spec fn duplicate_label_message(text: Seq<char>) -> Seq<char> {
    "label `"@ + text + "` has multiple definitions"@
}

/// What the `i`th parameter of an object must be: `[value, x, y, shape]`.
pub open spec fn expected_kind(i: int) -> SyntaxKind {
    if i < 3 {
        SyntaxKind::Value
    } else {
        SyntaxKind::Name
    }
}

/// What is wrong with the name of a shape that has `count` parameters: the
/// name is not registered, or it is registered for another number of
/// parameters. Nothing is said of a shape without a name.
pub open spec fn shape_name_errors(shape: Green, count: nat, entries: Map<Seq<char>, usize>) -> Seq<
    Seq<char>,
> {
    match first_accepted::<Name>(shape.nodes()) {
        Some(name) => match name_text(name) {
            Some(text) => if !entries.contains_key(text) {
                seq![unknown_shape_message(text)]
            } else if entries[text] != count {
                seq![arity_message(entries[text] as nat, count)]
            } else {
                Seq::empty()
            },
            None => Seq::empty(),
        },
        None => Seq::empty(),
    }
}

/// What is wrong with one parameter of a shape: it is no number.
pub open spec fn shape_param_error(param: Green) -> Seq<Seq<char>> {
    match param_kind(param) {
        Some(it) => if kind_of(it) != SyntaxKind::Value {
            seq![shape_param_message(kind_of(it))]
        } else {
            Seq::empty()
        },
        None => Seq::empty(),
    }
}

/// What is wrong with the first `n` parameters of a shape.
pub open spec fn shape_param_errors(params: Seq<Green>, n: int) -> Seq<Seq<char>>
    decreases n,
{
    if n <= 0 {
        Seq::empty()
    } else {
        shape_param_errors(params, n - 1) + shape_param_error(params[n - 1])
    }
}

/// What is wrong with the `i`th parameter of an object: it is not of the
/// kind that stands at that place.
pub open spec fn object_param_error(param: Green, i: int) -> Seq<Seq<char>> {
    match param_kind(param) {
        Some(it) => if kind_of(it) != expected_kind(i) {
            seq![object_param_message(expected_kind(i), kind_of(it))]
        } else {
            Seq::empty()
        },
        None => Seq::empty(),
    }
}

/// What is wrong with the first `n` parameters of an object.
pub open spec fn object_param_errors(params: Seq<Green>, n: int) -> Seq<Seq<char>>
    decreases n,
{
    if n <= 0 {
        Seq::empty()
    } else {
        object_param_errors(params, n - 1) + object_param_error(params[n - 1], n - 1)
    }
}

/// What is wrong with a statement.
pub open spec fn stmt_errors(stmt: Green, entries: Map<Seq<char>, usize>) -> Seq<Seq<char>> {
    let params = params_of(stmt);
    if kind_of(stmt) == SyntaxKind::Shape {
        shape_name_errors(stmt, params.len(), entries) + shape_param_errors(
            params,
            params.len() as int,
        )
    } else {
        (if params.len() != 4 {
            seq![object_shape_message()]
        } else {
            Seq::empty()
        }) + object_param_errors(
            params,
            if params.len() < 4 {
                params.len() as int
            } else {
                4
            },
        )
    }
}

/// What the validator has found so far: the messages, and the labels that
/// are defined.
pub struct Checked {
    pub errors: Seq<Seq<char>>,
    pub labels: Set<Seq<char>>,
}

/// A label is looked at: one that is defined already gets a message, a new
/// one is kept. Nothing is said of a label without a name.
pub open spec fn check_label(c: Checked, label: Green) -> Checked {
    match label_text(label) {
        Some(text) => if c.labels.contains(text) {
            Checked { errors: c.errors.push(duplicate_label_message(text)), labels: c.labels }
        } else {
            Checked { errors: c.errors, labels: c.labels.insert(text) }
        },
        None => c,
    }
}

/// A node is looked at: a statement, a label, or anything else.
pub open spec fn check_node(c: Checked, node: Green, entries: Map<Seq<char>, usize>) -> Checked {
    if is_statement(kind_of(node)) {
        Checked { errors: c.errors + stmt_errors(node, entries), labels: c.labels }
    } else if kind_of(node) == SyntaxKind::Label {
        check_label(c, node)
    } else {
        c
    }
}

/// What the validator has found when it has looked at the first `n` of the
/// nodes.
pub open spec fn checked(nodes: Seq<Green>, entries: Map<Seq<char>, usize>, n: int) -> Checked
    decreases n,
{
    if n <= 0 {
        Checked { errors: Seq::empty(), labels: Set::empty() }
    } else {
        check_node(checked(nodes, entries, n - 1), nodes[n - 1], entries)
    }
}

/// All that is wrong with a tree, in the order of the text.
pub open spec fn diagnostics(tree: Green, entries: Map<Seq<char>, usize>) -> Seq<Seq<char>> {
    checked(preorder(tree), entries, preorder(tree).len() as int).errors
}

fn digit(d: usize) -> (r: &'static str)
    requires
        d < 10,
    ensures
        r@ == digit_text(d as nat),
{
    if d == 0 {
        "0"
    } else if d == 1 {
        "1"
    } else if d == 2 {
        "2"
    } else if d == 3 {
        "3"
    } else if d == 4 {
        "4"
    } else if d == 5 {
        "5"
    } else if d == 6 {
        "6"
    } else if d == 7 {
        "7"
    } else if d == 8 {
        "8"
    } else {
        "9"
    }
}

/// A number as text, in decimal digits.
pub fn decimal_string(n: usize) -> (r: String)
    ensures
        r@ == decimal(n as nat),
    decreases n,
{
    if n < 10 {
        String::from_str(digit(n))
    } else {
        let mut r = decimal_string(n / 10);
        r.append(digit(n % 10));
        r
    }
}

/// Checks a whole tree against the registry of shapes, and gathers the
/// messages of all that is wrong, in the order of the text.
pub fn validate(root: &rowan::cursor::SyntaxNode, registry: &Registry) -> (errors: Vec<String>)
    ensures
        texts(errors@) == diagnostics(node_tree(*root), registry@),
{
    let mut errors: Vec<String> = Vec::new();
    let mut vars = StringHashSet::new();
    let nodes = syntax_descendants(root);
    let ghost all = preorder(node_tree(*root));
    let ghost entries = registry@;
    let mut i: usize = 0;
    proof {
        assert(texts(errors@) =~= Seq::<Seq<char>>::empty());
    }
    while i < nodes.len()
        invariant
            0 <= i <= nodes@.len(),
            all == trees(nodes@),
            entries == registry@,
            texts(errors@) == checked(all, entries, i as int).errors,
            vars@ == checked(all, entries, i as int).labels,
        decreases nodes@.len() - i,
    {
        proof {
            assert(all[i as int] == node_tree(nodes@[i as int]));
        }
        match Stmt::cast(syntax_clone(&nodes[i])) {
            Some(it) => {
                validate_stmt(it, registry, &mut errors);
            },
            None => {
                match Label::cast(syntax_clone(&nodes[i])) {
                    Some(it) => {
                        validate_label(it, &mut vars, &mut errors);
                    },
                    None => {},
                }
            },
        }
        i += 1;
    }
    errors
}

/// Checks one statement.
fn validate_stmt(stmt: Stmt, registry: &Registry, e: &mut Vec<String>)
    ensures
        texts(final(e)@) == texts(old(e)@) + stmt_errors(stmt.tree(), registry@),
{
    let ghost before = texts(e@);
    let ghost entries = registry@;
    let params: Vec<Param> = match stmt.params() {
        Some(params) => params.rest(),
        None => Vec::new(),
    };
    let ghost ptrees = params_of(stmt.tree());
    proof {
        assert(trees_of(params@) =~= ptrees);
    }
    match stmt.kind() {
        StmtKind::Shape(shape) => {
            // The name of the shape must be registered
            match shape.name() {
                Some(name) => {
                    match name.try_text() {
                        Some(text) => {
                            if !registry.contains(text.as_str()) {
                                let mut msg = String::from_str("shape `");
                                msg.append(text.as_str());
                                msg.append("` is not recognised");
                                error(e, msg);
                            } else {
                                // with as many parameters as the shape has
                                let arity = match registry.arity(text.as_str()) {
                                    Some(arity) => arity,
                                    None => 0,
                                };
                                if arity != params.len() {
                                    let mut msg = String::from_str("expected to find ");
                                    msg.append(decimal_string(arity).as_str());
                                    msg.append(" args, found ");
                                    msg.append(decimal_string(params.len()).as_str());
                                    error(e, msg);
                                }
                            }
                        },
                        None => {},
                    }
                },
                None => {},
            }
            let ghost named = texts(e@);
            proof {
                assert(named =~= before + shape_name_errors(
                    stmt.tree(),
                    ptrees.len(),
                    entries,
                ));
                assert(named + shape_param_errors(ptrees, 0) =~= named);
            }
            // A shape has numbers as parameters, and nothing else
            let mut i: usize = 0;
            while i < params.len()
                invariant
                    0 <= i <= params@.len(),
                    trees_of(params@) == ptrees,
                    texts(e@) == named + shape_param_errors(ptrees, i as int),
                decreases params@.len() - i,
            {
                proof {
                    assert(ptrees[i as int] == params@[i as int].tree());
                }
                let ghost sofar = texts(e@);
                match params[i].try_kind() {
                    Some(kind) => {
                        let found = kind_of_node(kind.syntax());
                        if found != SyntaxKind::Value {
                            let mut msg = String::from_str(
                                "shapes only have `Value` parameters, found a `",
                            );
                            msg.append(found.name());
                            msg.append("` instead");
                            error(e, msg);
                        }
                    },
                    None => {},
                }
                proof {
                    assert(texts(e@) =~= sofar + shape_param_error(ptrees[i as int]));
                    assert(named + (shape_param_errors(ptrees, i as int) + shape_param_error(
                        ptrees[i as int],
                    )) =~= (named + shape_param_errors(ptrees, i as int)) + shape_param_error(
                        ptrees[i as int],
                    ));
                }
                i += 1;
            }
            proof {
                assert(before + (shape_name_errors(stmt.tree(), ptrees.len(), entries)
                    + shape_param_errors(ptrees, ptrees.len() as int)) =~= (before
                    + shape_name_errors(stmt.tree(), ptrees.len(), entries)) + shape_param_errors(
                    ptrees,
                    ptrees.len() as int,
                ));
            }
        },
        StmtKind::Object(_) => {
            // An object has four parameters
            if params.len() != 4 {
                error(e, String::from_str("objects must be a tuple of [value, x, y, shape]"));
            }
            let ghost counted = texts(e@);
            let ghost count_errors = if ptrees.len() != 4 {
                seq![object_shape_message()]
            } else {
                Seq::<Seq<char>>::empty()
            };
            proof {
                assert(counted =~= before + count_errors);
                assert(counted + object_param_errors(ptrees, 0) =~= counted);
            }
            // and they are [value, value, value, name]
            let n: usize = if params.len() < 4 {
                params.len()
            } else {
                4
            };
            let mut i: usize = 0;
            while i < n
                invariant
                    0 <= i <= n <= params@.len(),
                    n <= 4,
                    trees_of(params@) == ptrees,
                    texts(e@) == counted + object_param_errors(ptrees, i as int),
                decreases n - i,
            {
                proof {
                    assert(ptrees[i as int] == params@[i as int].tree());
                }
                let ghost sofar = texts(e@);
                let expected = if i < 3 {
                    SyntaxKind::Value
                } else {
                    SyntaxKind::Name
                };
                match params[i].try_kind() {
                    Some(kind) => {
                        let found = kind_of_node(kind.syntax());
                        if found != expected {
                            let mut msg = String::from_str("expected to find a `");
                            msg.append(expected.name());
                            msg.append("`, got a `");
                            msg.append(found.name());
                            msg.append("` instead");
                            error(e, msg);
                        }
                    },
                    None => {},
                }
                proof {
                    assert(texts(e@) =~= sofar + object_param_error(ptrees[i as int], i as int));
                    assert(counted + (object_param_errors(ptrees, i as int) + object_param_error(
                        ptrees[i as int],
                        i as int,
                    )) =~= (counted + object_param_errors(ptrees, i as int)) + object_param_error(
                        ptrees[i as int],
                        i as int,
                    ));
                }
                i += 1;
            }
            proof {
                assert(before + (count_errors + object_param_errors(ptrees, n as int)) =~= (before
                    + count_errors) + object_param_errors(ptrees, n as int));
            }
        },
    }
}

/// Checks one label against those that are defined already.
fn validate_label(label: Label, state: &mut StringHashSet, e: &mut Vec<String>)
    ensures
        (Checked { errors: texts(final(e)@), labels: final(state)@ }) == check_label(
            Checked { errors: texts(old(e)@), labels: old(state)@ },
            label.tree(),
        ),
{
    match label.text() {
        Some(text) => {
            let exists = !state.insert(text.clone());
            if exists {
                proof {
                    assert(state@ =~= old(state)@);
                }
                let mut msg = String::from_str("label `");
                msg.append(text.as_str());
                msg.append("` has multiple definitions");
                error(e, msg);
            }
        },
        None => {},
    }
}

/// Adds a message to the list.
fn error(e: &mut Vec<String>, msg: String)
    ensures
        texts(final(e)@) == texts(old(e)@).push(msg@),
{
    proof {
        assert(texts(e@.push(msg)) =~= texts(e@).push(msg@));
    }
    e.push(msg);
}

} // verus!
