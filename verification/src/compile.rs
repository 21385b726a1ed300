//! The one entry point: from a text to its syntax tree, or to all that is
//! wrong with it.

use crate::encoding::texts;
use crate::green::tree_text;
use crate::green::Green;
use crate::lexer::lex;
use crate::parse::parse;
use crate::parse::syntax_errors;
use crate::parse::syntax_tree;
use crate::parse::Parse;
use crate::registry::Registry;
use crate::shaped::shaped;
use crate::validation::diagnostics;
use crate::validation::validate;
use vstd::prelude::*;
use vstd::string::*;

verus! {

/// All that is wrong with a text: its syntax errors, then what the validator
/// finds in its tree, each in the order of the text.
pub open spec fn problems(text: Seq<char>, entries: Map<Seq<char>, usize>) -> Seq<Seq<char>> {
    syntax_errors(text) + diagnostics(syntax_tree(text), entries)
}

/// What compiling a text gives: its syntax tree where nothing is wrong with
/// it, else the messages of all that is.
pub open spec fn compiled(text: Seq<char>, entries: Map<Seq<char>, usize>) -> Result<
    Green,
    Seq<Seq<char>>,
> {
    if problems(text, entries).len() == 0 {
        Ok(syntax_tree(text))
    } else {
        Err(problems(text, entries))
    }
}

/// What `compile` has given, as plain values.
pub open spec fn outcome(r: Result<Parse, Vec<String>>) -> Result<Green, Seq<Seq<char>>> {
    match r {
        Ok(parse) => Ok(parse.tree()),
        Err(errors) => Err(texts(errors@)),
    }
}

/// Compiles a text: lexes it, parses it and validates it against the registry
/// of shapes. The text is accepted where nothing at all is wrong with it;
/// else all the messages come back, none held back by an earlier one.
pub fn compile(text: &str, registry: &Registry) -> (r: Result<Parse, Vec<String>>)
    requires
        text.spec_bytes().len() <= u32::MAX,
    ensures
        outcome(r) == compiled(text@, registry@),
        r is Ok ==> tree_text(r.unwrap().tree()) == text@,
        r is Ok ==> r.unwrap().messages().len() == 0,
        r is Ok ==> shaped(r.unwrap().tree()),
{
    let lexed = lex(text);
    let parse = parse(&lexed);
    let mut errors: Vec<String> = Vec::new();
    let found = parse.errors();
    let mut i: usize = 0;
    proof {
        assert(texts(errors@) =~= texts(found@).take(0));
    }
    while i < found.len()
        invariant
            0 <= i <= found@.len(),
            texts(errors@) == texts(found@).take(i as int),
        decreases found@.len() - i,
    {
        let msg = found[i].clone();
        proof {
            assert(msg@ == found@[i as int]@);
            assert(texts(errors@.push(msg)) =~= texts(errors@).push(msg@));
            assert(texts(found@).take(i + 1) =~= texts(found@).take(i as int).push(msg@));
        }
        errors.push(msg);
        i += 1;
    }
    proof {
        assert(texts(found@).take(found@.len() as int) =~= texts(found@));
    }
    let checked = validate(&parse.syntax(), registry);
    let mut j: usize = 0;
    let ghost first = texts(errors@);
    proof {
        assert(first + texts(checked@).take(0) =~= first);
    }
    while j < checked.len()
        invariant
            0 <= j <= checked@.len(),
            texts(errors@) == first + texts(checked@).take(j as int),
        decreases checked@.len() - j,
    {
        let msg = checked[j].clone();
        proof {
            assert(msg@ == checked@[j as int]@);
            assert(texts(errors@.push(msg)) =~= texts(errors@).push(msg@));
            assert(texts(checked@).take(j + 1) =~= texts(checked@).take(j as int).push(msg@));
            assert(first + texts(checked@).take(j as int).push(msg@) =~= (first + texts(
                checked@,
            ).take(j as int)).push(msg@));
        }
        errors.push(msg);
        j += 1;
    }
    proof {
        assert(texts(checked@).take(checked@.len() as int) =~= texts(checked@));
    }
    if errors.len() != 0 {
        return Err(errors);
    }
    Ok(parse)
}

/// Compiling is a function of the text and the registry: two runs on the same
/// text with the same registry give the same tree, or the same messages.
pub proof fn lemma_compile_deterministic(
    text: Seq<char>,
    entries: Map<Seq<char>, usize>,
    first: Result<Green, Seq<Seq<char>>>,
    second: Result<Green, Seq<Seq<char>>>,
)
    requires
        first == compiled(text, entries),
        second == compiled(text, entries),
    ensures
        first == second,
{
}

} // verus!
