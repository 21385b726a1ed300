//! The events that the parser hands to the tree builder: a flat list in which
//! `Start` and `Finish` bracket the nodes.

use crate::builder::TreeBuilder;
use crate::kind::SyntaxKind;
use vstd::prelude::*;

verus! {

/// One step of building a tree.
#[derive(Debug)]
pub enum Event {
    /// A node of this kind begins. The kind `Tombstone` holds the place of a
    /// kind that is not known yet.
    Start { kind: SyntaxKind },
    /// The next token of the text, under this kind.
    Token { kind: SyntaxKind },
    /// The node that began last, and has not ended yet, ends.
    Finish,
    /// The text is wrong here.
    Error { msg: String },
}

/// An event as plain values.
pub enum Step {
    Start { kind: SyntaxKind },
    Token { kind: SyntaxKind },
    Finish,
    Error { msg: Seq<char> },
}

impl View for Event {
    type V = Step;

    open spec fn view(&self) -> Step {
        match self {
            Event::Start { kind } => Step::Start { kind: *kind },
            Event::Token { kind } => Step::Token { kind: *kind },
            Event::Finish => Step::Finish,
            Event::Error { msg } => Step::Error { msg: msg@ },
        }
    }
}

/// The events of a list as plain values.
pub open spec fn steps(events: Seq<Event>) -> Seq<Step> {
    events.map_values(|e: Event| e@)
}

impl Event {
    /// The start of a node whose kind is not known yet.
    pub fn tombstone() -> (e: Event)
        ensures
            e@ == (Step::Start { kind: SyntaxKind::Tombstone }),
    {
        Event::Start { kind: SyntaxKind::Tombstone }
    }
}

/// Hands the events to the tree builder, from first to last. A `Start` whose
/// kind is still `Tombstone` begins no node.
pub fn process(tb: &mut TreeBuilder, events: Vec<Event>)
    requires
        old(tb).well_formed(),
        old(tb)@.can_run(old(tb).lexemes(), steps(events@)),
    ensures
        final(tb).well_formed(),
        final(tb).lexemes() == old(tb).lexemes(),
        final(tb)@ == old(tb)@.run(old(tb).lexemes(), steps(events@)),
{
    let ghost all = steps(events@);
    let ghost toks = tb.lexemes();
    let mut i: usize = 0;
    proof {
        assert(all.skip(0) =~= all);
    }
    while i < events.len()
        invariant
            0 <= i <= events@.len(),
            all == steps(events@),
            tb.well_formed(),
            tb.lexemes() == toks,
            tb@.can_run(toks, all.skip(i as int)),
            tb@.run(toks, all.skip(i as int)) == old(tb)@.run(toks, all),
        decreases events@.len() - i,
    {
        proof {
            assert(all.skip(i as int)[0] == events@[i as int]@);
            assert(all.skip(i as int).drop_first() =~= all.skip(i + 1));
        }
        match &events[i] {
            Event::Start { kind } => {
                if *kind != SyntaxKind::Tombstone {
                    tb.start_node(*kind);
                }
            },
            Event::Token { kind } => tb.token(*kind),
            Event::Finish => tb.finish_node(),
            Event::Error { msg } => tb.error(msg.clone()),
        }
        i += 1;
    }
}

} // verus!
