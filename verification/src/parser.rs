//! The parser's state and its primitives: a place in the tokens and the list
//! of events so far. The grammar is written with these.

use crate::encoding::str_eq;
use crate::event::steps;
use crate::event::Event;
use crate::event::Step;
use crate::kind::SyntaxKind;
use crate::lexer::Lexeme;
use crate::lexer::Tokens;
use vstd::prelude::*;
use vstd::string::*;

verus! {

/// The kind of the first of the tokens `r`, `Eof` where there is none.
pub open spec fn current_kind(r: Seq<Lexeme>) -> SyntaxKind {
    if r.len() > 0 {
        r[0].kind
    } else {
        SyntaxKind::Eof
    }
}

/// Whether the first of the tokens `r` is of kind `kind`.
pub open spec fn at_kind(r: Seq<Lexeme>, kind: SyntaxKind) -> bool {
    current_kind(r) == kind
}

/// The message that says that a token of kind `kind` is missing.
pub open spec fn expected_message(kind: SyntaxKind) -> Seq<char> {
    "expected "@ + kind.spec_name()
}

/// The parser: the tokens of a text without its trivia, a place in them, and
/// the events so far.
pub struct Parser<'t> {
    tokens: Tokens<'t>,
    pos: usize,
    events: Vec<Event>,
}

/// The place of a `Start` event whose kind is still to be set.
pub struct Marker {
    pos: usize,
}

impl<'t> Parser<'t> {
    /// The tokens that are still to be read.
    pub closed spec fn rest(&self) -> Seq<Lexeme> {
        self.tokens@.skip(self.pos as int)
    }

    /// The events so far.
    pub closed spec fn trace(&self) -> Seq<Step> {
        steps(self.events@)
    }

    /// The place in the tokens lies within them.
    pub closed spec fn well_formed(&self) -> bool {
        &&& self.tokens.well_formed()
        &&& self.pos <= self.tokens@.len()
    }

    /// A parser at the first of the tokens, with no event yet.
    pub fn new(tokens: Tokens<'t>) -> (p: Parser<'t>)
        requires
            tokens.well_formed(),
        ensures
            p.well_formed(),
            p.rest() == tokens@,
            p.trace() == Seq::<Step>::empty(),
    {
        let p = Parser { tokens, pos: 0, events: Vec::new() };
        proof {
            assert(p.tokens@.skip(0) =~= p.tokens@);
            assert(steps(p.events@) =~= Seq::<Step>::empty());
        }
        p
    }

    /// Begins a node whose kind is set when it is finished.
    pub fn start(&mut self) -> (m: Marker)
        requires
            old(self).well_formed(),
        ensures
            final(self).well_formed(),
            final(self).rest() == old(self).rest(),
            final(self).trace() == old(self).trace().push(
                Step::Start { kind: SyntaxKind::Tombstone },
            ),
            m.place() == old(self).trace().len(),
    {
        let pos = self.events.len();
        let e = Event::tombstone();
        proof {
            assert(steps(self.events@.push(e)) =~= steps(self.events@).push(e@));
        }
        self.events.push(e);
        Marker::new(pos)
    }

    /// The events, when parsing is done.
    pub fn finish(self) -> (events: Vec<Event>)
        ensures
            steps(events@) == self.trace(),
    {
        self.events
    }

    /// The kind of the token that comes next.
    pub fn current(&self) -> (kind: SyntaxKind)
        requires
            self.well_formed(),
        ensures
            kind == current_kind(self.rest()),
    {
        self.nth(0)
    }

    /// The kind of the token that comes `n` places behind the next one.
    pub fn nth(&self, n: usize) -> (kind: SyntaxKind)
        requires
            self.well_formed(),
        ensures
            kind == if n < self.rest().len() {
                self.rest()[n as int].kind
            } else {
                SyntaxKind::Eof
            },
    {
        if n > usize::MAX - self.pos {
            SyntaxKind::Eof
        } else {
            self.tokens.kind(self.pos + n)
        }
    }

    /// Whether the token that comes next is of kind `kind`.
    pub fn at(&self, kind: SyntaxKind) -> (r: bool)
        requires
            self.well_formed(),
        ensures
            r == at_kind(self.rest(), kind),
    {
        self.nth(0) == kind
    }

    /// Whether the text of the token that comes next is `text`.
    pub fn at_str(&self, text: &str) -> (r: bool)
        requires
            self.well_formed(),
        ensures
            r == (self.rest().len() > 0 && self.rest()[0].text == text@),
    {
        match self.tokens.text(self.pos) {
            Some(t) => str_eq(t, text),
            None => false,
        }
    }

    /// Reads the next token if it is of kind `kind`.
    pub fn eat(&mut self, kind: SyntaxKind) -> (r: bool)
        requires
            old(self).well_formed(),
            old(self).rest().len() > 0 || kind != SyntaxKind::Eof,
        ensures
            final(self).well_formed(),
            r == at_kind(old(self).rest(), kind),
            r ==> final(self).rest() == old(self).rest().skip(1) && final(self).trace() == old(
                self,
            ).trace().push(Step::Token { kind }),
            !r ==> final(self).rest() == old(self).rest() && final(self).trace() == old(
                self,
            ).trace(),
    {
        if !self.at(kind) {
            return false;
        }
        self.do_bump(kind);
        true
    }

    /// Reads the next token, which is of kind `kind`.
    pub fn bump(&mut self, kind: SyntaxKind)
        requires
            old(self).well_formed(),
            old(self).rest().len() > 0,
            at_kind(old(self).rest(), kind),
        ensures
            final(self).well_formed(),
            final(self).rest() == old(self).rest().skip(1),
            final(self).trace() == old(self).trace().push(Step::Token { kind }),
    {
        self.eat(kind);
    }

    /// Reads the next token, whatever its kind.
    pub fn bump_any(&mut self)
        requires
            old(self).well_formed(),
            old(self).rest().len() > 0,
        ensures
            final(self).well_formed(),
            final(self).rest() == old(self).rest().skip(1),
            final(self).trace() == old(self).trace().push(
                Step::Token { kind: old(self).rest()[0].kind },
            ),
    {
        let kind = self.current();
        self.eat(kind);
    }

    /// Reads the next token and gives it the kind `kind`.
    pub fn bump_remap(&mut self, kind: SyntaxKind)
        requires
            old(self).well_formed(),
            old(self).rest().len() > 0,
        ensures
            final(self).well_formed(),
            final(self).rest() == old(self).rest().skip(1),
            final(self).trace() == old(self).trace().push(Step::Token { kind }),
    {
        self.do_bump(kind);
    }

    /// Records that the text is wrong here, and goes on.
    pub fn error(&mut self, msg: &str)
        requires
            old(self).well_formed(),
        ensures
            final(self).well_formed(),
            final(self).rest() == old(self).rest(),
            final(self).trace() == old(self).trace().push(Step::Error { msg: msg@ }),
    {
        let e = Event::Error { msg: String::from_str(msg) };
        proof {
            assert(steps(self.events@.push(e)) =~= steps(self.events@).push(e@));
        }
        self.events.push(e);
    }

    /// Reads the next token if it is of kind `kind`, and records an error if
    /// it is not.
    pub fn expect(&mut self, kind: SyntaxKind) -> (r: bool)
        requires
            old(self).well_formed(),
            old(self).rest().len() > 0 || kind != SyntaxKind::Eof,
        ensures
            final(self).well_formed(),
            r == at_kind(old(self).rest(), kind),
            r ==> final(self).rest() == old(self).rest().skip(1) && final(self).trace() == old(
                self,
            ).trace().push(Step::Token { kind }),
            !r ==> final(self).rest() == old(self).rest() && final(self).trace() == old(
                self,
            ).trace().push(Step::Error { msg: expected_message(kind) }),
    {
        if self.eat(kind) {
            return true;
        }
        let mut msg = String::from_str("expected ");
        msg.append(kind.name());
        self.error(msg.as_str());
        false
    }

    fn do_bump(&mut self, kind: SyntaxKind)
        requires
            old(self).well_formed(),
            old(self).rest().len() > 0,
        ensures
            final(self).well_formed(),
            final(self).rest() == old(self).rest().skip(1),
            final(self).trace() == old(self).trace().push(Step::Token { kind }),
    {
        let e = Event::Token { kind };
        proof {
            assert(steps(self.events@.push(e)) =~= steps(self.events@).push(e@));
            assert(self.tokens@.skip(self.pos + 1) =~= self.tokens@.skip(self.pos as int).skip(1));
        }
        self.pos += 1;
        self.events.push(e);
    }
}

impl Marker {
    /// The place that the marker holds.
    pub closed spec fn place(&self) -> int {
        self.pos as int
    }

    /// A marker at the event of place `pos`.
    pub fn new(pos: usize) -> (m: Marker)
        ensures
            m.place() == pos,
    {
        Marker { pos }
    }

    /// Ends the node that the marker began, and gives it its kind.
    pub fn finish(self, p: &mut Parser, kind: SyntaxKind)
        requires
            old(p).well_formed(),
            0 <= self.place() < old(p).trace().len(),
            old(p).trace()[self.place()] == (Step::Start { kind: SyntaxKind::Tombstone }),
        ensures
            final(p).well_formed(),
            final(p).rest() == old(p).rest(),
            final(p).trace() == old(p).trace().update(self.place(), Step::Start { kind }).push(
                Step::Finish,
            ),
    {
        let e = Event::Start { kind };
        let f = Event::Finish;
        proof {
            assert(steps(p.events@.update(self.pos as int, e).push(f)) =~= steps(p.events@).update(
                self.pos as int,
                e@,
            ).push(f@));
        }
        p.events.set(self.pos, e);
        p.events.push(f);
    }
}

} // verus!
