//! The lexer: from source text to a flat list of tokens, each a kind and a
//! range of source bytes. Whitespace and comments are tokens too, so the
//! tokens cover the source without a gap.

use crate::encoding::lemma_boundary_after_ascii;
use crate::encoding::lemma_boundary_at;
use crate::encoding::lemma_next_boundary;
use crate::encoding::piece;
use crate::encoding::slice;
use crate::kind::SyntaxKind;
use crate::text::TextRange;
use crate::text::TextSize;
use vstd::prelude::*;
use vstd::string::*;
use vstd::utf8::*;

verus! {

broadcast use {crate::text::lemma_text_size_of, crate::text::lemma_text_size_raw};

/// A token: its kind, and where in the source it stands.
#[derive(Debug, Clone, Copy)]
pub struct Token {
    pub kind: SyntaxKind,
    pub range: TextRange,
}

/// A token as plain values: its kind and the two ends of its range.
pub struct Span {
    pub kind: SyntaxKind,
    pub start: int,
    pub end: int,
}

impl View for Token {
    type V = Span;

    open spec fn view(&self) -> Span {
        Span {
            kind: self.kind,
            start: self.range.spec_start()@ as int,
            end: self.range.spec_end()@ as int,
        }
    }
}

/// The tokens of a list as plain values.
pub open spec fn spans(tokens: Seq<Token>) -> Seq<Span> {
    tokens.map_values(|t: Token| t@)
}

/// Whether a view of the tokens shows the trivia or leaves it out.
#[derive(Clone, Copy, PartialEq, Eq, Structural, PartialOrd, Ord)]
pub enum Trivia {
    Keep,
    Skip,
}

/// The classes of bytes that a token can be a run of.
#[derive(Clone, Copy)]
pub enum Class {
    /// ASCII whitespace
    Whitespace,
    /// Letters and the underscore
    Ident,
    /// Digits and the underscore that separates them
    Digits,
    /// Everything but the end of the line
    Line,
}

/// ASCII whitespace: space, tab, line feed, form feed, carriage return.
pub open spec fn is_whitespace(c: u8) -> bool {
    c == 0x20 || c == 0x09 || c == 0x0a || c == 0x0c || c == 0x0d
}

/// A letter of an identifier: `A` to `Z`, `a` to `z`, or `_`.
pub open spec fn is_ident(c: u8) -> bool {
    (0x41 <= c <= 0x5a) || (0x61 <= c <= 0x7a) || c == 0x5f
}

/// A decimal digit.
pub open spec fn is_digit(c: u8) -> bool {
    0x30 <= c <= 0x39
}

/// One of the seven punctuation characters, with its kind.
pub open spec fn punctuation(c: u8) -> Option<SyntaxKind> {
    if c == 0x3a {
        Some(SyntaxKind::Colon)
    } else if c == 0x3b {
        Some(SyntaxKind::SemiColon)
    } else if c == 0x2c {
        Some(SyntaxKind::Comma)
    } else if c == 0x28 {
        Some(SyntaxKind::OpenRound)
    } else if c == 0x29 {
        Some(SyntaxKind::CloseRound)
    } else if c == 0x5b {
        Some(SyntaxKind::OpenSquare)
    } else if c == 0x5d {
        Some(SyntaxKind::CloseSquare)
    } else {
        None
    }
}

impl Class {
    /// Whether the byte is of the class.
    pub open spec fn holds(self, c: u8) -> bool {
        match self {
            Class::Whitespace => is_whitespace(c),
            Class::Ident => is_ident(c),
            Class::Digits => is_digit(c) || c == 0x5f,
            Class::Line => c != 0x0a,
        }
    }

    fn test(self, c: u8) -> (r: bool)
        ensures
            r == self.holds(c),
    {
        match self {
            Class::Whitespace => whitespace(c),
            Class::Ident => ident(c),
            Class::Digits => (0x30 <= c && c <= 0x39) || c == 0x5f,
            Class::Line => c != 0x0a,
        }
    }
}

/// Where the longest run of bytes of `class` that begins at `i` ends.
pub open spec fn run_end(s: Seq<u8>, i: int, class: Class) -> int
    decreases s.len() - i,
{
    if 0 <= i < s.len() && class.holds(s[i]) {
        run_end(s, i + 1, class)
    } else {
        i
    }
}

/// The token that begins with one of `-`, `.` or a digit at `i`: a numeric
/// literal, or, where a `-` or `.` has no digit behind it, that one character.
pub open spec fn literal_at(s: Seq<u8>, i: int) -> (SyntaxKind, int) {
    let first = s[i];
    if (first == 0x2d || first == 0x2e) && !(i + 1 < s.len() && is_digit(s[i + 1])) {
        (SyntaxKind::Unknown, i + 1)
    } else {
        let j = run_end(s, i + 1, Class::Digits);
        if first != 0x2e && j < s.len() && s[j] == 0x2e {
            (SyntaxKind::Literal, run_end(s, j + 1, Class::Digits))
        } else {
            (SyntaxKind::Literal, j)
        }
    }
}

/// The token that begins at byte `i`: its kind, and where it ends. It is the
/// longest that its first character allows.
pub open spec fn token_at(s: Seq<u8>, i: int) -> (SyntaxKind, int) {
    let first = s[i];
    if is_whitespace(first) {
        (SyntaxKind::Whitespace, run_end(s, i + 1, Class::Whitespace))
    } else if first == 0x2f {
        if i + 1 < s.len() && s[i + 1] == 0x2f {
            (SyntaxKind::Comment, run_end(s, i + 2, Class::Line))
        } else {
            (SyntaxKind::Unknown, i + 1)
        }
    } else if is_ident(first) {
        (SyntaxKind::Ident, run_end(s, i + 1, Class::Ident))
    } else if first == 0x2d || first == 0x2e || is_digit(first) {
        literal_at(s, i)
    } else if punctuation(first) is Some {
        (punctuation(first).unwrap(), i + 1)
    } else {
        (SyntaxKind::Unknown, i + length_of_first_scalar(s.skip(i)))
    }
}

/// The kinds that the lexer gives to tokens.
pub open spec fn is_lexical(kind: SyntaxKind) -> bool {
    kind == SyntaxKind::Whitespace || kind == SyntaxKind::Comment || kind == SyntaxKind::Ident
        || kind == SyntaxKind::Literal || kind == SyntaxKind::Unknown || kind == SyntaxKind::Colon
        || kind == SyntaxKind::SemiColon || kind == SyntaxKind::Comma || kind
        == SyntaxKind::OpenRound || kind == SyntaxKind::CloseRound || kind
        == SyntaxKind::OpenSquare || kind == SyntaxKind::CloseSquare
}

/// The tokens of the bytes from `i` on.
pub open spec fn lex_from(s: Seq<u8>, i: int) -> Seq<Span>
    decreases s.len() - i,
{
    if 0 <= i < s.len() {
        let (kind, end) = token_at(s, i);
        if i < end <= s.len() {
            seq![Span { kind, start: i, end }] + lex_from(s, end)
        } else {
            Seq::empty()
        }
    } else {
        Seq::empty()
    }
}

/// The tokens of a source text, as plain values.
pub open spec fn lexed(text: Seq<char>) -> Seq<Span> {
    lex_from(encode_utf8(text), 0)
}

/// The tokens cover the bytes from first to last: each begins where the one
/// before it ends, none is empty, and each ends where a character ends.
pub open spec fn tiled(spans: Seq<Span>, s: Seq<u8>) -> bool {
    &&& spans.len() == 0 ==> s.len() == 0
    &&& spans.len() > 0 ==> spans[0].start == 0 && spans.last().end == s.len()
    &&& forall|k: int|
        0 <= k < spans.len() ==> {
            &&& (#[trigger] spans[k]).start < spans[k].end <= s.len()
            &&& is_char_boundary(s, spans[k].end)
        }
    &&& forall|i: int, j: int|
        0 <= i && j == i + 1 && j < spans.len() ==> (#[trigger] spans[i]).end == (
        #[trigger] spans[j]).start
}

/// A run of bytes ends at or behind its start and within the bytes, and all
/// that it holds is of its class.
pub proof fn lemma_run_end(s: Seq<u8>, i: int, class: Class)
    requires
        0 <= i <= s.len(),
    ensures
        i <= run_end(s, i, class) <= s.len(),
        forall|k: int| i <= k < run_end(s, i, class) ==> class.holds(#[trigger] s[k]),
        run_end(s, i, class) < s.len() ==> !class.holds(s[run_end(s, i, class)]),
    decreases s.len() - i,
{
    if i < s.len() && class.holds(s[i]) {
        lemma_run_end(s, i + 1, class);
    }
}

/// Every token is at least one byte long, ends within the bytes, and ends
/// where a character ends.
pub proof fn lemma_token_at(s: Seq<u8>, i: int)
    requires
        valid_utf8(s),
        0 <= i < s.len(),
        is_char_boundary(s, i),
    ensures
        i < token_at(s, i).1 <= s.len(),
        is_char_boundary(s, token_at(s, i).1),
{
    let first = s[i];
    let end = token_at(s, i).1;
    lemma_run_end(s, i + 1, Class::Whitespace);
    lemma_run_end(s, i + 1, Class::Ident);
    lemma_run_end(s, i + 1, Class::Digits);
    if first == 0x2f && i + 1 < s.len() && s[i + 1] == 0x2f {
        lemma_run_end(s, i + 2, Class::Line);
        lemma_boundary_at(s, end);
    } else if !is_whitespace(first) && first != 0x2f && !is_ident(first) && !(first == 0x2d
        || first == 0x2e || is_digit(first)) && punctuation(first) is None {
        lemma_next_boundary(s, i);
    } else if (first == 0x2d || first == 0x2e || is_digit(first)) && literal_at(s, i).0
        == SyntaxKind::Literal {
        let j = run_end(s, i + 1, Class::Digits);
        if first != 0x2e && j < s.len() && s[j] == 0x2e {
            lemma_run_end(s, j + 1, Class::Digits);
        }
        assert(s[end - 1] <= 0x7f);
        lemma_boundary_after_ascii(s, end);
    } else {
        assert(s[end - 1] <= 0x7f);
        lemma_boundary_after_ascii(s, end);
    }
}

/// The tokens follow one another from byte `from` to the last byte: none is
/// empty, and each ends where a character ends.
pub open spec fn chained(spans: Seq<Span>, s: Seq<u8>, from: int) -> bool
    decreases spans.len(),
{
    if spans.len() == 0 {
        from == s.len()
    } else {
        &&& spans[0].start == from
        &&& from < spans[0].end <= s.len()
        &&& is_char_boundary(s, spans[0].end)
        &&& chained(spans.drop_first(), s, spans[0].end)
    }
}

/// The tokens from a place where a character begins follow one another to the
/// end of the bytes.
pub proof fn lemma_lex_from_chained(s: Seq<u8>, i: int)
    requires
        valid_utf8(s),
        0 <= i <= s.len(),
        is_char_boundary(s, i),
    ensures
        chained(lex_from(s, i), s, i),
    decreases s.len() - i,
{
    if i < s.len() {
        lemma_token_at(s, i);
        let (kind, end) = token_at(s, i);
        lemma_lex_from_chained(s, end);
        assert(lex_from(s, i).drop_first() =~= lex_from(s, end));
    }
}

/// Tokens that follow one another from the first byte cover the bytes.
pub proof fn lemma_chained(spans: Seq<Span>, s: Seq<u8>, from: int)
    requires
        chained(spans, s, from),
        0 <= from,
    ensures
        spans.len() == 0 ==> from == s.len(),
        spans.len() > 0 ==> spans[0].start == from && spans.last().end == s.len(),
        forall|k: int|
            0 <= k < spans.len() ==> {
                &&& (#[trigger] spans[k]).start < spans[k].end <= s.len()
                &&& is_char_boundary(s, spans[k].end)
            },
        forall|i: int, j: int|
            0 <= i && j == i + 1 && j < spans.len() ==> (#[trigger] spans[i]).end == (
            #[trigger] spans[j]).start,
    decreases spans.len(),
{
    if spans.len() > 0 {
        let rest = spans.drop_first();
        lemma_chained(rest, s, spans[0].end);
        assert forall|k: int| 0 <= k < spans.len() implies {
            &&& (#[trigger] spans[k]).start < spans[k].end <= s.len()
            &&& is_char_boundary(s, spans[k].end)
        } by {
            if k > 0 {
                assert(spans[k] == rest[k - 1]);
            }
        }
        assert forall|i: int, j: int| 0 <= i && j == i + 1 && j < spans.len() implies (
        #[trigger] spans[i]).end == (#[trigger] spans[j]).start by {
            assert(spans[j] == rest[j - 1]);
            if i > 0 {
                assert(spans[i] == rest[i - 1]);
            }
        }
        if rest.len() > 0 {
            assert(spans.last() == rest.last());
        }
    }
}

/// Every token of a text is of a kind that the lexer gives.
pub proof fn lemma_lex_from_lexical(s: Seq<u8>, i: int)
    ensures
        forall|k: int| 0 <= k < lex_from(s, i).len() ==> is_lexical((#[trigger] lex_from(s, i)[k]).kind),
    decreases s.len() - i,
{
    if 0 <= i < s.len() {
        let (kind, end) = token_at(s, i);
        if i < end <= s.len() {
            lemma_lex_from_lexical(s, end);
            let rest = lex_from(s, end);
            let all = lex_from(s, i);
            assert forall|k: int| 0 <= k < all.len() implies is_lexical((#[trigger] all[k]).kind) by {
                if k > 0 {
                    assert(all[k] == rest[k - 1]);
                }
            }
        }
    }
}

/// The tokens of a text cover its bytes without a gap or an overlap.
pub proof fn lemma_lexed_tiled(text: Seq<char>)
    ensures
        tiled(lexed(text), encode_utf8(text)),
{
    let s = encode_utf8(text);
    encode_utf8_valid_utf8(text);
    is_char_boundary_start_end_of_seq(s);
    lemma_lex_from_chained(s, 0);
    lemma_chained(lexed(text), s, 0);
}

fn whitespace(c: u8) -> (r: bool)
    ensures
        r == is_whitespace(c),
{
    c == 0x20 || c == 0x09 || c == 0x0a || c == 0x0c || c == 0x0d
}

fn ident(c: u8) -> (r: bool)
    ensures
        r == is_ident(c),
{
    (0x41 <= c && c <= 0x5a) || (0x61 <= c && c <= 0x7a) || c == 0x5f
}

/// A reader over the bytes of one token: it begins at `start` and has eaten
/// `ate` bytes.
pub(crate) struct Cursor<'a> {
    bytes: &'a [u8],
    start: usize,
    ate: u32,
}

impl<'a> Cursor<'a> {
    pub(crate) closed spec fn well_formed(&self) -> bool {
        self.start + self.ate <= self.bytes@.len() <= u32::MAX
    }

    pub(crate) closed spec fn source(&self) -> Seq<u8> {
        self.bytes@
    }

    pub(crate) closed spec fn origin(&self) -> int {
        self.start as int
    }

    /// The place of the next byte to eat.
    pub(crate) closed spec fn place(&self) -> int {
        self.start + self.ate
    }

    fn new(bytes: &'a [u8], start: usize) -> (c: Cursor<'a>)
        requires
            start < bytes@.len() <= u32::MAX,
        ensures
            c.well_formed(),
            c.source() == bytes@,
            c.origin() == start,
            c.place() == start,
    {
        Cursor { bytes, start, ate: 0 }
    }

    fn peek(&self) -> (r: Option<u8>)
        requires
            self.well_formed(),
        ensures
            r == if self.place() < self.source().len() {
                Some(self.source()[self.place()])
            } else {
                None
            },
    {
        let at = self.start + self.ate as usize;
        if at < self.bytes.len() {
            Some(self.bytes[at])
        } else {
            None
        }
    }

    fn eat(&mut self) -> (r: Option<u8>)
        requires
            old(self).well_formed(),
            old(self).place() < old(self).source().len(),
        ensures
            final(self).well_formed(),
            final(self).source() == old(self).source(),
            final(self).origin() == old(self).origin(),
            final(self).place() == old(self).place() + 1,
            r == Some(old(self).source()[old(self).place()]),
    {
        let at = self.start + self.ate as usize;
        self.ate += 1;
        Some(self.bytes[at])
    }

    fn eat_while(&mut self, class: Class) -> (n: u32)
        requires
            old(self).well_formed(),
        ensures
            final(self).well_formed(),
            final(self).source() == old(self).source(),
            final(self).origin() == old(self).origin(),
            final(self).place() == run_end(old(self).source(), old(self).place(), class),
            n == final(self).place() - old(self).place(),
    {
        let mut ate: u32 = 0;
        loop
            invariant
                self.well_formed(),
                self.source() == old(self).source(),
                self.origin() == old(self).origin(),
                self.place() == old(self).place() + ate,
                run_end(self.source(), self.place(), class) == run_end(
                    old(self).source(),
                    old(self).place(),
                    class,
                ),
            ensures
                self.place() == run_end(old(self).source(), old(self).place(), class),
            decreases self.source().len() - self.place(),
        {
            match self.peek() {
                Some(c) => {
                    if class.test(c) {
                        self.eat();
                        ate += 1;
                    } else {
                        break ;
                    }
                },
                None => {
                    break ;
                },
            }
        }
        ate
    }

    /// Reads one token, and says of which kind it is.
    fn next(&mut self) -> (kind: SyntaxKind)
        requires
            old(self).well_formed(),
            old(self).place() == old(self).origin(),
            old(self).origin() < old(self).source().len(),
            valid_utf8(old(self).source()),
            is_char_boundary(old(self).source(), old(self).origin()),
        ensures
            final(self).well_formed(),
            final(self).source() == old(self).source(),
            final(self).origin() == old(self).origin(),
            (kind, final(self).place()) == token_at(old(self).source(), old(self).origin()),
    {
        let first = match self.eat() {
            Some(c) => c,
            None => unreached(),
        };
        if whitespace(first) {
            self.eat_while(Class::Whitespace);
            SyntaxKind::Whitespace
        } else if first == 0x2f {
            match self.peek() {
                Some(0x2f) => {
                    self.eat();
                    self.eat_while(Class::Line);
                    SyntaxKind::Comment
                },
                _ => SyntaxKind::Unknown,
            }
        } else if ident(first) {
            self.eat_while(Class::Ident);
            SyntaxKind::Ident
        } else if first == 0x2d || first == 0x2e || (0x30 <= first && first <= 0x39) {
            self.literal(first)
        } else if first == 0x3a {
            SyntaxKind::Colon
        } else if first == 0x3b {
            SyntaxKind::SemiColon
        } else if first == 0x2c {
            SyntaxKind::Comma
        } else if first == 0x28 {
            SyntaxKind::OpenRound
        } else if first == 0x29 {
            SyntaxKind::CloseRound
        } else if first == 0x5b {
            SyntaxKind::OpenSquare
        } else if first == 0x5d {
            SyntaxKind::CloseSquare
        } else {
            proof {
                lemma_next_boundary(self.source(), self.origin());
                is_char_boundary_iff_is_leading_byte(self.source(), self.origin());
                assert(self.source().skip(self.origin())[0] == first);
            }
            if first >= 0xc0 {
                self.eat();
            }
            if first >= 0xe0 {
                self.eat();
            }
            if first >= 0xf0 {
                self.eat();
            }
            SyntaxKind::Unknown
        }
    }

    /// Reads the rest of a token that began with `first`, one of `-`, `.` or a
    /// digit. The forms of a literal are `0`, `0.`, `0.0`, `.0`, `-0`, `-0.0`.
    fn literal(&mut self, first: u8) -> (kind: SyntaxKind)
        requires
            old(self).well_formed(),
            old(self).place() == old(self).origin() + 1,
            first == old(self).source()[old(self).origin()],
            first == 0x2d || first == 0x2e || is_digit(first),
        ensures
            final(self).well_formed(),
            final(self).source() == old(self).source(),
            final(self).origin() == old(self).origin(),
            (kind, final(self).place()) == literal_at(old(self).source(), old(self).origin()),
    {
        if first == 0x2d || first == 0x2e {
            let digit_follows = match self.peek() {
                Some(c) => 0x30 <= c && c <= 0x39,
                None => false,
            };
            if !digit_follows {
                return SyntaxKind::Unknown;
            }
        }
        self.eat_while(Class::Digits);
        if first != 0x2e {
            match self.peek() {
                Some(0x2e) => {
                    self.eat();
                    self.eat_while(Class::Digits);
                },
                _ => {},
            }
        }
        SyntaxKind::Literal
    }
}

/// A source text together with its tokens.
pub struct LexedStr<'t> {
    source: &'t str,
    tokens: Vec<Token>,
}

/// A view of the tokens of a text: all of them, or all but the trivia.
pub struct Tokens<'t> {
    pub source: &'t str,
    tokens: &'t [Token],
    idxs: Vec<usize>,
}

/// The places of the tokens among the first `n` that a view shows.
pub open spec fn shown(spans: Seq<Span>, trivia: Trivia, n: int) -> Seq<int>
    decreases n,
{
    if n <= 0 {
        Seq::empty()
    } else if trivia == Trivia::Skip && spans[n - 1].kind.is_trivia() {
        shown(spans, trivia, n - 1)
    } else {
        shown(spans, trivia, n - 1).push(n - 1)
    }
}

/// What the grammar sees of a token: its kind and its text.
pub struct Lexeme {
    pub kind: SyntaxKind,
    pub text: Seq<char>,
}

/// The token `span` of the bytes `s`, as the grammar sees it.
pub open spec fn lexeme(s: Seq<u8>, span: Span) -> Lexeme {
    Lexeme { kind: span.kind, text: piece(s, span.start, span.end) }
}

/// The tokens of `spans` that a view shows, each as the grammar sees it.
pub open spec fn lexemes_of(s: Seq<u8>, spans: Seq<Span>, trivia: Trivia) -> Seq<Lexeme> {
    Seq::new(
        shown(spans, trivia, spans.len() as int).len(),
        |j: int| lexeme(s, spans[shown(spans, trivia, spans.len() as int)[j]]),
    )
}

/// The places that a view shows lie within the tokens, in rising order.
pub proof fn lemma_shown(spans: Seq<Span>, trivia: Trivia, n: int)
    requires
        0 <= n <= spans.len(),
    ensures
        shown(spans, trivia, n).len() <= n,
        trivia == Trivia::Keep ==> shown(spans, trivia, n).len() == n,
        forall|j: int|
            0 <= j < shown(spans, trivia, n).len() ==> {
                &&& j <= (#[trigger] shown(spans, trivia, n)[j]) < n
                &&& trivia == Trivia::Keep ==> shown(spans, trivia, n)[j] == j
                &&& trivia == Trivia::Skip ==> !spans[shown(spans, trivia, n)[j]].kind.is_trivia()
            },
    decreases n,
{
    if n > 0 {
        lemma_shown(spans, trivia, n - 1);
    }
}

impl<'t> LexedStr<'t> {
    /// The text that was lexed.
    pub closed spec fn source_text(&self) -> Seq<char> {
        self.source@
    }

    /// The tokens, as plain values.
    pub closed spec fn spans(&self) -> Seq<Span> {
        spans(self.tokens@)
    }

    /// The tokens cover the text, which is within the size that a range can hold.
    pub open spec fn well_formed(&self) -> bool {
        &&& encode_utf8(self.source_text()).len() <= u32::MAX
        &&& tiled(self.spans(), encode_utf8(self.source_text()))
    }

    /// Every token is of a kind that the lexer gives.
    pub open spec fn lexical(&self) -> bool {
        forall|k: int| 0 <= k < self.spans().len() ==> is_lexical((#[trigger] self.spans()[k]).kind)
    }

    /// The tokens that a view shows, each as the grammar sees it.
    pub open spec fn lexemes(&self, trivia: Trivia) -> Seq<Lexeme> {
        lexemes_of(encode_utf8(self.source_text()), self.spans(), trivia)
    }

    /// A text with tokens that were made for it.
    pub fn new(source: &'t str, tokens: Vec<Token>) -> (r: LexedStr<'t>)
        ensures
            r.source_text() == source@,
            r.spans() == spans(tokens@),
    {
        LexedStr { source, tokens }
    }

    /// The tokens of the text: all of them, or those that are no trivia.
    pub fn tokens(&self, trivia: Trivia) -> (r: Tokens<'_>)
        ensures
            r.source_text() == self.source_text(),
            r.spans() == self.spans(),
            r.places() == shown(self.spans(), trivia, self.spans().len() as int),
            r@ == self.lexemes(trivia),
            self.well_formed() ==> r.well_formed(),
            trivia == Trivia::Keep ==> r.whole(),
    {
        let mut idxs: Vec<usize> = Vec::new();
        let mut i: usize = 0;
        while i < self.tokens.len()
            invariant
                0 <= i <= self.tokens@.len(),
                idxs@.map_values(|i: usize| i as int) == shown(spans(self.tokens@), trivia, i as int),
            decreases self.tokens@.len() - i,
        {
            let skip = match trivia {
                Trivia::Skip => self.tokens[i].kind.is_trivia(),
                Trivia::Keep => false,
            };
            if !skip {
                proof {
                    assert(idxs@.push(i).map_values(|i: usize| i as int) =~= idxs@.map_values(
                        |i: usize| i as int,
                    ).push(i as int));
                }
                idxs.push(i);
            }
            i += 1;
        }
        proof {
            lemma_shown(spans(self.tokens@), trivia, self.tokens@.len() as int);
            if trivia == Trivia::Keep {
                assert(shown(spans(self.tokens@), trivia, self.tokens@.len() as int) =~= Seq::new(
                    spans(self.tokens@).len(),
                    |j: int| j,
                ));
            }
        }
        let r = Tokens { source: self.source, tokens: self.tokens.as_slice(), idxs };
        proof {
            assert(r@ =~= self.lexemes(trivia));
        }
        r
    }
}

impl<'t> Tokens<'t> {
    /// The text that the tokens are of.
    pub closed spec fn source_text(&self) -> Seq<char> {
        self.source@
    }

    /// All the tokens of the text, as plain values.
    pub closed spec fn spans(&self) -> Seq<Span> {
        spans(self.tokens@)
    }

    /// The places, among all the tokens, of those that this view shows.
    pub closed spec fn places(&self) -> Seq<int> {
        self.idxs@.map_values(|i: usize| i as int)
    }

    /// The tokens cover the text, and the places that the view shows are places
    /// of tokens.
    pub open spec fn well_formed(&self) -> bool {
        &&& encode_utf8(self.source_text()).len() <= u32::MAX
        &&& tiled(self.spans(), encode_utf8(self.source_text()))
        &&& self.places().len() <= usize::MAX
        &&& forall|j: int|
            0 <= j < self.places().len() ==> 0 <= (#[trigger] self.places()[j]) < self.spans().len()
    }

    /// The view shows all the tokens.
    pub open spec fn whole(&self) -> bool {
        self.places() == Seq::new(self.spans().len(), |j: int| j)
    }

    /// The tokens that the view shows, each as the grammar sees it.
    pub open spec fn view(&self) -> Seq<Lexeme> {
        Seq::new(
            self.places().len(),
            |j: int| lexeme(encode_utf8(self.source_text()), self.spans()[self.places()[j]]),
        )
    }

    /// The `j`th token that the view shows, as plain values.
    pub open spec fn shown_span(&self, j: int) -> Span {
        self.spans()[self.places()[j]]
    }

    /// The `n`th token that the view shows.
    pub fn get(&self, n: usize) -> (r: Option<&Token>)
        requires
            self.well_formed(),
        ensures
            n < self.places().len() ==> r.is_some() && r.unwrap()@ == self.shown_span(n as int),
            n >= self.places().len() ==> r.is_none(),
    {
        if n < self.idxs.len() {
            let i = self.idxs[n];
            Some(&self.tokens[i])
        } else {
            None
        }
    }

    /// The kind of the `n`th token that the view shows, `Eof` behind the last.
    pub fn kind(&self, n: usize) -> (r: SyntaxKind)
        requires
            self.well_formed(),
        ensures
            r == if n < self@.len() {
                self@[n as int].kind
            } else {
                SyntaxKind::Eof
            },
    {
        match self.get(n) {
            Some(t) => t.kind,
            None => SyntaxKind::Eof,
        }
    }

    /// The text of the `n`th token that the view shows.
    pub fn text(&self, n: usize) -> (r: Option<&str>)
        requires
            self.well_formed(),
        ensures
            n < self@.len() ==> r.is_some() && r.unwrap()@ == self@[n as int].text,
            n >= self@.len() ==> r.is_none(),
    {
        match self.get(n) {
            Some(t) => {
                let start = t.range.start().to_usize();
                let end = t.range.end().to_usize();
                proof {
                    let s = encode_utf8(self.source_text());
                    let k = self.places()[n as int];
                    encode_utf8_valid_utf8(self.source_text());
                    if k == 0 {
                        is_char_boundary_start_end_of_seq(s);
                    } else {
                        assert(self.spans()[k - 1].end == self.spans()[k].start);
                    }
                }
                Some(slice(self.source, start, end))
            },
            None => None,
        }
    }

    /// How many tokens the text has, trivia included.
    pub fn len(&self) -> (r: usize)
        ensures
            r == self.spans().len(),
    {
        self.tokens.len()
    }
}

/// Splits a text into its tokens. Nothing is left out and nothing is refused:
/// what fits no rule is a token of kind `Unknown`, one character long.
pub fn lex(text: &str) -> (r: LexedStr<'_>)
    requires
        text.spec_bytes().len() <= u32::MAX,
    ensures
        r.source_text() == text@,
        r.spans() == lexed(text@),
        r.well_formed(),
        r.lexical(),
{
    let bytes = text.as_bytes();
    let mut tokens: Vec<Token> = Vec::new();
    let mut pos: usize = 0;
    proof {
        encode_utf8_valid_utf8(text@);
        is_char_boundary_start_end_of_seq(bytes@);
    }
    while pos < bytes.len()
        invariant
            bytes@ == encode_utf8(text@),
            valid_utf8(bytes@),
            bytes@.len() <= u32::MAX,
            0 <= pos <= bytes@.len(),
            is_char_boundary(bytes@, pos as int),
            lex_from(bytes@, 0) == spans(tokens@) + lex_from(bytes@, pos as int),
        decreases bytes@.len() - pos,
    {
        let mut c = Cursor::new(bytes, pos);
        let kind = c.next();
        let len = c.ate;
        proof {
            lemma_token_at(bytes@, pos as int);
        }
        let tok = Token {
            kind,
            range: TextRange::at(TextSize::from(pos as u32), TextSize::from(len)),
        };
        proof {
            let end = token_at(bytes@, pos as int).1;
            assert(tok@ == Span { kind, start: pos as int, end });
            assert(spans(tokens@.push(tok)) =~= spans(tokens@).push(tok@));
            assert(spans(tokens@.push(tok)) + lex_from(bytes@, end) =~= spans(tokens@) + lex_from(
                bytes@,
                pos as int,
            ));
        }
        tokens.push(tok);
        pos += len as usize;
    }
    proof {
        assert(spans(tokens@) + Seq::<Span>::empty() =~= spans(tokens@));
        lemma_lexed_tiled(text@);
        lemma_lex_from_lexical(bytes@, 0);
    }
    LexedStr::new(text, tokens)
}

} // verus!
