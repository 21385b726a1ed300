//! Facts about UTF-8 that the lexer and the tree builder rest on: where the
//! characters of a valid byte sequence begin, and how the text of a sequence is
//! made of the texts of its pieces.

use vstd::prelude::*;
use vstd::string::*;
use vstd::utf8::*;

verus! {

/// The text that the bytes from `start` up to `end` encode.
pub open spec fn piece(s: Seq<u8>, start: int, end: int) -> Seq<char> {
    decode_utf8(s.subrange(start, end))
}

/// The texts of a list of strings.
pub open spec fn texts(strings: Seq<String>) -> Seq<Seq<char>> {
    strings.map_values(|s: String| s@)
}

/// Two strings with the same bytes are the same string.
pub proof fn lemma_same_bytes_same_text(a: Seq<char>, b: Seq<char>)
    requires
        encode_utf8(a) == encode_utf8(b),
    ensures
        a == b,
{
    encode_utf8_decode_utf8(a);
    encode_utf8_decode_utf8(b);
}

/// After the character that begins at `i` comes the next character, or the end.
pub proof fn lemma_next_boundary(s: Seq<u8>, i: int)
    requires
        valid_utf8(s),
        0 <= i < s.len(),
        is_char_boundary(s, i),
    ensures
        1 <= length_of_first_scalar(s.skip(i)) <= 4,
        i + length_of_first_scalar(s.skip(i)) <= s.len(),
        is_char_boundary(s, i + length_of_first_scalar(s.skip(i))),
{
    reveal_with_fuel(valid_utf8, 2);
    valid_utf8_split(s, i);
    let suffix = s.subrange(i, s.len() as int);
    assert(suffix =~= s.skip(i));
    let w = length_of_first_scalar(suffix);
    let rest = pop_first_scalar(suffix);
    assert(valid_first_scalar(suffix));
    assert(valid_utf8(rest));
    if i + w == s.len() {
        is_char_boundary_start_end_of_seq(s);
    } else {
        assert(rest.len() > 0);
        assert(valid_first_scalar(rest));
        assert(rest[0] == s[i + w]);
        is_char_boundary_iff_not_is_continuation_byte(s, i + w);
    }
}

/// A character begins wherever the byte before is an ASCII byte.
pub proof fn lemma_boundary_after_ascii(s: Seq<u8>, e: int)
    requires
        valid_utf8(s),
        0 < e <= s.len(),
        s[e - 1] <= 0x7f,
    ensures
        is_char_boundary(s, e),
{
    is_char_boundary_iff_not_is_continuation_byte(s, e - 1);
    lemma_next_boundary(s, e - 1);
    assert(s.skip(e - 1)[0] == s[e - 1]);
}

/// A character begins at every byte that is no continuation byte, and at the end.
pub proof fn lemma_boundary_at(s: Seq<u8>, e: int)
    requires
        valid_utf8(s),
        0 <= e <= s.len(),
        e < s.len() ==> !is_continuation_byte(s[e]),
    ensures
        is_char_boundary(s, e),
{
    if e == s.len() {
        is_char_boundary_start_end_of_seq(s);
    } else {
        is_char_boundary_iff_not_is_continuation_byte(s, e);
    }
}

/// A place where a character begins is one in every prefix that reaches it.
pub proof fn lemma_boundary_in_prefix(s: Seq<u8>, i: int, j: int)
    requires
        valid_utf8(s),
        0 <= i <= j <= s.len(),
        is_char_boundary(s, i),
        is_char_boundary(s, j),
    ensures
        valid_utf8(s.subrange(0, j)),
        is_char_boundary(s.subrange(0, j), i),
{
    valid_utf8_split(s, j);
    let head = s.subrange(0, j);
    if i == j {
        is_char_boundary_start_end_of_seq(head);
    } else {
        is_char_boundary_iff_not_is_continuation_byte(s, i);
        assert(head[i] == s[i]);
        is_char_boundary_iff_not_is_continuation_byte(head, i);
    }
}

/// The text up to `j` is the text up to `i` followed by the text from `i` to `j`.
pub proof fn lemma_piece_join(s: Seq<u8>, i: int, j: int)
    requires
        valid_utf8(s),
        0 <= i <= j <= s.len(),
        is_char_boundary(s, i),
        is_char_boundary(s, j),
    ensures
        piece(s, 0, j) == piece(s, 0, i) + piece(s, i, j),
{
    lemma_boundary_in_prefix(s, i, j);
    let head = s.subrange(0, j);
    decode_utf8_split(head, i);
    assert(head.subrange(0, i) =~= s.subrange(0, i));
    assert(head.subrange(i, head.len() as int) =~= s.subrange(i, j));
}

/// The whole text is the text of all the bytes.
pub proof fn lemma_piece_all(text: Seq<char>)
    ensures
        piece(encode_utf8(text), 0, encode_utf8(text).len() as int) == text,
{
    let s = encode_utf8(text);
    assert(s.subrange(0, s.len() as int) =~= s);
    encode_utf8_decode_utf8(text);
}

/// Whether two slices hold the same bytes.
pub(crate) fn bytes_eq(a: &[u8], b: &[u8]) -> (r: bool)
    ensures
        r == (a@ == b@),
{
    if a.len() != b.len() {
        return false;
    }
    let mut i: usize = 0;
    while i < a.len()
        invariant
            a@.len() == b@.len(),
            0 <= i <= a@.len(),
            forall|k: int| 0 <= k < i ==> a@[k] == b@[k],
        decreases a@.len() - i,
    {
        if a[i] != b[i] {
            return false;
        }
        i += 1;
    }
    assert(a@ =~= b@);
    true
}

/// Whether two strings are the same text.
pub(crate) fn str_eq(a: &str, b: &str) -> (r: bool)
    ensures
        r == (a@ == b@),
{
    let same = bytes_eq(a.as_bytes(), b.as_bytes());
    proof {
        if same {
            lemma_same_bytes_same_text(a@, b@);
        }
    }
    same
}

/// The part of `text` from byte `start` up to byte `end`.
pub(crate) fn slice<'a>(text: &'a str, start: usize, end: usize) -> (r: &'a str)
    requires
        start <= end <= text.spec_bytes().len(),
        is_char_boundary(text.spec_bytes(), start as int),
        is_char_boundary(text.spec_bytes(), end as int),
    ensures
        r@ == piece(text.spec_bytes(), start as int, end as int),
        r.spec_bytes() == text.spec_bytes().subrange(start as int, end as int),
{
    proof {
        encode_utf8_valid_utf8(text@);
        lemma_boundary_in_prefix(text.spec_bytes(), start as int, end as int);
    }
    let (head, _) = text.split_at(end);
    let (_, r) = head.split_at(start);
    proof {
        assert(r.spec_bytes() =~= text.spec_bytes().subrange(start as int, end as int));
        encode_utf8_decode_utf8(r@);
    }
    r
}

} // verus!
