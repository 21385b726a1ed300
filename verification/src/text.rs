use vstd::prelude::*;
use vstd::std_specs::convert::FromSpecImpl;
use vstd::std_specs::ops::AddSpecImpl;

verus! {

/// An offset into, or a length of, a piece of source text, in bytes.
#[derive(Debug, Clone, Copy, PartialEq, Eq, Structural, PartialOrd, Ord)]
pub struct TextSize {
    val: u32,
}

impl View for TextSize {
    type V = nat;

    closed spec fn view(&self) -> nat {
        self.val as nat
    }
}

impl TextSize {
    /// The size of `val` bytes.
    pub closed spec fn of(val: u32) -> TextSize {
        TextSize { val }
    }

    /// The number of bytes, as the 32 bits that hold it.
    pub closed spec fn raw(self) -> u32 {
        self.val
    }

    /// The size `value`, or `None` where `value` does not fit in 32 bits.
    pub fn try_from_usize(value: usize) -> (r: Option<TextSize>)
        ensures
            value <= u32::MAX ==> r.is_some() && r.unwrap()@ == value,
            value > u32::MAX ==> r.is_none(),
    {
        if value <= u32::MAX as usize {
            Some(TextSize { val: value as u32 })
        } else {
            None
        }
    }

    /// The size as a `usize`.
    pub fn to_usize(self) -> (r: usize)
        ensures
            r == self@,
    {
        self.val as usize
    }
}

impl From<u32> for TextSize {
    fn from(val: u32) -> (r: TextSize) {
        TextSize { val }
    }
}

impl FromSpecImpl<u32> for TextSize {
    open spec fn obeys_from_spec() -> bool {
        true
    }

    open spec fn from_spec(val: u32) -> TextSize {
        TextSize::of(val)
    }
}

impl From<TextSize> for u32 {
    fn from(size: TextSize) -> (r: u32) {
        size.val
    }
}

impl FromSpecImpl<TextSize> for u32 {
    open spec fn obeys_from_spec() -> bool {
        true
    }

    open spec fn from_spec(size: TextSize) -> u32 {
        size.raw()
    }
}

impl From<TextSize> for usize {
    fn from(size: TextSize) -> (r: usize) {
        size.val as usize
    }
}

impl FromSpecImpl<TextSize> for usize {
    open spec fn obeys_from_spec() -> bool {
        true
    }

    open spec fn from_spec(size: TextSize) -> usize {
        size.raw() as usize
    }
}

/// The size of `val` bytes is `val`.
pub broadcast proof fn lemma_text_size_of(val: u32)
    ensures
        (#[trigger] TextSize::of(val))@ == val,
{
}

/// The 32 bits of a size hold its number.
pub broadcast proof fn lemma_text_size_raw(size: TextSize)
    ensures
        #[trigger] size.raw() == size@,
{
}

impl core::ops::Add for TextSize {
    type Output = TextSize;

    fn add(self, rhs: TextSize) -> (r: TextSize) {
        TextSize { val: self.val + rhs.val }
    }
}

impl AddSpecImpl for TextSize {
    open spec fn obeys_add_spec() -> bool {
        true
    }

    open spec fn add_req(self, rhs: TextSize) -> bool {
        self@ + rhs@ <= u32::MAX
    }

    open spec fn add_spec(self, rhs: TextSize) -> TextSize {
        TextSize::of((self.raw() + rhs.raw()) as u32)
    }
}

/// A range of source text, in bytes: from `start` up to, not including, `end`.
#[derive(Debug, Clone, Copy, PartialEq, Eq, Structural, PartialOrd, Ord)]
pub struct TextRange {
    start: TextSize,
    end: TextSize,
}

impl TextRange {
    /// The offset at which the range begins.
    pub closed spec fn spec_start(self) -> TextSize {
        self.start
    }

    /// The offset at which the range ends.
    pub closed spec fn spec_end(self) -> TextSize {
        self.end
    }

    #[verifier::type_invariant]
    closed spec fn ordered(self) -> bool {
        self.start@ <= self.end@
    }

    /// The range from `start` to `end`.
    pub fn new(start: TextSize, end: TextSize) -> (r: TextRange)
        requires
            start@ <= end@,
        ensures
            r.spec_start() == start,
            r.spec_end() == end,
    {
        TextRange { start, end }
    }

    /// The range of `len` bytes that begins at `start`.
    pub fn at(start: TextSize, len: TextSize) -> (r: TextRange)
        requires
            start@ + len@ <= u32::MAX,
        ensures
            r.spec_start() == start,
            r.spec_end()@ == start@ + len@,
    {
        TextRange::new(start, start + len)
    }

    /// The offset at which the range begins.
    #[verifier::when_used_as_spec(spec_start)]
    pub fn start(self) -> (r: TextSize)
        ensures
            r == self.spec_start(),
            r@ <= self.spec_end()@,
    {
        proof {
            use_type_invariant(&self);
        }
        self.start
    }

    /// The offset at which the range ends.
    #[verifier::when_used_as_spec(spec_end)]
    pub fn end(self) -> (r: TextSize)
        ensures
            r == self.spec_end(),
    {
        self.end
    }
}

} // verus!
