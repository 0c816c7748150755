//! Scanning primitives over byte strings: classes of bytes, maximal runs and
//! literal comparison at an offset.

use vstd::prelude::*;
use vstd::string::*;

verus! {

/// A class of bytes that a run can be made of.
#[derive(Clone, Copy, Debug, PartialEq, Eq, Structural)]
pub enum ByteClass {
    /// Tab, line feed, vertical tab, form feed, carriage return, space.
    Space,
    /// Every byte that is not in `Space`.
    Visible,
    /// Carriage return and line feed.
    LineBreak,
    /// Every byte but carriage return and line feed.
    InLine,
    /// The hyphen-minus.
    Dash,
    /// The decimal digits `0` to `9`.
    Digit,
    /// Every byte but a double quote, a carriage return and a line feed.
    InQuotes,
    /// The capital letters `A` to `Z`.
    Upper,
    /// The small letters `a` to `z`.
    Lower,
    /// Every byte but `>`.
    BeforeGt,
    /// Every byte but `<`.
    BeforeLt,
    /// The slash.
    Slash,
}

/// Whether `b` is ASCII white space, the vertical tab included.
pub open spec fn is_space_byte(b: u8) -> bool {
    b == 9 || b == 10 || b == 11 || b == 12 || b == 13 || b == 32
}

/// Whether `b` is a carriage return or a line feed.
pub open spec fn is_line_break(b: u8) -> bool {
    b == 10 || b == 13
}

/// Whether `b` is a decimal digit.
pub open spec fn is_digit_byte(b: u8) -> bool {
    48 <= b <= 57
}

impl ByteClass {
    /// Whether the byte `b` is of the class.
    pub open spec fn holds(self, b: u8) -> bool {
        match self {
            ByteClass::Space => is_space_byte(b),
            ByteClass::Visible => !is_space_byte(b),
            ByteClass::LineBreak => is_line_break(b),
            ByteClass::InLine => !is_line_break(b),
            ByteClass::Dash => b == 45,
            ByteClass::Digit => is_digit_byte(b),
            ByteClass::InQuotes => b != 34 && !is_line_break(b),
            ByteClass::Upper => 65 <= b <= 90,
            ByteClass::Lower => 97 <= b <= 122,
            ByteClass::BeforeGt => b != 62,
            ByteClass::BeforeLt => b != 60,
            ByteClass::Slash => b == 47,
        }
    }

    /// Tests the byte `b` for the class.
    pub fn test(self, b: u8) -> (r: bool)
        ensures
            r == self.holds(b),
    {
        match self {
            ByteClass::Space => b == 9 || b == 10 || b == 11 || b == 12 || b == 13 || b == 32,
            ByteClass::Visible => !(b == 9 || b == 10 || b == 11 || b == 12 || b == 13 || b == 32),
            ByteClass::LineBreak => b == 10 || b == 13,
            ByteClass::InLine => !(b == 10 || b == 13),
            ByteClass::Dash => b == 45,
            ByteClass::Digit => 48 <= b && b <= 57,
            ByteClass::InQuotes => b != 34 && !(b == 10 || b == 13),
            ByteClass::Upper => 65 <= b && b <= 90,
            ByteClass::Lower => 97 <= b && b <= 122,
            ByteClass::BeforeGt => b != 62,
            ByteClass::BeforeLt => b != 60,
            ByteClass::Slash => b == 47,
        }
    }
}

/// The end of the longest run of bytes of class `c` that starts at `i`.
pub open spec fn run_end(s: Seq<u8>, i: int, c: ByteClass) -> int
    decreases s.len() - i,
{
    if 0 <= i < s.len() && c.holds(s[i]) {
        run_end(s, i + 1, c)
    } else {
        i
    }
}

/// A run ends inside the string, holds only bytes of its class, and cannot
/// be made longer.
pub proof fn lemma_run_end(s: Seq<u8>, i: int, c: ByteClass)
    requires
        0 <= i <= s.len(),
    ensures
        i <= run_end(s, i, c) <= s.len(),
        forall|k: int| i <= k < run_end(s, i, c) ==> c.holds(#[trigger] s[k]),
        run_end(s, i, c) < s.len() ==> !c.holds(s[run_end(s, i, c)]),
    decreases s.len() - i,
{
    if i < s.len() && c.holds(s[i]) {
        lemma_run_end(s, i + 1, c);
    }
}

/// Skips the longest run of bytes of class `c` from `start`.
pub fn skip_run(bytes: &[u8], start: usize, c: ByteClass) -> (end: usize)
    ensures
        end == run_end(bytes@, start as int, c),
        start <= end,
        start <= bytes@.len() ==> end <= bytes@.len(),
        start < end ==> start < usize::MAX,
{
    let mut i: usize = start;
    while i < bytes.len() && c.test(bytes[i])
        invariant
            start <= i,
            start <= bytes@.len() ==> i <= bytes@.len(),
            run_end(bytes@, i as int, c) == run_end(bytes@, start as int, c),
        decreases bytes@.len() - i,
    {
        i += 1;
    }
    i
}

/// Whether a byte of class `c` stands in `s` at offset `i`.
pub open spec fn class_at(s: Seq<u8>, i: int, c: ByteClass) -> bool {
    0 <= i < s.len() && c.holds(s[i])
}

/// Tests the byte at offset `i`, if there is one, for class `c`.
pub fn is_class_at(bytes: &[u8], i: usize, c: ByteClass) -> (r: bool)
    ensures
        r == class_at(bytes@, i as int, c),
        r ==> i < usize::MAX,
{
    i < bytes.len() && c.test(bytes[i])
}

/// Whether `lit` stands in `s` at offset `i`.
pub open spec fn has_at(s: Seq<u8>, i: int, lit: Seq<u8>) -> bool {
    &&& 0 <= i
    &&& i + lit.len() <= s.len()
    &&& s.subrange(i, i + lit.len()) == lit
}

/// Compares the bytes at offset `start` with `lit`.
pub fn starts_with_at(bytes: &[u8], start: usize, lit: &[u8]) -> (r: bool)
    ensures
        r == has_at(bytes@, start as int, lit@),
        r ==> start + lit@.len() <= usize::MAX,
{
    let n: usize = bytes.len();
    if start > n || lit.len() > n - start {
        return false;
    }
    let mut k: usize = 0;
    while k < lit.len()
        invariant
            k <= lit@.len(),
            start + lit@.len() <= bytes@.len() == n,
            forall|j: int| 0 <= j < k ==> bytes@[start + j] == lit@[j],
        decreases lit@.len() - k,
    {
        if bytes[start + k] != lit[k] {
            proof {
                let sub = bytes@.subrange(start as int, start + lit@.len());
            }
            return false;
        }
        k += 1;
    }
    assert(bytes@.subrange(start as int, start + lit@.len()) =~= lit@);
    true
}

/// Compares the bytes at offset `start` with the UTF-8 bytes of `word`.
pub fn word_at(bytes: &[u8], start: usize, word: &str) -> (r: bool)
    ensures
        r == has_at(bytes@, start as int, word.spec_bytes()),
        r ==> start + word.spec_bytes().len() <= usize::MAX,
{
    starts_with_at(bytes, start, word.as_bytes())
}

} // verus!
