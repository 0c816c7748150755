//! Plain text out of post markup: tags give way to spaces, white space is
//! collapsed, character references are expanded, and a lead is cut off.

use vstd::prelude::*;
use unicode_segmentation::UnicodeSegmentation;
use crate::utf8_bytes::{from_chars, to_chars};

verus! {

/// Whether `c` is white space as Unicode defines it.
pub open spec fn is_space(c: char) -> bool {
    let u = c as u32;
    ||| 0x09 <= u <= 0x0D
    ||| u == 0x20
    ||| u == 0x85
    ||| u == 0xA0
    ||| u == 0x1680
    ||| 0x2000 <= u <= 0x200A
    ||| u == 0x2028
    ||| u == 0x2029
    ||| u == 0x202F
    ||| u == 0x205F
    ||| u == 0x3000
}

/// Tests a character for Unicode white space.
pub fn test_space(c: char) -> (r: bool)
    ensures
        r == is_space(c),
{
    let u: u32 = c as u32;
    (0x09 <= u && u <= 0x0D) || u == 0x20 || u == 0x85 || u == 0xA0 || u == 0x1680 || (0x2000 <= u
        && u <= 0x200A) || u == 0x2028 || u == 0x2029 || u == 0x202F || u == 0x205F || u == 0x3000
}

/// Whether a space before `c` is dropped: `c` is one of `, . ! : ; ?`.
pub open spec fn is_closing_mark(c: char) -> bool {
    c == ',' || c == '.' || c == '!' || c == ':' || c == ';' || c == '?'
}

/// Whether `word` stands in `s` at offset `i`.
pub open spec fn has_text_at(s: Seq<char>, i: int, word: Seq<char>) -> bool {
    &&& 0 <= i
    &&& i + word.len() <= s.len()
    &&& s.subrange(i, i + word.len()) == word
}

/// Compares the characters at offset `start` with `word`.
pub fn text_at(chars: &Vec<char>, start: usize, word: &Vec<char>) -> (r: bool)
    ensures
        r == has_text_at(chars@, start as int, word@),
        r ==> start + word@.len() <= usize::MAX,
{
    let n: usize = chars.len();
    if start > n || word.len() > n - start {
        return false;
    }
    let mut k: usize = 0;
    while k < word.len()
        invariant
            k <= word@.len(),
            start + word@.len() <= chars@.len() == n,
            forall|j: int| 0 <= j < k ==> chars@[start + j] == word@[j],
        decreases word@.len() - k,
    {
        if chars[start + k] != word[k] {
            proof {
                let sub = chars@.subrange(start as int, start + word@.len());
            }
            return false;
        }
        k += 1;
    }
    assert(chars@.subrange(start as int, start + word@.len()) =~= word@);
    true
}

/// The offset of the first `>` at or after offset `i`, or the length of `s`.
pub open spec fn next_gt(s: Seq<char>, i: int) -> int
    decreases s.len() - i,
{
    if 0 <= i < s.len() && s[i] != '>' {
        next_gt(s, i + 1)
    } else {
        i
    }
}

/// The offset after the tag that starts at offset `i`, if one starts there:
/// a `<`, at least one character that is not `>`, and the first `>`.
pub open spec fn tag_end(s: Seq<char>, i: int) -> Option<int> {
    let close = next_gt(s, i + 1);
    if 0 <= i < s.len() && s[i] == '<' && i + 1 < close < s.len() {
        Some(close + 1)
    } else {
        None
    }
}

/// The text of `s` from offset `i` with one space in place of each tag.
pub open spec fn without_tags(s: Seq<char>, i: int) -> Seq<char>
    decreases s.len() - i,
{
    if i < 0 || i >= s.len() {
        Seq::empty()
    } else {
        match tag_end(s, i) {
            Some(after) => seq![' '] + without_tags(s, after),
            None => seq![s[i]] + without_tags(s, i + 1),
        }
    }
}

/// The text of `s` from offset `i` with one space in place of each run of
/// white space.
pub open spec fn collapsed(s: Seq<char>, i: int) -> Seq<char>
    decreases s.len() - i,
{
    if i < 0 || i >= s.len() {
        Seq::empty()
    } else if !is_space(s[i]) {
        seq![s[i]] + collapsed(s, i + 1)
    } else if i + 1 < s.len() && is_space(s[i + 1]) {
        collapsed(s, i + 1)
    } else {
        seq![' '] + collapsed(s, i + 1)
    }
}

/// The text of `s` from offset `i` without the spaces that stand right
/// before one of `, . ! : ; ?`.
pub open spec fn tightened(s: Seq<char>, i: int) -> Seq<char>
    decreases s.len() - i,
{
    if i < 0 || i >= s.len() {
        Seq::empty()
    } else if s[i] == ' ' && i + 1 < s.len() && is_closing_mark(s[i + 1]) {
        tightened(s, i + 1)
    } else {
        seq![s[i]] + tightened(s, i + 1)
    }
}

/// What is cut from the two ends of a text.
#[derive(Clone, Copy, Debug, PartialEq, Eq, Structural)]
pub enum Edge {
    /// White space as Unicode defines it.
    Space,
    /// ASCII punctuation and ASCII white space.
    Decoration,
}

/// Whether `c` is ASCII punctuation or ASCII white space.
pub open spec fn is_decoration(c: char) -> bool {
    let u = c as u32;
    ||| 0x21 <= u <= 0x2F
    ||| 0x3A <= u <= 0x40
    ||| 0x5B <= u <= 0x60
    ||| 0x7B <= u <= 0x7E
    ||| u == 0x20
    ||| u == 0x09
    ||| u == 0x0A
    ||| u == 0x0C
    ||| u == 0x0D
}

impl Edge {
    /// Whether the character `c` is cut.
    pub open spec fn holds(self, c: char) -> bool {
        match self {
            Edge::Space => is_space(c),
            Edge::Decoration => is_decoration(c),
        }
    }

    /// Tests whether the character `c` is cut.
    pub fn test(self, c: char) -> (r: bool)
        ensures
            r == self.holds(c),
    {
        match self {
            Edge::Space => test_space(c),
            Edge::Decoration => {
                let u: u32 = c as u32;
                (0x21 <= u && u <= 0x2F) || (0x3A <= u && u <= 0x40) || (0x5B <= u && u <= 0x60)
                    || (0x7B <= u && u <= 0x7E) || u == 0x20 || u == 0x09 || u == 0x0A || u
                    == 0x0C || u == 0x0D
            },
        }
    }
}

/// The offset after the characters of `edge` at the start of `s` from offset `i`.
pub open spec fn leading_end(s: Seq<char>, i: int, edge: Edge) -> int
    decreases s.len() - i,
{
    if 0 <= i < s.len() && edge.holds(s[i]) {
        leading_end(s, i + 1, edge)
    } else {
        i
    }
}

/// The offset at which the characters of `edge` at the end of the first
/// `n` characters of `s` start.
pub open spec fn trailing_start(s: Seq<char>, n: int, edge: Edge) -> int
    decreases n,
{
    if 0 < n <= s.len() && edge.holds(s[n - 1]) {
        trailing_start(s, n - 1, edge)
    } else {
        n
    }
}

/// The text of `s` without the characters of `edge` at its two ends.
pub open spec fn trimmed(s: Seq<char>, edge: Edge) -> Seq<char> {
    let from = leading_end(s, 0, edge);
    let to = trailing_start(s, s.len() as int, edge);
    if from < to {
        s.subrange(from, to)
    } else {
        Seq::empty()
    }
}

/// What `htmlize::unescape` makes of a text: the text with its character
/// references expanded.
pub uninterp spec fn unescaped(text: Seq<char>) -> Seq<char>;

/// `htmlize::unescape`, as an owned string: a text without an ampersand
/// holds no character reference and stays as it is.
#[verifier::external_body]
fn html_unescape(text: &str) -> (r: String)
    ensures
        r@ == unescaped(text@),
        !text@.contains('&') ==> r@ == text@,
{
    htmlize::unescape(text).into_owned()
}

/// The byte offsets at which the extended grapheme clusters of a text
/// start, as `UnicodeSegmentation::grapheme_indices` gives them, in its order.
pub uninterp spec fn grapheme_starts(text: Seq<char>) -> Seq<usize>;

/// `UnicodeSegmentation::grapheme_indices` of the crate
/// `unicode_segmentation`, for extended clusters, with the offset of each
/// cluster and without its text.
#[verifier::external_body]
fn grapheme_offsets(text: &str) -> (r: Vec<usize>)
    ensures
        r@ == grapheme_starts(text@),
{
    text.grapheme_indices(true).map(|(at, _)| at).collect()
}

/// The markup without its tags: one space in place of each.
pub fn strip_tags(chars: &Vec<char>) -> (out: Vec<char>)
    ensures
        out@ == without_tags(chars@, 0),
{
    let n: usize = chars.len();
    let mut out: Vec<char> = Vec::new();
    let mut i: usize = 0;
    while i < n
        invariant
            i <= n == chars@.len(),
            out@ + without_tags(chars@, i as int) == without_tags(chars@, 0),
        decreases n - i,
    {
        let mut close: usize = i + 1;
        if chars[i] == '<' {
            while close < n && chars[close] != '>'
                invariant
                    i + 1 <= close <= n == chars@.len(),
                    next_gt(chars@, close as int) == next_gt(chars@, i + 1),
                decreases n - close,
            {
                close += 1;
            }
        }
        if chars[i] == '<' && i + 1 < close && close < n {
            out.push(' ');
            i = close + 1;
        } else {
            out.push(chars[i]);
            i += 1;
        }
    }
    out
}

/// The text with each run of white space collapsed to one space.
pub fn collapse_spaces(chars: &Vec<char>) -> (out: Vec<char>)
    ensures
        out@ == collapsed(chars@, 0),
{
    let n: usize = chars.len();
    let mut out: Vec<char> = Vec::new();
    let mut i: usize = 0;
    while i < n
        invariant
            i <= n == chars@.len(),
            out@ + collapsed(chars@, i as int) == collapsed(chars@, 0),
        decreases n - i,
    {
        let c: char = chars[i];
        if !test_space(c) {
            out.push(c);
        } else if !(i + 1 < n && test_space(chars[i + 1])) {
            out.push(' ');
        }
        i += 1;
    }
    out
}

/// Tests a character for one of `, . ! : ; ?`.
pub fn test_closing_mark(c: char) -> (r: bool)
    ensures
        r == is_closing_mark(c),
{
    c == ',' || c == '.' || c == '!' || c == ':' || c == ';' || c == '?'
}

/// The text without the spaces that stand right before `, . ! : ; ?`.
pub fn tighten_marks(chars: &Vec<char>) -> (out: Vec<char>)
    ensures
        out@ == tightened(chars@, 0),
{
    let n: usize = chars.len();
    let mut out: Vec<char> = Vec::new();
    let mut i: usize = 0;
    while i < n
        invariant
            i <= n == chars@.len(),
            out@ + tightened(chars@, i as int) == tightened(chars@, 0),
        decreases n - i,
    {
        let c: char = chars[i];
        if !(c == ' ' && i + 1 < n && test_closing_mark(chars[i + 1])) {
            out.push(c);
        }
        i += 1;
    }
    out
}

/// The text without the characters of `edge` at its two ends.
pub fn trim(chars: &Vec<char>, edge: Edge) -> (out: Vec<char>)
    ensures
        out@ == trimmed(chars@, edge),
{
    let n: usize = chars.len();
    let mut from: usize = 0;
    while from < n && edge.test(chars[from])
        invariant
            from <= n == chars@.len(),
            leading_end(chars@, from as int, edge) == leading_end(chars@, 0, edge),
        decreases n - from,
    {
        from += 1;
    }
    let mut to: usize = n;
    while to > 0 && edge.test(chars[to - 1])
        invariant
            to <= n == chars@.len(),
            trailing_start(chars@, to as int, edge) == trailing_start(chars@, n as int, edge),
        decreases to,
    {
        to -= 1;
    }
    let mut out: Vec<char> = Vec::new();
    if from >= to {
        return out;
    }
    let mut k: usize = from;
    while k < to
        invariant
            from <= k <= to <= chars@.len(),
            out@ == chars@.subrange(from as int, k as int),
        decreases to - k,
    {
        out.push(chars[k]);
        k += 1;
    }
    out
}

/// The text of post markup before its character references are expanded:
/// tags give way to spaces, runs of white space to one space, and a space
/// before `, . ! : ; ?` is dropped.
pub open spec fn spaced_text(html: Seq<char>) -> Seq<char> {
    tightened(collapsed(without_tags(html, 0), 0), 0)
}

/// A text with its character references expanded: a text without an
/// ampersand holds none and stays as it is.
pub open spec fn expanded(text: Seq<char>) -> Seq<char> {
    if text.contains('&') {
        unescaped(text)
    } else {
        text
    }
}

/// The plain text of post markup: tags give way to spaces, runs of white
/// space to one space, a space before `, . ! : ; ?` is dropped, character
/// references are expanded, and the white space at the two ends is cut.
pub open spec fn plain_text(html: Seq<char>) -> Seq<char> {
    trimmed(expanded(spaced_text(html)), Edge::Space)
}

/// The plain text of post markup.
pub fn get_text_from_html(html: &String) -> (r: String)
    ensures
        r@ == plain_text(html@),
{
    let chars = to_chars(html.as_str());
    let stripped = strip_tags(&chars);
    let compressed = collapse_spaces(&stripped);
    let despaced = from_chars(&tighten_marks(&compressed));
    let expanded = html_unescape(despaced.as_str());
    from_chars(&trim(&to_chars(expanded.as_str()), Edge::Space))
}

/// The most characters of a lead text, its marker aside.
pub const INITIAL_TEXT_MAX_LEN: usize = 140;

/// The marker that follows a lead text that was cut.
pub open spec fn ellipsis() -> Seq<char> {
    "..."@
}

/// The number of bytes that UTF-8 takes for the character `c`.
pub open spec fn utf8_width(c: char) -> int {
    let u = c as u32;
    if u < 0x80 {
        1
    } else if u < 0x800 {
        2
    } else if u < 0x10000 {
        3
    } else {
        4
    }
}

/// The number of bytes that UTF-8 takes for the text `s`.
pub open spec fn encoded_len(s: Seq<char>) -> int
    decreases s.len(),
{
    if s.len() == 0 {
        0
    } else {
        encoded_len(s.drop_last()) + utf8_width(s.last())
    }
}

/// Whether a text may be cut after its first `k` characters: at its start,
/// at its end, and wherever a grapheme cluster starts.
pub open spec fn is_cut_point(text: Seq<char>, k: int) -> bool {
    ||| k == 0
    ||| k == text.len()
    ||| (0 < k < text.len() && grapheme_starts(text).contains(encoded_len(text.take(k)) as usize))
}

/// The last place at or before `k` characters at which a text may be cut.
pub open spec fn last_cut_point(text: Seq<char>, k: int) -> int
    decreases k,
{
    if k <= 0 {
        0
    } else if is_cut_point(text, k) {
        k
    } else {
        last_cut_point(text, k - 1)
    }
}

/// What a lead keeps of a plain text: a text of at most
/// `INITIAL_TEXT_MAX_LEN` characters as it is; of a longer one its start
/// up to the last place within that many characters where no grapheme
/// cluster is split.
pub open spec fn lead_kept(text: Seq<char>) -> Seq<char> {
    if text.len() <= INITIAL_TEXT_MAX_LEN {
        text
    } else {
        text.take(last_cut_point(text, INITIAL_TEXT_MAX_LEN as int))
    }
}

/// The lead of a plain text: what is kept of it, and the marker `...`
/// after it where anything was cut. The marker does not count among the
/// characters.
pub open spec fn lead_of(text: Seq<char>) -> Seq<char> {
    if text.len() <= INITIAL_TEXT_MAX_LEN {
        text
    } else {
        lead_kept(text) + ellipsis()
    }
}

/// The lead text of post markup: the lead of its plain text.
pub open spec fn lead_text(html: Seq<char>) -> Seq<char> {
    lead_of(plain_text(html))
}

/// The last cut point at or before `k` is a cut point, and none lies
/// between it and `k`.
pub proof fn lemma_last_cut_point(text: Seq<char>, k: int)
    requires
        0 <= k,
    ensures
        0 <= last_cut_point(text, k) <= k,
        is_cut_point(text, last_cut_point(text, k)),
        forall|j: int| last_cut_point(text, k) < j <= k ==> !is_cut_point(text, j),
    decreases k,
{
    if k > 0 && !is_cut_point(text, k) {
        lemma_last_cut_point(text, k - 1);
    }
}

/// A lead is the text itself, or a proper start of it that ends where the
/// text may be cut, with the marker after it; and what a lead keeps is
/// its own lead: cutting it again takes nothing away and adds no marker.
pub proof fn lemma_lead_of(text: Seq<char>)
    ensures
        text.len() <= INITIAL_TEXT_MAX_LEN ==> lead_of(text) == text,
        text.len() > INITIAL_TEXT_MAX_LEN ==> {
            let k = last_cut_point(text, INITIAL_TEXT_MAX_LEN as int);
            &&& 0 <= k <= INITIAL_TEXT_MAX_LEN
            &&& is_cut_point(text, k)
            &&& lead_of(text) == text.take(k) + ellipsis()
        },
        lead_kept(text).len() <= INITIAL_TEXT_MAX_LEN,
        lead_of(lead_kept(text)) == lead_kept(text),
{
    lemma_last_cut_point(text, INITIAL_TEXT_MAX_LEN as int);
}

/// Whether a text is as the plain text of markup is spaced: its white
/// space is single spaces, and no space stands before `, . ! : ; ?`.
pub open spec fn is_tidy(s: Seq<char>) -> bool {
    &&& forall|k: int| 0 <= k < s.len() && is_space(#[trigger] s[k]) ==> s[k] == ' '
    &&& forall|k: int|
        0 <= k < s.len() - 1 && #[trigger] s[k] == ' ' ==> s[k + 1] != ' ' && !is_closing_mark(
            s[k + 1],
        )
}

/// Whether the character `c` stands nowhere in `s` from offset `i` on.
pub open spec fn is_free_of(s: Seq<char>, i: int, c: char) -> bool {
    forall|k: int| i <= k < s.len() ==> #[trigger] s[k] != c
}

/// A text without `<` has no tag to give way.
proof fn lemma_without_tags_plain(s: Seq<char>, i: int)
    requires
        0 <= i <= s.len(),
        is_free_of(s, 0, '<'),
    ensures
        without_tags(s, i) == s.skip(i),
    decreases s.len() - i,
{
    if i < s.len() {
        lemma_without_tags_plain(s, i + 1);
        assert(s[i] != '<');
        assert(seq![s[i]] + s.skip(i + 1) =~= s.skip(i));
    } else {
        assert(s.skip(i) =~= Seq::<char>::empty());
    }
}

/// Whether the white space of a text is spaces of which no two follow
/// each other.
spec fn is_single_spaced(s: Seq<char>) -> bool {
    &&& forall|k: int| 0 <= k < s.len() && is_space(#[trigger] s[k]) ==> s[k] == ' '
    &&& forall|k: int| 0 <= k < s.len() - 1 && #[trigger] s[k] == ' ' ==> s[k + 1] != ' '
}

/// What collapsing makes of a text: single spaces, the first of them
/// where the text starts with white space, and no character that the
/// text has not, the space aside.
proof fn lemma_collapsed(s: Seq<char>, i: int, c: char)
    requires
        0 <= i <= s.len(),
        is_free_of(s, i, c),
        c != ' ',
    ensures
        is_single_spaced(collapsed(s, i)),
        is_free_of(collapsed(s, i), 0, c),
        i < s.len() ==> collapsed(s, i).len() > 0 && collapsed(s, i)[0] == (if is_space(s[i]) {
            ' '
        } else {
            s[i]
        }),
    decreases s.len() - i,
{
    if i < s.len() {
        lemma_collapsed(s, i + 1, c);
        let rest = collapsed(s, i + 1);
        let all = collapsed(s, i);
        assert(s[i] != c);
        if !is_space(s[i]) {
            assert(all == seq![s[i]] + rest);
            assert forall|k: int| 0 <= k < all.len() implies (is_space(#[trigger] all[k]) ==> all[k]
                == ' ') && all[k] != c by {
                if k > 0 {
                    assert(all[k] == rest[k - 1]);
                }
            }
            assert forall|k: int| 0 <= k < all.len() - 1 && #[trigger] all[k] == ' ' implies all[k
                + 1] != ' ' by {
                assert(all[k + 1] == rest[k]);
                if k > 0 {
                    assert(all[k] == rest[k - 1]);
                }
            }
        } else if i + 1 < s.len() && is_space(s[i + 1]) {
            assert(all == rest);
        } else {
            assert(all == seq![' '] + rest);
            assert forall|k: int| 0 <= k < all.len() implies (is_space(#[trigger] all[k]) ==> all[k]
                == ' ') && all[k] != c by {
                if k > 0 {
                    assert(all[k] == rest[k - 1]);
                }
            }
            assert forall|k: int| 0 <= k < all.len() - 1 && #[trigger] all[k] == ' ' implies all[k
                + 1] != ' ' by {
                assert(all[k + 1] == rest[k]);
                if k > 0 {
                    assert(all[k] == rest[k - 1]);
                }
            }
        }
    }
}

/// What tightening makes of a single-spaced text: a tidy text that holds
/// no character that the text has not.
proof fn lemma_tightened(s: Seq<char>, i: int, c: char)
    requires
        0 <= i <= s.len(),
        is_single_spaced(s),
        is_free_of(s, i, c),
    ensures
        is_tidy(tightened(s, i)),
        is_free_of(tightened(s, i), 0, c),
        i < s.len() ==> tightened(s, i).len() > 0 && tightened(s, i)[0] == (if s[i] == ' ' && i + 1
            < s.len() && is_closing_mark(s[i + 1]) {
            s[i + 1]
        } else {
            s[i]
        }),
    decreases s.len() - i,
{
    if i < s.len() {
        lemma_tightened(s, i + 1, c);
        let rest = tightened(s, i + 1);
        let all = tightened(s, i);
        assert(s[i] != c);
        if s[i] == ' ' && i + 1 < s.len() && is_closing_mark(s[i + 1]) {
            assert(all == rest);
        } else {
            assert(all == seq![s[i]] + rest);
            assert forall|k: int| 0 <= k < all.len() implies (is_space(#[trigger] all[k]) ==> all[k]
                == ' ') && all[k] != c by {
                if k > 0 {
                    assert(all[k] == rest[k - 1]);
                }
            }
            assert forall|k: int| 0 <= k < all.len() - 1 && #[trigger] all[k] == ' ' implies all[k
                + 1] != ' ' && !is_closing_mark(all[k + 1]) by {
                assert(all[k + 1] == rest[k]);
                if k > 0 {
                    assert(all[k] == rest[k - 1]);
                } else {
                    assert(s[i + 1] != ' ');
                }
            }
        }
    }
}

/// Collapsing and tightening leave a tidy text as it is.
proof fn lemma_tidy_stays(s: Seq<char>, i: int)
    requires
        0 <= i <= s.len(),
        is_tidy(s),
    ensures
        collapsed(s, i) == s.skip(i),
        tightened(s, i) == s.skip(i),
    decreases s.len() - i,
{
    if i < s.len() {
        lemma_tidy_stays(s, i + 1);
        assert(seq![s[i]] + s.skip(i + 1) =~= s.skip(i));
        if is_space(s[i]) {
            assert(s[i] == ' ');
            if i + 1 < s.len() {
                assert(s[i + 1] != ' ');
                assert(!is_space(s[i + 1]));
            }
        }
    } else {
        assert(s.skip(i) =~= Seq::<char>::empty());
    }
}

/// Where the characters cut from the start of a text end, and where those
/// cut from its end start.
proof fn lemma_trim_ends(s: Seq<char>, i: int, n: int, edge: Edge)
    requires
        0 <= i <= s.len(),
        0 <= n <= s.len(),
    ensures
        i <= leading_end(s, i, edge) <= s.len(),
        leading_end(s, i, edge) < s.len() ==> !edge.holds(s[leading_end(s, i, edge)]),
        0 <= trailing_start(s, n, edge) <= n,
        trailing_start(s, n, edge) > 0 ==> !edge.holds(s[trailing_start(s, n, edge) - 1]),
    decreases s.len() - i, n,
{
    if i < s.len() && edge.holds(s[i]) {
        lemma_trim_ends(s, i + 1, n, edge);
    } else if n > 0 && edge.holds(s[n - 1]) {
        lemma_trim_ends(s, i, n - 1, edge);
    }
}

/// What a lead keeps of the plain text of markup without tags and without
/// character references is its own lead text, unless the cut has left
/// white space at its end: reading it again changes nothing and adds no
/// marker.
pub proof fn lemma_lead_text_read_again(html: Seq<char>)
    requires
        is_free_of(html, 0, '<'),
        is_free_of(html, 0, '&'),
        lead_kept(plain_text(html)).len() > 0 ==> !is_space(lead_kept(plain_text(html)).last()),
    ensures
        lead_text(lead_kept(plain_text(html))) == lead_kept(plain_text(html)),
{
    lemma_without_tags_plain(html, 0);
    assert(html.skip(0) =~= html);
    let single = collapsed(html, 0);
    lemma_collapsed(html, 0, '<');
    lemma_collapsed(html, 0, '&');
    let spaced = tightened(single, 0);
    lemma_tightened(single, 0, '<');
    lemma_tightened(single, 0, '&');
    assert(spaced == spaced_text(html));
    assert(!spaced.contains('&'));
    let text = plain_text(html);
    lemma_trim_ends(spaced, 0, spaced.len() as int, Edge::Space);
    let kept = lead_kept(text);
    lemma_last_cut_point(text, INITIAL_TEXT_MAX_LEN as int);
    let from = leading_end(spaced, 0, Edge::Space);
    assert(kept.len() > 0 ==> kept =~= spaced.subrange(from, from + kept.len()));
    assert(is_tidy(kept)) by {
        if kept.len() > 0 {
            assert forall|k: int| 0 <= k < kept.len() - 1 && #[trigger] kept[k] == ' ' implies kept[k
                + 1] != ' ' && !is_closing_mark(kept[k + 1]) by {
                assert(kept[k] == spaced[from + k]);
                assert(kept[k + 1] == spaced[from + k + 1]);
            }
            assert forall|k: int| 0 <= k < kept.len() && is_space(#[trigger] kept[k]) implies kept[k]
                == ' ' by {
                assert(kept[k] == spaced[from + k]);
            }
        }
    }
    assert(is_free_of(kept, 0, '<') && is_free_of(kept, 0, '&')) by {
        if kept.len() > 0 {
            assert forall|k: int| 0 <= k < kept.len() implies #[trigger] kept[k] != '<' && kept[k]
                != '&' by {
                assert(kept[k] == spaced[from + k]);
            }
        }
    }
    lemma_without_tags_plain(kept, 0);
    lemma_tidy_stays(kept, 0);
    assert(kept.skip(0) =~= kept);
    assert(spaced_text(kept) == kept);
    assert(!kept.contains('&'));
    assert(trimmed(kept, Edge::Space) =~= kept) by {
        if kept.len() > 0 {
            assert(kept[0] == spaced[from]);
            assert(!is_space(kept[0]));
            assert(leading_end(kept, 0, Edge::Space) == 0);
            assert(trailing_start(kept, kept.len() as int, Edge::Space) == kept.len());
            assert(kept.subrange(0, kept.len() as int) =~= kept);
        }
    }
    assert(plain_text(kept) == kept);
}

/// The number of bytes that UTF-8 takes for the character `c`.
fn char_width(c: char) -> (w: usize)
    ensures
        w == utf8_width(c),
{
    let u: u32 = c as u32;
    if u < 0x80 {
        1
    } else if u < 0x800 {
        2
    } else if u < 0x10000 {
        3
    } else {
        4
    }
}

/// Whether `at` is among `offsets`.
fn holds_offset(offsets: &Vec<usize>, at: usize) -> (r: bool)
    ensures
        r == offsets@.contains(at),
{
    let mut k: usize = 0;
    while k < offsets.len()
        invariant
            k <= offsets@.len(),
            forall|j: int| 0 <= j < k ==> offsets@[j] != at,
        decreases offsets@.len() - k,
    {
        if offsets[k] == at {
            return true;
        }
        k += 1;
    }
    false
}

/// Cuts a plain text to its lead.
pub fn lead_of_text(text: &String) -> (r: String)
    ensures
        r@ == lead_of(text@),
{
    let chars = to_chars(text.as_str());
    if chars.len() <= INITIAL_TEXT_MAX_LEN {
        return text.clone();
    }
    let starts = grapheme_offsets(text.as_str());
    let mut ends: Vec<usize> = Vec::new();
    ends.push(0);
    let mut k: usize = 0;
    assert(chars@.take(0) =~= Seq::<char>::empty());
    while k < INITIAL_TEXT_MAX_LEN
        invariant
            k <= INITIAL_TEXT_MAX_LEN < chars@.len(),
            ends@.len() == k + 1,
            forall|j: int| 0 <= j <= k ==> #[trigger] ends@[j] == encoded_len(chars@.take(j)),
            forall|j: int| 0 <= j <= k ==> #[trigger] ends@[j] <= 4 * j,
        decreases INITIAL_TEXT_MAX_LEN - k,
    {
        assert(chars@.take(k + 1).drop_last() =~= chars@.take(k as int));
        ends.push(ends[k] + char_width(chars[k]));
        k += 1;
    }
    let mut cut: usize = INITIAL_TEXT_MAX_LEN;
    while cut > 0 && !holds_offset(&starts, ends[cut])
        invariant
            cut <= INITIAL_TEXT_MAX_LEN < chars@.len(),
            chars@ == text@,
            starts@ == grapheme_starts(text@),
            ends@.len() == INITIAL_TEXT_MAX_LEN + 1,
            forall|j: int|
                0 <= j <= INITIAL_TEXT_MAX_LEN ==> #[trigger] ends@[j] == encoded_len(
                    chars@.take(j),
                ),
            last_cut_point(text@, cut as int) == last_cut_point(text@, INITIAL_TEXT_MAX_LEN as int),
        decreases cut,
    {
        cut -= 1;
    }
    let mut out: Vec<char> = Vec::new();
    let mut i: usize = 0;
    while i < cut
        invariant
            i <= cut < chars@.len(),
            out@ == chars@.take(i as int),
        decreases cut - i,
    {
        out.push(chars[i]);
        i += 1;
    }
    from_chars(&out).concat("...")
}

/// The lead text of post markup: its plain text, cut to at most
/// `INITIAL_TEXT_MAX_LEN` characters without splitting a grapheme cluster,
/// with `...` after it where the cut took anything away.
pub fn get_initial_text_from_html(html: &String) -> (r: String)
    ensures
        r@ == lead_text(html@),
{
    let text = get_text_from_html(html);
    lead_of_text(&text)
}

} // verus!
