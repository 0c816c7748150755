//! Runs of emphasis elements in post markup: each run becomes one element,
//! and the texts of the runs are recorded once each.

use vstd::prelude::*;
use vstd::utf8::encode_utf8;
use vstd::string::*;
use crate::text::{Edge, get_text_from_html, has_text_at, is_space, plain_text, test_space, text_at, trim, trimmed};
use crate::utf8_bytes::{from_chars, to_chars};

verus! {

/// The fewest bytes of a recorded text.
pub const MIN_I_TEXT_LEN: usize = 3;

/// The most bytes of a recorded text.
pub const MAX_I_TEXT_LEN: usize = 50;

/// The tag that opens an emphasis element.
pub open spec fn open_tag() -> Seq<char> {
    seq!['<', 'i', '>']
}

/// The tag that closes an emphasis element.
pub open spec fn close_tag() -> Seq<char> {
    seq!['<', '/', 'i', '>']
}

/// The character reference of the non-breaking space.
pub open spec fn nbsp() -> Seq<char> {
    seq!['&', 'n', 'b', 's', 'p', ';']
}

/// The offset of the closing tag that ends the element whose content
/// starts at offset `i`: the first one, on the same line.
pub open spec fn closing_at(s: Seq<char>, i: int) -> Option<int>
    decreases s.len() - i,
{
    if i < 0 || i >= s.len() {
        None
    } else if has_text_at(s, i, close_tag()) {
        Some(i)
    } else if s[i] == '\n' {
        None
    } else {
        closing_at(s, i + 1)
    }
}

/// The offset after the joiners that start at offset `i`: white space and
/// non-breaking-space references, as far as they go.
pub open spec fn joiners_end(s: Seq<char>, i: int) -> int
    decreases s.len() - i,
{
    if 0 <= i < s.len() && is_space(s[i]) {
        joiners_end(s, i + 1)
    } else if has_text_at(s, i, nbsp()) {
        joiners_end(s, i + 6)
    } else {
        i
    }
}

/// The offset after the emphasis element that starts at offset `p` and the
/// joiners behind it, if an element starts there.
pub open spec fn element_end(s: Seq<char>, p: int) -> Option<int> {
    if has_text_at(s, p, open_tag()) {
        match closing_at(s, p + 3) {
            Some(close) => Some(joiners_end(s, close + 4)),
            None => None,
        }
    } else {
        None
    }
}

/// The offset after the run of emphasis elements that starts at offset
/// `p`, if an element starts there: the elements that follow one another
/// with nothing but joiners between them, as many as there are.
pub open spec fn run_at(s: Seq<char>, p: int) -> Option<int>
    decreases s.len() - p,
{
    match element_end(s, p) {
        None => None,
        Some(end) => if p < end <= s.len() {
            match run_at(s, end) {
                Some(later) => Some(later),
                None => Some(end),
            }
        } else {
            Some(end)
        },
    }
}

/// The text of `s` from offset `i` without the tags that open and close
/// emphasis elements.
pub open spec fn without_emphasis_tags(s: Seq<char>, i: int) -> Seq<char>
    decreases s.len() - i,
{
    if i < 0 || i >= s.len() {
        Seq::empty()
    } else if has_text_at(s, i, open_tag()) {
        without_emphasis_tags(s, i + 3)
    } else if has_text_at(s, i, close_tag()) {
        without_emphasis_tags(s, i + 4)
    } else {
        seq![s[i]] + without_emphasis_tags(s, i + 1)
    }
}

/// The one element that a run becomes: what the run holds between its
/// tags, joiners included, inside one pair of tags.
pub open spec fn merged(run: Seq<char>) -> Seq<char> {
    open_tag() + without_emphasis_tags(run, 0) + close_tag()
}

/// The text that a merged element is recorded by: its plain text without
/// the ASCII punctuation and white space at its two ends.
pub open spec fn emphasis_text(element: Seq<char>) -> Seq<char> {
    trimmed(plain_text(element), Edge::Decoration)
}

/// The markup of `s` from offset `i` with each run of emphasis elements
/// merged into one element.
pub open spec fn rewritten(s: Seq<char>, i: int) -> Seq<char>
    decreases s.len() - i,
{
    if i < 0 || i >= s.len() {
        Seq::empty()
    } else {
        match run_at(s, i) {
            Some(end) => if i < end <= s.len() {
                merged(s.subrange(i, end)) + rewritten(s, end)
            } else {
                Seq::empty()
            },
            None => seq![s[i]] + rewritten(s, i + 1),
        }
    }
}

/// The texts of the runs of emphasis elements of `s` from offset `i`, in
/// their order, one for each run.
pub open spec fn run_texts(s: Seq<char>, i: int) -> Seq<Seq<char>>
    decreases s.len() - i,
{
    if i < 0 || i >= s.len() {
        Seq::empty()
    } else {
        match run_at(s, i) {
            Some(end) => if i < end <= s.len() {
                seq![emphasis_text(merged(s.subrange(i, end)))] + run_texts(s, end)
            } else {
                Seq::empty()
            },
            None => run_texts(s, i + 1),
        }
    }
}

/// Whether a text is recorded at all: it has `MIN_I_TEXT_LEN` to
/// `MAX_I_TEXT_LEN` bytes in UTF-8.
pub open spec fn is_recordable(text: Seq<char>) -> bool {
    MIN_I_TEXT_LEN <= encode_utf8(text).len() <= MAX_I_TEXT_LEN
}

/// The texts that are recorded of `texts`: those of the right length, each
/// once, in the order in which they first come.
pub open spec fn recorded(texts: Seq<Seq<char>>) -> Seq<Seq<char>>
    decreases texts.len(),
{
    if texts.len() == 0 {
        Seq::empty()
    } else {
        let before = recorded(texts.drop_last());
        if is_recordable(texts.last()) && !before.contains(texts.last()) {
            before.push(texts.last())
        } else {
            before
        }
    }
}

/// A text is known from an offset on where the texts from that offset on
/// hold it.
proof fn lemma_known_from(texts: Seq<Seq<char>>, base: int, text: Seq<char>)
    requires
        0 <= base <= texts.len(),
    ensures
        known_from(texts, base, text) == texts.subrange(base, texts.len() as int).contains(text),
{
    let tail = texts.subrange(base, texts.len() as int);
    if known_from(texts, base, text) {
        let j = choose|j: int| 0 <= base <= j < texts.len() && texts[j] == text;
        assert(tail[j - base] == text);
    }
    if tail.contains(text) {
        let k = choose|k: int| 0 <= k < tail.len() && tail[k] == text;
        assert(texts[base + k] == text);
    }
}

/// What a vector of strings holds.
pub open spec fn texts_of(strings: Seq<String>) -> Seq<Seq<char>> {
    Seq::new(strings.len(), |k: int| strings[k]@)
}

/// No text is recorded twice, each recorded text is of the right length
/// and comes from the list, and each text of the list that is of the
/// right length is recorded.
pub proof fn lemma_recorded(texts: Seq<Seq<char>>)
    ensures
        recorded(texts).no_duplicates(),
        forall|k: int| 0 <= k < recorded(texts).len() ==> is_recordable(#[trigger] recorded(texts)[k]),
        forall|k: int|
            0 <= k < recorded(texts).len() ==> texts.contains(#[trigger] recorded(texts)[k]),
        forall|t: Seq<char>| texts.contains(t) && is_recordable(t) ==> recorded(texts).contains(t),
    decreases texts.len(),
{
    if texts.len() > 0 {
        let earlier = texts.drop_last();
        let before = recorded(earlier);
        lemma_recorded(earlier);
        assert forall|k: int| 0 <= k < recorded(texts).len() implies texts.contains(
            #[trigger] recorded(texts)[k],
        ) by {
            if k < before.len() {
                let j = choose|j: int| 0 <= j < earlier.len() && earlier[j] == before[k];
                assert(texts[j] == before[k]);
            } else {
                assert(texts[texts.len() - 1] == recorded(texts)[k]);
            }
        }
        assert forall|t: Seq<char>| texts.contains(t) && is_recordable(t) implies recorded(
            texts,
        ).contains(t) by {
            let j = choose|j: int| 0 <= j < texts.len() && texts[j] == t;
            if j < texts.len() - 1 {
                assert(earlier[j] == t);
            }
            if before.contains(t) {
                let k = choose|k: int| 0 <= k < before.len() && before[k] == t;
                assert(recorded(texts)[k] == t);
            } else {
                assert(recorded(texts)[before.len() as int] == t);
            }
        }
    }
}

/// The words that the reader compares markup with.
struct Words {
    open: Vec<char>,
    close: Vec<char>,
    nbsp: Vec<char>,
}

impl Words {
    /// Whether the words are the two tags and the reference.
    spec fn well_formed(&self) -> bool {
        &&& self.open@ == open_tag()
        &&& self.close@ == close_tag()
        &&& self.nbsp@ == nbsp()
    }

    /// The words.
    fn new() -> (w: Words)
        ensures
            w.well_formed(),
    {
        let w = Words {
            open: vec!['<', 'i', '>'],
            close: vec!['<', '/', 'i', '>'],
            nbsp: vec!['&', 'n', 'b', 's', 'p', ';'],
        };
        w
    }
}

/// Looks for the closing tag of the element whose content starts at `start`.
fn find_closing(chars: &Vec<char>, start: usize, words: &Words) -> (r: Option<usize>)
    requires
        words.well_formed(),
    ensures
        match closing_at(chars@, start as int) {
            Some(close) => r matches Some(found) && found == close && start <= close && close + 4
                <= chars@.len() <= usize::MAX,
            None => r is None,
        },
{
    let n: usize = chars.len();
    let mut i: usize = start;
    while i < n
        invariant
            start <= i,
            n == chars@.len(),
            words.well_formed(),
            closing_at(chars@, i as int) == closing_at(chars@, start as int),
        decreases n - i,
    {
        if text_at(chars, i, &words.close) {
            return Some(i);
        }
        if chars[i] == '\n' {
            return None;
        }
        i += 1;
    }
    None
}

/// Skips the joiners that start at offset `start`.
fn skip_joiners(chars: &Vec<char>, start: usize, words: &Words) -> (end: usize)
    requires
        words.well_formed(),
        start <= chars@.len(),
    ensures
        end == joiners_end(chars@, start as int),
        start <= end <= chars@.len(),
{
    let n: usize = chars.len();
    let mut i: usize = start;
    loop
        invariant
            start <= i <= n == chars@.len(),
            words.well_formed(),
            joiners_end(chars@, i as int) == joiners_end(chars@, start as int),
        decreases n - i,
    {
        if i < n && test_space(chars[i]) {
            i += 1;
        } else if text_at(chars, i, &words.nbsp) {
            i += 6;
        } else {
            return i;
        }
    }
}

/// Looks for an emphasis element that starts at offset `p`.
fn read_element_end(chars: &Vec<char>, p: usize, words: &Words) -> (r: Option<usize>)
    requires
        words.well_formed(),
    ensures
        match element_end(chars@, p as int) {
            Some(end) => r matches Some(found) && found == end && p + 7 <= end <= chars@.len(),
            None => r is None,
        },
{
    if !text_at(chars, p, &words.open) {
        return None;
    }
    let close: usize = find_closing(chars, p + 3, words)?;
    Some(skip_joiners(chars, close + 4, words))
}

/// Looks for a run of emphasis elements that starts at offset `p`.
fn read_run_at(chars: &Vec<char>, p: usize, words: &Words) -> (r: Option<usize>)
    requires
        words.well_formed(),
    ensures
        match run_at(chars@, p as int) {
            Some(end) => r matches Some(found) && found == end && p < end <= chars@.len(),
            None => r is None,
        },
{
    let mut end: usize = read_element_end(chars, p, words)?;
    loop
        invariant
            p < end <= chars@.len(),
            words.well_formed(),
            run_at(chars@, p as int) == (match run_at(chars@, end as int) {
                Some(later) => Some(later),
                None => Some(end as int),
            }),
        decreases chars@.len() - end,
    {
        match read_element_end(chars, end, words) {
            Some(later) => {
                end = later;
            },
            None => {
                return Some(end);
            },
        }
    }
}

/// The element that the run from `from` to `to` becomes.
fn merge_run(chars: &Vec<char>, from: usize, to: usize, words: &Words) -> (out: Vec<char>)
    requires
        words.well_formed(),
        from <= to <= chars@.len(),
    ensures
        out@ == merged(chars@.subrange(from as int, to as int)),
{
    let ghost run = chars@.subrange(from as int, to as int);
    let mut out: Vec<char> = vec!['<', 'i', '>'];
    let mut i: usize = from;
    while i < to
        invariant
            from <= i <= to <= chars@.len(),
            words.well_formed(),
            run == chars@.subrange(from as int, to as int),
            out@ + without_emphasis_tags(run, i - from) == open_tag() + without_emphasis_tags(run, 0),
        decreases to - i,
    {
        proof {
            lemma_text_in_run(chars@, from as int, to as int, i as int, open_tag());
            lemma_text_in_run(chars@, from as int, to as int, i as int, close_tag());
        }
        if to - i >= 3 && text_at(chars, i, &words.open) {
            i += 3;
        } else if to - i >= 4 && text_at(chars, i, &words.close) {
            i += 4;
        } else {
            out.push(chars[i]);
            i += 1;
        }
    }
    let mut close: Vec<char> = vec!['<', '/', 'i', '>'];
    out.append(&mut close);
    out
}

/// A word stands in a stretch of a text where it stands in the text and
/// ends within the stretch.
proof fn lemma_text_in_run(s: Seq<char>, from: int, to: int, i: int, word: Seq<char>)
    requires
        0 <= from <= i <= to <= s.len(),
    ensures
        has_text_at(s.subrange(from, to), i - from, word) == (has_text_at(s, i, word) && i
            + word.len() <= to),
{
    let run = s.subrange(from, to);
    if i + word.len() <= to {
        assert(run.subrange(i - from, i - from + word.len()) =~= s.subrange(i, i + word.len()));
    }
}

/// Whether `text` is among the texts of `texts` from offset `base`.
pub open spec fn known_from(texts: Seq<Seq<char>>, base: int, text: Seq<char>) -> bool {
    exists|j: int| 0 <= base <= j < texts.len() && texts[j] == text
}

/// Whether `text` is among the strings of `texts` from offset `base`.
pub fn is_known(texts: &Vec<String>, base: usize, text: &String) -> (r: bool)
    ensures
        r == known_from(texts_of(texts@), base as int, text@),
{
    let mut k: usize = base;
    while k < texts.len()
        invariant
            base <= k,
            forall|j: int| base <= j < k && j < texts@.len() ==> texts_of(texts@)[j] != text@,
        decreases texts@.len() - k,
    {
        if texts[k] == *text {
            assert(texts_of(texts@)[k as int] == text@);
            return true;
        }
        k += 1;
    }
    false
}

/// Merges each run of emphasis elements of post markup into one element,
/// and records the texts of the runs.
///
/// A run is one or more elements `<i>..</i>`, each closed on the line on
/// which it opens, with nothing but white space and non-breaking-space
/// references between and after them. The result is the markup with one
/// element in place of each run, holding what the run held between its
/// tags. The text of each run, without the ASCII punctuation and white
/// space at its ends, is added to `i_texts` where it has `MIN_I_TEXT_LEN`
/// to `MAX_I_TEXT_LEN` bytes and no earlier run of this markup has given
/// the same text.
pub fn rewrite_i_tags(html: &String, i_texts: &mut Vec<String>) -> (r: String)
    ensures
        r@ == rewritten(html@, 0),
        texts_of(final(i_texts)@) == texts_of(old(i_texts)@) + recorded(run_texts(html@, 0)),
{
    let words = Words::new();
    let chars = to_chars(html.as_str());
    let n: usize = chars.len();
    let base: usize = i_texts.len();
    let mut out: Vec<char> = Vec::new();
    let mut i: usize = 0;
    let ghost mut seen: Seq<Seq<char>> = Seq::empty();
    while i < n
        invariant
            i <= n == chars@.len(),
            chars@ == html@,
            words.well_formed(),
            base == old(i_texts)@.len(),
            out@ + rewritten(chars@, i as int) == rewritten(chars@, 0),
            seen + run_texts(chars@, i as int) == run_texts(chars@, 0),
            texts_of(i_texts@) == texts_of(old(i_texts)@) + recorded(seen),
            i_texts@.len() == base + recorded(seen).len(),
        decreases n - i,
    {
        match read_run_at(&chars, i, &words) {
            Some(end) => {
                let mut element = merge_run(&chars, i, end, &words);
                let plain = get_text_from_html(&from_chars(&element));
                let text = from_chars(&trim(&to_chars(plain.as_str()), Edge::Decoration));
                let ghost run_text = emphasis_text(element@);
                proof {
                    assert(seen.push(run_text).drop_last() =~= seen);
                    assert(texts_of(i_texts@).subrange(base as int, i_texts@.len() as int)
                        =~= recorded(seen));
                    lemma_known_from(texts_of(i_texts@), base as int, run_text);
                    seen = seen.push(run_text);
                }
                let size: usize = text.as_str().as_bytes().len();
                if MIN_I_TEXT_LEN <= size && size <= MAX_I_TEXT_LEN && !is_known(i_texts, base, &text) {
                    assert(texts_of(i_texts@).push(run_text) =~= texts_of(old(i_texts)@) + recorded(
                        seen,
                    ));
                    i_texts.push(text);
                }
                out.append(&mut element);
                i = end;
            },
            None => {
                out.push(chars[i]);
                i += 1;
            },
        }
    }
    from_chars(&out)
}

} // verus!
