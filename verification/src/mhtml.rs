//! The multipart envelope of an archive: its header block, the boundary
//! that separates its parts, and the parts with their decoded payloads.

use vstd::prelude::*;
use vstd::slice::slice_subrange;
use vstd::string::*;
use crate::dates::{CaptureTime, parse_rfc2822, rfc2822_reading};
use crate::error::{ErrorKind, Failure, InvalidData, bare_failure, failure};
use crate::scan::{ByteClass, class_at, has_at, is_class_at, lemma_run_end, run_end, skip_run, starts_with_at};
use crate::transfer::{decode, decoded};
use crate::utf8_bytes::{text_of, to_string};

verus! {

/// One part of an archive.
#[derive(Debug)]
pub struct MhtmlPiece {
    /// The media type that the part declares.
    pub content_type: String,
    /// Where the resource was taken from.
    pub location: String,
    /// The resource itself, decoded.
    pub bytes: Vec<u8>,
}

/// What a part holds.
pub struct PieceView {
    pub content_type: Seq<char>,
    pub location: Seq<char>,
    pub bytes: Seq<u8>,
}

impl View for MhtmlPiece {
    type V = PieceView;

    open spec fn view(&self) -> PieceView {
        PieceView { content_type: self.content_type@, location: self.location@, bytes: self.bytes@ }
    }
}

impl Default for MhtmlPiece {
    fn default() -> (r: MhtmlPiece)
        ensures
            r@ == (PieceView { content_type: Seq::empty(), location: Seq::empty(), bytes: Seq::empty() }),
    {
        MhtmlPiece { content_type: String::new(), location: String::new(), bytes: Vec::new() }
    }
}

/// One decoded archive.
#[derive(Debug)]
pub struct MhtmlDoc {
    /// The title of the captured page.
    pub subject: String,
    /// When the page was captured.
    pub date: CaptureTime,
    /// Where the page was captured from.
    pub location: String,
    /// The parts, in the order of the archive.
    pub pieces: Vec<MhtmlPiece>,
}

/// What an archive holds.
pub struct DocView {
    pub subject: Seq<char>,
    pub date: CaptureTime,
    pub location: Seq<char>,
    pub pieces: Seq<PieceView>,
}

/// What a vector of parts holds.
pub open spec fn piece_views(pieces: Seq<MhtmlPiece>) -> Seq<PieceView> {
    Seq::new(pieces.len(), |k: int| pieces[k]@)
}

impl View for MhtmlDoc {
    type V = DocView;

    open spec fn view(&self) -> DocView {
        DocView {
            subject: self.subject@,
            date: self.date,
            location: self.location@,
            pieces: piece_views(self.pieces@),
        }
    }
}

impl Default for MhtmlDoc {
    fn default() -> (r: MhtmlDoc)
        ensures
            r@ == (DocView {
                subject: Seq::empty(),
                date: CaptureTime::epoch(),
                location: Seq::empty(),
                pieces: Seq::empty(),
            }),
    {
        let r = MhtmlDoc {
            subject: String::new(),
            date: CaptureTime::default(),
            location: String::new(),
            pieces: Vec::new(),
        };
        assert(piece_views(r.pieces@) =~= Seq::<PieceView>::empty());
        r
    }
}

/// The value of the field `name` that starts at offset `i`: the name, one
/// byte of white space, then the bytes of class `class` as far as they go,
/// which is at least one.
pub open spec fn field_value(s: Seq<u8>, i: int, name: Seq<u8>, class: ByteClass) -> Option<(int, int)> {
    let from = i + name.len() + 1;
    let to = run_end(s, from, class);
    if has_at(s, i, name) && class_at(s, from - 1, ByteClass::Space) && from < to {
        Some((from, to))
    } else {
        None
    }
}

/// The value of the field `name` that follows the white space at offset `after`.
pub open spec fn next_field(s: Seq<u8>, after: int, name: Seq<u8>, class: ByteClass) -> Option<(int, int)> {
    field_value(s, run_end(s, after, ByteClass::Space), name, class)
}

/// The value of the parameter `name` after offset `after`: at least one
/// byte of white space, the name, then the bytes of class `class` as far
/// as they go, which is at least one.
pub open spec fn next_parameter(s: Seq<u8>, after: int, name: Seq<u8>, class: ByteClass) -> Option<(int, int)> {
    let at = run_end(s, after, ByteClass::Space);
    let from = at + name.len();
    let to = run_end(s, from, class);
    if after < at && has_at(s, at, name) && from < to {
        Some((from, to))
    } else {
        None
    }
}

/// Where the fields of a header block stand.
pub struct HeaderSpans {
    pub location: (int, int),
    pub subject: (int, int),
    pub date: (int, int),
    pub boundary: (int, int),
    /// The offset after the closing quote of the boundary.
    pub end: int,
}

/// The fields of the header block at the start of an archive.
///
/// The block is, in this order, the fields `From:`,
/// `Snapshot-Content-Location:`, `Subject:`, `Date:`, `MIME-Version:` and
/// `Content-Type:`, each with a value that runs to the end of its line and
/// with any white space between them, then the parameters `type=`, up to
/// the end of its line, and `boundary=`, between double quotes on one line.
pub open spec fn header_spans(s: Seq<u8>) -> Option<HeaderSpans> {
    match field_value(s, 0, "From:".spec_bytes(), ByteClass::InLine) {
        None => None,
        Some(sender) => match next_field(
            s,
            sender.1,
            "Snapshot-Content-Location:".spec_bytes(),
            ByteClass::InLine,
        ) {
            None => None,
            Some(location) => match next_field(s, location.1, "Subject:".spec_bytes(), ByteClass::InLine) {
                None => None,
                Some(subject) => match next_field(s, subject.1, "Date:".spec_bytes(), ByteClass::InLine) {
                    None => None,
                    Some(date) => match next_field(
                        s,
                        date.1,
                        "MIME-Version:".spec_bytes(),
                        ByteClass::InLine,
                    ) {
                        None => None,
                        Some(version) => match next_field(
                            s,
                            version.1,
                            "Content-Type:".spec_bytes(),
                            ByteClass::InLine,
                        ) {
                            None => None,
                            Some(kind) => match next_parameter(
                                s,
                                kind.1,
                                "type=".spec_bytes(),
                                ByteClass::InLine,
                            ) {
                                None => None,
                                Some(related) => match next_parameter(
                                    s,
                                    related.1,
                                    "boundary=\"".spec_bytes(),
                                    ByteClass::InQuotes,
                                ) {
                                    None => None,
                                    Some(boundary) => if has_at(s, boundary.1, "\"".spec_bytes()) {
                                        Some(
                                            HeaderSpans {
                                                location,
                                                subject,
                                                date,
                                                boundary,
                                                end: boundary.1 + "\"".spec_bytes().len(),
                                            },
                                        )
                                    } else {
                                        None
                                    },
                                },
                            },
                        },
                    },
                },
            },
        },
    }
}

/// What a header block states.
pub struct HeaderView {
    pub location: Seq<char>,
    pub subject: Seq<char>,
    pub date: CaptureTime,
    pub boundary: Seq<u8>,
    /// The bytes of the archive after the header block.
    pub body: Seq<u8>,
}

/// The header of an archive: the fields of its header block, of which the
/// location, the subject and the date are UTF-8 text, and the date states
/// a moment in the form of RFC 2822.
pub open spec fn header(s: Seq<u8>) -> Option<HeaderView> {
    match header_spans(s) {
        None => None,
        Some(spans) => match (
            text_of(s.subrange(spans.location.0, spans.location.1)),
            text_of(s.subrange(spans.subject.0, spans.subject.1)),
            text_of(s.subrange(spans.date.0, spans.date.1)),
        ) {
            (Some(location), Some(subject), Some(date)) => match rfc2822_reading(date) {
                Some(moment) => Some(
                    HeaderView {
                        location,
                        subject,
                        date: moment,
                        boundary: s.subrange(spans.boundary.0, spans.boundary.1),
                        body: s.subrange(spans.end, s.len() as int),
                    },
                ),
                None => None,
            },
            _ => None,
        },
    }
}

/// Reads the field `name` at offset `i`.
fn read_field(bytes: &[u8], i: usize, name: &str, class: ByteClass) -> (r: Option<(usize, usize)>)
    ensures
        match field_value(bytes@, i as int, name.spec_bytes(), class) {
            Some((from, to)) => r matches Some(found) && found.0 == from && found.1 == to && from
                < to <= bytes@.len(),
            None => r is None,
        },
{
    let word = name.as_bytes();
    if !starts_with_at(bytes, i, word) {
        return None;
    }
    let gap: usize = i + word.len();
    if !is_class_at(bytes, gap, ByteClass::Space) {
        return None;
    }
    let from: usize = gap + 1;
    let to: usize = skip_run(bytes, from, class);
    if to == from {
        return None;
    }
    Some((from, to))
}

/// Reads the field `name` after the white space at offset `after`.
fn read_next_field(bytes: &[u8], after: usize, name: &str, class: ByteClass) -> (r: Option<(usize, usize)>)
    ensures
        match next_field(bytes@, after as int, name.spec_bytes(), class) {
            Some((from, to)) => r matches Some(found) && found.0 == from && found.1 == to && from
                < to <= bytes@.len(),
            None => r is None,
        },
{
    let at: usize = skip_run(bytes, after, ByteClass::Space);
    read_field(bytes, at, name, class)
}

/// Reads the parameter `name` after the white space at offset `after`.
fn read_next_parameter(bytes: &[u8], after: usize, name: &str, class: ByteClass) -> (r: Option<(usize, usize)>)
    ensures
        match next_parameter(bytes@, after as int, name.spec_bytes(), class) {
            Some((from, to)) => r matches Some(found) && found.0 == from && found.1 == to && from
                < to <= bytes@.len(),
            None => r is None,
        },
{
    let word = name.as_bytes();
    let at: usize = skip_run(bytes, after, ByteClass::Space);
    if at == after || !starts_with_at(bytes, at, word) {
        return None;
    }
    let from: usize = at + word.len();
    let to: usize = skip_run(bytes, from, class);
    if to == from {
        return None;
    }
    Some((from, to))
}

/// Where the fields of a header block stand, as the reader found them.
struct HeaderMarks {
    location: (usize, usize),
    subject: (usize, usize),
    date: (usize, usize),
    boundary: (usize, usize),
    end: usize,
}

impl HeaderMarks {
    /// The same places as integers.
    spec fn spans(self) -> HeaderSpans {
        HeaderSpans {
            location: (self.location.0 as int, self.location.1 as int),
            subject: (self.subject.0 as int, self.subject.1 as int),
            date: (self.date.0 as int, self.date.1 as int),
            boundary: (self.boundary.0 as int, self.boundary.1 as int),
            end: self.end as int,
        }
    }

    /// Whether each field is not empty and ends within the first `len` bytes.
    spec fn within(self, len: nat) -> bool {
        &&& self.location.0 < self.location.1 <= len
        &&& self.subject.0 < self.subject.1 <= len
        &&& self.date.0 < self.date.1 <= len
        &&& self.boundary.0 < self.boundary.1 <= len
        &&& self.end <= len
    }
}

/// Finds the fields of the header block at the start of `bytes`.
fn read_header_spans(bytes: &[u8]) -> (r: Option<HeaderMarks>)
    ensures
        match header_spans(bytes@) {
            Some(spans) => r is Some && r->Some_0.spans() == spans && r->Some_0.within(bytes@.len()),
            None => r is None,
        },
{
    let line = ByteClass::InLine;
    let sender = read_field(bytes, 0, "From:", line)?;
    let location = read_next_field(bytes, sender.1, "Snapshot-Content-Location:", line)?;
    let subject = read_next_field(bytes, location.1, "Subject:", line)?;
    let date = read_next_field(bytes, subject.1, "Date:", line)?;
    let version = read_next_field(bytes, date.1, "MIME-Version:", line)?;
    let kind = read_next_field(bytes, version.1, "Content-Type:", line)?;
    let related = read_next_parameter(bytes, kind.1, "type=", line)?;
    let boundary = read_next_parameter(bytes, related.1, "boundary=\"", ByteClass::InQuotes)?;
    let quote = "\"".as_bytes();
    if !starts_with_at(bytes, boundary.1, quote) {
        return None;
    }
    Some(HeaderMarks { location, subject, date, boundary, end: boundary.1 + quote.len() })
}

/// What the header block states, as the reader found it.
struct Header {
    location: String,
    subject: String,
    date: CaptureTime,
    boundary: (usize, usize),
    end: usize,
}

/// Reads the header block at the start of `bytes`.
fn read_header(bytes: &[u8]) -> (r: Option<Header>)
    ensures
        match header(bytes@) {
            Some(view) => r matches Some(h) && h.location@ == view.location && h.subject@
                == view.subject && h.date == view.date && h.date.well_formed() && h.boundary.0
                < h.boundary.1 <= bytes@.len() && h.end <= bytes@.len() && view.boundary
                == bytes@.subrange(h.boundary.0 as int, h.boundary.1 as int) && view.body
                == bytes@.subrange(h.end as int, bytes@.len() as int),
            None => r is None,
        },
{
    let marks = read_header_spans(bytes)?;
    let location = to_string(slice_subrange(bytes, marks.location.0, marks.location.1))?;
    let subject = to_string(slice_subrange(bytes, marks.subject.0, marks.subject.1))?;
    let date_text = to_string(slice_subrange(bytes, marks.date.0, marks.date.1))?;
    let date = parse_rfc2822(date_text.as_str())?;
    Some(Header { location, subject, date, boundary: marks.boundary, end: marks.end })
}

/// The offset at which `token` stands after the most dashes, of at most
/// `dashes` dashes that follow offset `from`.
pub open spec fn token_start(s: Seq<u8>, token: Seq<u8>, from: int, dashes: int) -> Option<int>
    decreases dashes + 1,
{
    if dashes < 0 {
        None
    } else if has_at(s, from + dashes, token) {
        Some(from + dashes)
    } else {
        token_start(s, token, from, dashes - 1)
    }
}

/// The end of the delimiter that starts at offset `p`, if one starts there.
///
/// A delimiter is the line breaks at `p`, as far as they go, then dashes,
/// then the boundary token itself, byte for byte, then the dashes and the
/// line breaks that follow it, as far as they go. Where the token could
/// start after different numbers of dashes, it starts after the most.
pub open spec fn delimiter_at(s: Seq<u8>, token: Seq<u8>, p: int) -> Option<int> {
    let dashes = run_end(s, p, ByteClass::LineBreak);
    let most = run_end(s, dashes, ByteClass::Dash);
    match token_start(s, token, dashes, most - dashes) {
        Some(at) => Some(
            run_end(s, run_end(s, at + token.len(), ByteClass::Dash), ByteClass::LineBreak),
        ),
        None => None,
    }
}

/// The first delimiter that starts at or after offset `p`: its start and its end.
pub open spec fn next_delimiter(s: Seq<u8>, token: Seq<u8>, p: int) -> Option<(int, int)>
    decreases s.len() - p,
{
    if p < 0 || p >= s.len() {
        None
    } else {
        match delimiter_at(s, token, p) {
            Some(end) => Some((p, end)),
            None => next_delimiter(s, token, p + 1),
        }
    }
}

/// The fragment `f` as a list: empty fragments are dropped.
pub open spec fn kept(f: Seq<u8>) -> Seq<Seq<u8>> {
    if f.len() == 0 {
        Seq::empty()
    } else {
        seq![f]
    }
}

/// The fragments of `s` from offset `from`: what stands between the
/// delimiters, before the first and after the last of them, without the
/// fragments that are empty.
pub open spec fn fragments(s: Seq<u8>, token: Seq<u8>, from: int) -> Seq<Seq<u8>>
    decreases s.len() - from,
{
    match next_delimiter(s, token, from) {
        Some((start, end)) => if from < end <= s.len() {
            kept(s.subrange(from, start)) + fragments(s, token, end)
        } else {
            Seq::empty()
        },
        None => if 0 <= from <= s.len() {
            kept(s.subrange(from, s.len() as int))
        } else {
            Seq::empty()
        },
    }
}

/// A delimiter holds the token as it is written, and ends after it.
pub proof fn lemma_delimiter_holds_token(s: Seq<u8>, token: Seq<u8>, p: int)
    requires
        0 <= p <= s.len(),
        delimiter_at(s, token, p) is Some,
    ensures
        exists|at: int|
            p <= at && at + token.len() <= delimiter_at(s, token, p)->Some_0 <= s.len()
                && #[trigger] s.subrange(at, at + token.len()) == token,
{
    let dashes = run_end(s, p, ByteClass::LineBreak);
    let most = run_end(s, dashes, ByteClass::Dash);
    lemma_run_end(s, p, ByteClass::LineBreak);
    lemma_run_end(s, dashes, ByteClass::Dash);
    lemma_token_start(s, token, dashes, most - dashes);
    let at = token_start(s, token, dashes, most - dashes)->Some_0;
    lemma_run_end(s, at + token.len(), ByteClass::Dash);
    lemma_run_end(s, run_end(s, at + token.len(), ByteClass::Dash), ByteClass::LineBreak);
}

/// Where `token_start` finds the token, the token stands, after no more
/// dashes than allowed.
proof fn lemma_token_start(s: Seq<u8>, token: Seq<u8>, from: int, dashes: int)
    requires
        token_start(s, token, from, dashes) is Some,
    ensures
        from <= token_start(s, token, from, dashes)->Some_0 <= from + dashes,
        has_at(s, token_start(s, token, from, dashes)->Some_0, token),
    decreases dashes + 1,
{
    if dashes >= 0 && !has_at(s, from + dashes, token) {
        lemma_token_start(s, token, from, dashes - 1);
    }
}

/// Where the token stands after the dashes at `from`, `token_start` finds it.
proof fn lemma_token_start_exists(s: Seq<u8>, token: Seq<u8>, from: int, dashes: int)
    requires
        dashes >= 0,
        has_at(s, from, token),
    ensures
        token_start(s, token, from, dashes) is Some,
    decreases dashes,
{
    if dashes > 0 && !has_at(s, from + dashes, token) {
        lemma_token_start_exists(s, token, from, dashes - 1);
    }
}

/// Wherever the token is written, a delimiter starts: the token is taken
/// byte for byte, whatever its bytes are.
pub proof fn lemma_token_starts_delimiter(s: Seq<u8>, token: Seq<u8>, at: int)
    requires
        token.len() > 0,
        !ByteClass::LineBreak.holds(token[0]),
        has_at(s, at, token),
    ensures
        delimiter_at(s, token, at) is Some,
{
    lemma_run_end(s, at, ByteClass::Dash);
    lemma_token_start_exists(s, token, at, run_end(s, at, ByteClass::Dash) - at);
}

/// The first delimiter at or after an offset is a delimiter, and none
/// starts between the offset and it.
pub proof fn lemma_next_delimiter(s: Seq<u8>, token: Seq<u8>, from: int)
    requires
        0 <= from,
    ensures
        match next_delimiter(s, token, from) {
            Some((start, end)) => from <= start < s.len() && delimiter_at(s, token, start) == Some(
                end,
            ) && forall|p: int| from <= p < start ==> (#[trigger] delimiter_at(s, token, p)) is None,
            None => forall|p: int|
                from <= p < s.len() ==> (#[trigger] delimiter_at(s, token, p)) is None,
        },
    decreases s.len() - from,
{
    if from < s.len() && delimiter_at(s, token, from) is None {
        lemma_next_delimiter(s, token, from + 1);
    }
}

/// No fragment is empty, and no fragment holds the token: the archive is
/// cut wherever the token is written, and nowhere else.
pub proof fn lemma_fragments_hold_no_token(s: Seq<u8>, token: Seq<u8>, from: int)
    requires
        0 <= from <= s.len(),
        token.len() > 0,
        !ByteClass::LineBreak.holds(token[0]),
    ensures
        forall|k: int|
            0 <= k < fragments(s, token, from).len() ==> (#[trigger] fragments(s, token, from)[k]).len()
                > 0,
        forall|k: int, at: int|
            0 <= k < fragments(s, token, from).len() ==> !#[trigger] has_at(
                fragments(s, token, from)[k],
                at,
                token,
            ),
    decreases s.len() - from,
{
    lemma_next_delimiter(s, token, from);
    let (to, rest) = match next_delimiter(s, token, from) {
        Some((start, end)) => {
            lemma_delimiter_holds_token(s, token, start);
            lemma_fragments_hold_no_token(s, token, end);
            (start, fragments(s, token, end))
        },
        None => (s.len() as int, Seq::<Seq<u8>>::empty()),
    };
    let first = s.subrange(from, to);
    assert forall|at: int| !has_at(first, at, token) by {
        if has_at(first, at, token) {
            assert(first.subrange(at, at + token.len()) =~= s.subrange(
                from + at,
                from + at + token.len(),
            ));
            lemma_token_starts_delimiter(s, token, from + at);
        }
    }
    assert(fragments(s, token, from) =~= kept(first) + rest);
}

/// Looks for a delimiter that starts at offset `p`.
fn read_delimiter_at(bytes: &[u8], token: &[u8], p: usize) -> (r: Option<usize>)
    requires
        p <= bytes@.len(),
    ensures
        match delimiter_at(bytes@, token@, p as int) {
            Some(end) => r matches Some(found) && found == end && p + token@.len() <= end
                <= bytes@.len(),
            None => r is None,
        },
{
    let n: usize = bytes.len();
    let dashes: usize = skip_run(bytes, p, ByteClass::LineBreak);
    let most: usize = skip_run(bytes, dashes, ByteClass::Dash);
    let mut k: usize = most;
    loop
        invariant
            p <= dashes <= k <= most <= bytes@.len() == n,
            dashes == run_end(bytes@, p as int, ByteClass::LineBreak),
            most == run_end(bytes@, dashes as int, ByteClass::Dash),
            token_start(bytes@, token@, dashes as int, most - dashes) == token_start(
                bytes@,
                token@,
                dashes as int,
                k - dashes,
            ),
        decreases k,
    {
        if starts_with_at(bytes, k, token) {
            let after: usize = skip_run(bytes, k + token.len(), ByteClass::Dash);
            let end: usize = skip_run(bytes, after, ByteClass::LineBreak);
            return Some(end);
        }
        if k == dashes {
            assert(token_start(bytes@, token@, dashes as int, -1) is None);
            return None;
        }
        k -= 1;
    }
}

/// Looks for the first delimiter of the boundary `token` that starts at or
/// after offset `from`, and gives its start and its end.
pub fn find_delimiter(bytes: &[u8], token: &[u8], from: usize) -> (r: Option<(usize, usize)>)
    ensures
        match next_delimiter(bytes@, token@, from as int) {
            Some((start, end)) => r matches Some(found) && found.0 == start && found.1 == end
                && from <= start && start + token@.len() <= end <= bytes@.len(),
            None => r is None,
        },
{
    let mut p: usize = from;
    while p < bytes.len()
        invariant
            from <= p,
            from <= bytes@.len() ==> p <= bytes@.len(),
            next_delimiter(bytes@, token@, p as int) == next_delimiter(bytes@, token@, from as int),
        decreases bytes@.len() - p,
    {
        match read_delimiter_at(bytes, token, p) {
            Some(end) => {
                return Some((p, end));
            },
            None => {},
        }
        p += 1;
    }
    None
}

/// Where the fields of a part's header stand.
pub struct PartSpans {
    pub content_type: (int, int),
    pub encoding: (int, int),
    pub location: (int, int),
    /// The offset at which the payload starts.
    pub payload: int,
}

/// The offset after an optional `Content-ID:` field at offset `at` and the
/// white space behind it, of which there is at least one byte.
pub open spec fn after_content_id(s: Seq<u8>, at: int) -> int {
    match field_value(s, at, "Content-ID:".spec_bytes(), ByteClass::Visible) {
        Some(id) => if id.1 < run_end(s, id.1, ByteClass::Space) {
            run_end(s, id.1, ByteClass::Space)
        } else {
            at
        },
        None => at,
    }
}

/// The fields of the header at the start of a part.
///
/// The header is, in this order, the fields `Content-Type:`, optionally
/// `Content-ID:`, `Content-Transfer-Encoding:` and `Content-Location:`,
/// each with a value free of white space and with any white space between
/// them. The payload starts after the white space that follows the last.
pub open spec fn part_spans(s: Seq<u8>) -> Option<PartSpans> {
    match field_value(s, 0, "Content-Type:".spec_bytes(), ByteClass::Visible) {
        None => None,
        Some(content_type) => match field_value(
            s,
            after_content_id(s, run_end(s, content_type.1, ByteClass::Space)),
            "Content-Transfer-Encoding:".spec_bytes(),
            ByteClass::Visible,
        ) {
            None => None,
            Some(encoding) => match next_field(
                s,
                encoding.1,
                "Content-Location:".spec_bytes(),
                ByteClass::Visible,
            ) {
                None => None,
                Some(location) => Some(
                    PartSpans {
                        content_type,
                        encoding,
                        location,
                        payload: run_end(s, location.1, ByteClass::Space),
                    },
                ),
            },
        },
    }
}

/// The part that a fragment of an archive holds.
///
/// A fragment without the header of a part, or whose media type or
/// location is not UTF-8 text, is `MalformedPart`; otherwise the payload
/// decides, by the transfer encoding that the header names.
pub open spec fn part(s: Seq<u8>) -> Result<PieceView, Failure> {
    match part_spans(s) {
        None => Err(failure(ErrorKind::MalformedPart, s)),
        Some(spans) => match (
            text_of(s.subrange(spans.content_type.0, spans.content_type.1)),
            text_of(s.subrange(spans.location.0, spans.location.1)),
        ) {
            (Some(content_type), Some(location)) => match decoded(
                s.subrange(spans.encoding.0, spans.encoding.1),
                s.subrange(spans.payload, s.len() as int),
            ) {
                Ok(bytes) => Ok(PieceView { content_type, location, bytes }),
                Err(kind) => Err(failure(kind, s)),
            },
            _ => Err(failure(ErrorKind::MalformedPart, s)),
        },
    }
}

/// Skips an optional `Content-ID:` field at offset `at`.
fn skip_content_id(bytes: &[u8], at: usize) -> (r: usize)
    ensures
        r == after_content_id(bytes@, at as int),
{
    match read_field(bytes, at, "Content-ID:", ByteClass::Visible) {
        Some(id) => {
            let next: usize = skip_run(bytes, id.1, ByteClass::Space);
            if id.1 < next {
                next
            } else {
                at
            }
        },
        None => at,
    }
}

/// What stands for a failure of kind `kind` on the fragment `text`.
fn part_failure(kind: ErrorKind, text: &[u8]) -> (e: InvalidData)
    ensures
        e@ == failure(kind, text@),
        e.well_formed(),
{
    InvalidData::on_input(kind, text)
}

/// Reads one part of an archive: its header, then its payload, which is
/// decoded by the transfer encoding that the header names.
pub fn parse_mhtml_piece(text: &[u8]) -> (r: Result<MhtmlPiece, InvalidData>)
    ensures
        match part(text@) {
            Ok(piece) => r is Ok && r->Ok_0@ == piece,
            Err(f) => r is Err && r->Err_0@ == f && r->Err_0.well_formed(),
        },
{
    let n: usize = text.len();
    let token = ByteClass::Visible;
    let Some(content_type) = read_field(text, 0, "Content-Type:", token) else {
        return Err(part_failure(ErrorKind::MalformedPart, text));
    };
    let at: usize = skip_content_id(text, skip_run(text, content_type.1, ByteClass::Space));
    let Some(encoding) = read_field(text, at, "Content-Transfer-Encoding:", token) else {
        return Err(part_failure(ErrorKind::MalformedPart, text));
    };
    let Some(location) = read_next_field(text, encoding.1, "Content-Location:", token) else {
        return Err(part_failure(ErrorKind::MalformedPart, text));
    };
    let payload: usize = skip_run(text, location.1, ByteClass::Space);
    let Some(content_type) = to_string(slice_subrange(text, content_type.0, content_type.1)) else {
        return Err(part_failure(ErrorKind::MalformedPart, text));
    };
    let Some(location) = to_string(slice_subrange(text, location.0, location.1)) else {
        return Err(part_failure(ErrorKind::MalformedPart, text));
    };
    match decode(slice_subrange(text, encoding.0, encoding.1), slice_subrange(text, payload, n)) {
        Ok(bytes) => Ok(MhtmlPiece { content_type, location, bytes }),
        Err(e) => Err(part_failure(e.kind, text)),
    }
}

/// The parts that a list of fragments holds, in their order; the first
/// fragment that holds no part decides the failure.
pub open spec fn parts(frags: Seq<Seq<u8>>) -> Result<Seq<PieceView>, Failure>
    decreases frags.len(),
{
    if frags.len() == 0 {
        Ok(Seq::empty())
    } else {
        match parts(frags.drop_last()) {
            Err(f) => Err(f),
            Ok(before) => match part(frags.last()) {
                Ok(piece) => Ok(before.push(piece)),
                Err(f) => Err(f),
            },
        }
    }
}

/// Fragments that follow a failing fragment do not change the failure.
pub proof fn lemma_parts_fail_early(frags: Seq<Seq<u8>>, more: Seq<Seq<u8>>)
    requires
        parts(frags) is Err,
    ensures
        parts(frags + more) == parts(frags),
    decreases more.len(),
{
    if more.len() > 0 {
        lemma_parts_fail_early(frags, more.drop_last());
        assert((frags + more).drop_last() =~= frags + more.drop_last());
    }
}

/// The archive that a byte string holds.
///
/// The header block comes first; what follows it is cut at the delimiters
/// of the boundary that the header declares, and each fragment that is not
/// empty holds one part. An archive without the header block is
/// `MalformedHeader`; one without any part is `EmptyDocument`.
pub open spec fn document(s: Seq<u8>) -> Result<DocView, Failure> {
    match header(s) {
        None => Err(failure(ErrorKind::MalformedHeader, s)),
        Some(h) => match parts(fragments(h.body, h.boundary, 0)) {
            Err(f) => Err(f),
            Ok(pieces) => if pieces.len() == 0 {
                Err(bare_failure(ErrorKind::EmptyDocument))
            } else {
                Ok(DocView { subject: h.subject, date: h.date, location: h.location, pieces })
            },
        },
    }
}

/// Reads the parts that stand between the delimiters of `token` in `body`.
fn parse_pieces(body: &[u8], token: &[u8]) -> (r: Result<Vec<MhtmlPiece>, InvalidData>)
    requires
        token@.len() > 0,
    ensures
        match parts(fragments(body@, token@, 0)) {
            Ok(pieces) => r is Ok && piece_views(r->Ok_0@) == pieces,
            Err(f) => r is Err && r->Err_0@ == f && r->Err_0.well_formed(),
        },
{
    let n: usize = body.len();
    let mut pieces: Vec<MhtmlPiece> = Vec::new();
    let mut from: usize = 0;
    let ghost mut done: Seq<Seq<u8>> = Seq::empty();
    assert(piece_views(pieces@) =~= Seq::<PieceView>::empty());
    loop
        invariant
            from <= body@.len() == n,
            token@.len() > 0,
            fragments(body@, token@, 0) == done + fragments(body@, token@, from as int),
            parts(done) == Ok::<Seq<PieceView>, Failure>(piece_views(pieces@)),
        decreases body@.len() - from,
    {
        let found = find_delimiter(body, token, from);
        let (start, next): (usize, Option<usize>) = match found {
            Some((start, end)) => (start, Some(end)),
            None => (n, None),
        };
        let ghost rest: Seq<Seq<u8>> = match next {
            Some(end) => fragments(body@, token@, end as int),
            None => Seq::empty(),
        };
        let ghost fragment = body@.subrange(from as int, start as int);
        if from < start {
            proof {
                assert(done + (kept(fragment) + rest) =~= done.push(fragment) + rest);
                assert(done.push(fragment).drop_last() =~= done);
            }
            match parse_mhtml_piece(slice_subrange(body, from, start)) {
                Ok(piece) => {
                    proof {
                        assert(piece_views(pieces@.push(piece)) =~= piece_views(pieces@).push(piece@));
                    }
                    pieces.push(piece);
                },
                Err(e) => {
                    proof {
                        lemma_parts_fail_early(done.push(fragment), rest);
                    }
                    return Err(e);
                },
            }
            proof {
                done = done.push(fragment);
            }
        }
        match next {
            Some(end) => {
                from = end;
            },
            None => {
                return Ok(pieces);
            },
        }
    }
}

/// Decodes an archive: its header block, then its parts.
///
/// The result is the archive that `contents` holds: the subject, the
/// capture time and the location that the header states, and the parts in
/// their order, each decoded. A failure names its kind and carries the
/// start of the input that caused it: of the whole archive for its header,
/// of the fragment for a part.
pub fn parse(contents: &[u8]) -> (r: Result<MhtmlDoc, InvalidData>)
    ensures
        match document(contents@) {
            Ok(doc) => r is Ok && r->Ok_0@ == doc && r->Ok_0.date.well_formed(),
            Err(f) => r is Err && r->Err_0@ == f && r->Err_0.well_formed(),
        },
        r matches Ok(doc) ==> doc.pieces@.len() > 0,
{
    let n: usize = contents.len();
    let Some(h) = read_header(contents) else {
        return Err(InvalidData::on_input(ErrorKind::MalformedHeader, contents));
    };
    let token = slice_subrange(contents, h.boundary.0, h.boundary.1);
    let body = slice_subrange(contents, h.end, n);
    let pieces = match parse_pieces(body, token) {
        Ok(pieces) => pieces,
        Err(e) => {
            return Err(e);
        },
    };
    if pieces.len() == 0 {
        return Err(InvalidData::bare(ErrorKind::EmptyDocument));
    }
    Ok(MhtmlDoc { subject: h.subject, date: h.date, location: h.location, pieces })
}

} // verus!
