use std::collections::HashSet;

use chrono::Datelike;
use mhtml_posts::dates::{date_from_html, date_from_title, PostDate};
use mhtml_posts::emphasis::rewrite_i_tags;
use mhtml_posts::mhtml::{find_delimiter, parse, parse_mhtml_piece};
use mhtml_posts::text::{
    collapse_spaces, get_initial_text_from_html, get_text_from_html, strip_tags, tighten_marks,
};
use unicode_segmentation::UnicodeSegmentation;

/// A small generator of numbers that gives the same numbers each run.
struct Numbers(u64);

impl Numbers {
    fn next(&mut self) -> u64 {
        self.0 = self.0.wrapping_mul(6364136223846793005).wrapping_add(1442695040888963407);
        self.0 >> 33
    }

    fn below(&mut self, n: usize) -> usize {
        (self.next() % n as u64) as usize
    }

    fn pick<'a>(&mut self, words: &[&'a str]) -> &'a str {
        words[self.below(words.len())]
    }

    fn text(&mut self, words: &[&str], most: usize) -> String {
        let count = self.below(most + 1);
        (0..count).map(|_| self.pick(words)).collect()
    }
}

fn date_of(year: u64, month: u64, day: u64) -> Option<PostDate> {
    let year = i32::try_from(year).ok()?;
    let month = u32::try_from(month).ok()?;
    let day = u32::try_from(day).ok()?;
    chrono::NaiveDate::from_ymd_opt(year, month, day)?;
    Some(PostDate { year, month, day })
}

fn title_pattern() -> regex::bytes::Regex {
    regex::bytes::Regex::new(r"(?-u)(?P<month>\d+)/(?P<day>\d+)/(?P<year>\d+)").unwrap()
}

fn title_date_by_pattern(pattern: &regex::bytes::Regex, title: &[u8]) -> Option<PostDate> {
    let captures = pattern.captures(title)?;
    let number = |name: &str| std::str::from_utf8(&captures[name]).unwrap().parse::<u64>().ok();
    let year = number("year")?;
    let full_year = if year < 100 { year + 2000 } else { year };
    date_of(full_year, number("month")?, number("day")?)
}

#[test]
fn date_from_title_finds_what_the_pattern_finds() {
    let pattern = title_pattern();
    let mut numbers = Numbers(1);
    let words = ["0", "1", "2", "3", "9", "12", "/", "/", " ", "a", "2023", "99", "100"];
    let mut found = 0;
    for round in 0..20000 {
        let title = if round % 2 == 0 {
            numbers.text(&words, 9)
        } else {
            let years = ["5", "23", "99", "100", "1999", "2023", "2024", "262142", "262143", "02024"];
            format!(
                "{}{}/{}/{}{}",
                numbers.text(&words, 2),
                numbers.below(15),
                numbers.below(34),
                numbers.pick(&years),
                numbers.text(&words, 2)
            )
        };
        let ours = date_from_title(title.as_bytes());
        assert_eq!(ours, title_date_by_pattern(&pattern, title.as_bytes()), "{title:?}");
        if ours.is_some() {
            found += 1;
        }
    }
    assert!(found > 500);
}

fn timestamp_pattern() -> regex::bytes::Regex {
    regex::bytes::Regex::new(
        r#"<span[^>]*>\s*(?P<date>[A-Z][a-z]{2} \d+, \d{4}, \d{1,2}:\d\d:\d\d[^<]+(?:AM|PM))</span>"#,
    )
    .unwrap()
}

fn html_date_by_pattern(pattern: &regex::bytes::Regex, html: &[u8]) -> Option<PostDate> {
    let captures = pattern.captures(html)?;
    let text = std::str::from_utf8(&captures["date"]).unwrap();
    let (date, _) = chrono::NaiveDate::parse_and_remainder(text, "%b %d, %Y").ok()?;
    PostDate::from_ymd_opt(date.year(), date.month(), date.day())
}

#[test]
fn date_from_html_finds_what_the_pattern_finds() {
    let pattern = timestamp_pattern();
    let mut numbers = Numbers(2);
    let words = [
        "<span", "<span>", ">", " class=\"x\"", " ", "\n", "Jul", "Feb", "Abc", "J", "ul", " 13", "13",
        "30", ", ", ",", "2023", "202", "3", ", 7", "7", "12", ":31", ":", "18", ":18", " PM", "PM",
        "AM", " ", "</span>", "</span", "<", "x",
    ];
    let shapes: [&[&str]; 3] = [
        &["<span", ">", "Jul", " 13", ", ", "2023", ", 7", ":31", ":18", " PM", "</span>"],
        &["<span", " class=\"x\"", ">", " ", "Feb", " ", "30", ", ", "2023", ", ", "12", ":31", ":18", "x", "AM", "</span>"],
        &["<span>", "\n", "Jul", " ", "3", ", ", "2023", ", ", "7", ":31", ":", "18", " ", "PM", "</span>"],
    ];
    let mut found = 0;
    for round in 0..12000 {
        let html = if round % 3 == 0 {
            numbers.text(&words, 16)
        } else {
            let shape = shapes[numbers.below(shapes.len())];
            let mut parts: Vec<&str> = shape.to_vec();
            for _ in 0..numbers.below(3) {
                let at = numbers.below(parts.len());
                match numbers.below(3) {
                    0 => parts[at] = numbers.pick(&words),
                    1 => {
                        parts.remove(at);
                    }
                    _ => parts.insert(at, numbers.pick(&words)),
                }
            }
            let before = numbers.text(&words, 3);
            format!("{before}{}", parts.concat())
        };
        let ours = date_from_html(html.as_bytes());
        assert_eq!(ours, html_date_by_pattern(&pattern, html.as_bytes()), "{html:?}");
        if ours.is_some() {
            found += 1;
        }
    }
    assert!(found > 400);
}

fn chars(text: &str) -> Vec<char> {
    text.chars().collect()
}

fn string(chars: Vec<char>) -> String {
    chars.into_iter().collect()
}

const MARKUP: [&str; 22] = [
    "<", ">", "<>", "<b>", "</b>", " ", "  ", "\n", "\t", "\u{a0}", "\u{2003}", "a", "b", ",", ".", "!",
    ":", ";", "?", "&amp;", "&nbsp;", "&lt;",
];

#[test]
fn the_steps_of_plain_text_do_what_their_patterns_do() {
    let tags = regex::Regex::new(r"<[^>]+>").unwrap();
    let spaces = regex::Regex::new(r"\s+").unwrap();
    let marks = regex::Regex::new(r" ([,.!:;?])").unwrap();
    let mut numbers = Numbers(3);
    for _ in 0..20000 {
        let html = numbers.text(&MARKUP, 12);
        assert_eq!(string(strip_tags(&chars(&html))), tags.replace_all(&html, " "), "{html:?}");
        assert_eq!(string(collapse_spaces(&chars(&html))), spaces.replace_all(&html, " "), "{html:?}");
        assert_eq!(string(tighten_marks(&chars(&html))), marks.replace_all(&html, "$1"), "{html:?}");
        let stripped = tags.replace_all(&html, " ");
        let compressed = spaces.replace_all(&stripped, " ");
        let despaced = marks.replace_all(&compressed, "$1");
        let text = htmlize::unescape(despaced).trim().to_string();
        assert_eq!(get_text_from_html(&html), text, "{html:?}");
    }
}

#[test]
fn the_lead_text_is_the_plain_text_cut_between_graphemes() {
    let mut numbers = Numbers(4);
    let words = [
        "word ", "<p>", "\u{4f60}", "e\u{301}", "\u{1f468}\u{200d}\u{1f469}", " , ", "&amp;", "x",
        "\u{644}\u{627}", "\r\n",
    ];
    for _ in 0..2000 {
        let html = numbers.text(&words, 200);
        let text = get_text_from_html(&html);
        let mut lead = String::new();
        if text.chars().count() <= 140 {
            lead = text.clone();
        } else {
            for grapheme in text.graphemes(true) {
                if lead.chars().count() + grapheme.chars().count() > 140 {
                    break;
                }
                lead.push_str(grapheme);
            }
            lead.push_str("...");
        }
        assert_eq!(get_initial_text_from_html(&html), lead, "{html:?}");
    }
}

fn rewrite_by_pattern(
    runs: &regex::Regex,
    tags: &regex::Regex,
    html: &str,
    i_texts: &mut Vec<String>,
) -> String {
    let mut known: HashSet<String> = HashSet::new();
    runs.replace_all(html, |caps: &regex::Captures| {
        let run = caps.get(0).unwrap().as_str();
        let element = format!("<i>{}</i>", tags.replace_all(run, ""));
        let text = get_text_from_html(&element);
        let text =
            text.trim_matches(|c: char| c.is_ascii_punctuation() || c.is_ascii_whitespace()).to_string();
        if text.len() >= 3 && text.len() <= 50 && known.insert(text.clone()) {
            i_texts.push(text);
        }
        element
    })
    .to_string()
}

#[test]
fn rewrite_i_tags_does_what_its_patterns_do() {
    let runs = regex::Regex::new(r#"(<i>.*?</i>(\s|&nbsp;)*)+"#).unwrap();
    let tags = regex::Regex::new(r#"</?i>"#).unwrap();
    let mut numbers = Numbers(5);
    let words = [
        "<i>", "<i>", "</i>", "</i>", "<i>hi</i>", "<i>there</i>", "<i>you</i>", "<i>a</i>", " ", "\n",
        "&nbsp;", "\u{a0}", "<br>", "<b>", "</b>", "a", "hi",
        "there", "(", ")", ".", "<", ">", "i", "/", "&", "nbsp;", "\u{e9}\u{e9}\u{e9}",
        "a very long stretch of emphasized text, far too long to be a caption",
    ];
    let mut recorded = 0;
    for _ in 0..8000 {
        let html = numbers.text(&words, 14);
        let mut ours = vec![String::from("kept")];
        let mut theirs = vec![String::from("kept")];
        let out = rewrite_i_tags(&html, &mut ours);
        assert_eq!(out, rewrite_by_pattern(&runs, &tags, &html, &mut theirs), "{html:?}");
        assert_eq!(ours, theirs, "{html:?}");
        recorded += ours.len() - 1;
    }
    assert!(recorded > 300);
}

fn delimiter_pattern(token: &str) -> regex::bytes::Regex {
    regex::bytes::Regex::new(&format!(r"(?-u)[\r\n]*-*{}-*[\r\n]*", regex::escape(token))).unwrap()
}

fn fragments_by_pattern(delimiter: &regex::bytes::Regex, body: &[u8]) -> Vec<Vec<u8>> {
    delimiter.split(body).filter(|f| !f.is_empty()).map(|f| f.to_vec()).collect()
}

fn fragments(body: &[u8], token: &[u8]) -> Vec<Vec<u8>> {
    let mut found = vec![];
    let mut from = 0;
    loop {
        let (start, next) = match find_delimiter(body, token, from) {
            Some((start, end)) => (start, Some(end)),
            None => (body.len(), None),
        };
        if from < start {
            found.push(body[from..start].to_vec());
        }
        match next {
            Some(end) => from = end,
            None => return found,
        }
    }
}

#[test]
fn delimiters_are_found_where_the_escaped_pattern_finds_them() {
    let mut numbers = Numbers(6);
    let tokens = ["B", "--B", "-", "a.b+c", "--x--", "ab", "a-b", "----MultipartBoundary--x----"];
    for token in tokens {
        let delimiter = delimiter_pattern(token);
        let words = [token, token, "-", "--", "\r\n", "\n", "\r", "a", "b", "x", ".", "+", "c", " "];
        for _ in 0..4000 {
            let body = numbers.text(&words, 12);
            assert_eq!(
                fragments(body.as_bytes(), token.as_bytes()),
                fragments_by_pattern(&delimiter, body.as_bytes()),
                "{token:?} in {body:?}"
            );
        }
    }
}

const HEADER: &str = r#"(?x)^From:\s[^\r\n]+\s*
Snapshot-Content-Location:\s(?P<location>[^\r\n]+)\s*
Subject:\s(?P<subject>[^\r\n]+)\s*
Date:\s(?<date>[^\r\n]+)\s*
MIME-Version:\s[^\r\n]+\s*
Content-Type:\s[^\r\n]+\s*
\s+type=[^\r\n]+
\s+boundary="(?P<boundary>[^"]+)""#;

const PART: &str = r#"(?x)^Content-Type:\s(?P<content_type>\S+)\s*
(?:Content-ID:\s\S+\s+)?
Content-Transfer-Encoding:\s(?P<encoding>\S+)\s*
Content-Location:\s(?P<location>\S+)\s*"#;

#[test]
fn a_part_that_is_read_is_read_as_the_pattern_reads_it() {
    let pattern = regex::bytes::Regex::new(PART).unwrap();
    let mut numbers = Numbers(7);
    let words = [
        "Content-Type:", "Content-ID:", "Content-Transfer-Encoding:", "Content-Location:", " ", " ",
        "\r\n", "\r\n", "\n", "\t", "text/html", "base64", "base64", "quoted-printable", "<id>", "cid:1",
        "aGk=", "x", "",
    ];
    let shape = [
        "Content-Type:", " ", "text/html", "\r\n", "Content-ID:", " ", "<id>", "\r\n",
        "Content-Transfer-Encoding:", " ", "base64", "\r\n", "Content-Location:", " ", "cid:1", "\r\n",
        "\r\n", "aGk=",
    ];
    let mut read = 0;
    for _ in 0..8000 {
        let mut parts = shape.to_vec();
        for _ in 0..numbers.below(4) {
            let at = numbers.below(parts.len());
            match numbers.below(3) {
                0 => parts[at] = numbers.pick(&words),
                1 => {
                    parts.remove(at);
                }
                _ => parts.insert(at, numbers.pick(&words)),
            }
        }
        let text = parts.concat();
        let captures = pattern.captures(text.as_bytes());
        match parse_mhtml_piece(text.as_bytes()) {
            Ok(piece) => {
                let captures = captures.expect(&text);
                assert_eq!(piece.content_type.as_bytes(), &captures["content_type"], "{text:?}");
                assert_eq!(piece.location.as_bytes(), &captures["location"], "{text:?}");
                let payload = &text.as_bytes()[captures.get(0).unwrap().end()..];
                let decoded = match &captures["encoding"] {
                    b"base64" => mhtml_posts::transfer::decode(b"base64", payload),
                    _ => mhtml_posts::transfer::decode(b"quoted-printable", payload),
                };
                assert_eq!(piece.bytes, decoded.unwrap().as_slice(), "{text:?}");
                read += 1;
            }
            Err(e) => {
                if captures.is_none() {
                    assert_eq!(e.kind, mhtml_posts::error::ErrorKind::MalformedPart, "{text:?}");
                }
            }
        }
    }
    assert!(read > 800);
}

#[test]
fn a_header_that_is_read_is_read_as_the_pattern_reads_it() {
    let pattern = regex::bytes::Regex::new(HEADER).unwrap();
    let mut numbers = Numbers(8);
    let words = [
        "From:", "Snapshot-Content-Location:", "Subject:", "Date:", "MIME-Version:", "Content-Type:",
        "type=", "boundary=\"", "\"", " ", " ", "\r\n", "\r\n", "\n", "\t", "x", "",
        "Wed, 19 Jul 2023 12:34:56 -0700",
    ];
    let shape = [
        "From:", " ", "<Saved by Blink>", "\r\n", "Snapshot-Content-Location:", " ", "https://x/y", "\r\n",
        "Subject:", " ", "A title", "\r\n", "Date:", " ", "Wed, 19 Jul 2023 12:34:56 -0700", "\r\n",
        "MIME-Version:", " ", "1.0", "\r\n", "Content-Type:", " ", "multipart/related;", "\r\n", "\t",
        "type=", "\"text/html\";", "\r\n", "\t", "boundary=\"", "B", "\"", "\r\n", "\r\n", "--B\r\n",
        "Content-Type: text/html\r\nContent-Transfer-Encoding: base64\r\nContent-Location: u\r\n\r\naGk=",
        "\r\n--B--\r\n",
    ];
    let mut read = 0;
    for _ in 0..8000 {
        let mut parts = shape.to_vec();
        for _ in 0..numbers.below(3) {
            let at = numbers.below(parts.len() - 3);
            match numbers.below(3) {
                0 => parts[at] = numbers.pick(&words),
                1 => {
                    parts.remove(at);
                }
                _ => parts.insert(at, numbers.pick(&words)),
            }
        }
        let text = parts.concat();
        let captures = pattern.captures(text.as_bytes());
        match parse(text.as_bytes()) {
            Ok(doc) => {
                let captures = captures.expect(&text);
                assert_eq!(doc.subject.as_bytes(), &captures["subject"], "{text:?}");
                assert_eq!(doc.location.as_bytes(), &captures["location"], "{text:?}");
                let date = chrono::DateTime::parse_from_rfc2822(
                    std::str::from_utf8(&captures["date"]).unwrap(),
                )
                .unwrap();
                assert_eq!(doc.date.offset_seconds, date.offset().local_minus_utc());
                let body = &text.as_bytes()[captures.get(0).unwrap().end()..];
                let token = std::str::from_utf8(&captures["boundary"]).unwrap();
                let delimiter = delimiter_pattern(token);
                assert_eq!(doc.pieces.len(), fragments_by_pattern(&delimiter, body).len(), "{text:?}");
                read += 1;
            }
            Err(e) => {
                if captures.is_none() {
                    assert_eq!(e.kind, mhtml_posts::error::ErrorKind::MalformedHeader, "{text:?}");
                }
            }
        }
    }
    assert!(read > 800);
}
