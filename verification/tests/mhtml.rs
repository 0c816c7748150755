use mhtml_posts::dates::{CaptureTime, PostDate};
use mhtml_posts::error::{ErrorKind, CONTEXT_LIMIT};
use mhtml_posts::mhtml::{parse, parse_mhtml_piece, MhtmlDoc, MhtmlPiece};

fn header(boundary: &str) -> String {
    format!(
        "From: <Saved by Blink>\r\n\
         Snapshot-Content-Location: https://groups.example/g/hikes/c/abc\r\n\
         Subject: Hike 7/19/23\r\n\
         Date: Wed, 19 Jul 2023 12:34:56 -0700\r\n\
         MIME-Version: 1.0\r\n\
         Content-Type: multipart/related;\r\n\
         \ttype=\"text/html\";\r\n\
         \tboundary=\"{boundary}\"\r\n\r\n\r\n"
    )
}

fn html_part(body: &str) -> String {
    format!(
        "Content-Type: text/html\r\n\
         Content-ID: <frame-1@mhtml.blink>\r\n\
         Content-Transfer-Encoding: quoted-printable\r\n\
         Content-Location: https://groups.example/g/hikes/c/abc\r\n\r\n{body}"
    )
}

fn image_part(location: &str, base64: &str) -> String {
    format!(
        "Content-Type: image/jpeg\r\n\
         Content-Transfer-Encoding: base64\r\n\
         Content-Location: {location}\r\n\r\n{base64}"
    )
}

fn archive(boundary: &str, parts: &[String]) -> Vec<u8> {
    let mut text = header(boundary);
    for part in parts {
        text.push_str(&format!("--{boundary}\r\n{part}\r\n"));
    }
    text.push_str(&format!("--{boundary}--\r\n"));
    text.into_bytes()
}

#[test]
fn parse_reads_header_and_parts() {
    let bytes = archive(
        "----MultipartBoundary--abc123----",
        &[
            html_part("<p>caf=C3=A9</p>"),
            image_part("https://img.example/a.jpg", "aGVsbG8g\r\nd29ybGQ="),
        ],
    );
    let doc = parse(&bytes).unwrap();
    assert_eq!(doc.subject, "Hike 7/19/23");
    assert_eq!(doc.location, "https://groups.example/g/hikes/c/abc");
    assert_eq!(
        doc.date,
        CaptureTime {
            date: PostDate { year: 2023, month: 7, day: 19 },
            second_of_day: 12 * 3600 + 34 * 60 + 56,
            nanosecond: 0,
            offset_seconds: -7 * 3600,
        }
    );
    assert_eq!(doc.pieces.len(), 2);
    assert_eq!(doc.pieces[0].content_type, "text/html");
    assert_eq!(doc.pieces[0].location, "https://groups.example/g/hikes/c/abc");
    assert_eq!(doc.pieces[0].bytes, "<p>caf\u{e9}</p>".as_bytes());
    assert_eq!(doc.pieces[1].content_type, "image/jpeg");
    assert_eq!(doc.pieces[1].location, "https://img.example/a.jpg");
    assert_eq!(doc.pieces[1].bytes, b"hello world");
}

#[test]
fn parse_takes_the_boundary_as_it_is_written() {
    let bytes = archive(
        "a.b+c",
        &[html_part("<p>aXb+c and a.bbc and abbbc</p>"), image_part("cid:1", "aGk=")],
    );
    let doc = parse(&bytes).unwrap();
    assert_eq!(doc.pieces.len(), 2);
    assert_eq!(doc.pieces[0].bytes, b"<p>aXb+c and a.bbc and abbbc</p>");
    assert_eq!(doc.pieces[1].bytes, b"hi");
}

#[test]
fn parse_cuts_wherever_the_boundary_is_written() {
    let bytes = archive("a.b+c", &[html_part("<p>one a.b+c\r\n"), image_part("cid:1", "aGk=")]);
    let doc = parse(&bytes).unwrap();
    assert_eq!(doc.pieces.len(), 2);
    assert_eq!(doc.pieces[0].bytes, b"<p>one");
    assert_eq!(doc.pieces[1].bytes, b"hi");
}

#[test]
fn parse_round_trips_a_boundary_of_metacharacters() {
    for boundary in ["a.b+c", "(x|y)*", "[a-z]{2}", "^$\\d", "----=_Part.1+2"] {
        let bytes = archive(boundary, &[html_part("<p>one</p>"), image_part("cid:2", "dHdv")]);
        let doc = parse(&bytes).unwrap();
        assert_eq!(doc.pieces.len(), 2, "{boundary}");
        assert_eq!(doc.pieces[0].bytes, b"<p>one</p>");
        assert_eq!(doc.pieces[1].bytes, b"two");
    }
}

#[test]
fn parse_finds_a_boundary_that_starts_with_dashes() {
    let boundary = "--x--";
    let text = format!(
        "{}------x----\r\n{}\r\n\r\n--x--\r\n{}\r\n------x------\r\n",
        header(boundary),
        html_part("A"),
        image_part("cid:3", "aGk=")
    );
    let doc = parse(text.as_bytes()).unwrap();
    assert_eq!(doc.pieces.len(), 2);
    assert_eq!(doc.pieces[0].bytes, b"A");
    assert_eq!(doc.pieces[1].bytes, b"hi");
}

#[test]
fn parse_accepts_bare_line_feeds_in_the_header() {
    let text = "From: me\nSnapshot-Content-Location: u\nSubject: s\nDate: Wed, 19 Jul 2023 12:34:56 +0000\nMIME-Version: 1.0\nContent-Type: multipart/related;\n type=\"text/html\";\n boundary=\"B\"\n\n--B\nContent-Type: text/html\nContent-Transfer-Encoding: base64\nContent-Location: u\n\naGk=\n--B--\n";
    let doc = parse(text.as_bytes()).unwrap();
    assert_eq!(doc.subject, "s");
    assert_eq!(doc.location, "u");
    assert_eq!(doc.pieces.len(), 1);
    assert_eq!(doc.pieces[0].bytes, b"hi");
}

#[test]
fn parse_rejects_a_header_out_of_shape() {
    let good = String::from_utf8(archive("B", &[html_part("x")])).unwrap();
    assert!(parse(good.as_bytes()).is_ok());
    let cases = [
        good.replace("From: <Saved by Blink>\r\n", ""),
        good.replace("Subject: Hike 7/19/23\r\n", ""),
        good.replace("Subject: Hike 7/19/23", "Subject:Hike"),
        good.replace("Subject: Hike 7/19/23", "Subject: "),
        good.replace(
            "Subject: Hike 7/19/23\r\nDate: Wed, 19 Jul 2023 12:34:56 -0700\r\n",
            "Date: Wed, 19 Jul 2023 12:34:56 -0700\r\nSubject: Hike 7/19/23\r\n",
        ),
        good.replace("Date: Wed, 19 Jul 2023 12:34:56 -0700", "Date: yesterday"),
        good.replace("\ttype=\"text/html\";\r\n", ""),
        good.replace("\tboundary=\"B\"", "\tboundary=B"),
        good.replace("\tboundary=\"B\"", "\tboundary=\"\""),
        good.replace("\tboundary=\"B\"", "\tboundary=\"B\r\n\""),
        good.replace("From:", " From:"),
        String::new(),
    ];
    for text in cases {
        let e = parse(text.as_bytes()).unwrap_err();
        assert_eq!(e.kind, ErrorKind::MalformedHeader, "{text}");
        assert_eq!(e.message, "MHTML doesn't have expected header");
        let shown = text.as_bytes();
        let kept = shown.len().min(CONTEXT_LIMIT);
        assert_eq!(e.context, &shown[..kept]);
    }
}

#[test]
fn parse_rejects_a_subject_that_is_not_text() {
    let mut bytes = archive("B", &[html_part("x")]);
    let at = bytes.windows(4).position(|w| w == b"Hike").unwrap();
    bytes[at] = 0xff;
    assert_eq!(parse(&bytes).unwrap_err().kind, ErrorKind::MalformedHeader);
}

#[test]
fn parse_rejects_an_archive_without_parts() {
    let text = format!("{}--B--\r\n", header("B"));
    let e = parse(text.as_bytes()).unwrap_err();
    assert_eq!(e.kind, ErrorKind::EmptyDocument);
    assert_eq!(e.message, "MHTML has no data");
    assert!(e.context.is_empty());
    let text = header("B");
    let e = parse(text.trim_end().as_bytes()).unwrap_err();
    assert_eq!(e.kind, ErrorKind::EmptyDocument);
}

#[test]
fn parse_takes_line_breaks_without_a_delimiter_for_a_part() {
    let e = parse(header("B").as_bytes()).unwrap_err();
    assert_eq!(e.kind, ErrorKind::MalformedPart);
    assert_eq!(e.context, b"\r\n\r\n\r\n");
}

#[test]
fn parse_fails_on_the_first_part_that_fails() {
    let bytes = archive(
        "B",
        &[html_part("x"), "Content-Type: image/jpeg\r\n\r\nabc".to_string(), image_part("cid:4", "a")],
    );
    let e = parse(&bytes).unwrap_err();
    assert_eq!(e.kind, ErrorKind::MalformedPart);
    assert_eq!(e.context, b"Content-Type: image/jpeg\r\n\r\nabc");
}

#[test]
fn parse_fails_on_an_unknown_transfer_encoding() {
    let part = "Content-Type: text/css\r\nContent-Transfer-Encoding: 8bit\r\nContent-Location: cid:5\r\n\r\nbody{}";
    let bytes = archive("B", &[html_part("x"), part.to_string()]);
    let e = parse(&bytes).unwrap_err();
    assert_eq!(e.kind, ErrorKind::UnsupportedEncoding);
    assert_eq!(e.context, part.as_bytes());
}

#[test]
fn parse_fails_on_a_payload_that_does_not_decode() {
    let bytes = archive("B", &[html_part("x"), image_part("cid:6", "a*b=")]);
    assert_eq!(parse(&bytes).unwrap_err().kind, ErrorKind::Malformed);
    let bytes = archive("B", &[html_part("a=zz")]);
    assert_eq!(parse(&bytes).unwrap_err().kind, ErrorKind::Malformed);
}

#[test]
fn parse_mhtml_piece_reads_a_part() {
    let piece = parse_mhtml_piece(image_part("https://img.example/a.jpg", "aGk=").as_bytes()).unwrap();
    assert_eq!(piece.content_type, "image/jpeg");
    assert_eq!(piece.location, "https://img.example/a.jpg");
    assert_eq!(piece.bytes, b"hi");
}

#[test]
fn parse_mhtml_piece_may_have_an_empty_payload() {
    let piece = parse_mhtml_piece(b"Content-Type: text/css\nContent-Transfer-Encoding: base64\nContent-Location: cid:7").unwrap();
    assert_eq!(piece.location, "cid:7");
    assert_eq!(piece.bytes, b"");
}

#[test]
fn parse_mhtml_piece_skips_the_content_id() {
    let with_id = parse_mhtml_piece(html_part("a=3Db").as_bytes()).unwrap();
    assert_eq!(with_id.content_type, "text/html");
    assert_eq!(with_id.bytes, b"a=b");
}

#[test]
fn parse_mhtml_piece_rejects_a_header_out_of_shape() {
    let cases: [&[u8]; 7] = [
        b"",
        b"Content-Type: text/html\r\n",
        b"Content-Location: u\r\nContent-Type: text/html\r\nContent-Transfer-Encoding: base64\r\n\r\n",
        b"Content-Type:  text/html\r\nContent-Transfer-Encoding: base64\r\nContent-Location: u\r\n\r\n",
        b"Content-Type: text/html\r\nContent-Transfer-Encoding: base64\r\n\r\naGk=",
        b"Content-Type: text/html\r\nContent-ID: <x>\r\nContent-ID: <y>\r\nContent-Transfer-Encoding: base64\r\nContent-Location: u\r\n\r\n",
        b"Content-Type: text/\xffhtml\r\nContent-Transfer-Encoding: base64\r\nContent-Location: u\r\n\r\n",
    ];
    for text in cases {
        let e = parse_mhtml_piece(text).unwrap_err();
        assert_eq!(e.kind, ErrorKind::MalformedPart);
        assert_eq!(e.message, "MHTML piece doesn't have expected header");
        assert_eq!(e.context, text);
    }
}

#[test]
fn parse_mhtml_piece_keeps_an_excerpt_of_a_long_fragment() {
    let text = vec![b'x'; 1000];
    let e = parse_mhtml_piece(&text).unwrap_err();
    assert_eq!(e.context.len(), CONTEXT_LIMIT);
    assert_eq!(e.context, &text[..CONTEXT_LIMIT]);
}

#[test]
fn defaults_are_empty() {
    let piece = MhtmlPiece::default();
    assert_eq!(piece.content_type, "");
    assert_eq!(piece.location, "");
    assert!(piece.bytes.is_empty());
    let doc = MhtmlDoc::default();
    assert_eq!(doc.subject, "");
    assert_eq!(doc.location, "");
    assert_eq!(doc.date, CaptureTime::default());
    assert!(doc.pieces.is_empty());
}

#[test]
fn parse_keeps_a_leap_second() {
    let text = format!(
        "{}--B\r\n{}\r\n--B--\r\n",
        header("B").replace("Wed, 19 Jul 2023 12:34:56 -0700", "Sun, 30 Jun 2024 23:59:60 +0000"),
        html_part("x")
    );
    let doc = parse(text.as_bytes()).unwrap();
    assert_eq!(doc.date.second_of_day, 86399);
    assert_eq!(doc.date.nanosecond, 1_000_000_000);
    assert_eq!(doc.date.offset_seconds, 0);
}
