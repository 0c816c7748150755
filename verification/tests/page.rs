use std::collections::hash_map::DefaultHasher;
use std::hash::{Hash, Hasher};

use mhtml_posts::dates::{CaptureTime, PostDate};
use mhtml_posts::error::ErrorKind;
use mhtml_posts::mhtml::{MhtmlDoc, MhtmlPiece};
use mhtml_posts::page::{
    calculate_hash, create_page_from_mhtml, find_image, flatten_title, list_thumbnails,
    omit_images, page_basename, page_from_post, store_images, Page, PagePlan, StoredImage,
};
use mhtml_posts::post::GroupsPost;

fn std_hash<T: Hash>(t: &T) -> u64 {
    let mut s = DefaultHasher::new();
    t.hash(&mut s);
    s.finish()
}

fn piece(content_type: &str, location: &str, bytes: &[u8]) -> MhtmlPiece {
    MhtmlPiece {
        content_type: String::from(content_type),
        location: String::from(location),
        bytes: bytes.to_vec(),
    }
}

fn strings(texts: &[&str]) -> Vec<String> {
    texts.iter().map(|t| t.to_string()).collect()
}

#[test]
fn calculate_hash_is_the_hash_of_the_string() {
    for text in ["", "a", "https://groups.example/g/hikes/c/abc", "caf\u{e9} \u{4f60}"] {
        assert_eq!(calculate_hash(text), std_hash(&String::from(text)));
        assert_eq!(calculate_hash(text), std_hash(&text));
    }
    assert_ne!(calculate_hash("a"), calculate_hash("b"));
}

#[test]
fn flatten_title_keeps_what_file_names_take() {
    assert_eq!(flatten_title("Hike 7/19/23"), "hike_7_19_23");
    assert_eq!(flatten_title("A_b C"), "a_b_c");
    assert_eq!(flatten_title("Caf\u{e9}: (the) Best!"), "caf_the_best");
    assert_eq!(flatten_title("  "), "__");
    assert_eq!(flatten_title("\t\u{4f60}-"), "");
    assert_eq!(flatten_title(""), "");
    assert_eq!(flatten_title("AZaz09"), "azaz09");
}

#[test]
fn page_basename_joins_title_and_hash() {
    let address = "https://groups.example/g/hikes/c/abc";
    assert_eq!(
        page_basename("Hike 7/19/23", address),
        format!("hike_7_19_23_{:x}", std_hash(&String::from(address)))
    );
    assert_eq!(page_basename("", ""), format!("_{:x}", std_hash(&String::new())));
}

#[test]
fn store_images_numbers_the_images_the_post_refers_to() {
    let pieces = vec![
        piece("image/jpeg", "a", b"first part is the post"),
        piece("image/jpeg", "a", b"A"),
        piece("image/png", "b", b"B"),
        piece("image/jpeg", "c", b"C"),
        piece("image/jpeg", "d", b"D"),
        piece("image/jpeg", "a", b"A2"),
    ];
    let images = store_images(&pieces, &strings(&["d", "a", "b", "a"]), "dir");
    let seen: Vec<(usize, &str, &str, &str)> = images
        .iter()
        .map(|i| (i.piece, i.location.as_str(), i.path.as_str(), i.thumbnail.as_str()))
        .collect();
    assert_eq!(
        seen,
        vec![
            (1, "a", "dir/001.jpeg", "dir/001_thumbnail.jpeg"),
            (4, "d", "dir/002.jpeg", "dir/002_thumbnail.jpeg"),
            (5, "a", "dir/003.jpeg", "dir/003_thumbnail.jpeg"),
        ]
    );
    assert!(store_images(&pieces, &vec![], "dir").is_empty());
    assert!(store_images(&vec![], &strings(&["a"]), "dir").is_empty());
    let first_only = vec![piece("image/jpeg", "a", b"first part is the post")];
    assert!(store_images(&first_only, &strings(&["a"]), "dir").is_empty());
}

#[test]
fn store_images_numbers_past_three_digits() {
    let mut pieces = vec![piece("text/html", "post", b"")];
    for _ in 0..1000 {
        pieces.push(piece("image/jpeg", "a", b""));
    }
    let images = store_images(&pieces, &strings(&["a"]), "d");
    assert_eq!(images.len(), 1000);
    assert_eq!(images[8].path, "d/009.jpeg");
    assert_eq!(images[9].path, "d/010.jpeg");
    assert_eq!(images[99].thumbnail, "d/100_thumbnail.jpeg");
    assert_eq!(images[999].path, "d/1000.jpeg");
}

fn stored(location: &str, number: usize) -> StoredImage {
    StoredImage {
        piece: number,
        location: String::from(location),
        path: format!("d/{number:03}.jpeg"),
        thumbnail: format!("d/{number:03}_thumbnail.jpeg"),
    }
}

#[test]
fn find_image_takes_the_last_of_an_address() {
    let images = vec![stored("a", 1), stored("b", 2), stored("a", 3)];
    assert_eq!(find_image(&images, &String::from("a")).unwrap().piece, 3);
    assert_eq!(find_image(&images, &String::from("b")).unwrap().piece, 2);
    assert!(find_image(&images, &String::from("c")).is_none());
    assert!(find_image(&vec![], &String::from("a")).is_none());
}

#[test]
fn list_thumbnails_follows_the_post() {
    let images = vec![stored("a", 1), stored("b", 2), stored("a", 3)];
    assert_eq!(
        list_thumbnails(&images, &strings(&["b", "x", "a", "b", "a"])),
        vec![
            "d/002_thumbnail.jpeg",
            "d/003_thumbnail.jpeg",
            "d/002_thumbnail.jpeg",
            "d/003_thumbnail.jpeg",
        ]
    );
    assert!(list_thumbnails(&images, &vec![]).is_empty());
}

#[test]
fn page_from_post_makes_the_page() {
    let doc = MhtmlDoc {
        subject: String::from("Hike 7/19/23"),
        date: CaptureTime {
            date: PostDate { year: 2024, month: 1, day: 2 },
            second_of_day: 1,
            nanosecond: 0,
            offset_seconds: 3600,
        },
        location: String::from("https://groups.example/c/1"),
        pieces: vec![
            piece("text/html", "https://groups.example/c/1", b""),
            piece("image/jpeg", "https://img.example/a.jpg", b"A"),
            piece("image/jpeg", "https://img.example/unused.jpg", b"U"),
            piece("image/jpeg", "https://img.example/b.jpg", b"B"),
        ],
    };
    let post = GroupsPost {
        author: Some(String::from("Ann")),
        date: None,
        html: String::from("<p>Up the <i>hill</i> , down again.</p>"),
        image_urls: strings(&["https://img.example/b.jpg", "https://img.example/a.jpg"]),
        i_text: strings(&["hill"]),
    };
    let captured = doc.date;
    let base = format!("hike_7_19_23_{:x}", std_hash(&doc.location));
    let plan = page_from_post(doc, post);
    assert_eq!(plan.page.title, "Hike 7/19/23");
    assert_eq!(plan.page.scrape_date, captured);
    assert_eq!(plan.pieces.len(), 4);
    assert_eq!(plan.pieces[3].bytes, b"B");
    assert_eq!(plan.page.post_date, PostDate { year: 2023, month: 7, day: 19 });
    assert_eq!(plan.page.original_url, "https://groups.example/c/1");
    assert_eq!(plan.page.output_file, format!("{base}.html"));
    assert_eq!(plan.page.images_dir, format!("{base}_images"));
    assert_eq!(plan.page.initial_text, "Up the hill, down again.");
    assert_eq!(
        plan.page.thumbnails,
        vec![format!("{base}_images/002_thumbnail.jpeg"), format!("{base}_images/001_thumbnail.jpeg")]
    );
    assert_eq!(plan.page.i_text, vec!["hill"]);
    assert_eq!(plan.post.author.as_deref(), Some("Ann"));
    assert_eq!(plan.images.len(), 2);
    assert_eq!(plan.images[0].piece, 1);
    assert_eq!(plan.images[0].path, format!("{base}_images/001.jpeg"));
    assert_eq!(plan.images[1].piece, 3);
    assert_eq!(plan.images[1].location, "https://img.example/b.jpg");
}

fn archive(first_type: &str, html: &str) -> Vec<u8> {
    let html = quoted_printable::encode_to_str(html);
    format!(
        "From: <Saved by Blink>\r\n\
         Snapshot-Content-Location: https://groups.example/c/1\r\n\
         Subject: A walk\r\n\
         Date: Tue, 2 Jan 2024 23:30:00 -0800\r\n\
         MIME-Version: 1.0\r\n\
         Content-Type: multipart/related;\r\n\ttype=\"text/html\";\r\n\tboundary=\"--X--\"\r\n\r\n\r\n\
         ----X--\r\nContent-Type: {first_type}\r\nContent-ID: <f@mhtml.blink>\r\n\
         Content-Transfer-Encoding: quoted-printable\r\nContent-Location: https://groups.example/c/1\r\n\r\n\
         {html}\r\n\
         ----X--\r\nContent-Type: image/jpeg\r\nContent-Transfer-Encoding: base64\r\n\
         Content-Location: https://img.example/a.jpg?s=1&t=2\r\n\r\n/9j/\r\n\
         ----X----\r\n"
    )
    .into_bytes()
}

#[test]
fn create_page_from_mhtml_makes_the_plan() {
    let html = "<section role=\"listitem\" data-author=\"Ann\"><div role=\"region\">\
<p>So <i>very</i>&nbsp;<i>far</i> !</p><img src=\"https://img.example/a.jpg?s=1&amp;amp;t=3\"></div></section>";
    let bytes = archive("text/html", html);
    let plan = create_page_from_mhtml(&bytes).unwrap();
    assert_eq!(plan.page.title, "A walk");
    assert_eq!(plan.page.post_date, PostDate { year: 2024, month: 1, day: 2 });
    assert_eq!(plan.page.scrape_date.second_of_day, 23 * 3600 + 30 * 60);
    assert_eq!(plan.page.scrape_date.offset_seconds, -8 * 3600);
    assert_eq!(plan.page.initial_text, "So very\u{a0}far!");
    assert_eq!(plan.page.i_text, vec!["very\u{a0}far"]);
    assert_eq!(plan.post.author.as_deref(), Some("Ann"));
    assert_eq!(plan.post.image_urls, vec!["https://img.example/a.jpg?s=1&t=3"]);
    assert_eq!(plan.images.len(), 0);
}

#[test]
fn create_page_from_mhtml_stores_the_images_of_the_post() {
    let html = "<section role=\"listitem\"><div role=\"region\">\
<span>Dec 31, 2023, 9:00:00 AM</span><img src=\"https://img.example/a.jpg?s=1&amp;t=2\"></div></section>";
    let plan = create_page_from_mhtml(&archive("text/html", html)).unwrap();
    assert_eq!(plan.page.post_date, PostDate { year: 2023, month: 12, day: 31 });
    assert_eq!(plan.images.len(), 1);
    assert_eq!(plan.images[0].piece, 1);
    assert_eq!(plan.images[0].path, format!("{}/001.jpeg", plan.page.images_dir));
    assert_eq!(plan.pieces[plan.images[0].piece].bytes, [0xff, 0xd8, 0xff]);
    assert_eq!(plan.page.thumbnails, vec![format!("{}/001_thumbnail.jpeg", plan.page.images_dir)]);
    assert_eq!(plan.page.output_file, format!("a_walk_{:x}.html", calculate_hash("https://groups.example/c/1")));
}

#[test]
fn create_page_from_mhtml_gives_the_failure_of_its_step() {
    let html = "<section role=\"listitem\"><div role=\"region\">x</div></section>";
    assert_eq!(create_page_from_mhtml(b"").unwrap_err().kind, ErrorKind::MalformedHeader);
    assert_eq!(
        create_page_from_mhtml(&archive("text/plain", html)).unwrap_err().kind,
        ErrorKind::NotHtml
    );
    assert_eq!(
        create_page_from_mhtml(&archive("text/html", "<p>x</p>")).unwrap_err().kind,
        ErrorKind::MissingListItem
    );
    assert_eq!(
        create_page_from_mhtml(&archive("text/html", "<section role=\"listitem\">x</section>"))
            .unwrap_err()
            .kind,
        ErrorKind::MissingRegion
    );
    let broken = String::from_utf8(archive("text/html", html)).unwrap().replace("=3D", "=zz");
    assert_eq!(
        create_page_from_mhtml(broken.as_bytes()).unwrap_err().kind,
        ErrorKind::Malformed
    );
}

#[test]
fn omit_images_drops_images_and_their_thumbnails() {
    let plan = || PagePlan {
        page: Page {
            title: String::from("T"),
            thumbnails: strings(&["d/002_thumbnail.jpeg", "d/003_thumbnail.jpeg", "d/002_thumbnail.jpeg"]),
            ..Page::default()
        },
        post: GroupsPost { image_urls: strings(&["b", "a", "x", "b"]), ..GroupsPost::default() },
        images: vec![stored("a", 1), stored("b", 2), stored("a", 3)],
        pieces: vec![],
    };
    let kept = omit_images(plan(), &vec![]);
    assert_eq!(kept.images.len(), 3);
    assert_eq!(
        kept.page.thumbnails,
        vec!["d/002_thumbnail.jpeg", "d/003_thumbnail.jpeg", "d/002_thumbnail.jpeg"]
    );
    let kept = omit_images(plan(), &vec![3, 7]);
    let pieces: Vec<usize> = kept.images.iter().map(|i| i.piece).collect();
    assert_eq!(pieces, vec![1, 2]);
    assert_eq!(
        kept.page.thumbnails,
        vec!["d/002_thumbnail.jpeg", "d/001_thumbnail.jpeg", "d/002_thumbnail.jpeg"]
    );
    assert_eq!(kept.page.title, "T");
    assert_eq!(kept.post.image_urls, vec!["b", "a", "x", "b"]);
    let kept = omit_images(plan(), &vec![2, 1, 3]);
    assert!(kept.images.is_empty());
    assert!(kept.page.thumbnails.is_empty());
}
