//! The page that is made of one archive: its names, its dates, its lead
//! text and the images that are stored with it.

use vstd::prelude::*;
use vstd::string::*;
use vstd::std_specs::hash::DefaultHasherAdditionalSpecFns;
use std::collections::hash_map::DefaultHasher;
use std::hash::Hasher;
use crate::dates::{CaptureTime, PostDate, resolve_post_date, resolved_date};
use crate::emphasis::{is_known, known_from, texts_of};
use crate::error::{ErrorKind, Failure, InvalidData, bare_failure};
use crate::mhtml::{DocView, MhtmlDoc, MhtmlPiece, PieceView, document, parse, piece_views};
use crate::numerals::{hexadecimal, padded, push_hexadecimal, push_padded, push_text};
use crate::post::{GroupsPost, PostView, parse_post_from_mhtml_piece, piece_post};
use crate::text::{get_initial_text_from_html, lead_text};
use crate::utf8_bytes::{from_chars, to_chars};

verus! {

/// The hash of a text: what the default hasher of the standard library
/// makes of the text's UTF-8 bytes and the byte `0xff` after them.
pub open spec fn text_hash(text: Seq<char>) -> u64 {
    DefaultHasher::spec_finish(seq![vstd::utf8::encode_utf8(text), seq![0xffu8]])
}

/// Hashes a text with the default hasher of the standard library.
pub fn calculate_hash(text: &str) -> (h: u64)
    ensures
        h == text_hash(text@),
{
    let mut state = DefaultHasher::new();
    state.write(text.as_bytes());
    let end: [u8; 1] = [0xff];
    state.write(end.as_slice());
    assert(end@ =~= seq![0xffu8]);
    assert(state@ =~= seq![vstd::utf8::encode_utf8(text@), seq![0xffu8]]);
    state.finish()
}

/// One page of the site.
#[derive(Debug)]
pub struct Page {
    /// The title of the post.
    pub title: String,
    /// When the post was captured.
    pub scrape_date: CaptureTime,
    /// The day the post was written, as far as it can be told.
    pub post_date: PostDate,
    /// Where the post was captured from.
    pub original_url: String,
    /// The name of the page's file.
    pub output_file: String,
    /// The name of the directory of the page's images.
    pub images_dir: String,
    /// The start of the post's text.
    pub initial_text: String,
    /// The thumbnails of the post's images, in the order of the post.
    pub thumbnails: Vec<String>,
    /// The emphasized texts of the post.
    pub i_text: Vec<String>,
}

/// What a page holds.
pub struct PageView {
    pub title: Seq<char>,
    pub scrape_date: CaptureTime,
    pub post_date: PostDate,
    pub original_url: Seq<char>,
    pub output_file: Seq<char>,
    pub images_dir: Seq<char>,
    pub initial_text: Seq<char>,
    pub thumbnails: Seq<Seq<char>>,
    pub i_text: Seq<Seq<char>>,
}

impl View for Page {
    type V = PageView;

    open spec fn view(&self) -> PageView {
        PageView {
            title: self.title@,
            scrape_date: self.scrape_date,
            post_date: self.post_date,
            original_url: self.original_url@,
            output_file: self.output_file@,
            images_dir: self.images_dir@,
            initial_text: self.initial_text@,
            thumbnails: texts_of(self.thumbnails@),
            i_text: texts_of(self.i_text@),
        }
    }
}

impl Default for Page {
    fn default() -> (r: Page)
        ensures
            r@ == (PageView {
                title: Seq::empty(),
                scrape_date: CaptureTime::epoch(),
                post_date: CaptureTime::epoch().date,
                original_url: Seq::empty(),
                output_file: Seq::empty(),
                images_dir: Seq::empty(),
                initial_text: Seq::empty(),
                thumbnails: Seq::empty(),
                i_text: Seq::empty(),
            }),
    {
        let epoch = CaptureTime::default();
        let r = Page {
            title: String::new(),
            scrape_date: epoch,
            post_date: epoch.date,
            original_url: String::new(),
            output_file: String::new(),
            images_dir: String::new(),
            initial_text: String::new(),
            thumbnails: Vec::new(),
            i_text: Vec::new(),
        };
        assert(texts_of(r.thumbnails@) =~= Seq::<Seq<char>>::empty());
        assert(texts_of(r.i_text@) =~= Seq::<Seq<char>>::empty());
        r
    }
}

/// What becomes of a character of a title in a file name: a slash or a
/// space becomes an underscore, a capital ASCII letter its small letter,
/// other ASCII letters, digits and underscores stay, and the rest is dropped.
pub open spec fn flat_char(c: char) -> Option<char> {
    let u = c as u32;
    if c == '/' || c == ' ' || c == '_' {
        Some('_')
    } else if 48 <= u <= 57 || 97 <= u <= 122 {
        Some(c)
    } else if 65 <= u <= 90 {
        Some(((u + 32) as u8) as char)
    } else {
        None
    }
}

/// The title as it stands in file names.
pub open spec fn flattened(title: Seq<char>) -> Seq<char>
    decreases title.len(),
{
    if title.len() == 0 {
        Seq::empty()
    } else {
        match flat_char(title.last()) {
            Some(c) => flattened(title.drop_last()).push(c),
            None => flattened(title.drop_last()),
        }
    }
}

/// Whether `c` is a small ASCII letter, a digit or an underscore.
pub open spec fn is_file_name_char(c: char) -> bool {
    let u = c as u32;
    c == '_' || 48 <= u <= 57 || 97 <= u <= 122
}

/// A flattened title holds small ASCII letters, digits and underscores
/// only, and is no longer than the title.
pub proof fn lemma_flattened_is_plain(title: Seq<char>)
    ensures
        flattened(title).len() <= title.len(),
        forall|k: int| 0 <= k < flattened(title).len() ==> is_file_name_char(#[trigger] flattened(title)[k]),
    decreases title.len(),
{
    if title.len() > 0 {
        lemma_flattened_is_plain(title.drop_last());
    }
}

/// Writes the title as it stands in file names at the end of `out`.
fn push_flattened(out: &mut Vec<char>, title: &str)
    ensures
        final(out)@ == old(out)@ + flattened(title@),
{
    let chars = to_chars(title);
    let mut k: usize = 0;
    assert(chars@.take(0) =~= Seq::<char>::empty());
    assert(out@ =~= old(out)@ + flattened(chars@.take(0)));
    while k < chars.len()
        invariant
            k <= chars@.len(),
            out@ == old(out)@ + flattened(chars@.take(k as int)),
        decreases chars@.len() - k,
    {
        let c: char = chars[k];
        let u: u32 = c as u32;
        proof {
            assert(chars@.take(k + 1).drop_last() =~= chars@.take(k as int));
        }
        if c == '/' || c == ' ' || c == '_' {
            out.push('_');
            assert(out@ =~= old(out)@ + flattened(chars@.take(k + 1)));
        } else if (48 <= u && u <= 57) || (97 <= u && u <= 122) {
            out.push(c);
            assert(out@ =~= old(out)@ + flattened(chars@.take(k + 1)));
        } else if 65 <= u && u <= 90 {
            out.push(((u + 32) as u8) as char);
            assert(out@ =~= old(out)@ + flattened(chars@.take(k + 1)));
        }
        k += 1;
    }
    assert(chars@.take(chars@.len() as int) =~= chars@);
}

/// The title as it stands in file names.
pub fn flatten_title(title: &str) -> (r: String)
    ensures
        r@ == flattened(title@),
{
    let mut out: Vec<char> = Vec::new();
    push_flattened(&mut out, title);
    assert(out@ =~= flattened(title@));
    from_chars(&out)
}

/// The name that the files of a page start with: the flattened title, an
/// underscore, and the hash of the page's address in hexadecimal.
pub open spec fn basename(title: Seq<char>, address: Seq<char>) -> Seq<char> {
    flattened(title) + "_"@ + hexadecimal(text_hash(address) as nat)
}

/// The name that the files of a page start with.
pub fn page_basename(title: &str, address: &str) -> (r: String)
    ensures
        r@ == basename(title@, address@),
{
    let mut out: Vec<char> = Vec::new();
    push_flattened(&mut out, title);
    push_text(&mut out, "_");
    push_hexadecimal(&mut out, calculate_hash(address));
    assert(out@ =~= basename(title@, address@));
    from_chars(&out)
}

/// An image of a post that is stored with the page.
#[derive(Debug)]
pub struct StoredImage {
    /// The part of the archive that holds the image.
    pub piece: usize,
    /// Where the image was taken from.
    pub location: String,
    /// The file of the image, under the output directory.
    pub path: String,
    /// The file of the image's thumbnail, under the output directory.
    pub thumbnail: String,
}

/// What a stored image holds.
pub struct ImageView {
    pub piece: int,
    pub location: Seq<char>,
    pub path: Seq<char>,
    pub thumbnail: Seq<char>,
}

impl View for StoredImage {
    type V = ImageView;

    open spec fn view(&self) -> ImageView {
        ImageView {
            piece: self.piece as int,
            location: self.location@,
            path: self.path@,
            thumbnail: self.thumbnail@,
        }
    }
}

/// What a vector of stored images holds.
pub open spec fn image_views(images: Seq<StoredImage>) -> Seq<ImageView> {
    Seq::new(images.len(), |k: int| images[k]@)
}

/// The media type of the parts that are stored as images.
pub open spec fn jpeg_type() -> Seq<char> {
    "image/jpeg"@
}

/// The image that is stored for the part `piece` as the `number`th image
/// of the directory `dir`.
pub open spec fn stored_image(piece: int, location: Seq<char>, dir: Seq<char>, number: nat) -> ImageView {
    ImageView {
        piece,
        location,
        path: dir + "/"@ + padded(number, 3) + ".jpeg"@,
        thumbnail: dir + "/"@ + padded(number, 3) + "_thumbnail.jpeg"@,
    }
}

/// The images that are stored for the parts of an archive: one for each
/// part after the first that is a JPEG image and that the post refers to,
/// numbered from one in the order of the parts.
pub open spec fn stored_images(pieces: Seq<PieceView>, urls: Seq<Seq<char>>, dir: Seq<char>) -> Seq<ImageView>
    decreases pieces.len(),
{
    if pieces.len() <= 1 {
        Seq::empty()
    } else {
        let before = stored_images(pieces.drop_last(), urls, dir);
        let piece = pieces.last();
        if piece.content_type == jpeg_type() && urls.contains(piece.location) {
            before.push(stored_image(pieces.len() - 1, piece.location, dir, before.len() + 1))
        } else {
            before
        }
    }
}

/// Each stored image stands for a part after the first, is numbered by
/// its place, and comes from an address that the post refers to.
pub proof fn lemma_stored_images(pieces: Seq<PieceView>, urls: Seq<Seq<char>>, dir: Seq<char>)
    ensures
        forall|k: int|
            0 <= k < stored_images(pieces, urls, dir).len() ==> {
                let image = #[trigger] stored_images(pieces, urls, dir)[k];
                &&& 1 <= image.piece < pieces.len()
                &&& pieces[image.piece].content_type == jpeg_type()
                &&& pieces[image.piece].location == image.location
                &&& urls.contains(image.location)
                &&& image == stored_image(image.piece, image.location, dir, (k + 1) as nat)
            },
    decreases pieces.len(),
{
    if pieces.len() > 1 {
        let before = stored_images(pieces.drop_last(), urls, dir);
        lemma_stored_images(pieces.drop_last(), urls, dir);
        assert forall|k: int| 0 <= k < stored_images(pieces, urls, dir).len() implies {
            let image = #[trigger] stored_images(pieces, urls, dir)[k];
            &&& 1 <= image.piece < pieces.len()
            &&& pieces[image.piece].content_type == jpeg_type()
            &&& pieces[image.piece].location == image.location
            &&& urls.contains(image.location)
            &&& image == stored_image(image.piece, image.location, dir, (k + 1) as nat)
        } by {
            if k < before.len() {
                assert(stored_images(pieces, urls, dir)[k] == before[k]);
                assert(pieces.drop_last()[before[k].piece] == pieces[before[k].piece]);
            }
        }
    }
}

/// The image that is stored for the address `url`: the last one, where
/// several parts come from the same address.
pub open spec fn image_for(images: Seq<ImageView>, url: Seq<char>) -> Option<ImageView>
    decreases images.len(),
{
    if images.len() == 0 {
        None
    } else if images.last().location == url {
        Some(images.last())
    } else {
        image_for(images.drop_last(), url)
    }
}

/// An address that the post refers to and that a JPEG part after the first
/// comes from has a stored image.
pub proof fn lemma_referred_images_are_stored(
    pieces: Seq<PieceView>,
    urls: Seq<Seq<char>>,
    dir: Seq<char>,
    url: Seq<char>,
    part: int,
)
    requires
        urls.contains(url),
        1 <= part < pieces.len(),
        pieces[part].content_type == jpeg_type(),
        pieces[part].location == url,
    ensures
        image_for(stored_images(pieces, urls, dir), url) is Some,
    decreases pieces.len(),
{
    let before = stored_images(pieces.drop_last(), urls, dir);
    let last = pieces.last();
    if last.content_type == jpeg_type() && urls.contains(last.location) {
        let images = stored_images(pieces, urls, dir);
        assert(images.drop_last() =~= before);
        if last.location != url {
            lemma_referred_images_are_stored(pieces.drop_last(), urls, dir, url, part);
        }
    } else {
        lemma_referred_images_are_stored(pieces.drop_last(), urls, dir, url, part);
    }
}

/// The thumbnails of a post's images: for each address that the post
/// refers to, in the order of the post, the thumbnail of the image that is
/// stored for it, where one is.
pub open spec fn thumbnails_for(images: Seq<ImageView>, urls: Seq<Seq<char>>) -> Seq<Seq<char>>
    decreases urls.len(),
{
    if urls.len() == 0 {
        Seq::empty()
    } else {
        let before = thumbnails_for(images, urls.drop_last());
        match image_for(images, urls.last()) {
            Some(image) => before.push(image.thumbnail),
            None => before,
        }
    }
}

/// Looks up the image that is stored for the address `url`.
pub fn find_image<'a>(images: &'a Vec<StoredImage>, url: &String) -> (r: Option<&'a StoredImage>)
    ensures
        match image_for(image_views(images@), url@) {
            Some(image) => r is Some && r->Some_0@ == image,
            None => r is None,
        },
{
    let mut k: usize = images.len();
    assert(image_views(images@).take(k as int) =~= image_views(images@));
    while k > 0
        invariant
            k <= images@.len(),
            image_for(image_views(images@).take(k as int), url@) == image_for(
                image_views(images@),
                url@,
            ),
        decreases k,
    {
        proof {
            assert(image_views(images@).take(k as int).drop_last() =~= image_views(images@).take(
                k - 1,
            ));
        }
        if images[k - 1].location == *url {
            return Some(&images[k - 1]);
        }
        k -= 1;
    }
    None
}

/// The file names of the `number`th image of the directory `dir`.
fn image_names(dir: &str, number: u64) -> (r: (String, String))
    ensures
        r.0@ == dir@ + "/"@ + padded(number as nat, 3) + ".jpeg"@,
        r.1@ == dir@ + "/"@ + padded(number as nat, 3) + "_thumbnail.jpeg"@,
{
    let mut stem: Vec<char> = Vec::new();
    push_text(&mut stem, dir);
    push_text(&mut stem, "/");
    push_padded(&mut stem, number, 3);
    let mut path: Vec<char> = stem.clone();
    push_text(&mut path, ".jpeg");
    push_text(&mut stem, "_thumbnail.jpeg");
    proof {
        assert(path@ =~= dir@ + "/"@ + padded(number as nat, 3) + ".jpeg"@);
        assert(stem@ =~= dir@ + "/"@ + padded(number as nat, 3) + "_thumbnail.jpeg"@);
    }
    (from_chars(&path), from_chars(&stem))
}

/// Picks the parts of an archive that are stored as images of its page.
pub fn store_images(pieces: &Vec<MhtmlPiece>, urls: &Vec<String>, dir: &str) -> (images: Vec<StoredImage>)
    ensures
        image_views(images@) == stored_images(piece_views(pieces@), texts_of(urls@), dir@),
{
    let mut images: Vec<StoredImage> = Vec::new();
    let jpeg = String::from_str("image/jpeg");
    let mut k: usize = 1;
    let ghost all = piece_views(pieces@);
    assert(image_views(images@) =~= Seq::<ImageView>::empty());
    if pieces.len() == 0 {
        return images;
    }
    while k < pieces.len()
        invariant
            1 <= k <= pieces@.len(),
            all == piece_views(pieces@),
            jpeg@ == jpeg_type(),
            images@.len() < k,
            image_views(images@) == stored_images(all.take(k as int), texts_of(urls@), dir@),
        decreases pieces@.len() - k,
    {
        let piece = &pieces[k];
        proof {
            assert(all.take(k + 1).drop_last() =~= all.take(k as int));
            assert(all.take(k + 1).last() == piece@);
            if texts_of(urls@).contains(piece.location@) {
                let j = choose|j: int| 0 <= j < urls@.len() && texts_of(urls@)[j] == piece.location@;
                assert(known_from(texts_of(urls@), 0, piece.location@));
            }
        }
        if piece.content_type == jpeg && is_known(urls, 0, &piece.location) {
            let number: usize = images.len() + 1;
            let names = image_names(dir, number as u64);
            let image = StoredImage {
                piece: k,
                location: piece.location.clone(),
                path: names.0,
                thumbnail: names.1,
            };
            proof {
                assert(image_views(images@.push(image)) =~= image_views(images@).push(image@));
            }
            images.push(image);
        }
        k += 1;
    }
    assert(all.take(pieces@.len() as int) =~= all);
    images
}

/// Lists the thumbnails of a post's images, in the order of the post.
pub fn list_thumbnails(images: &Vec<StoredImage>, urls: &Vec<String>) -> (list: Vec<String>)
    ensures
        texts_of(list@) == thumbnails_for(image_views(images@), texts_of(urls@)),
{
    let mut list: Vec<String> = Vec::new();
    let mut k: usize = 0;
    let ghost all = texts_of(urls@);
    proof {
        assert(all.take(0) =~= Seq::<Seq<char>>::empty());
        assert(texts_of(list@) =~= Seq::<Seq<char>>::empty());
    }
    while k < urls.len()
        invariant
            k <= urls@.len(),
            all == texts_of(urls@),
            texts_of(list@) == thumbnails_for(image_views(images@), all.take(k as int)),
        decreases urls@.len() - k,
    {
        proof {
            assert(all.take(k + 1).drop_last() =~= all.take(k as int));
        }
        match find_image(images, &urls[k]) {
            Some(image) => {
                let thumbnail = image.thumbnail.clone();
                proof {
                    assert(texts_of(list@.push(thumbnail)) =~= texts_of(list@).push(thumbnail@));
                }
                list.push(thumbnail);
            },
            None => {},
        }
        k += 1;
    }
    proof {
        assert(all.take(urls@.len() as int) =~= all);
    }
    list
}

/// What is made of one archive: the page, the post it shows, the images
/// to store with it, and the parts of the archive, which hold them.
#[derive(Debug)]
pub struct PagePlan {
    pub page: Page,
    pub post: GroupsPost,
    pub images: Vec<StoredImage>,
    pub pieces: Vec<MhtmlPiece>,
}

/// What a plan holds.
pub struct PlanView {
    pub page: PageView,
    pub post: PostView,
    pub images: Seq<ImageView>,
    pub pieces: Seq<PieceView>,
}

impl View for PagePlan {
    type V = PlanView;

    open spec fn view(&self) -> PlanView {
        PlanView {
            page: self.page@,
            post: self.post@,
            images: image_views(self.images@),
            pieces: piece_views(self.pieces@),
        }
    }
}

/// The name of the directory of the images of the page named `base`.
pub open spec fn images_dir_of(base: Seq<char>) -> Seq<char> {
    base + "_images"@
}

/// The page of an archive and of the post that its first part shows.
///
/// The title, the capture time and the address are those of the archive.
/// The files are named after the title and the address. The date is the
/// one that the post states, else the one in the title, else the day of
/// the capture. The images are the parts that the post refers to, and the
/// thumbnails follow the order of the post.
pub open spec fn planned(doc: DocView, post: PostView) -> PlanView {
    let base = basename(doc.subject, doc.location);
    let images = stored_images(doc.pieces, post.image_urls, images_dir_of(base));
    PlanView {
        page: PageView {
            title: doc.subject,
            scrape_date: doc.date,
            post_date: resolved_date(post.date, vstd::utf8::encode_utf8(doc.subject), doc.date),
            original_url: doc.location,
            output_file: base + ".html"@,
            images_dir: images_dir_of(base),
            initial_text: lead_text(post.html),
            thumbnails: thumbnails_for(images, post.image_urls),
            i_text: post.i_text,
        },
        post,
        images,
        pieces: doc.pieces,
    }
}

/// A copy of a vector of strings.
fn copy_texts(texts: &Vec<String>) -> (copy: Vec<String>)
    ensures
        texts_of(copy@) == texts_of(texts@),
{
    let mut copy: Vec<String> = Vec::new();
    let mut k: usize = 0;
    while k < texts.len()
        invariant
            k <= texts@.len(),
            copy@.len() == k,
            forall|j: int| 0 <= j < k ==> copy@[j]@ == texts@[j]@,
        decreases texts@.len() - k,
    {
        copy.push(texts[k].clone());
        k += 1;
    }
    assert(texts_of(copy@) =~= texts_of(texts@));
    copy
}

/// Makes the page of an archive and of the post that its first part shows.
pub fn page_from_post(doc: MhtmlDoc, post: GroupsPost) -> (plan: PagePlan)
    ensures
        plan@ == planned(doc@, post@),
        forall|k: int| 0 <= k < plan.images@.len() ==> (#[trigger] plan.images@[k]).piece < plan.pieces@.len(),
{
    let base = page_basename(doc.subject.as_str(), doc.location.as_str());
    let mut file: Vec<char> = Vec::new();
    push_text(&mut file, base.as_str());
    push_text(&mut file, ".html");
    let mut dir: Vec<char> = Vec::new();
    push_text(&mut dir, base.as_str());
    push_text(&mut dir, "_images");
    proof {
        assert(file@ =~= base@ + ".html"@);
        assert(dir@ =~= images_dir_of(base@));
    }
    let images_dir = from_chars(&dir);
    let images = store_images(&doc.pieces, &post.image_urls, images_dir.as_str());
    proof {
        lemma_stored_images(piece_views(doc.pieces@), texts_of(post.image_urls@), images_dir@);
        assert forall|k: int| 0 <= k < images@.len() implies (#[trigger] images@[k]).piece
            < doc.pieces@.len() by {
            assert(image_views(images@)[k] == images@[k]@);
        }
    }
    let thumbnails = list_thumbnails(&images, &post.image_urls);
    let post_date = resolve_post_date(post.date, doc.subject.as_str().as_bytes(), &doc.date);
    let page = Page {
        title: doc.subject,
        scrape_date: doc.date,
        post_date,
        original_url: doc.location,
        output_file: from_chars(&file),
        images_dir,
        initial_text: get_initial_text_from_html(&post.html),
        thumbnails,
        i_text: copy_texts(&post.i_text),
    };
    PagePlan { page, post, images, pieces: doc.pieces }
}

/// What is made of the bytes of an archive.
///
/// The archive has to decode; its first part has to be of the media type
/// `text/html` and to show a post; the page is the one of the archive and
/// of that post.
pub open spec fn planned_archive(contents: Seq<u8>) -> Result<PlanView, Failure> {
    match document(contents) {
        Err(f) => Err(f),
        Ok(doc) => match piece_post(doc.pieces[0]) {
            Err(f) => Err(f),
            Ok(post) => Ok(planned(doc, post)),
        },
    }
}

/// Makes the page of one archive from its bytes.
///
/// The archive is decoded, the post is read from its first part, and the
/// page is made of the two. Nothing is written: the plan names the files
/// to write and holds the parts to write them from.
pub fn create_page_from_mhtml(contents: &[u8]) -> (r: Result<PagePlan, InvalidData>)
    ensures
        match planned_archive(contents@) {
            Ok(plan) => r is Ok && r->Ok_0@ == plan,
            Err(f) => r is Err && r->Err_0@ == f && r->Err_0.well_formed(),
        },
        r matches Ok(plan) ==> forall|k: int|
            0 <= k < plan.images@.len() ==> (#[trigger] plan.images@[k]).piece < plan.pieces@.len(),
{
    let doc = match parse(contents) {
        Ok(doc) => doc,
        Err(e) => {
            return Err(e);
        },
    };
    assert(piece_views(doc.pieces@)[0] == doc.pieces@[0]@);
    match parse_post_from_mhtml_piece(&doc.pieces[0]) {
        Ok(post) => Ok(page_from_post(doc, post)),
        Err(e) => Err(e),
    }
}

/// The stored images without those of the parts `unreadable`.
pub open spec fn readable_images(images: Seq<ImageView>, unreadable: Seq<usize>) -> Seq<ImageView> {
    images.filter(|image: ImageView| !unreadable.contains(image.piece as usize))
}

/// A plan without the images of the parts `unreadable`: they are not
/// stored, and the page shows no thumbnail of them. The rest of the plan stays.
pub open spec fn without_images(plan: PlanView, unreadable: Seq<usize>) -> PlanView {
    let images = readable_images(plan.images, unreadable);
    PlanView {
        page: PageView { thumbnails: thumbnails_for(images, plan.post.image_urls), ..plan.page },
        post: plan.post,
        images,
        pieces: plan.pieces,
    }
}

/// Whether `number` is among `numbers`.
fn holds_number(numbers: &Vec<usize>, number: usize) -> (r: bool)
    ensures
        r == numbers@.contains(number),
{
    let mut k: usize = 0;
    while k < numbers.len()
        invariant
            k <= numbers@.len(),
            forall|j: int| 0 <= j < k ==> numbers@[j] != number,
        decreases numbers@.len() - k,
    {
        if numbers[k] == number {
            return true;
        }
        k += 1;
    }
    false
}

/// Takes out of a plan the images that turned out not to be readable as
/// images: the images of the parts `unreadable` are dropped, and the
/// thumbnails of the page are those of the images that stay.
pub fn omit_images(plan: PagePlan, unreadable: &Vec<usize>) -> (r: PagePlan)
    ensures
        r@ == without_images(plan@, unreadable@),
{
    let mut images: Vec<StoredImage> = Vec::new();
    let ghost all = image_views(plan.images@);
    let ghost readable = |image: ImageView| !unreadable@.contains(image.piece as usize);
    let mut k: usize = 0;
    proof {
        reveal(Seq::filter);
        assert(all.take(0) =~= Seq::<ImageView>::empty());
        assert(image_views(images@) =~= Seq::<ImageView>::empty());
    }
    while k < plan.images.len()
        invariant
            k <= plan.images@.len(),
            all == image_views(plan.images@),
            readable == |image: ImageView| !unreadable@.contains(image.piece as usize),
            image_views(images@) == all.take(k as int).filter(readable),
        decreases plan.images@.len() - k,
    {
        let image = &plan.images[k];
        proof {
            assert(all.take(k + 1) =~= all.take(k as int).push(image@));
            all.take(k as int).lemma_filter_push(image@, readable);
        }
        if !holds_number(unreadable, image.piece) {
            let kept = StoredImage {
                piece: image.piece,
                location: image.location.clone(),
                path: image.path.clone(),
                thumbnail: image.thumbnail.clone(),
            };
            proof {
                assert(image_views(images@.push(kept)) =~= image_views(images@).push(kept@));
            }
            images.push(kept);
        }
        k += 1;
    }
    proof {
        assert(all.take(plan.images@.len() as int) =~= all);
    }
    let mut page = plan.page;
    page.thumbnails = list_thumbnails(&images, &plan.post.image_urls);
    PagePlan { page, post: plan.post, images, pieces: plan.pieces }
}

} // verus!
