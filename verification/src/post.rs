//! The post that the HTML part of an archive shows: its author, its date,
//! its content and the images it refers to.

use vstd::prelude::*;
use vstd::string::*;
use crate::dates::{PostDate, date_from_html, html_date};
use crate::emphasis::{is_recordable, lemma_recorded, recorded, rewrite_i_tags, rewritten, run_texts, texts_of};
use crate::error::{ErrorKind, Failure, InvalidData, bare_failure};
use crate::mhtml::{MhtmlPiece, PieceView};
use crate::text::{has_text_at, text_at};
use crate::utf8_bytes::{from_chars, lossy_text, to_chars, to_string_lossy};

verus! {

/// A post, as its markup shows it.
#[derive(Debug)]
pub struct GroupsPost {
    /// Who wrote the post, where the markup says so.
    pub author: Option<String>,
    /// The date that the markup states, where it states one.
    pub date: Option<PostDate>,
    /// The markup of the post's content.
    pub html: String,
    /// The sources of the images in the content, in the order of the markup.
    pub image_urls: Vec<String>,
    /// The emphasized texts of the content, each once, in the order in
    /// which they first come.
    pub i_text: Vec<String>,
}

/// What a post holds.
pub struct PostView {
    pub author: Option<Seq<char>>,
    pub date: Option<PostDate>,
    pub html: Seq<char>,
    pub image_urls: Seq<Seq<char>>,
    pub i_text: Seq<Seq<char>>,
}

/// What an optional string holds.
pub open spec fn text_of_option(s: Option<String>) -> Option<Seq<char>> {
    match s {
        Some(text) => Some(text@),
        None => None,
    }
}

impl View for GroupsPost {
    type V = PostView;

    open spec fn view(&self) -> PostView {
        PostView {
            author: text_of_option(self.author),
            date: self.date,
            html: self.html@,
            image_urls: texts_of(self.image_urls@),
            i_text: texts_of(self.i_text@),
        }
    }
}

impl Default for GroupsPost {
    fn default() -> (r: GroupsPost)
        ensures
            r@ == (PostView {
                author: None,
                date: None,
                html: Seq::empty(),
                image_urls: Seq::empty(),
                i_text: Seq::empty(),
            }),
    {
        let r = GroupsPost {
            author: None,
            date: None,
            html: String::new(),
            image_urls: Vec::new(),
            i_text: Vec::new(),
        };
        assert(texts_of(r.i_text@) =~= Seq::<Seq<char>>::empty());
        r
    }
}

/// The region of a list item: the content of a post.
#[derive(Debug)]
pub struct RegionMarkup {
    /// The markup inside the region.
    pub inner_html: String,
    /// For each image element of the region, in the order of the
    /// document, its source where it has one.
    pub image_sources: Vec<Option<String>>,
}

/// The list item that holds a post.
#[derive(Debug)]
pub struct ListItemMarkup {
    /// The author that the list item names, if it names one.
    pub author: Option<String>,
    /// The first region in the list item, if it has one.
    pub region: Option<RegionMarkup>,
}

/// What a region shows.
pub struct RegionView {
    pub inner_html: Seq<char>,
    pub image_sources: Seq<Option<Seq<char>>>,
}

/// What a list item shows.
pub struct ListItemView {
    pub author: Option<Seq<char>>,
    pub region: Option<RegionView>,
}

/// What a vector of optional strings holds.
pub open spec fn optional_texts_of(strings: Seq<Option<String>>) -> Seq<Option<Seq<char>>> {
    Seq::new(strings.len(), |k: int| text_of_option(strings[k]))
}

impl View for RegionMarkup {
    type V = RegionView;

    open spec fn view(&self) -> RegionView {
        RegionView {
            inner_html: self.inner_html@,
            image_sources: optional_texts_of(self.image_sources@),
        }
    }
}

impl View for ListItemMarkup {
    type V = ListItemView;

    open spec fn view(&self) -> ListItemView {
        ListItemView {
            author: text_of_option(self.author),
            region: match self.region {
                Some(region) => Some(region@),
                None => None,
            },
        }
    }
}

/// The escaped ampersand.
pub open spec fn escaped_ampersand() -> Seq<char> {
    seq!['&', 'a', 'm', 'p', ';']
}

/// The text of `s` from offset `i` with `&` in place of each `&amp;`.
pub open spec fn with_plain_ampersands(s: Seq<char>, i: int) -> Seq<char>
    decreases s.len() - i,
{
    if i < 0 || i >= s.len() {
        Seq::empty()
    } else if has_text_at(s, i, escaped_ampersand()) {
        seq!['&'] + with_plain_ampersands(s, i + 5)
    } else {
        seq![s[i]] + with_plain_ampersands(s, i + 1)
    }
}

/// The address that an image source gives: the source with `&` in place
/// of each `&amp;`.
pub fn unescape_ampersands(source: &str) -> (r: String)
    ensures
        r@ == with_plain_ampersands(source@, 0),
{
    let chars = to_chars(source);
    let word: Vec<char> = vec!['&', 'a', 'm', 'p', ';'];
    let n: usize = chars.len();
    let mut out: Vec<char> = Vec::new();
    let mut i: usize = 0;
    while i < n
        invariant
            i <= n == chars@.len(),
            word@ == escaped_ampersand(),
            out@ + with_plain_ampersands(chars@, i as int) == with_plain_ampersands(chars@, 0),
        decreases n - i,
    {
        if text_at(&chars, i, &word) {
            out.push('&');
            i += 5;
        } else {
            out.push(chars[i]);
            i += 1;
        }
    }
    from_chars(&out)
}

/// The addresses of the images of a region: one for each image element
/// that has a source, in the order of the elements. An address that comes
/// twice stays twice.
pub open spec fn image_addresses(sources: Seq<Option<Seq<char>>>) -> Seq<Seq<char>>
    decreases sources.len(),
{
    if sources.len() == 0 {
        Seq::empty()
    } else {
        let before = image_addresses(sources.drop_last());
        match sources.last() {
            Some(source) => before.push(with_plain_ampersands(source, 0)),
            None => before,
        }
    }
}

/// The post that a list item holds, or why there is none.
///
/// Without a list item the failure is `MissingListItem`; with a list item
/// that has no region it is `MissingRegion`. Otherwise the post has the
/// author that the list item names and the date handed in; its content is
/// the markup of the region with each run of emphasis elements merged, its
/// emphasized texts are those of the runs, and its images are the sources
/// of the region's image elements.
pub open spec fn extracted(date: Option<PostDate>, item: Option<ListItemView>) -> Result<PostView, Failure> {
    match item {
        None => Err(bare_failure(ErrorKind::MissingListItem)),
        Some(found) => match found.region {
            None => Err(bare_failure(ErrorKind::MissingRegion)),
            Some(region) => Ok(
                PostView {
                    author: found.author,
                    date,
                    html: rewritten(region.inner_html, 0),
                    image_urls: image_addresses(region.image_sources),
                    i_text: recorded(run_texts(region.inner_html, 0)),
                },
            ),
        },
    }
}

/// What an optional list item shows.
pub open spec fn shown_by(item: Option<ListItemMarkup>) -> Option<ListItemView> {
    match item {
        Some(found) => Some(found@),
        None => None,
    }
}

/// Whether the emphasized texts of a post are of the length that is
/// recorded, and no two of them are the same.
pub open spec fn has_distinct_texts(post: PostView) -> bool {
    &&& post.i_text.no_duplicates()
    &&& forall|k: int| 0 <= k < post.i_text.len() ==> is_recordable(#[trigger] post.i_text[k])
}

/// Whatever the markup shows, the emphasized texts of the post that is
/// made of it are of the length that is recorded, and no two of them are
/// the same.
pub proof fn lemma_extracted_texts_are_distinct(date: Option<PostDate>, item: Option<ListItemView>)
    ensures
        extracted(date, item) matches Ok(post) ==> has_distinct_texts(post),
{
    if let Some(found) = item {
        if let Some(region) = found.region {
            lemma_recorded(run_texts(region.inner_html, 0));
        }
    }
}

/// Makes the post out of what the markup shows of its list item.
pub fn post_from_markup(date: Option<PostDate>, item: Option<ListItemMarkup>) -> (r: Result<
    GroupsPost,
    InvalidData,
>)
    ensures
        match extracted(date, shown_by(item)) {
            Ok(post) => r is Ok && r->Ok_0@ == post,
            Err(f) => r is Err && r->Err_0@ == f && r->Err_0.well_formed(),
        },
        r matches Ok(post) ==> has_distinct_texts(post@),
{
    let Some(found) = item else {
        return Err(InvalidData::bare(ErrorKind::MissingListItem));
    };
    let Some(region) = found.region else {
        return Err(InvalidData::bare(ErrorKind::MissingRegion));
    };
    let mut image_urls: Vec<String> = Vec::new();
    let ghost sources = optional_texts_of(region.image_sources@);
    let mut k: usize = 0;
    assert(sources.take(0) =~= Seq::<Option<Seq<char>>>::empty());
    assert(texts_of(image_urls@) =~= Seq::<Seq<char>>::empty());
    while k < region.image_sources.len()
        invariant
            k <= region.image_sources@.len(),
            sources == optional_texts_of(region.image_sources@),
            texts_of(image_urls@) == image_addresses(sources.take(k as int)),
        decreases region.image_sources@.len() - k,
    {
        proof {
            assert(sources.take(k + 1).drop_last() =~= sources.take(k as int));
            assert(sources.take(k + 1).last() == text_of_option(region.image_sources@[k as int]));
        }
        match &region.image_sources[k] {
            Some(source) => {
                let address = unescape_ampersands(source.as_str());
                assert(texts_of(image_urls@.push(address)) =~= texts_of(image_urls@).push(address@));
                image_urls.push(address);
            },
            None => {},
        }
        k += 1;
    }
    assert(sources.take(region.image_sources@.len() as int) =~= sources);
    let mut i_text: Vec<String> = Vec::new();
    let html = rewrite_i_tags(&region.inner_html, &mut i_text);
    proof {
        lemma_recorded(run_texts(region.inner_html@, 0));
    }
    Ok(GroupsPost { author: found.author, date, html, image_urls, i_text })
}

/// `scraper::Html`, a parsed document or fragment: a tree of elements.
#[verifier::external_type_specification]
#[verifier::external_body]
pub struct ExHtml(scraper::Html);

/// `scraper::ElementRef`, an element of a parsed tree, with what it holds.
#[verifier::external_type_specification]
#[verifier::external_body]
pub struct ExElementRef<'a>(scraper::ElementRef<'a>);

/// The tree that `scraper::Html::parse_fragment` makes of a text.
pub uninterp spec fn fragment_read(text: Seq<char>) -> scraper::Html;

/// `scraper::Html::parse_fragment`.
#[verifier::external_body]
fn parse_fragment(text: &str) -> (r: scraper::Html)
    ensures
        r == fragment_read(text@),
{
    scraper::Html::parse_fragment(text)
}

/// The first element of a fragment that `scraper::Html::select` gives for
/// the selector that `scraper::Selector::parse` reads in `css`; `None`
/// where `css` is no selector or the fragment holds no such element.
pub uninterp spec fn first_chosen(fragment: &scraper::Html, css: Seq<char>) -> Option<
    scraper::ElementRef,
>;

/// `scraper::Html::select` with the selector that `scraper::Selector::parse`
/// reads in `css`, as far as the first element it gives.
#[verifier::external_body]
fn first_in_fragment<'a>(fragment: &'a scraper::Html, css: &str) -> (r: Option<
    scraper::ElementRef<'a>,
>)
    ensures
        r == first_chosen(fragment, css@),
{
    fragment.select(&scraper::Selector::parse(css).ok()?).next()
}

/// The elements inside an element that `scraper::ElementRef::select` gives
/// for the selector that `scraper::Selector::parse` reads in `css`, in
/// the order in which it gives them; none where `css` is no selector.
pub uninterp spec fn chosen_inside(scope: scraper::ElementRef, css: Seq<char>) -> Seq<
    scraper::ElementRef,
>;

/// `scraper::ElementRef::select` with the selector that
/// `scraper::Selector::parse` reads in `css`, with all the elements it
/// gives, in its order.
#[verifier::external_body]
fn all_inside<'a>(scope: scraper::ElementRef<'a>, css: &str) -> (r: Vec<scraper::ElementRef<'a>>)
    ensures
        r@ == chosen_inside(scope, css@),
{
    match scraper::Selector::parse(css) {
        Ok(selector) => scope.select(&selector).collect(),
        Err(_) => Vec::new(),
    }
}

/// The value that `scraper::ElementRef::attr` finds for the attribute
/// `name` of an element; `None` where the element has no such attribute.
pub uninterp spec fn attribute_of(element: scraper::ElementRef, name: Seq<char>) -> Option<
    Seq<char>,
>;

/// `scraper::ElementRef::attr`, as an owned string.
#[verifier::external_body]
fn attribute(element: scraper::ElementRef<'_>, name: &str) -> (r: Option<String>)
    ensures
        text_of_option(r) == attribute_of(element, name@),
{
    element.attr(name).map(String::from)
}

/// The markup that `scraper::ElementRef::inner_html` writes for what an
/// element holds.
pub uninterp spec fn inner_markup(element: scraper::ElementRef) -> Seq<char>;

/// `scraper::ElementRef::inner_html`.
#[verifier::external_body]
fn inner_html(element: scraper::ElementRef<'_>) -> (r: String)
    ensures
        r@ == inner_markup(element),
{
    element.inner_html()
}

/// The selector of the section that holds a post.
pub open spec fn list_item_selector() -> Seq<char> {
    "section[role=\"listitem\"]"@
}

/// The selector of the region that holds the content of a post.
pub open spec fn region_selector() -> Seq<char> {
    "[role=\"region\"]"@
}

/// The first element inside `scope` that the selector `css` picks, if it
/// picks any.
pub open spec fn first_chosen_inside(scope: scraper::ElementRef, css: Seq<char>) -> Option<
    scraper::ElementRef,
> {
    if chosen_inside(scope, css).len() > 0 {
        Some(chosen_inside(scope, css)[0])
    } else {
        None
    }
}

/// What the region `region` shows: its inner markup, and for each image
/// element inside it, in the order of the selection, the value of its
/// attribute `src` where it has one.
pub open spec fn region_shown(region: scraper::ElementRef) -> RegionView {
    let images = chosen_inside(region, "img"@);
    RegionView {
        inner_html: inner_markup(region),
        image_sources: Seq::new(images.len(), |k: int| attribute_of(images[k], "src"@)),
    }
}

/// What a fragment shows of the post it holds: the first section with the
/// role `listitem`, if there is one, with the value of its attribute
/// `data-author` and with the first element inside it that has the role
/// `region`, if there is one.
pub open spec fn list_item_shown(fragment: &scraper::Html) -> Option<ListItemView> {
    match first_chosen(fragment, list_item_selector()) {
        Some(item) => Some(
            ListItemView {
                author: attribute_of(item, "data-author"@),
                region: match first_chosen_inside(item, region_selector()) {
                    Some(region) => Some(region_shown(region)),
                    None => None,
                },
            },
        ),
        None => None,
    }
}

/// The first element inside `scope` that the selector `css` picks.
fn first_inside<'a>(scope: scraper::ElementRef<'a>, css: &str) -> (r: Option<
    scraper::ElementRef<'a>,
>)
    ensures
        r == first_chosen_inside(scope, css@),
{
    let mut found = all_inside(scope, css);
    if found.len() == 0 {
        None
    } else {
        Some(found.swap_remove(0))
    }
}

/// Reads the region `region` of a list item.
fn read_region(region: scraper::ElementRef<'_>) -> (r: RegionMarkup)
    ensures
        r@ == region_shown(region),
{
    let mut image_sources: Vec<Option<String>> = Vec::new();
    let images = all_inside(region, "img");
    let mut k: usize = 0;
    while k < images.len()
        invariant
            k <= images@.len(),
            images@ == chosen_inside(region, "img"@),
            image_sources@.len() == k,
            forall|j: int|
                0 <= j < k ==> text_of_option(#[trigger] image_sources@[j]) == attribute_of(
                    images@[j],
                    "src"@,
                ),
        decreases images@.len() - k,
    {
        image_sources.push(attribute(images[k], "src"));
        k += 1;
    }
    let r = RegionMarkup { inner_html: inner_html(region), image_sources };
    assert(r@.image_sources =~= region_shown(region).image_sources);
    r
}

/// Reads the first list-item section of a fragment, if it has one.
fn read_list_item(fragment: &scraper::Html) -> (r: Option<ListItemMarkup>)
    ensures
        match list_item_shown(fragment) {
            Some(shown) => r is Some && r->Some_0@ == shown,
            None => r is None,
        },
{
    let item = first_in_fragment(fragment, "section[role=\"listitem\"]")?;
    let region = match first_inside(item, "[role=\"region\"]") {
        Some(region) => Some(read_region(region)),
        None => None,
    };
    Some(ListItemMarkup { author: attribute(item, "data-author"), region })
}

/// The post that markup shows, or why it shows none.
///
/// The markup is read as text, ill-formed bytes replaced, and the text as
/// an HTML fragment. The post is made of what the fragment shows of its
/// list item and of the date that the markup states.
pub open spec fn shown_post(html: Seq<u8>) -> Result<PostView, Failure> {
    extracted(html_date(html), list_item_shown(&fragment_read(lossy_text(html))))
}

/// Reads the post that markup shows.
///
/// The markup is read as an HTML fragment. The post is the one that
/// `post_from_markup` makes of the first section with the role `listitem`,
/// its attribute `data-author`, the first element inside it with the role
/// `region`, that element's inner markup and the `src` attributes of the
/// image elements inside it, together with the date that the markup
/// states. Without such a section the failure is `MissingListItem`,
/// without such an element inside it `MissingRegion`.
pub fn parse_groups_post(html: &[u8]) -> (r: Result<GroupsPost, InvalidData>)
    ensures
        match shown_post(html@) {
            Ok(post) => r is Ok && r->Ok_0@ == post,
            Err(f) => r is Err && r->Err_0@ == f && r->Err_0.well_formed(),
        },
        r matches Ok(post) ==> has_distinct_texts(post@),
{
    let date = date_from_html(html);
    let text = to_string_lossy(html);
    let fragment = parse_fragment(text.as_str());
    post_from_markup(date, read_list_item(&fragment))
}

/// The media type of the part that holds the post.
pub open spec fn html_type() -> Seq<char> {
    "text/html"@
}

/// The post that a part of an archive shows: the part has to be of the
/// media type `text/html`, else the failure is `NotHtml`.
pub open spec fn piece_post(piece: PieceView) -> Result<PostView, Failure> {
    if piece.content_type != html_type() {
        Err(bare_failure(ErrorKind::NotHtml))
    } else {
        shown_post(piece.bytes)
    }
}

/// Reads the post that a part of an archive shows. The part has to be of
/// the media type `text/html`, else the failure is `NotHtml`.
pub fn parse_post_from_mhtml_piece(piece: &MhtmlPiece) -> (r: Result<GroupsPost, InvalidData>)
    ensures
        match piece_post(piece@) {
            Ok(post) => r is Ok && r->Ok_0@ == post,
            Err(f) => r is Err && r->Err_0@ == f && r->Err_0.well_formed(),
        },
{
    if piece.content_type != String::from_str("text/html") {
        return Err(InvalidData::bare(ErrorKind::NotHtml));
    }
    parse_groups_post(piece.bytes.as_slice())
}

} // verus!
