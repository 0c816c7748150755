//! The HTML page of a post: its dates written out, its line of
//! information, what its markup keeps, and the document around it.

use vstd::prelude::*;
use vstd::string::*;
use crate::dates::{CaptureTime, PostDate};
use crate::emphasis::texts_of;
use chrono::TimeZone;
use std::fmt::Write;
use crate::numerals::{decimal, push_decimal, push_text};
use crate::page::{ImageView, Page, StoredImage, find_image, image_for, image_views};
use crate::post::{GroupsPost, text_of_option, unescape_ampersands, with_plain_ampersands};
use crate::utf8_bytes::from_chars;

verus! {

/// The text that `chrono::NaiveDate::format` writes for a date in a
/// format; `None` where the calendar has no such day or the format is none.
pub uninterp spec fn date_written(date: PostDate, format: Seq<char>) -> Option<Seq<char>>;

/// `chrono::NaiveDate::format`, written out, for the day that
/// `chrono::NaiveDate::from_ymd_opt` makes of the date's fields.
#[verifier::external_body]
fn write_date(date: &PostDate, format: &str) -> (r: Option<String>)
    ensures
        text_of_option(r) == date_written(*date, format@),
{
    let day = chrono::NaiveDate::from_ymd_opt(date.year, date.month, date.day)?;
    let mut text = String::new();
    write!(text, "{}", day.format(format)).ok()?;
    Some(text)
}

/// The text that chrono writes for a moment at its offset, as in
/// `2023-07-19 12:34:56 -07:00`; `None` where the fields name no moment.
pub uninterp spec fn moment_written(moment: CaptureTime) -> Option<Seq<char>>;

/// `to_string` of `chrono::DateTime<FixedOffset>`, for the moment that
/// chrono makes of the fields: the date, the time of day and the offset.
#[verifier::external_body]
fn write_moment(moment: &CaptureTime) -> (r: Option<String>)
    ensures
        text_of_option(r) == moment_written(*moment),
{
    let day = chrono::NaiveDate::from_ymd_opt(moment.date.year, moment.date.month, moment.date.day)?;
    let time = chrono::NaiveTime::from_num_seconds_from_midnight_opt(
        moment.second_of_day,
        moment.nanosecond,
    )?;
    let zone = chrono::FixedOffset::east_opt(moment.offset_seconds)?;
    Some(zone.from_local_datetime(&day.and_time(time)).single()?.to_string())
}

/// A date written out as in `Jul 13, 2023`, where it can be written.
pub open spec fn date_text(date: PostDate) -> Option<Seq<char>> {
    date_written(date, "%b %d, %Y"@)
}

/// Writes a date out as in `Jul 13, 2023`; `None` where the calendar has
/// no such day.
pub fn format_date(date: &PostDate) -> (text: Option<String>)
    ensures
        text_of_option(text) == date_text(*date),
{
    write_date(date, "%b %d, %Y")
}

/// Writes the moment of a capture out as in `2023-07-19 12:34:56 -07:00`;
/// `None` where the fields name no moment.
pub fn format_capture_time(moment: &CaptureTime) -> (text: Option<String>)
    ensures
        text_of_option(text) == moment_written(*moment),
{
    write_moment(moment)
}

/// The line of information under the title of a page: the author, where
/// the post names one, a comma and a space, and the date of the post.
pub open spec fn info_line(author: Option<Seq<char>>, date: Seq<char>) -> Seq<char> {
    match author {
        Some(name) => name + ", "@ + date,
        None => date,
    }
}

/// Whether the page keeps the attribute `name` of an element `tag`: it
/// keeps `href` and `src`, and `id` on image elements.
pub open spec fn is_kept_attribute(tag: Seq<char>, name: Seq<char>) -> bool {
    name == "href"@ || name == "src"@ || (tag == "img"@ && name == "id"@)
}

/// Tells whether the page keeps the attribute `name` of an element `tag`.
pub fn keeps_attribute(tag: &str, name: &str) -> (r: bool)
    ensures
        r == is_kept_attribute(tag@, name@),
{
    let name = String::from_str(name);
    let tag = String::from_str(tag);
    name == String::from_str("href") || name == String::from_str("src") || (tag
        == String::from_str("img") && name == String::from_str("id"))
}

/// The file that the page shows for an image element with the source
/// `source`: the stored image of the address that the source gives, where
/// one is stored.
pub open spec fn local_source(images: Seq<ImageView>, source: Seq<char>) -> Option<Seq<char>> {
    match image_for(images, with_plain_ampersands(source, 0)) {
        Some(image) => Some(image.path),
        None => None,
    }
}

/// Looks up the file that the page shows for an image element.
pub fn local_image_source(images: &Vec<StoredImage>, source: &str) -> (r: Option<String>)
    ensures
        text_of_option(r) == local_source(image_views(images@), source@),
{
    let address = unescape_ampersands(source);
    match find_image(images, &address) {
        Some(image) => Some(image.path.clone()),
        None => None,
    }
}

/// The identifier of the `number`th image of a page.
pub open spec fn image_id(number: nat) -> Seq<char> {
    "img-"@ + decimal(number)
}

/// Names the `number`th image of a page.
pub fn image_element_id(number: u64) -> (r: String)
    ensures
        r@ == image_id(number as nat),
{
    let mut out: Vec<char> = Vec::new();
    push_text(&mut out, "img-");
    push_decimal(&mut out, number);
    from_chars(&out)
}

/// What becomes of an image element with the source `source`, `count`
/// images of the page having been relinked before it.
pub struct Relinked {
    /// The file that the element shows.
    pub source: String,
    /// The identifier of the element.
    pub id: String,
    /// The number of images relinked, this one included.
    pub count: u64,
}

/// Relinks an image element to the file that is stored for its source.
///
/// Where an image is stored for the source, the element shows its file
/// and is named after its place among the relinked images of the page,
/// counted from one. Where none is stored, the element stays as it is.
pub fn relink_image(images: &Vec<StoredImage>, count: u64, source: &str) -> (r: Option<Relinked>)
    requires
        count < u64::MAX,
    ensures
        match local_source(image_views(images@), source@) {
            Some(path) => r matches Some(linked) && linked.source@ == path && linked.id@ == image_id(
                (count + 1) as nat,
            ) && linked.count == count + 1,
            None => r is None,
        },
{
    match local_image_source(images, source) {
        Some(path) => Some(Relinked { source: path, id: image_element_id(count + 1), count: count + 1 }),
        None => None,
    }
}

/// The attributes among `names` that the page drops from an element `tag`,
/// in their order.
pub open spec fn dropped_attributes(tag: Seq<char>, names: Seq<Seq<char>>) -> Seq<Seq<char>> {
    names.filter(|name: Seq<char>| !is_kept_attribute(tag, name))
}

/// Lists the attributes that the page drops from an element.
pub fn attributes_to_drop(tag: &str, names: &Vec<String>) -> (dropped: Vec<String>)
    ensures
        texts_of(dropped@) == dropped_attributes(tag@, texts_of(names@)),
{
    let mut dropped: Vec<String> = Vec::new();
    let ghost all = texts_of(names@);
    let ghost is_dropped = |name: Seq<char>| !is_kept_attribute(tag@, name);
    let mut k: usize = 0;
    proof {
        reveal(Seq::filter);
        assert(all.take(0) =~= Seq::<Seq<char>>::empty());
        assert(texts_of(dropped@) =~= Seq::<Seq<char>>::empty());
    }
    while k < names.len()
        invariant
            k <= names@.len(),
            all == texts_of(names@),
            is_dropped == |name: Seq<char>| !is_kept_attribute(tag@, name),
            texts_of(dropped@) == all.take(k as int).filter(is_dropped),
        decreases names@.len() - k,
    {
        proof {
            assert(all.take(k + 1) =~= all.take(k as int).push(names@[k as int]@));
            all.take(k as int).lemma_filter_push(names@[k as int]@, is_dropped);
        }
        if !keeps_attribute(tag, names[k].as_str()) {
            let name = names[k].clone();
            assert(texts_of(dropped@.push(name)) =~= texts_of(dropped@).push(name@));
            dropped.push(name);
        }
        k += 1;
    }
    assert(all.take(names@.len() as int) =~= all);
    dropped
}

/// The HTML document of a page around the markup `post_html` of its post.
pub open spec fn page_markup(
    title: Seq<char>,
    info: Seq<char>,
    post_html: Seq<char>,
    scraped: Seq<char>,
    address: Seq<char>,
) -> Seq<char> {
    "<!DOCTYPE html>\n<html lang='en'>\n    <head>\n        <title>"@ + title
        + "</title>\n    <meta charset='utf-8'>\n    </head>\n    <body>\n        <h1>"@ + title
        + "</h1>\n        <p>"@ + info + "</p>\n        "@ + post_html
        + "\n        <p>\n          <i>Scraped on "@ + scraped + " from <a href=\""@ + address
        + "\">"@ + address + "</a></i>\n        </p>\n    </body>\n</html>"@
}

/// Writes the HTML document of a page around the markup `post_html`: the
/// title, the author, where there is one, and the date as `date` writes
/// it, the markup, and the moment of the capture as `scraped` writes it
/// with the address.
pub fn write_page(
    title: &str,
    author: &Option<String>,
    date: &str,
    post_html: &str,
    scraped: &str,
    address: &str,
) -> (r: String)
    ensures
        r@ == page_markup(
            title@,
            info_line(text_of_option(*author), date@),
            post_html@,
            scraped@,
            address@,
        ),
{
    let mut info: Vec<char> = Vec::new();
    match author {
        Some(name) => {
            push_text(&mut info, name.as_str());
            push_text(&mut info, ", ");
        },
        None => {},
    }
    push_text(&mut info, date);
    let info = from_chars(&info);
    let mut out: Vec<char> = Vec::new();
    push_text(&mut out, "<!DOCTYPE html>\n<html lang='en'>\n    <head>\n        <title>");
    push_text(&mut out, title);
    push_text(
        &mut out,
        "</title>\n    <meta charset='utf-8'>\n    </head>\n    <body>\n        <h1>",
    );
    push_text(&mut out, title);
    push_text(&mut out, "</h1>\n        <p>");
    push_text(&mut out, info.as_str());
    push_text(&mut out, "</p>\n        ");
    push_text(&mut out, post_html);
    push_text(&mut out, "\n        <p>\n          <i>Scraped on ");
    push_text(&mut out, scraped);
    push_text(&mut out, " from <a href=\"");
    push_text(&mut out, address);
    push_text(&mut out, "\">");
    push_text(&mut out, address);
    push_text(&mut out, "</a></i>\n        </p>\n    </body>\n</html>");
    from_chars(&out)
}

/// The HTML document of the page `page` of the post `post`, around the
/// markup `post_html`; `None` where the date of the post or the moment
/// of the capture cannot be written.
pub open spec fn output_html(post: GroupsPost, page: Page, post_html: Seq<char>) -> Option<Seq<char>> {
    match (date_text(page.post_date), moment_written(page.scrape_date)) {
        (Some(date), Some(scraped)) => Some(
            page_markup(
                page.title@,
                info_line(text_of_option(post.author), date),
                post_html,
                scraped,
                page.original_url@,
            ),
        ),
        _ => None,
    }
}

/// Writes the HTML document of a page.
///
/// `post_html` is the markup of the post as the page shows it: with the
/// sources of its stored images and the attributes that the page keeps.
/// The document gives the title, the author and the date of the post, the
/// markup, and the moment and the address of the capture. The result is
/// `None` where the calendar has no such dates.
pub fn make_output_html_for_post(post: &GroupsPost, page: &Page, post_html: &str) -> (r: Option<String>)
    ensures
        text_of_option(r) == output_html(*post, *page, post_html@),
{
    let date = format_date(&page.post_date)?;
    let scraped = format_capture_time(&page.scrape_date)?;
    Some(
        write_page(
            page.title.as_str(),
            &post.author,
            date.as_str(),
            post_html,
            scraped.as_str(),
            page.original_url.as_str(),
        ),
    )
}

} // verus!
