//! The pages of a site: the order in which they are listed, and what
//! becomes of a batch of archives of which some may fail.

use vstd::prelude::*;
use vstd::seq_lib::{lemma_multiset_commutative, to_multiset_build, to_multiset_remove};
use vstd::string::*;
use vstd::utf8::encode_utf8;
use crate::error::InvalidData;
use crate::page::Page;
use crate::text::{has_text_at, text_at};
use crate::utf8_bytes::to_chars;

verus! {

/// Whether the byte string `a` stands before `b` in the order of
/// dictionaries, from offset `i` on, the two being equal before it.
pub open spec fn bytes_before(a: Seq<u8>, b: Seq<u8>, i: int) -> bool
    decreases a.len() - i,
{
    if i < 0 || i >= a.len() {
        i < b.len()
    } else if i >= b.len() {
        false
    } else if a[i] != b[i] {
        a[i] < b[i]
    } else {
        bytes_before(a, b, i + 1)
    }
}

/// Whether the title `a` stands before the title `b`: by their UTF-8
/// bytes, in the order of dictionaries, capitals and small letters apart.
pub open spec fn title_before(a: Seq<char>, b: Seq<char>) -> bool {
    bytes_before(encode_utf8(a), encode_utf8(b), 0)
}

/// Whether the page `a` is listed before the page `b` for its date or its
/// title: the later date first, and of two pages of one date the one
/// whose title stands first.
pub open spec fn listed_before(a: Page, b: Page) -> bool {
    ||| b.post_date.is_before(a.post_date)
    ||| (a.post_date == b.post_date && title_before(a.title@, b.title@))
}

/// Whether no page of `pages` stands behind a page that is listed after it.
pub open spec fn in_listing_order(pages: Seq<Page>) -> bool {
    forall|i: int, j: int| 0 <= i < j < pages.len() ==> !listed_before(pages[j], pages[i])
}

/// Of two byte strings that are equal before offset `i`, either one
/// stands before the other from there on, or they are equal.
pub proof fn lemma_bytes_before_total(a: Seq<u8>, b: Seq<u8>, i: int)
    requires
        0 <= i <= a.len(),
        i <= b.len(),
        a.take(i) == b.take(i),
    ensures
        bytes_before(a, b, i) || bytes_before(b, a, i) || a == b,
        !(bytes_before(a, b, i) && bytes_before(b, a, i)),
        a == b ==> !bytes_before(a, b, i),
    decreases a.len() - i,
{
    if i < a.len() && i < b.len() && a[i] == b[i] {
        assert(a.take(i + 1) =~= a.take(i).push(a[i]));
        assert(b.take(i + 1) =~= b.take(i).push(b[i]));
        lemma_bytes_before_total(a, b, i + 1);
    } else if i == a.len() && i == b.len() {
        assert(a.take(i) =~= a);
        assert(b.take(i) =~= b);
    }
}

/// The order of byte strings passes on: what stands before a string that
/// stands before a third stands before the third.
pub proof fn lemma_bytes_before_transitive(a: Seq<u8>, b: Seq<u8>, c: Seq<u8>, i: int)
    requires
        0 <= i,
        bytes_before(a, b, i),
        bytes_before(b, c, i),
    ensures
        bytes_before(a, c, i),
    decreases a.len() - i,
{
    if i < a.len() && i < b.len() && i < c.len() && a[i] == b[i] && b[i] == c[i] {
        lemma_bytes_before_transitive(a, b, c, i + 1);
    }
}

/// Of two titles either one stands before the other, or their bytes are
/// the same; and no title stands before itself.
proof fn lemma_titles_compare(a: Seq<char>, b: Seq<char>)
    ensures
        title_before(a, b) || title_before(b, a) || encode_utf8(a) == encode_utf8(b),
        !(title_before(a, b) && title_before(b, a)),
        encode_utf8(a) == encode_utf8(b) ==> !title_before(a, b),
{
    assert(encode_utf8(a).take(0) =~= encode_utf8(b).take(0));
    lemma_bytes_before_total(encode_utf8(a), encode_utf8(b), 0);
}

/// No two pages are listed before each other.
pub proof fn lemma_listing_is_one_way(a: Page, b: Page)
    ensures
        !(listed_before(a, b) && listed_before(b, a)),
{
    lemma_titles_compare(a.title@, b.title@);
}

/// The order of the listing passes on: a page listed before a second
/// that is listed before a third is listed before the third.
pub proof fn lemma_listing_passes_on(a: Page, b: Page, c: Page)
    requires
        listed_before(a, b),
        listed_before(b, c),
    ensures
        listed_before(a, c),
{
    if a.post_date == b.post_date && b.post_date == c.post_date {
        lemma_bytes_before_transitive(
            encode_utf8(a.title@),
            encode_utf8(b.title@),
            encode_utf8(c.title@),
            0,
        );
    }
}

/// Ties pass on too: a page that is not listed before a second, which is
/// not listed before a third, is not listed before the third.
pub proof fn lemma_listing_ties_pass_on(a: Page, b: Page, c: Page)
    requires
        !listed_before(a, b),
        !listed_before(b, c),
    ensures
        !listed_before(a, c),
{
    lemma_titles_compare(a.title@, b.title@);
    lemma_titles_compare(b.title@, c.title@);
    if listed_before(a, c) && a.post_date == b.post_date && b.post_date == c.post_date {
        let (ta, tb, tc) = (encode_utf8(a.title@), encode_utf8(b.title@), encode_utf8(c.title@));
        if ta != tb {
            lemma_bytes_before_transitive(tb, ta, tc, 0);
        }
    }
}

/// Compares two byte strings in the order of dictionaries.
fn bytes_stand_before(a: &[u8], b: &[u8]) -> (r: bool)
    ensures
        r == bytes_before(a@, b@, 0),
{
    let mut i: usize = 0;
    while i < a.len() && i < b.len()
        invariant
            i <= a@.len(),
            i <= b@.len(),
            bytes_before(a@, b@, i as int) == bytes_before(a@, b@, 0),
        decreases a@.len() - i,
    {
        if a[i] != b[i] {
            return a[i] < b[i];
        }
        i += 1;
    }
    i < b.len()
}

/// Whether the page `a` is listed before the page `b` for its date or its title.
pub fn is_listed_before(a: &Page, b: &Page) -> (r: bool)
    ensures
        r == listed_before(*a, *b),
{
    if b.post_date.precedes(&a.post_date) {
        true
    } else if a.post_date.precedes(&b.post_date) {
        false
    } else {
        bytes_stand_before(a.title.as_str().as_bytes(), b.title.as_str().as_bytes())
    }
}

/// Puts pages into the order of the listing: the later date first, and of
/// two pages of one date the one whose title stands first. The result
/// holds the same pages.
pub fn sort_pages(pages: Vec<Page>) -> (sorted: Vec<Page>)
    ensures
        in_listing_order(sorted@),
        sorted@.to_multiset() == pages@.to_multiset(),
{
    let mut rest = pages;
    let mut sorted: Vec<Page> = Vec::new();
    proof {
        assert(sorted@.to_multiset().add(rest@.to_multiset()) =~= pages@.to_multiset()) by {
            sorted@.to_multiset_ensures();
        }
    }
    while rest.len() > 0
        invariant
            in_listing_order(sorted@),
            sorted@.to_multiset().add(rest@.to_multiset()) == pages@.to_multiset(),
        decreases rest@.len(),
    {
        let ghost before = rest@;
        let ghost listed = sorted@;
        let page = rest.pop().unwrap();
        proof {
            assert(before =~= rest@.push(page));
            to_multiset_build(rest@, page);
        }
        let mut at: usize = 0;
        while at < sorted.len() && is_listed_before(&sorted[at], &page)
            invariant
                at <= sorted@.len(),
                forall|j: int| 0 <= j < at ==> listed_before(#[trigger] sorted@[j], page),
            decreases sorted@.len() - at,
        {
            at += 1;
        }
        sorted.insert(at, page);
        proof {
            assert(sorted@.remove(at as int) =~= listed);
            to_multiset_remove(sorted@, at as int);
            sorted@.to_multiset_ensures();
            assert(sorted@.contains(sorted@[at as int]));
            assert(sorted@.to_multiset() =~= listed.to_multiset().insert(page));
            assert forall|i: int, j: int| 0 <= i < j < sorted@.len() implies !listed_before(
                sorted@[j],
                sorted@[i],
            ) by {
                if j == at {
                    lemma_listing_is_one_way(listed[i], page);
                } else if i == at {
                    if j - 1 > at {
                        lemma_listing_ties_pass_on(listed[j - 1], listed[at as int], page);
                    }
                } else if j < at {
                    assert(!listed_before(listed[j], listed[i]));
                } else if i < at {
                    assert(!listed_before(listed[j - 1], listed[i]));
                } else {
                    assert(!listed_before(listed[j - 1], listed[i - 1]));
                }
            }
        }
    }
    proof {
        assert(rest@.to_multiset() =~= vstd::multiset::Multiset::<Page>::empty()) by {
            rest@.to_multiset_ensures();
        }
        assert(sorted@.to_multiset().add(rest@.to_multiset()) =~= sorted@.to_multiset());
    }
    sorted
}

/// The index of the first failure among `results` from index `k` on.
pub open spec fn first_failure(results: Seq<Result<Page, InvalidData>>, k: int) -> Option<int>
    decreases results.len() - k,
{
    if k < 0 || k >= results.len() {
        None
    } else if results[k] is Err {
        Some(k)
    } else {
        first_failure(results, k + 1)
    }
}

/// The pages among `results` from index `k` on, in their order.
pub open spec fn pages_made(results: Seq<Result<Page, InvalidData>>, k: int) -> Seq<Page>
    decreases results.len() - k,
{
    if k < 0 || k >= results.len() {
        Seq::empty()
    } else {
        match results[k] {
            Ok(page) => seq![page] + pages_made(results, k + 1),
            Err(_) => pages_made(results, k + 1),
        }
    }
}

/// Makes the listing of a site out of what became of each of its archives.
///
/// One failure halts the site: where an archive has failed, the result is
/// the first failure in the order of `results`. Otherwise the result holds
/// the pages that were made, in the order of the listing: the later date
/// first, and of two pages of one date the one whose title stands first.
pub fn build_site(results: Vec<Result<Page, InvalidData>>) -> (r: Result<Vec<Page>, InvalidData>)
    ensures
        match first_failure(results@, 0) {
            Some(k) => r is Err && r->Err_0 == results@[k]->Err_0,
            None => r is Ok && in_listing_order(r->Ok_0@) && r->Ok_0@.to_multiset() == pages_made(
                results@,
                0,
            ).to_multiset(),
        },
{
    let mut rest = results;
    let mut pages: Vec<Page> = Vec::new();
    let mut failure: Option<InvalidData> = None;
    proof {
        pages@.to_multiset_ensures();
        assert(pages_made(results@, results@.len() as int).to_multiset() =~= pages@.to_multiset())
            by {
            pages_made(results@, results@.len() as int).to_multiset_ensures();
        }
        assert(rest@.take(rest@.len() as int) =~= rest@);
    }
    while rest.len() > 0
        invariant
            rest@ == results@.take(rest@.len() as int),
            rest@.len() <= results@.len(),
            match first_failure(results@, rest@.len() as int) {
                Some(k) => failure == Some(results@[k]->Err_0),
                None => failure is None,
            },
            pages@.to_multiset() == pages_made(results@, rest@.len() as int).to_multiset(),
        decreases rest@.len(),
    {
        let ghost k = rest@.len() - 1;
        let result = rest.pop().unwrap();
        proof {
            assert(result == results@[k]);
            assert(rest@ =~= results@.take(k));
        }
        match result {
            Ok(page) => {
                proof {
                    to_multiset_build(pages@, page);
                    lemma_multiset_commutative(seq![page], pages_made(results@, k + 1));
                    to_multiset_build(Seq::<Page>::empty(), page);
                    assert(Seq::<Page>::empty().push(page) =~= seq![page]);
                    Seq::<Page>::empty().to_multiset_ensures();
                    assert(pages@.push(page).to_multiset() =~= pages_made(results@, k).to_multiset());
                }
                pages.push(page);
            },
            Err(e) => {
                failure = Some(e);
            },
        }
    }
    match failure {
        Some(e) => Err(e),
        None => Ok(sort_pages(pages)),
    }
}

/// The ending of the names of archive files.
pub open spec fn archive_suffix() -> Seq<char> {
    seq!['.', 'm', 'h', 't', 'm', 'l']
}

/// Whether a file name is that of an archive: it ends in `.mhtml`.
pub open spec fn names_archive(name: Seq<char>) -> bool {
    has_text_at(name, name.len() - archive_suffix().len(), archive_suffix())
}

/// Tells by its name whether a file is an archive.
pub fn is_archive_name(name: &str) -> (r: bool)
    ensures
        r == names_archive(name@),
{
    let chars = to_chars(name);
    let suffix: Vec<char> = vec!['.', 'm', 'h', 't', 'm', 'l'];
    assert(suffix@ =~= archive_suffix());
    if chars.len() < suffix.len() {
        return false;
    }
    text_at(&chars, chars.len() - suffix.len(), &suffix)
}

} // verus!
