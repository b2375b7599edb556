//! Which files of a cache directory are rendered pages, and whether they are complete.
//!
//! Validity is judged by count alone: no fingerprint of the document is kept, so
//! any difference between the number of page images and the number of pages
//! discards every page image.
use vstd::prelude::*;
use crate::paths::{image_extension, join, join_chars};
use crate::rasterizer::views;
use crate::text::{chars_of, string_of};

verus! {

/// A rendered page carries the image extension after a non-empty stem.
pub open spec fn is_page_file(name: Seq<char>) -> bool {
    name.len() > 5 && name.subrange(name.len() - 5, name.len() as int) == image_extension()
}

/// How many of `names` are rendered pages.
pub open spec fn page_file_count(names: Seq<Seq<char>>) -> nat
    decreases names.len(),
{
    if names.len() == 0 {
        0
    } else {
        page_file_count(names.drop_last()) + if is_page_file(names.last()) { 1nat } else { 0nat }
    }
}

/// The paths in `dir` of the rendered pages among `names`, in listing order.
pub open spec fn stale_paths(dir: Seq<char>, names: Seq<Seq<char>>) -> Seq<Seq<char>>
    decreases names.len(),
{
    if names.len() == 0 {
        Seq::empty()
    } else if is_page_file(names.last()) {
        stale_paths(dir, names.drop_last()).push(join(dir, names.last()))
    } else {
        stale_paths(dir, names.drop_last())
    }
}

#[derive(Debug, Clone, Copy, PartialEq, Eq)]
pub enum CacheStatus {
    /// As many page images as the document has pages.
    Complete,
    /// The directory holds this many page images, which is not the page count.
    Mismatched(usize),
    /// There is no cache directory.
    Absent,
}

/// The status of a cache whose directory lists `names` (`None`: no directory)
/// for a document of `expected` pages.
pub open spec fn cache_status(listing: Option<Seq<Seq<char>>>, expected: nat) -> CacheStatus {
    match listing {
        None => CacheStatus::Absent,
        Some(names) => if page_file_count(names) == expected {
            CacheStatus::Complete
        } else {
            CacheStatus::Mismatched(page_file_count(names) as usize)
        },
    }
}

pub open spec fn listing_view(listing: Option<Vec<String>>) -> Option<Seq<Seq<char>>> {
    match listing {
        None => None,
        Some(v) => Some(views(v@)),
    }
}

proof fn lemma_views_push(v: Seq<String>, i: int)
    requires
        0 <= i < v.len(),
    ensures
        views(v.subrange(0, i + 1)) == views(v.subrange(0, i)).push(v[i]@),
        views(v.subrange(0, i + 1)).drop_last() == views(v.subrange(0, i)),
        views(v.subrange(0, i + 1)).last() == v[i]@,
{
    assert(views(v.subrange(0, i + 1)) =~= views(v.subrange(0, i)).push(v[i]@));
}

/// Whether a file name is that of a rendered page.
pub fn is_page_file_name(name: &String) -> (r: bool)
    ensures
        r == is_page_file(name@),
{
    let c = chars_of(name.as_str());
    let n = c.len();
    if n <= 5 {
        return false;
    }
    let r = c[n - 5] == '.' && c[n - 4] == 'w' && c[n - 3] == 'e' && c[n - 2] == 'b' && c[n - 1] == 'p';
    assert(r == (c@.subrange(n - 5, n as int) =~= image_extension()));
    r
}

/// How many of `names` are rendered pages.
pub fn count_webp_files(names: &Vec<String>) -> (r: usize)
    ensures
        r as nat == page_file_count(views(names@)),
{
    let mut count: usize = 0;
    let mut i: usize = 0;
    while i < names.len()
        invariant
            i <= names.len(),
            count as nat == page_file_count(views(names@.subrange(0, i as int))),
            count <= i,
        decreases names.len() - i,
    {
        proof {
            lemma_views_push(names@, i as int);
        }
        if is_page_file_name(&names[i]) {
            count += 1;
        }
        i += 1;
    }
    assert(names@.subrange(0, names.len() as int) == names@);
    count
}

/// The paths of the rendered pages among the files `names` of `dir`: what must
/// go before the pages are rendered again.
pub fn stale_files(dir: &str, names: &Vec<String>) -> (r: Vec<String>)
    ensures
        views(r@) == stale_paths(dir@, views(names@)),
{
    let d = chars_of(dir);
    let mut r: Vec<String> = Vec::new();
    let mut i: usize = 0;
    while i < names.len()
        invariant
            i <= names.len(),
            d@ == dir@,
            views(r@) == stale_paths(dir@, views(names@.subrange(0, i as int))),
        decreases names.len() - i,
    {
        proof {
            lemma_views_push(names@, i as int);
        }
        if is_page_file_name(&names[i]) {
            let n = chars_of(names[i].as_str());
            let p = join_chars(&d, &n);
            let old_r = Ghost(r@);
            r.push(string_of(&p));
            assert(views(r@) =~= views(old_r@).push(p@));
        }
        i += 1;
    }
    assert(names@.subrange(0, names.len() as int) == names@);
    r
}

/// The status of a cache whose directory lists `listing` (`None`: no directory)
/// for a document of `expected` pages.
pub fn inspect_cache(listing: &Option<Vec<String>>, expected: usize) -> (r: CacheStatus)
    ensures
        r == cache_status(listing_view(*listing), expected as nat),
{
    match listing {
        None => CacheStatus::Absent,
        Some(names) => {
            let found = count_webp_files(names);
            if found == expected {
                CacheStatus::Complete
            } else {
                CacheStatus::Mismatched(found)
            }
        },
    }
}

} // verus!
