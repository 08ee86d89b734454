//! The zerocalcare.net strategy.
//!
//! The site serves one story per comic page, with every page image embedded
//! in the page itself. Page discovery scans the raw page text for image URLs
//! under the site's uploads path, deduplicates them (the page embeds
//! duplicate references), and sorts them by the page index carried in the
//! URL itself.

use vstd::prelude::*;
use crate::model::{ComicDownloader, Issue, SiteDownloaderError, issue_views};
use crate::text::{
    all_digits, digit_run_end, digits_value, is_digit, matches_at, remove_occurrences,
};

verus! {

/// The uploads path under which the site stores page images.
pub open spec fn upload_prefix() -> Seq<char> {
    "https://www.zerocalcare.net/wp-content/uploads/"@
}

/// Where the year digits of a candidate match at `i` begin.
pub open spec fn head_start(i: int) -> int {
    i + upload_prefix().len()
}

/// Where the page-number digit run of a candidate match at `i` begins,
/// after the year, month and their separators.
pub open spec fn run1_start(i: int) -> int {
    head_start(i) + 8
}

/// A page-image URL stands at `i`: the uploads prefix, a four-digit year,
/// `/`, a two-digit month, `/`, a digit run (the page number), `-`, a digit
/// run, and `.jpg`.
pub open spec fn page_match_at(s: Seq<char>, i: int) -> bool {
    let a = head_start(i);
    let rs = run1_start(i);
    let q = digit_run_end(s, rs);
    let t = digit_run_end(s, q + 1);
    &&& matches_at(s, upload_prefix(), i)
    &&& rs <= s.len()
    &&& all_digits(s, a, a + 4)
    &&& a + 4 < s.len() && s[a + 4] == '/'
    &&& all_digits(s, a + 5, a + 7)
    &&& a + 7 < s.len() && s[a + 7] == '/'
    &&& q > rs
    &&& q < s.len() && s[q] == '-'
    &&& t > q + 1
    &&& t + 4 <= s.len()
    &&& matches_at(s, ".jpg"@, t)
}

/// One past the end of the match at `i`.
pub open spec fn page_match_end(s: Seq<char>, i: int) -> int {
    digit_run_end(s, digit_run_end(s, run1_start(i)) + 1) + 4
}

/// The page number the match at `i` carries: its first digit run.
pub open spec fn page_match_num(s: Seq<char>, i: int) -> nat {
    digits_value(s.subrange(run1_start(i), digit_run_end(s, run1_start(i))))
}

/// The full matched URL at `i`.
pub open spec fn page_match_url(s: Seq<char>, i: int) -> Seq<char> {
    s.subrange(i, page_match_end(s, i))
}

/// Checks whether a page-image URL stands at character index `i`, and if so
/// hands back where it ends, the URL itself, and its page number (`None`
/// when the number does not fit in a `u32`).
fn try_page_match(s: &str, i: usize) -> (r: Option<(usize, String, Option<u32>)>)
    requires
        i <= s@.len(),
    ensures
        match r {
            Some(m) => {
                &&& page_match_at(s@, i as int)
                &&& m.0 == page_match_end(s@, i as int)
                &&& i < m.0 <= s@.len()
                &&& m.1@ == page_match_url(s@, i as int)
                &&& (match m.2 {
                    Some(n) => page_match_num(s@, i as int) == n as nat,
                    None => page_match_num(s@, i as int) > u32::MAX,
                })
            },
            None => !page_match_at(s@, i as int),
        },
{
    let prefix = "https://www.zerocalcare.net/wp-content/uploads/";
    if !crate::text::match_at(s, prefix, i) {
        return None;
    }
    let sl = s.unicode_len();
    let pl = prefix.unicode_len();
    let a = i + pl;
    if sl - a < 8 {
        return None;
    }
    if !all_digits_range(s, a, a + 4) {
        return None;
    }
    if s.get_char(a + 4) != '/' {
        return None;
    }
    if !all_digits_range(s, a + 5, a + 7) {
        return None;
    }
    if s.get_char(a + 7) != '/' {
        return None;
    }
    let rs = a + 8;
    let q = crate::text::digit_run_end_exec(s, rs);
    if q == rs || q == sl {
        return None;
    }
    if s.get_char(q) != '-' {
        return None;
    }
    let t = crate::text::digit_run_end_exec(s, q + 1);
    if t == q + 1 {
        return None;
    }
    if !crate::text::match_at(s, ".jpg", t) {
        return None;
    }
    proof {
        reveal_strlit(".jpg");
        assert(".jpg"@.len() == 4);
    }
    let end = t + 4;
    let url = s.substring_char(i, end).to_owned();
    let num = crate::text::parse_digits_range(s, rs, q);
    Some((end, url, num))
}

/// Whether every character between `a` and `b` is a decimal digit.
fn all_digits_range(s: &str, a: usize, b: usize) -> (r: bool)
    requires
        a <= b <= s@.len(),
    ensures
        r == all_digits(s@, a as int, b as int),
{
    let mut j = a;
    while j < b
        invariant
            a <= j <= b <= s@.len(),
            forall|k: int| a <= k < j ==> is_digit(s@[k]),
        decreases b - j,
    {
        if crate::text::digit_of(s.get_char(j)).is_none() {
            return false;
        }
        j += 1;
    }
    true
}

/// The page-image URLs found in `s` from position `i` on: leftmost,
/// non-overlapping matches, each as the URL and its page number.
pub open spec fn scan_from(s: Seq<char>, i: int) -> Seq<(Seq<char>, nat)>
    decreases s.len() - i,
{
    if i < 0 || i >= s.len() {
        Seq::empty()
    } else if page_match_at(s, i) {
        seq![(page_match_url(s, i), page_match_num(s, i))] + scan_from(s, page_match_end(s, i))
    } else {
        scan_from(s, i + 1)
    }
}

/// Some match in `ms` carries the URL `u`.
pub open spec fn has_url(ms: Seq<(Seq<char>, nat)>, u: Seq<char>) -> bool {
    exists|j: int| 0 <= j < ms.len() && ms[j].0 == u
}

/// The matches with every repeated URL dropped, keeping first occurrences
/// in order: the site embeds duplicate references to each page image.
pub open spec fn dedup_urls(ms: Seq<(Seq<char>, nat)>) -> Seq<(Seq<char>, nat)>
    decreases ms.len(),
{
    if ms.len() == 0 {
        Seq::empty()
    } else {
        let rest = dedup_urls(ms.drop_last());
        if has_url(ms.drop_last(), ms.last().0) {
            rest
        } else {
            rest.push(ms.last())
        }
    }
}

/// The matches whose page number fits in a `u32`; a page numbered beyond
/// that is malformed and skipped.
pub open spec fn fitting(ms: Seq<(Seq<char>, nat)>) -> Seq<(Seq<char>, nat)>
    decreases ms.len(),
{
    if ms.len() == 0 {
        Seq::empty()
    } else {
        let rest = fitting(ms.drop_last());
        if ms.last().1 <= u32::MAX {
            rest.push(ms.last())
        } else {
            rest
        }
    }
}

/// When the gathered URL list mirrors the deduplicated matches, they agree
/// index by index.
proof fn lemma_seen_matches_dedup(dd: Seq<(Seq<char>, nat)>, seen: Seq<String>)
    requires
        url_views(seen) == dd.map_values(|m: (Seq<char>, nat)| m.0),
    ensures
        dd.len() == seen.len(),
        forall|j: int| 0 <= j < dd.len() ==> dd[j].0 == seen[j]@,
{
    assert(url_views(seen).len() == seen.len());
    assert(dd.map_values(|m: (Seq<char>, nat)| m.0).len() == dd.len());
    assert forall|j: int| 0 <= j < dd.len() implies dd[j].0 == seen[j]@ by {
        assert(url_views(seen)[j] == seen[j]@);
        assert(dd.map_values(|m: (Seq<char>, nat)| m.0)[j] == dd[j].0);
    }
}

/// Dropping repeated URLs keeps exactly the set of URLs.
proof fn lemma_dedup_same_urls(ms: Seq<(Seq<char>, nat)>)
    ensures
        forall|u: Seq<char>| has_url(dedup_urls(ms), u) <==> has_url(ms, u),
    decreases ms.len(),
{
    if ms.len() > 0 {
        let pre = ms.drop_last();
        let l = ms.last();
        lemma_dedup_same_urls(pre);
        assert forall|u: Seq<char>| has_url(dedup_urls(ms), u) <==> has_url(ms, u) by {
            if has_url(ms, u) {
                let j = choose|j: int| 0 <= j < ms.len() && ms[j].0 == u;
                if j < ms.len() - 1 {
                    assert(pre[j].0 == u);
                    assert(has_url(pre, u));
                    let jj = choose|jj: int|
                        0 <= jj < dedup_urls(pre).len() && dedup_urls(pre)[jj].0 == u;
                    assert(dedup_urls(ms)[jj].0 == u);
                    assert(has_url(dedup_urls(ms), u));
                } else {
                    if has_url(pre, u) {
                        let jj = choose|jj: int|
                            0 <= jj < dedup_urls(pre).len() && dedup_urls(pre)[jj].0 == u;
                        assert(dedup_urls(ms)[jj].0 == u);
                    } else {
                        assert(dedup_urls(ms) == dedup_urls(pre).push(l));
                        assert(dedup_urls(ms).last().0 == u);
                    }
                    assert(has_url(dedup_urls(ms), u));
                }
            }
            if has_url(dedup_urls(ms), u) {
                let j = choose|j: int| 0 <= j < dedup_urls(ms).len() && dedup_urls(ms)[j].0 == u;
                if has_url(pre, l.0) {
                    assert(dedup_urls(ms) == dedup_urls(pre));
                    assert(has_url(dedup_urls(pre), u));
                    assert(has_url(pre, u));
                    let k = choose|k: int| 0 <= k < pre.len() && pre[k].0 == u;
                    assert(ms[k].0 == u);
                    assert(has_url(ms, u));
                } else {
                    if j < dedup_urls(pre).len() {
                        assert(dedup_urls(pre)[j].0 == u);
                        assert(has_url(pre, u));
                        let k = choose|k: int| 0 <= k < pre.len() && pre[k].0 == u;
                        assert(ms[k].0 == u);
                    } else {
                        assert(dedup_urls(ms)[j] == l);
                        assert(ms[ms.len() - 1].0 == u);
                    }
                    assert(has_url(ms, u));
                }
            }
        }
    }
}

/// One discovered page image: its URL and the page number it carries.
pub struct PageRef {
    pub url: String,
    pub page: u32,
}

impl View for PageRef {
    type V = (Seq<char>, nat);

    open spec fn view(&self) -> (Seq<char>, nat) {
        (self.url@, self.page as nat)
    }
}

impl PageRef {
    /// An exact copy; written out because nothing is known of a derived
    /// `Clone`.
    pub fn duplicate(&self) -> (r: PageRef)
        ensures
            r@ == self@,
    {
        PageRef { url: self.url.clone(), page: self.page }
    }
}

/// The views of a sequence of page references.
pub open spec fn page_ref_views(s: Seq<PageRef>) -> Seq<(Seq<char>, nat)> {
    s.map_values(|p: PageRef| p.view())
}

/// The views of a sequence of strings.
pub open spec fn url_views(s: Seq<String>) -> Seq<Seq<char>> {
    s.map_values(|u: String| u@)
}

/// Pages stand in order of their page numbers.
pub open spec fn sorted_by_page(s: Seq<(Seq<char>, nat)>) -> bool {
    forall|i: int, j: int| 0 <= i < j < s.len() ==> s[i].1 <= s[j].1
}

/// Whether one of the gathered URLs equals `url`.
fn contains_url(seen: &Vec<String>, url: &str) -> (r: bool)
    ensures
        r == exists|j: int| 0 <= j < seen@.len() && seen@[j]@ == url@,
{
    let mut i: usize = 0;
    while i < seen.len()
        invariant
            i <= seen@.len(),
            forall|k: int| 0 <= k < i ==> seen@[k]@ != url@,
        decreases seen@.len() - i,
    {
        if crate::text::str_eq(seen[i].as_str(), url) {
            return true;
        }
        i += 1;
    }
    false
}

/// Sorts discovered pages by their page number, keeping exactly the same
/// collection of pages.
fn sort_pages(v: &Vec<PageRef>) -> (r: Vec<PageRef>)
    ensures
        page_ref_views(r@).to_multiset() == page_ref_views(v@).to_multiset(),
        sorted_by_page(page_ref_views(r@)),
{
    broadcast use vstd::seq_lib::group_to_multiset_ensures;

    let mut out: Vec<PageRef> = Vec::new();
    proof {
        assert(page_ref_views(v@.subrange(0, 0)) =~= Seq::<(Seq<char>, nat)>::empty());
        assert(page_ref_views(out@) =~= page_ref_views(v@.subrange(0, 0)));
    }
    let mut idx: usize = 0;
    while idx < v.len()
        invariant
            idx <= v@.len(),
            sorted_by_page(page_ref_views(out@)),
            page_ref_views(out@).to_multiset() == page_ref_views(
                v@.subrange(0, idx as int),
            ).to_multiset(),
        decreases v@.len() - idx,
    {
        broadcast use vstd::seq_lib::group_to_multiset_ensures;

        let x = v[idx].duplicate();
        let ghost xv = x@;
        let ghost pre = out@;
        let mut pos: usize = 0;
        while pos < out.len() && out[pos].page <= x.page
            invariant
                pos <= out@.len(),
                out@ == pre,
                xv == x@,
                forall|k: int| 0 <= k < pos ==> page_ref_views(out@)[k].1 <= xv.1,
            decreases out@.len() - pos,
        {
            proof {
                assert(page_ref_views(out@)[pos as int] == out@[pos as int]@);
            }
            pos += 1;
        }
        proof {
            assert(pos < out@.len() ==> page_ref_views(out@)[pos as int].1 > xv.1);
        }
        out.insert(pos, x);
        proof {
            let vs = page_ref_views(pre);
            let vs2 = page_ref_views(out@);
            assert(vs2 =~= vs.insert(pos as int, xv));
            assert(vs2.to_multiset() == vs.to_multiset().insert(xv));
            assert(v@.subrange(0, idx + 1).drop_last() =~= v@.subrange(0, idx as int));
            assert(page_ref_views(v@.subrange(0, idx + 1)) =~= page_ref_views(
                v@.subrange(0, idx as int),
            ).push(xv));
            assert(sorted_by_page(vs2)) by {
                assert forall|i: int, j: int| 0 <= i < j < vs2.len() implies vs2[i].1 <= vs2[j].1 by {
                    if j < pos {
                    } else if i < pos && j == pos {
                    } else if i == pos {
                        assert(vs2[j] == vs[j - 1]);
                        assert(vs[pos as int].1 <= vs[j - 1].1 || pos == j - 1);
                    } else if i < pos {
                        assert(vs2[j] == vs[j - 1]);
                    } else {
                        assert(vs2[i] == vs[i - 1] && vs2[j] == vs[j - 1]);
                    }
                }
            }
        }
        idx += 1;
    }
    proof {
        assert(v@.subrange(0, v@.len() as int) =~= v@);
    }
    out
}

/// Scans a story page's raw text for page-image URLs: every match of the
/// uploads pattern, first occurrences only, sorted by the page number
/// embedded in the URL. A match whose page number does not fit in a `u32`
/// is malformed and skipped.
pub fn find_page_urls(body: &str) -> (r: Vec<PageRef>)
    ensures
        page_ref_views(r@).to_multiset() == fitting(
            dedup_urls(scan_from(body@, 0)),
        ).to_multiset(),
        sorted_by_page(page_ref_views(r@)),
{
    let sl = body.unicode_len();
    let mut seen: Vec<String> = Vec::new();
    let mut found: Vec<PageRef> = Vec::new();
    let ghost mut ms: Seq<(Seq<char>, nat)> = Seq::empty();
    let mut i: usize = 0;
    proof {
        assert(scan_from(body@, 0) =~= ms + scan_from(body@, 0));
        assert(url_views(seen@) =~= dedup_urls(ms).map_values(|m: (Seq<char>, nat)| m.0));
        assert(page_ref_views(found@) =~= fitting(dedup_urls(ms)));
    }
    while i < sl
        invariant
            i <= sl,
            sl == body@.len(),
            scan_from(body@, 0) == ms + scan_from(body@, i as int),
            url_views(seen@) == dedup_urls(ms).map_values(|m: (Seq<char>, nat)| m.0),
            page_ref_views(found@) == fitting(dedup_urls(ms)),
        decreases sl - i,
    {
        match try_page_match(body, i) {
            None => {
                proof {
                    assert(scan_from(body@, i as int) == scan_from(body@, i + 1));
                }
                i += 1;
            },
            Some((end, url, num)) => {
                let ghost m = (url@, page_match_num(body@, i as int));
                proof {
                    assert(scan_from(body@, i as int) == seq![m] + scan_from(body@, end as int));
                    assert(ms + scan_from(body@, i as int) =~= ms.push(m) + scan_from(
                        body@,
                        end as int,
                    ));
                    assert(ms.push(m).drop_last() =~= ms);
                    lemma_dedup_same_urls(ms);
                }
                let dup = contains_url(&seen, url.as_str());
                proof {
                    let dd = dedup_urls(ms);
                    lemma_seen_matches_dedup(dd, seen@);
                    if dup {
                        let j = choose|j: int| 0 <= j < seen@.len() && seen@[j]@ == url@;
                        assert(dd[j].0 == url@);
                        assert(has_url(dd, url@));
                        assert(has_url(ms, m.0));
                        assert(dedup_urls(ms.push(m)) == dd);
                    } else {
                        if has_url(ms, m.0) {
                            assert(has_url(dd, url@));
                            let j = choose|j: int| 0 <= j < dd.len() && dd[j].0 == url@;
                            assert(seen@[j]@ == url@);
                        }
                        assert(!has_url(ms, m.0));
                        assert(dedup_urls(ms.push(m)) == dd.push(m));
                        assert(dd.push(m).drop_last() =~= dd);
                    }
                }
                if !dup {
                    seen.push(url.clone());
                    proof {
                        assert(url_views(seen@) =~= dedup_urls(ms.push(m)).map_values(
                            |mm: (Seq<char>, nat)| mm.0,
                        ));
                    }
                    match num {
                        Some(n) => {
                            found.push(PageRef { url, page: n });
                            proof {
                                assert(page_ref_views(found@) =~= fitting(dedup_urls(ms.push(m))));
                            }
                        },
                        None => {
                            proof {
                                assert(page_ref_views(found@) =~= fitting(dedup_urls(ms.push(m))));
                            }
                        },
                    }
                }
                proof {
                    ms = ms.push(m);
                }
                i = end;
            },
        }
    }
    proof {
        assert(scan_from(body@, sl as int) =~= Seq::<(Seq<char>, nat)>::empty());
        assert(ms =~= scan_from(body@, 0));
    }
    sort_pages(&found)
}

/// The URL prefix that the site puts before a story's name.
pub open spec fn story_prefix() -> Seq<char> {
    "https://www.zerocalcare.net/storie-a-fumetti/"@
}

/// The comic's name: the locator with the site's fixed prefix and its
/// trailing slash stripped; `None` when the trailing slash is missing.
pub open spec fn comic_name_of(url: Seq<char>) -> Option<Seq<char>> {
    let t = remove_occurrences(url, story_prefix());
    if t.len() > 0 && t.last() == '/' {
        Some(t.drop_last())
    } else {
        None
    }
}

/// The strategy for zerocalcare.net.
#[derive(Debug, Clone, Copy, PartialEq, Eq, Structural)]
pub struct ZerocalcareNetStrategy;

impl ComicDownloader for ZerocalcareNetStrategy {
    open spec fn comic_name_spec(&self, url: Seq<char>) -> Option<Seq<char>> {
        comic_name_of(url)
    }

    fn get_comic_name(&self, url: &str) -> (r: Option<String>) {
        let t = crate::text::remove_all(url, "https://www.zerocalcare.net/storie-a-fumetti/");
        let tl = t.as_str().unicode_len();
        if tl > 0 && t.as_str().get_char(tl - 1) == '/' {
            proof {
                assert(t@.subrange(0, tl - 1) =~= t@.drop_last());
            }
            Some(t.as_str().substring_char(0, tl - 1).to_owned())
        } else {
            None
        }
    }
}

/// The site keeps one issue per story page: the issue is the comic itself,
/// named by the comic's name, located at the input URL. A derived name that
/// cannot serve as a file name is rejected, since issue names double as
/// staging directories and archive-name fragments.
pub fn get_issues_list(url: &str) -> (r: Result<Vec<Issue>, SiteDownloaderError>)
    ensures
        match r {
            Ok(v) => {
                &&& comic_name_of(url@) matches Some(n) && crate::model::fs_safe_name(n)
                    && issue_views(v@) == seq![
                    crate::model::IssueModel { name: n, link: url@ },
                ]
            },
            Err(e) => e == SiteDownloaderError::ParsingError && match comic_name_of(url@) {
                Some(n) => !crate::model::fs_safe_name(n),
                None => true,
            },
        },
{
    let strategy = ZerocalcareNetStrategy;
    match strategy.get_comic_name(url) {
        Some(name) if crate::model::is_fs_safe(name.as_str()) => {
            let mut v: Vec<Issue> = Vec::new();
            v.push(Issue { name, link: url.to_owned() });
            proof {
                assert(issue_views(v@) =~= seq![
                    crate::model::IssueModel {
                        name: comic_name_of(url@).unwrap(),
                        link: url@,
                    },
                ]);
            }
            Ok(v)
        },
        _ => Err(SiteDownloaderError::ParsingError),
    }
}

} // verus!
