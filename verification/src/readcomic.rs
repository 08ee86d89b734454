//! The readcomic.me strategy.
//!
//! The site lists a comic's issues newest first, spread over numbered pages
//! reached with a `?page=N` query; the walk stops at the first page that
//! shows no recognizable issue entry. A reader page exposes a total page
//! count up front, so page images are located by bounded iteration.

use vstd::prelude::*;
use crate::model::{ComicDownloader, Issue, IssueModel, SiteDownloaderError, issue_views};
use crate::text::{
    contains_seq, contains_sub, first_number, remove_occurrences, second_line_of,
};

verus! {

/// The URL prefix that readcomic.me puts before a comic's name.
pub open spec fn comic_prefix() -> Seq<char> {
    "https://readcomic.me/comic/"@
}

/// A link entry scraped from a listing page: one anchor's inner HTML and its
/// `href` attribute.
pub struct ChapterLink {
    pub inner_html: String,
    pub href: Option<String>,
}

/// The view of a [`ChapterLink`]: inner HTML and `href` as sequences.
pub struct ChapterLinkModel {
    pub inner_html: Seq<char>,
    pub href: Option<Seq<char>>,
}

impl View for ChapterLink {
    type V = ChapterLinkModel;

    open spec fn view(&self) -> ChapterLinkModel {
        ChapterLinkModel {
            inner_html: self.inner_html@,
            href: match self.href {
                Some(h) => Some(h@),
                None => None,
            },
        }
    }
}

/// The views of a sequence of chapter links.
pub open spec fn link_views(links: Seq<ChapterLink>) -> Seq<ChapterLinkModel> {
    links.map_values(|l: ChapterLink| l.view())
}

/// The anchors under a listing page's `#nt_listchapter` container, each as
/// inner HTML and `href`; `None` when the container is absent. A function of
/// the document text alone.
pub uninterp spec fn chapter_links_of(html: Seq<char>) -> Option<Seq<ChapterLinkModel>>;

/// Relies on scraper's `Html::parse_document` and `Selector` matching, which
/// are deterministic in the document text: it collects the anchors under the
/// first `#nt_listchapter` element.
#[verifier::external_body]
fn extract_chapter_links(html: &str) -> (r: Option<Vec<ChapterLink>>)
    ensures
        match r {
            Some(links) => chapter_links_of(html@) == Some(link_views(links@)),
            None => chapter_links_of(html@) is None,
        },
{
    let doc = scraper::Html::parse_document(html);
    let root_sel = scraper::Selector::parse("#nt_listchapter").unwrap();
    let a_sel = scraper::Selector::parse("a").unwrap();
    let root = doc.select(&root_sel).next()?;
    Some(
        root.select(&a_sel)
            .map(|a| ChapterLink {
                inner_html: a.inner_html(),
                href: a.attr("href").map(|h| h.to_string()),
            })
            .collect(),
    )
}

/// The inner HTML of a reader page's first `span.total-pages` element, or
/// `None` when it is absent. A function of the document text alone.
pub uninterp spec fn total_pages_text_of(html: Seq<char>) -> Option<Seq<char>>;

/// Relies on scraper's `Html::parse_document` and `Selector` matching: the
/// inner HTML of the first `span.total-pages` element.
#[verifier::external_body]
fn extract_total_pages_text(html: &str) -> (r: Option<String>)
    ensures
        match r {
            Some(t) => total_pages_text_of(html@) == Some(t@),
            None => total_pages_text_of(html@) is None,
        },
{
    let doc = scraper::Html::parse_document(html);
    let sel = scraper::Selector::parse("span.total-pages").unwrap();
    doc.select(&sel).next().map(|e| e.inner_html())
}

/// The `src` attribute of a reader page's first `img.single-page` element,
/// or `None` when it is absent. A function of the document text alone.
pub uninterp spec fn single_page_src_of(html: Seq<char>) -> Option<Seq<char>>;

/// Relies on scraper's `Html::parse_document` and `Selector` matching: the
/// `src` attribute of the first `img.single-page` element.
#[verifier::external_body]
fn extract_single_page_src(html: &str) -> (r: Option<String>)
    ensures
        match r {
            Some(u) => single_page_src_of(html@) == Some(u@),
            None => single_page_src_of(html@) is None,
        },
{
    let doc = scraper::Html::parse_document(html);
    let sel = scraper::Selector::parse("img.single-page").unwrap();
    doc.select(&sel)
        .next()
        .and_then(|e| e.attr("src"))
        .map(|s| s.to_string())
}

/// A listing page still shows issues: its container is present and at least
/// one anchor's inner HTML mentions an issue. The pagination walk stops at
/// the first page where this fails.
pub open spec fn page_live(html: Seq<char>) -> bool {
    match chapter_links_of(html) {
        Some(links) => exists|i: int|
            0 <= i < links.len() && contains_seq(links[i].inner_html, "Issue #"@),
        None => false,
    }
}

/// The issues one listing page's links parse to, in the site's own order.
/// An anchor with fewer than two lines of inner HTML or without an `href`
/// is malformed and skipped.
pub open spec fn issues_of_links(links: Seq<ChapterLinkModel>) -> Seq<IssueModel>
    decreases links.len(),
{
    if links.len() == 0 {
        Seq::empty()
    } else {
        let rest = issues_of_links(links.drop_last());
        let l = links.last();
        match second_line_of(l.inner_html) {
            Some(line) => match l.href {
                Some(href) => rest.push(
                    IssueModel { name: remove_occurrences(line, "Issue #"@), link: href },
                ),
                None => rest,
            },
            None => rest,
        }
    }
}

/// The issues a fetched listing page holds; empty when the container is
/// absent.
pub open spec fn issues_of_page(html: Seq<char>) -> Seq<IssueModel> {
    match chapter_links_of(html) {
        Some(links) => issues_of_links(links),
        None => Seq::empty(),
    }
}

/// Turns one listing page's scraped links into issues: the label is the
/// second line of the anchor's inner HTML with the issue prefix removed,
/// the locator is the anchor's `href`. Malformed entries are skipped.
fn parse_issue_entries(links: &Vec<ChapterLink>) -> (r: Vec<Issue>)
    ensures
        issue_views(r@) == issues_of_links(link_views(links@)),
{
    let mut out: Vec<Issue> = Vec::new();
    proof {
        assert(link_views(links@.subrange(0, 0)) =~= Seq::<ChapterLinkModel>::empty());
        assert(issue_views(out@) =~= issues_of_links(link_views(links@.subrange(0, 0))));
    }
    let mut i: usize = 0;
    while i < links.len()
        invariant
            i <= links@.len(),
            issue_views(out@) == issues_of_links(link_views(links@.subrange(0, i as int))),
        decreases links@.len() - i,
    {
        let l = &links[i];
        proof {
            assert(link_views(links@.subrange(0, i + 1)).drop_last() =~= link_views(
                links@.subrange(0, i as int),
            ));
            assert(link_views(links@.subrange(0, i + 1)).last() == links@[i as int]@);
        }
        match crate::text::second_line(l.inner_html.as_str()) {
            Some(line) => {
                match &l.href {
                    Some(href) => {
                        let name = crate::text::remove_all(line.as_str(), "Issue #");
                        out.push(Issue { name, link: href.clone() });
                    },
                    None => {},
                }
            },
            None => {},
        }
        proof {
            assert(issue_views(out@) =~= issues_of_links(link_views(links@.subrange(0, i + 1))));
        }
        i += 1;
    }
    proof {
        assert(links@.subrange(0, links@.len() as int) =~= links@);
    }
    out
}

/// Whether a fetched listing page still shows issue entries.
pub fn page_has_issues(body: &str) -> (r: bool)
    ensures
        r == page_live(body@),
{
    match extract_chapter_links(body) {
        Some(links) => {
            let mut i: usize = 0;
            while i < links.len()
                invariant
                    i <= links@.len(),
                    chapter_links_of(body@) == Some(link_views(links@)),
                    forall|k: int|
                        0 <= k < i ==> !contains_seq(link_views(links@)[k].inner_html, "Issue #"@),
                decreases links@.len() - i,
            {
                if contains_sub(links[i].inner_html.as_str(), "Issue #") {
                    proof {
                        assert(link_views(links@)[i as int] == links@[i as int]@);
                    }
                    return true;
                }
                proof {
                    assert(link_views(links@)[i as int] == links@[i as int]@);
                }
                i += 1;
            }
            false
        },
        None => false,
    }
}

/// The comic's name: the locator with the site's fixed prefix stripped.
pub open spec fn comic_name_of(url: Seq<char>) -> Seq<char> {
    remove_occurrences(url, comic_prefix())
}

/// The strategy for readcomic.me.
#[derive(Debug, Clone, Copy, PartialEq, Eq, Structural)]
pub struct ReadcomicMeStrategy;

impl ComicDownloader for ReadcomicMeStrategy {
    open spec fn comic_name_spec(&self, url: Seq<char>) -> Option<Seq<char>> {
        Some(comic_name_of(url))
    }

    fn get_comic_name(&self, url: &str) -> (r: Option<String>) {
        Some(crate::text::remove_all(url, "https://readcomic.me/comic/"))
    }
}

/// The address of one numbered listing page.
pub open spec fn page_link_spec(base: Seq<char>, n: nat) -> Seq<char> {
    base + "?page="@ + crate::text::dec_rep(n)
}

/// Builds the address of listing page `n` for a comic.
pub fn page_link(base: &str, n: u32) -> (r: String)
    ensures
        r@ == page_link_spec(base@, n as nat),
{
    let r = String::from_str(base).concat("?page=").concat(
        crate::text::u32_to_string(n).as_str(),
    );
    proof {
        assert(r@ =~= page_link_spec(base@, n as nat));
    }
    r
}

/// The walk over a comic's numbered listing pages: where it stands and what
/// it has gathered.
#[derive(Debug)]
pub struct ReadcomicListing {
    /// The comic's listing URL, the base of every page address.
    pub base: String,
    /// The number of the page to ask for next.
    pub next_page: u32,
    /// The issues gathered so far, still in the site's newest-first order.
    pub collected: Vec<Issue>,
}

/// What one step of the listing walk decides: fetch another page, or stop
/// with the finished, oldest-first issue list.
#[derive(Debug)]
pub enum ListingStep {
    /// Fetch the given address and feed the body to the next step.
    Continue(ReadcomicListing, String),
    /// The walk is over; here is the full issue list, oldest first.
    Finished(Vec<Issue>),
}

/// Starts the listing walk: the first fetch is page 1.
pub fn begin_listing(url: &str) -> (r: (ReadcomicListing, String))
    ensures
        r.0.base@ == url@,
        r.0.next_page == 1,
        issue_views(r.0.collected@) == Seq::<IssueModel>::empty(),
        r.1@ == page_link_spec(url@, 1),
{
    let st = ReadcomicListing { base: url.to_owned(), next_page: 1, collected: Vec::new() };
    let link = page_link(url, 1);
    (st, link)
}

/// One step of the walk, fed the fetched body of the page just asked for.
/// A page that still shows issues is parsed and the walk continues; the
/// first page without issue entries ends the walk; a missing listing
/// container on the very first page means the comic was not found.
pub fn listing_step(st: ReadcomicListing, body: &str) -> (r: Result<
    ListingStep,
    SiteDownloaderError,
>)
    requires
        st.next_page < u32::MAX,
    ensures
        match r {
            Ok(step) => match step {
                ListingStep::Continue(st2, link) => page_live(body@) && st2.base@ == st.base@
                    && st2.next_page == st.next_page + 1 && issue_views(st2.collected@)
                    == issue_views(st.collected@) + issues_of_page(body@) && link@
                    == page_link_spec(st.base@, (st.next_page + 1) as nat),
                ListingStep::Finished(issues) => !page_live(body@) && !(st.next_page == 1
                    && chapter_links_of(body@) is None) && issue_views(issues@)
                    == crate::model::well_named(issue_views(st.collected@).reverse()),
            },
            Err(e) => e == SiteDownloaderError::NotFound && st.next_page == 1 && chapter_links_of(
                body@,
            ) is None,
        },
{
    match extract_chapter_links(body) {
        None => {
            if st.next_page == 1 {
                Err(SiteDownloaderError::NotFound)
            } else {
                Ok(
                    ListingStep::Finished(
                        crate::model::normalize_issue_list(
                            &crate::model::reverse_issues(&st.collected),
                        ),
                    ),
                )
            }
        },
        Some(links) => {
            if page_has_issues(body) {
                let parsed = parse_issue_entries(&links);
                let mut st2 = st;
                crate::model::append_issues(&mut st2.collected, &parsed);
                st2.next_page = st2.next_page + 1;
                let link = page_link(st2.base.as_str(), st2.next_page);
                Ok(ListingStep::Continue(st2, link))
            } else {
                Ok(
                    ListingStep::Finished(
                        crate::model::normalize_issue_list(
                            &crate::model::reverse_issues(&st.collected),
                        ),
                    ),
                )
            }
        },
    }
}

/// Reads the total page count off a fetched reader page: the first number
/// in the `span.total-pages` label. `ParsingError` exactly when the label
/// is absent or holds no usable number.
pub fn parse_total_pages(body: &str) -> (r: Result<u32, SiteDownloaderError>)
    ensures
        match r {
            Ok(n) => total_pages_text_of(body@) matches Some(t) && first_number(t) == Some(n),
            Err(e) => e == SiteDownloaderError::ParsingError && match total_pages_text_of(body@) {
                Some(t) => first_number(t) is None,
                None => true,
            },
        },
{
    match extract_total_pages_text(body) {
        Some(text) => match crate::text::parse_first_number(text.as_str()) {
            Some(n) => Ok(n),
            None => Err(SiteDownloaderError::ParsingError),
        },
        None => Err(SiteDownloaderError::ParsingError),
    }
}

/// Locates the page image on a fetched reader page: the `src` of its
/// `img.single-page` element. `ParsingError` exactly when the element is
/// absent.
pub fn locate_page_image(body: &str) -> (r: Result<String, SiteDownloaderError>)
    ensures
        match r {
            Ok(u) => single_page_src_of(body@) == Some(u@),
            Err(e) => e == SiteDownloaderError::ParsingError && single_page_src_of(body@) is None,
        },
{
    match extract_single_page_src(body) {
        Some(u) => Ok(u),
        None => Err(SiteDownloaderError::ParsingError),
    }
}

/// The address of one numbered page of an issue's reader.
pub open spec fn issue_page_link_spec(link: Seq<char>, n: nat) -> Seq<char> {
    link + "/"@ + crate::text::dec_rep(n)
}

/// Builds the address of page `n` of an issue's reader.
pub fn issue_page_link(link: &str, n: u32) -> (r: String)
    ensures
        r@ == issue_page_link_spec(link@, n as nat),
{
    let r = String::from_str(link).concat("/").concat(crate::text::u32_to_string(n).as_str());
    proof {
        assert(r@ =~= issue_page_link_spec(link@, n as nat));
    }
    r
}

/// The views of a sequence of page bodies.
pub open spec fn body_views(bodies: Seq<String>) -> Seq<Seq<char>> {
    bodies.map_values(|b: String| b@)
}

/// The first listing page that shows no issue entry, at or after `from`;
/// the page count when every page is live.
pub open spec fn first_dead_page(bs: Seq<Seq<char>>, from: int) -> int
    decreases bs.len() - from,
{
    if from >= bs.len() || from < 0 {
        bs.len() as int
    } else if !page_live(bs[from]) {
        from
    } else {
        first_dead_page(bs, from + 1)
    }
}

proof fn lemma_first_dead_page(bs: Seq<Seq<char>>, from: int, i: int)
    requires
        0 <= from <= i <= bs.len(),
        forall|k: int| from <= k < i ==> page_live(bs[k]),
        i == bs.len() || !page_live(bs[i]),
    ensures
        first_dead_page(bs, from) == i,
    decreases i - from,
{
    if from < i {
        lemma_first_dead_page(bs, from + 1, i);
    }
}

/// Every issue the first `k` listing pages hold, in site order.
pub open spec fn collected_issues(bs: Seq<Seq<char>>, k: int) -> Seq<IssueModel>
    decreases k,
{
    if k <= 0 {
        Seq::empty()
    } else {
        collected_issues(bs, k - 1) + issues_of_page(bs[k - 1])
    }
}

/// Walks a pre-fetched sequence of listing pages exactly as the paged walk
/// would: pages are visited in order until the first one that shows no
/// issue entry — the sentinel, never a fixed page count — and the gathered
/// issues come back reversed, oldest first, with unsafe and repeated names
/// dropped. The result holds how many pages were visited, the addresses
/// they were asked for under — `?page=1` up to `?page=k`, in increasing
/// order — and the finished list, `None` when the pages ran out before the
/// walk found its sentinel.
pub fn collect_listing(url: &str, bodies: &Vec<String>) -> (r: Result<
    (usize, Vec<String>, Option<Vec<Issue>>),
    SiteDownloaderError,
>)
    requires
        bodies@.len() < u32::MAX,
    ensures
        ({
            let bs = body_views(bodies@);
            let k = first_dead_page(bs, 0);
            match r {
                Err(e) => e == SiteDownloaderError::NotFound && bs.len() > 0 && chapter_links_of(
                    bs[0],
                ) is None,
                Ok(out) => {
                    &&& out.1@.len() == out.0
                    &&& forall|i: int|
                        0 <= i < out.1@.len() ==> out.1@[i]@ == page_link_spec(
                            url@,
                            (i + 1) as nat,
                        )
                    &&& if k < bs.len() {
                        &&& out.0 == k + 1
                        &&& out.2 matches Some(v) && issue_views(v@) == crate::model::well_named(
                            collected_issues(bs, k).reverse(),
                        )
                        &&& chapter_links_of(bs[0]) is Some
                    } else {
                        out.0 == bs.len() && out.2 is None
                    }
                },
            }
        }),
{
    let ghost bs = body_views(bodies@);
    let (st0, first_link) = begin_listing(url);
    let mut st = st0;
    let mut cur_link = first_link;
    let mut links: Vec<String> = Vec::new();
    let mut idx: usize = 0;
    proof {
        assert(issue_views(st.collected@) =~= collected_issues(bs, 0));
    }
    while idx < bodies.len()
        invariant
            bodies@.len() < u32::MAX,
            bs == body_views(bodies@),
            idx <= bodies@.len(),
            st.next_page == idx + 1,
            st.base@ == url@,
            cur_link@ == page_link_spec(url@, (idx + 1) as nat),
            links@.len() == idx,
            forall|i: int| 0 <= i < idx ==> links@[i]@ == page_link_spec(url@, (i + 1) as nat),
            forall|k: int| 0 <= k < idx ==> page_live(bs[k]),
            issue_views(st.collected@) == collected_issues(bs, idx as int),
        decreases bodies@.len() - idx,
    {
        proof {
            assert(bs[idx as int] == bodies@[idx as int]@);
        }
        links.push(cur_link.clone());
        match listing_step(st, bodies[idx].as_str()) {
            Err(e) => {
                return Err(e);
            },
            Ok(ListingStep::Continue(st2, next)) => {
                proof {
                    assert(collected_issues(bs, idx + 1) == collected_issues(bs, idx as int)
                        + issues_of_page(bs[idx as int]));
                }
                st = st2;
                cur_link = next;
                idx += 1;
            },
            Ok(ListingStep::Finished(issues)) => {
                proof {
                    lemma_first_dead_page(bs, 0, idx as int);
                }
                return Ok((idx + 1, links, Some(issues)));
            },
        }
    }
    proof {
        lemma_first_dead_page(bs, 0, bs.len() as int);
    }
    Ok((idx, links, None))
}

} // verus!
