//! The scanita.org strategy.
//!
//! The site lists a comic's chapters behind a "show more" control whose
//! `data-path` attribute points at the full chapter list; chapters come
//! newest first. A reader exposes no page count, so page images are probed
//! one page at a time until the site answers with a redirect or the page
//! container disappears, with a fixed cap as a safety valve.

use vstd::prelude::*;
use crate::model::{ComicDownloader, Issue, IssueModel, SiteDownloaderError, issue_views};
use crate::text::{remove_occurrences, second_line_of, trimmed};

verus! {

/// The URL prefix that scanita.org puts before a comic's name.
pub open spec fn comic_prefix() -> Seq<char> {
    "https://scanita.org/manga/"@
}

/// The most pages the probe will ask for before giving up: the safety valve
/// that keeps a site that never answers "not found" from an endless walk.
pub const MAX_PROBE_PAGES: u32 = 9999;

/// The `data-path` attribute of the listing page's "show more chapters"
/// control, or `None` when the control is absent. A function of the
/// document text alone.
pub uninterp spec fn more_chapter_path_of(html: Seq<char>) -> Option<Seq<char>>;

/// Relies on scraper's `Html::parse_document` and `Selector` matching: the
/// `data-path` attribute of the first `[data-show-more='#more-chapter']`
/// element.
#[verifier::external_body]
fn extract_more_chapter_path(html: &str) -> (r: Option<String>)
    ensures
        match r {
            Some(p) => more_chapter_path_of(html@) == Some(p@),
            None => more_chapter_path_of(html@) is None,
        },
{
    let doc = scraper::Html::parse_document(html);
    let sel = scraper::Selector::parse("[data-show-more='#more-chapter']").unwrap();
    doc.select(&sel)
        .next()
        .and_then(|e| e.attr("data-path"))
        .map(|p| p.to_string())
}

/// A chapter entry scraped from the chapter list: one anchor's `href` and
/// the text of its `h5` heading, if it has one.
pub struct ChapterEntry {
    pub href: String,
    pub heading: Option<String>,
}

/// The view of a [`ChapterEntry`].
pub struct ChapterEntryModel {
    pub href: Seq<char>,
    pub heading: Option<Seq<char>>,
}

impl View for ChapterEntry {
    type V = ChapterEntryModel;

    open spec fn view(&self) -> ChapterEntryModel {
        ChapterEntryModel {
            href: self.href@,
            heading: match self.heading {
                Some(h) => Some(h@),
                None => None,
            },
        }
    }
}

/// The views of a sequence of chapter entries.
pub open spec fn entry_views(entries: Seq<ChapterEntry>) -> Seq<ChapterEntryModel> {
    entries.map_values(|e: ChapterEntry| e.view())
}

/// The `a[href]` anchors of the chapter list document, each with its `href`
/// and the concatenated text of its first `h5` heading. A function of the
/// document text alone.
pub uninterp spec fn chapter_entries_of(html: Seq<char>) -> Seq<ChapterEntryModel>;

/// Relies on scraper's `Html::parse_document` and `Selector` matching: every
/// `a[href]` anchor, its `href`, and its first `h5` heading's text nodes
/// concatenated.
#[verifier::external_body]
fn extract_chapter_entries(html: &str) -> (r: Vec<ChapterEntry>)
    ensures
        chapter_entries_of(html@) == entry_views(r@),
{
    let doc = scraper::Html::parse_document(html);
    let a_sel = scraper::Selector::parse("a[href]").unwrap();
    let h5_sel = scraper::Selector::parse("h5").unwrap();
    doc.select(&a_sel)
        .map(|a| ChapterEntry {
            href: a.attr("href").unwrap_or("").to_string(),
            heading: a.select(&h5_sel).next().map(|h| h.text().collect::<Vec<_>>().concat()),
        })
        .collect()
}

/// The `src` of the image inside a reader page's `.book-page` container, or
/// `None` when the container or its image is absent, which ends the issue.
/// A function of the document text alone.
pub uninterp spec fn book_page_img_of(html: Seq<char>) -> Option<Seq<char>>;

/// Relies on scraper's `Html::parse_document` and `Selector` matching: the
/// `src` attribute of the first `img` inside the first `.book-page` element.
#[verifier::external_body]
fn extract_book_page_img(html: &str) -> (r: Option<String>)
    ensures
        match r {
            Some(u) => book_page_img_of(html@) == Some(u@),
            None => book_page_img_of(html@) is None,
        },
{
    let doc = scraper::Html::parse_document(html);
    let page_sel = scraper::Selector::parse(".book-page").unwrap();
    let img_sel = scraper::Selector::parse("img").unwrap();
    doc.select(&page_sel)
        .next()
        .and_then(|d| d.select(&img_sel).next())
        .and_then(|img| img.attr("src"))
        .map(|s| s.to_string())
}

/// Finds the address of the full chapter list on a comic's landing page:
/// the site's base URL joined to the "show more" control's `data-path`.
/// `NotFound` exactly when the control is absent.
pub fn find_chapters_path(body: &str, base_url: &str) -> (r: Result<String, SiteDownloaderError>)
    ensures
        match r {
            Ok(link) => more_chapter_path_of(body@) matches Some(p) && link@ == base_url@ + p,
            Err(e) => e == SiteDownloaderError::NotFound && more_chapter_path_of(body@) is None,
        },
{
    match extract_more_chapter_path(body) {
        Some(path) => Ok(String::from_str(base_url).concat(path.as_str())),
        None => Err(SiteDownloaderError::NotFound),
    }
}

/// The issues the chapter entries parse to, in the site's own order. The
/// issue's label is the trimmed second line of the `h5` heading's text, its
/// locator the base URL joined to the anchor's `href`; an anchor without a
/// heading or with a heading of fewer than two lines is malformed and
/// skipped.
pub open spec fn issues_of_entries(entries: Seq<ChapterEntryModel>, base: Seq<char>) -> Seq<
    IssueModel,
>
    decreases entries.len(),
{
    if entries.len() == 0 {
        Seq::empty()
    } else {
        let rest = issues_of_entries(entries.drop_last(), base);
        let e = entries.last();
        match e.heading {
            Some(text) => match second_line_of(text) {
                Some(line) => rest.push(
                    IssueModel { name: trimmed(line), link: base + e.href },
                ),
                None => rest,
            },
            None => rest,
        }
    }
}

/// Parses the fetched chapter list into the comic's issues, oldest first:
/// the site lists newest first, so the parsed list is reversed, and unsafe
/// or repeated labels are dropped so the names can serve as staging
/// directories and archive-name fragments.
pub fn get_issues_list(body: &str, base_url: &str) -> (r: Vec<Issue>)
    ensures
        issue_views(r@) == crate::model::well_named(
            issues_of_entries(chapter_entries_of(body@), base_url@).reverse(),
        ),
{
    let entries = extract_chapter_entries(body);
    let mut out: Vec<Issue> = Vec::new();
    proof {
        assert(entry_views(entries@.subrange(0, 0)) =~= Seq::<ChapterEntryModel>::empty());
        assert(issue_views(out@) =~= issues_of_entries(
            entry_views(entries@.subrange(0, 0)),
            base_url@,
        ));
    }
    let mut i: usize = 0;
    while i < entries.len()
        invariant
            i <= entries@.len(),
            issue_views(out@) == issues_of_entries(
                entry_views(entries@.subrange(0, i as int)),
                base_url@,
            ),
        decreases entries@.len() - i,
    {
        let e = &entries[i];
        proof {
            assert(entry_views(entries@.subrange(0, i + 1)).drop_last() =~= entry_views(
                entries@.subrange(0, i as int),
            ));
            assert(entry_views(entries@.subrange(0, i + 1)).last() == entries@[i as int]@);
        }
        match &e.heading {
            Some(text) => {
                match crate::text::second_line(text.as_str()) {
                    Some(line) => {
                        let name = crate::text::trim_str(line.as_str());
                        let link = String::from_str(base_url).concat(e.href.as_str());
                        out.push(Issue { name, link });
                    },
                    None => {},
                }
            },
            None => {},
        }
        proof {
            assert(issue_views(out@) =~= issues_of_entries(
                entry_views(entries@.subrange(0, i + 1)),
                base_url@,
            ));
        }
        i += 1;
    }
    proof {
        assert(entries@.subrange(0, entries@.len() as int) =~= entries@);
    }
    crate::model::normalize_issue_list(&crate::model::reverse_issues(&out))
}

/// The address of one numbered page of an issue's reader.
pub open spec fn probe_page_link_spec(link: Seq<char>, n: nat) -> Seq<char> {
    link + "/"@ + crate::text::dec_rep(n)
}

/// Builds the address of page `n` of an issue's reader.
pub fn probe_page_link(link: &str, n: u32) -> (r: String)
    ensures
        r@ == probe_page_link_spec(link@, n as nat),
{
    let r = String::from_str(link).concat("/").concat(crate::text::u32_to_string(n).as_str());
    proof {
        assert(r@ =~= probe_page_link_spec(link@, n as nat));
    }
    r
}

/// What one probe step decides: fetch the page's image and go on, or stop.
pub enum ProbeOutcome {
    /// This page exists: its image URL, and the number of the page to probe
    /// next.
    Page(String, u32),
    /// The issue has no page `n`: a redirect answered, the page container
    /// was gone, or the safety cap was reached.
    End,
}

/// One step of the page probe for page `n`. `body` is the fetched reader
/// page, or `None` when the site answered with a redirect, its end-of-issue
/// signal. The probe stops at the first miss and never walks past the cap.
pub fn probe_step(n: u32, body: Option<&String>) -> (r: ProbeOutcome)
    requires
        1 <= n <= MAX_PROBE_PAGES,
    ensures
        match r {
            ProbeOutcome::Page(img, next) => {
                &&& body matches Some(b) && book_page_img_of(b@) == Some(img@)
                &&& next == n + 1
                &&& n < MAX_PROBE_PAGES
            },
            ProbeOutcome::End => match body {
                Some(b) => book_page_img_of(b@) is None || n == MAX_PROBE_PAGES,
                None => true,
            },
        },
{
    if n == MAX_PROBE_PAGES {
        return ProbeOutcome::End;
    }
    match body {
        Some(b) => match extract_book_page_img(b.as_str()) {
            Some(img) => ProbeOutcome::Page(img, n + 1),
            None => ProbeOutcome::End,
        },
        None => ProbeOutcome::End,
    }
}

/// The comic's name: the locator with the site's fixed prefix stripped.
pub open spec fn comic_name_of(url: Seq<char>) -> Seq<char> {
    remove_occurrences(url, comic_prefix())
}

/// The strategy for scanita.org.
#[derive(Debug, Clone, Copy, PartialEq, Eq, Structural)]
pub struct ScanitaOrgStrategy;

impl ComicDownloader for ScanitaOrgStrategy {
    open spec fn comic_name_spec(&self, url: Seq<char>) -> Option<Seq<char>> {
        Some(comic_name_of(url))
    }

    fn get_comic_name(&self, url: &str) -> (r: Option<String>) {
        Some(crate::text::remove_all(url, "https://scanita.org/manga/"))
    }
}

} // verus!
