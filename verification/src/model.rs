//! Shared data model: issues, output formats, sites, and the error taxonomy.

use vstd::prelude::*;

verus! {

/// The errors the downloader can report.
#[derive(Debug, Clone, Copy, PartialEq, Eq, Structural)]
pub enum SiteDownloaderError {
    /// The URL or domain is not recognized, or the expected HTML structure is absent.
    ParsingError,
    /// The listing container is absent.
    NotFound,
    /// A directory or archive could not be created or removed.
    FileSystemError,
    /// An image could not be decoded when packaging to a paginated document.
    ImageError,
}

/// One downloadable unit of a comic: a chapter or issue, mapped to one output archive.
#[derive(Debug)]
pub struct Issue {
    /// Human-readable issue label, used as filename fragment and staging-directory name.
    pub name: String,
    /// Absolute URL or site-specific locator for the issue's page list.
    pub link: String,
}

/// The mathematical view of an [`Issue`]: its two strings as character sequences.
pub struct IssueModel {
    pub name: Seq<char>,
    pub link: Seq<char>,
}

impl View for Issue {
    type V = IssueModel;

    open spec fn view(&self) -> IssueModel {
        IssueModel { name: self.name@, link: self.link@ }
    }
}

impl Issue {
    /// An exact copy; written out because nothing is known of a derived `Clone`.
    pub fn duplicate(&self) -> (r: Issue)
        ensures
            r@ == self@,
    {
        Issue { name: self.name.clone(), link: self.link.clone() }
    }
}

/// The supported output containers for a packaged issue.
#[derive(Debug, Clone, Copy, PartialEq, Eq, Structural)]
pub enum OutputFormats {
    /// A paginated document, one page per image.
    Pdf,
    /// A zip-based comic book archive.
    Cbz,
}

impl OutputFormats {
    /// The file extension used for archives of this format.
    pub fn format_string(&self) -> (r: &'static str)
        ensures
            *self is Pdf ==> r@ == "pdf"@,
            *self is Cbz ==> r@ == "cbz"@,
    {
        match self {
            OutputFormats::Pdf => "pdf",
            OutputFormats::Cbz => "cbz",
        }
    }
}

/// One supported site, identified by its canonical domain. Selected once at
/// startup by matching the input URL's host against the registry.
#[derive(Debug, Clone, Copy, PartialEq, Eq, Structural)]
pub enum ComicSource {
    ReadcomicMe,
    ZerocalcareNet,
    ScanitaOrg,
}

/// The views of a sequence of issues.
pub open spec fn issue_views(s: Seq<Issue>) -> Seq<IssueModel> {
    s.map_values(|i: Issue| i.view())
}

/// A copy of the issues in the opposite order, as sites that list newest
/// first are turned oldest first.
pub fn reverse_issues(v: &Vec<Issue>) -> (r: Vec<Issue>)
    ensures
        issue_views(r@) == issue_views(v@).reverse(),
{
    let n = v.len();
    let mut out: Vec<Issue> = Vec::new();
    let mut i: usize = 0;
    while i < n
        invariant
            i <= n,
            n == v@.len(),
            out@.len() == i,
            forall|k: int| 0 <= k < i ==> out@[k]@ == v@[n - 1 - k]@,
        decreases n - i,
    {
        out.push(v[n - 1 - i].duplicate());
        i += 1;
    }
    proof {
        assert(issue_views(out@) =~= issue_views(v@).reverse());
    }
    out
}

/// A label safe to use as a file or directory name: nonempty, not a dot
/// entry, and free of path separators and the NUL character.
pub open spec fn fs_safe_name(n: Seq<char>) -> bool {
    &&& n.len() > 0
    &&& n != "."@
    &&& n != ".."@
    &&& forall|i: int| 0 <= i < n.len() ==> n[i] != '/' && n[i] != '\\' && n[i] != '\0'
}

/// Whether a label is safe to use as a file or directory name.
pub fn is_fs_safe(s: &str) -> (r: bool)
    ensures
        r == fs_safe_name(s@),
{
    let sl = s.unicode_len();
    if sl == 0 {
        return false;
    }
    if crate::text::str_eq(s, ".") || crate::text::str_eq(s, "..") {
        return false;
    }
    let mut i: usize = 0;
    while i < sl
        invariant
            i <= sl,
            sl == s@.len(),
            forall|k: int| 0 <= k < i ==> s@[k] != '/' && s@[k] != '\\' && s@[k] != '\0',
        decreases sl - i,
    {
        let c = s.get_char(i);
        if c == '/' || c == '\\' || c == '\0' {
            return false;
        }
        i += 1;
    }
    true
}

/// Some issue in `s` carries the name `n`.
pub open spec fn has_issue_name(s: Seq<IssueModel>, n: Seq<char>) -> bool {
    exists|j: int| 0 <= j < s.len() && s[j].name == n
}

/// The issue list with every unsafe label and every repeated name dropped,
/// keeping first occurrences in order: issue names double as staging
/// directories and archive-name fragments, so they must be filesystem-safe
/// and collision-free within one comic.
pub open spec fn well_named(s: Seq<IssueModel>) -> Seq<IssueModel>
    decreases s.len(),
{
    if s.len() == 0 {
        Seq::empty()
    } else {
        let rest = well_named(s.drop_last());
        let l = s.last();
        if fs_safe_name(l.name) && !has_issue_name(s.drop_last(), l.name) {
            rest.push(l)
        } else {
            rest
        }
    }
}

/// Every name the normalization keeps occurs in the input.
proof fn lemma_well_named_names_from(s: Seq<IssueModel>)
    ensures
        forall|i: int|
            0 <= i < well_named(s).len() ==> has_issue_name(s, well_named(s)[i].name),
    decreases s.len(),
{
    if s.len() > 0 {
        let pre = s.drop_last();
        lemma_well_named_names_from(pre);
        assert forall|i: int|
            0 <= i < well_named(s).len() implies has_issue_name(s, well_named(s)[i].name) by {
            if i < well_named(pre).len() {
                assert(well_named(s)[i] == well_named(pre)[i]);
                let j = choose|j: int| 0 <= j < pre.len() && pre[j].name == well_named(pre)[i].name;
                assert(s[j].name == well_named(s)[i].name);
            } else {
                assert(well_named(s)[i] == s.last());
                assert(s[s.len() - 1].name == well_named(s)[i].name);
            }
        }
    }
}

/// The issue-name invariant: every name a normalized issue list carries is
/// filesystem-safe, and no two issues of one comic share a name.
pub proof fn lemma_issue_names_invariant(s: Seq<IssueModel>)
    ensures
        forall|i: int| 0 <= i < well_named(s).len() ==> fs_safe_name(well_named(s)[i].name),
        forall|i: int, j: int|
            0 <= i < j < well_named(s).len() ==> well_named(s)[i].name != well_named(s)[j].name,
    decreases s.len(),
{
    if s.len() > 0 {
        let pre = s.drop_last();
        lemma_issue_names_invariant(pre);
        lemma_well_named_names_from(pre);
        let l = s.last();
        if fs_safe_name(l.name) && !has_issue_name(pre, l.name) {
            assert forall|i: int, j: int|
                0 <= i < j < well_named(s).len() implies well_named(s)[i].name != well_named(
                s,
            )[j].name by {
                if j < well_named(pre).len() {
                    assert(well_named(s)[i] == well_named(pre)[i]);
                    assert(well_named(s)[j] == well_named(pre)[j]);
                } else {
                    assert(well_named(s)[j] == l);
                    assert(well_named(s)[i] == well_named(pre)[i]);
                    if well_named(pre)[i].name == l.name {
                        assert(has_issue_name(pre, l.name));
                    }
                }
            }
        }
    }
}

/// Whether an earlier issue of the list carries the same name as issue `i`.
fn name_in_prefix(v: &Vec<Issue>, i: usize) -> (r: bool)
    requires
        i < v@.len(),
    ensures
        r == has_issue_name(issue_views(v@.subrange(0, i as int)), v@[i as int].name@),
{
    let mut j: usize = 0;
    while j < i
        invariant
            j <= i < v@.len(),
            forall|k: int| 0 <= k < j ==> v@[k].name@ != v@[i as int].name@,
        decreases i - j,
    {
        if crate::text::str_eq(v[j].name.as_str(), v[i].name.as_str()) {
            proof {
                assert(issue_views(v@.subrange(0, i as int))[j as int].name == v@[
                    j as int
                ].name@);
            }
            return true;
        }
        j += 1;
    }
    proof {
        assert forall|k: int|
            0 <= k < issue_views(v@.subrange(0, i as int)).len() implies issue_views(
            v@.subrange(0, i as int),
        )[k].name != v@[i as int].name@ by {
            assert(issue_views(v@.subrange(0, i as int))[k].name == v@[k].name@);
        }
    }
    false
}

/// Drops issues whose label cannot serve as a file name and later issues
/// that repeat an earlier name, keeping order: what remains satisfies the
/// issue-name invariant.
pub fn normalize_issue_list(v: &Vec<Issue>) -> (r: Vec<Issue>)
    ensures
        issue_views(r@) == well_named(issue_views(v@)),
{
    let mut out: Vec<Issue> = Vec::new();
    proof {
        assert(issue_views(v@.subrange(0, 0)) =~= Seq::<IssueModel>::empty());
        assert(issue_views(out@) =~= well_named(issue_views(v@.subrange(0, 0))));
    }
    let mut i: usize = 0;
    while i < v.len()
        invariant
            i <= v@.len(),
            issue_views(out@) == well_named(issue_views(v@.subrange(0, i as int))),
        decreases v@.len() - i,
    {
        let safe = is_fs_safe(v[i].name.as_str());
        let dup = name_in_prefix(v, i);
        proof {
            assert(issue_views(v@.subrange(0, i + 1)).drop_last() =~= issue_views(
                v@.subrange(0, i as int),
            ));
            assert(issue_views(v@.subrange(0, i + 1)).last() == v@[i as int]@);
        }
        if safe && !dup {
            out.push(v[i].duplicate());
        }
        proof {
            assert(issue_views(out@) =~= well_named(issue_views(v@.subrange(0, i + 1))));
        }
        i += 1;
    }
    proof {
        assert(v@.subrange(0, v@.len() as int) =~= v@);
    }
    out
}

/// Appends copies of `src`'s issues to `dst`, keeping order.
pub fn append_issues(dst: &mut Vec<Issue>, src: &Vec<Issue>)
    ensures
        issue_views(final(dst)@) == issue_views(old(dst)@) + issue_views(src@),
{
    let ghost base = dst@;
    let mut j: usize = 0;
    while j < src.len()
        invariant
            j <= src@.len(),
            dst@.len() == base.len() + j,
            forall|k: int| 0 <= k < base.len() ==> dst@[k] == base[k],
            forall|k: int| 0 <= k < j ==> dst@[base.len() + k]@ == src@[k]@,
        decreases src@.len() - j,
    {
        dst.push(src[j].duplicate());
        j += 1;
    }
    proof {
        assert(issue_views(dst@) =~= issue_views(base) + issue_views(src@));
    }
}

/// What each site knows how to do without touching the network: derive the
/// comic's name from the input locator, deterministically.
pub trait ComicDownloader {
    /// The name this site derives from a comic root locator, or `None` when
    /// the locator does not fit the site's URL shape.
    spec fn comic_name_spec(&self, url: Seq<char>) -> Option<Seq<char>>;

    /// Derives the comic's name, used as output-directory name and
    /// archive-filename fragment.
    fn get_comic_name(&self, url: &str) -> (r: Option<String>)
        ensures
            match r {
                Some(n) => self.comic_name_spec(url@) == Some(n@),
                None => self.comic_name_spec(url@) is None,
            },
    ;
}

} // verus!
