//! The download coordinator: one comic's job, the per-issue processing
//! state machine, and the bounded pool that admits issues to workers.

use vstd::prelude::*;
use crate::archive::{
    ArchiveFile, PageFile, archive_name_spec, archive_file_name, distinct_names, names_fit,
    package_cbz_bare, stripped_entry_views, zip_entries,
};
use crate::model::{
    ComicDownloader, ComicSource, Issue, IssueModel, OutputFormats, SiteDownloaderError,
    issue_views,
};
use crate::urls::{domain_of, identify_website, site_for_domain};

verus! {

/// The comic name each site derives from the locator, or `None` when the
/// locator does not fit the site's URL shape.
pub open spec fn source_comic_name(site: ComicSource, url: Seq<char>) -> Option<Seq<char>> {
    match site {
        ComicSource::ReadcomicMe => Some(crate::readcomic::comic_name_of(url)),
        ComicSource::ScanitaOrg => Some(crate::scanita::comic_name_of(url)),
        ComicSource::ZerocalcareNet => crate::zerocalcare::comic_name_of(url),
    }
}

/// One comic's download job: the resolved site, the derived comic name, and
/// the knobs a caller may turn before the run. Read-only during execution.
#[derive(Debug)]
pub struct ComicUrl {
    /// The comic's listing URL, as given.
    pub url: String,
    /// Where archives are written; the comic's name unless changed.
    pub download_path: String,
    /// The comic's name, derived once from the URL.
    pub comic_name: String,
    /// The output container for each issue.
    pub format: OutputFormats,
    /// The site strategy resolved from the URL's host.
    pub site: ComicSource,
    /// How many leading issues to skip.
    pub skip_first: usize,
    /// How many trailing issues to skip.
    pub skip_last: usize,
}

impl ComicUrl {
    /// Resolves a comic URL: matches its host against the registry and
    /// derives the comic's name. `ParsingError` exactly when the host is
    /// not registered or the locator does not fit the site's URL shape.
    pub fn new(url: &str) -> (r: Result<ComicUrl, SiteDownloaderError>)
        ensures
            match r {
                Ok(c) => {
                    &&& site_for_domain(domain_of(url@)) == Some(c.site)
                    &&& c.url@ == url@
                    &&& source_comic_name(c.site, url@) == Some(c.comic_name@)
                    &&& c.download_path@ == c.comic_name@
                    &&& c.format is Cbz
                    &&& c.skip_first == 0
                    &&& c.skip_last == 0
                },
                Err(e) => {
                    &&& e == SiteDownloaderError::ParsingError
                    &&& (match site_for_domain(domain_of(url@)) {
                        Some(site) => source_comic_name(site, url@) is None,
                        None => true,
                    })
                },
            },
    {
        let site = match identify_website(url) {
            Ok(site) => site,
            Err(e) => {
                return Err(e);
            },
        };
        let name = match site {
            ComicSource::ReadcomicMe => (crate::readcomic::ReadcomicMeStrategy).get_comic_name(
                url,
            ),
            ComicSource::ScanitaOrg => (crate::scanita::ScanitaOrgStrategy).get_comic_name(url),
            ComicSource::ZerocalcareNet => (crate::zerocalcare::ZerocalcareNetStrategy)
                .get_comic_name(url),
        };
        match name {
            Some(comic_name) => {
                let download_path = comic_name.clone();
                Ok(
                    ComicUrl {
                        url: url.to_owned(),
                        download_path,
                        comic_name,
                        format: OutputFormats::Cbz,
                        site,
                        skip_first: 0,
                        skip_last: 0,
                    },
                )
            },
            None => Err(SiteDownloaderError::ParsingError),
        }
    }

    /// Points the job at another output directory. The caller is responsible
    /// for checking that the directory exists before switching to it.
    pub fn change_path(&mut self, new_path: &str)
        ensures
            final(self).download_path@ == new_path@,
            final(self).url == old(self).url,
            final(self).comic_name == old(self).comic_name,
            final(self).format == old(self).format,
            final(self).site == old(self).site,
            final(self).skip_first == old(self).skip_first,
            final(self).skip_last == old(self).skip_last,
    {
        self.download_path = new_path.to_owned();
    }

    /// Switches the output format.
    pub fn change_format(&mut self, new_format: OutputFormats)
        ensures
            final(self).format == new_format,
            final(self).url == old(self).url,
            final(self).comic_name == old(self).comic_name,
            final(self).download_path == old(self).download_path,
            final(self).site == old(self).site,
            final(self).skip_first == old(self).skip_first,
            final(self).skip_last == old(self).skip_last,
    {
        self.format = new_format;
    }

    /// Sets how many leading issues to skip.
    pub fn change_skip_first(&mut self, skip: usize)
        ensures
            final(self).skip_first == skip,
            final(self).url == old(self).url,
            final(self).comic_name == old(self).comic_name,
            final(self).download_path == old(self).download_path,
            final(self).format == old(self).format,
            final(self).site == old(self).site,
            final(self).skip_last == old(self).skip_last,
    {
        self.skip_first = skip;
    }

    /// Sets how many trailing issues to skip.
    pub fn change_skip_lasts(&mut self, skip: usize)
        ensures
            final(self).skip_last == skip,
            final(self).url == old(self).url,
            final(self).comic_name == old(self).comic_name,
            final(self).download_path == old(self).download_path,
            final(self).format == old(self).format,
            final(self).site == old(self).site,
            final(self).skip_first == old(self).skip_first,
    {
        self.skip_last = skip;
    }

    /// Applies the job's skip counts to the full issue list: exactly the
    /// issues from index `skip_first` up to `total - skip_last` remain, so
    /// `max(0, total - skip_first - skip_last)` issues come back; skipping
    /// more than there is yields an empty list, never an error.
    pub fn get_issues_list(&self, all_issues: &Vec<Issue>) -> (r: Vec<Issue>)
        ensures
            self.skip_first + self.skip_last <= all_issues@.len() ==> issue_views(r@)
                == issue_views(all_issues@).subrange(
                self.skip_first as int,
                all_issues@.len() - self.skip_last,
            ),
            self.skip_first + self.skip_last > all_issues@.len() ==> issue_views(r@)
                == Seq::<IssueModel>::empty(),
            r@.len() == if self.skip_first + self.skip_last <= all_issues@.len() {
                all_issues@.len() - self.skip_first - self.skip_last
            } else {
                0
            },
    {
        let total = all_issues.len();
        let start = if self.skip_first < total {
            self.skip_first
        } else {
            total
        };
        let end = if self.skip_last < total {
            total - self.skip_last
        } else {
            0
        };
        let mut out: Vec<Issue> = Vec::new();
        if start >= end {
            proof {
                assert(issue_views(out@) =~= Seq::<IssueModel>::empty());
                if self.skip_first + self.skip_last <= all_issues@.len() {
                    assert(issue_views(out@) =~= issue_views(all_issues@).subrange(
                        self.skip_first as int,
                        all_issues@.len() - self.skip_last,
                    ));
                }
            }
            return out;
        }
        let mut k = start;
        while k < end
            invariant
                start <= k <= end <= total,
                total == all_issues@.len(),
                out@.len() == k - start,
                forall|j: int| 0 <= j < out@.len() ==> out@[j]@ == all_issues@[start + j]@,
            decreases end - k,
        {
            out.push(all_issues[k].duplicate());
            k += 1;
        }
        proof {
            assert(issue_views(out@) =~= issue_views(all_issues@).subrange(
                start as int,
                end as int,
            ));
        }
        out
    }

    /// Packages one issue's staged page files into the final archive, named
    /// `<comic>-<issue>.<ext>`, each staged file one entry under its bare
    /// file name. An archive is owed whenever the bare names are pairwise
    /// distinct and fit the container, as an issue's numbered page files
    /// are. The paginated-document format needs image decoding this
    /// library does not verify, so asking for it fails with `ImageError`
    /// and nothing is written.
    pub fn create_volume(&self, issue: &Issue, files: &Vec<PageFile>) -> (r: Result<
        ArchiveFile,
        SiteDownloaderError,
    >)
        ensures
            self.format is Pdf ==> (r matches Err(e) && e == SiteDownloaderError::ImageError),
            (self.format is Cbz && distinct_names(stripped_entry_views(files@)) && names_fit(
                stripped_entry_views(files@),
            )) ==> r is Ok,
            match r {
                Ok(out) => {
                    &&& self.format is Cbz
                    &&& out.name@ == archive_name_spec(self.comic_name@, issue.name@, self.format)
                    &&& zip_entries(out.bytes@) == stripped_entry_views(files@)
                },
                Err(e) => if self.format is Pdf {
                    e == SiteDownloaderError::ImageError
                } else {
                    e == SiteDownloaderError::FileSystemError
                },
            },
    {
        match self.format {
            OutputFormats::Pdf => Err(SiteDownloaderError::ImageError),
            OutputFormats::Cbz => {
                let name = archive_file_name(
                    self.comic_name.as_str(),
                    issue.name.as_str(),
                    self.format,
                );
                match package_cbz_bare(files) {
                    Ok(bytes) => Ok(ArchiveFile { name, bytes }),
                    Err(e) => Err(e),
                }
            },
        }
    }
}

} // verus!
