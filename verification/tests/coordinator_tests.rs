use comic_dl::coordinator::ComicUrl;
use comic_dl::model::{ComicSource, Issue, OutputFormats, SiteDownloaderError};
use comic_dl::pool::WorkerPool;
use comic_dl::processor::{IssueAction, IssueEvent, IssuePhase, issue_start, issue_step};
use comic_dl::urls::{identify_website, print_supported_websites};

fn issues(names: &[&str]) -> Vec<Issue> {
    names
        .iter()
        .map(|n| Issue { name: n.to_string(), link: format!("https://site.example/{n}") })
        .collect()
}

fn names(v: &[Issue]) -> Vec<String> {
    v.iter().map(|i| i.name.clone()).collect()
}

fn sliced(all: &[&str], skip_first: usize, skip_last: usize) -> Vec<String> {
    let mut comic = ComicUrl::new("https://readcomic.me/comic/x").unwrap();
    comic.change_skip_first(skip_first);
    comic.change_skip_lasts(skip_last);
    names(&comic.get_issues_list(&issues(all)))
}

#[test]
fn slicing_is_identity_without_skips() {
    assert_eq!(sliced(&["1", "2", "3"], 0, 0), ["1", "2", "3"]);
}

#[test]
fn slicing_takes_the_middle() {
    // skip-first s and skip-last l keep indices s..total-l: max(0, total-s-l) issues
    assert_eq!(sliced(&["1", "2", "3", "4", "5"], 1, 2), ["2", "3"]);
    assert_eq!(sliced(&["1", "2", "3", "4", "5"], 0, 4), ["1"]);
    assert_eq!(sliced(&["1", "2", "3", "4", "5"], 4, 0), ["5"]);
}

#[test]
fn slicing_overshoot_is_empty_not_an_error() {
    assert!(sliced(&["1", "2", "3"], 3, 0).is_empty());
    assert!(sliced(&["1", "2", "3"], 5, 0).is_empty());
    assert!(sliced(&["1", "2", "3"], 2, 1).is_empty());
    assert!(sliced(&["1", "2", "3"], 2, 2).is_empty());
    assert!(sliced(&[], 0, 0).is_empty());
}

#[test]
fn website_registry_matches_exact_hosts() {
    assert_eq!(identify_website("https://readcomic.me/comic/x"), Ok(ComicSource::ReadcomicMe));
    assert_eq!(
        identify_website("https://www.zerocalcare.net/storie-a-fumetti/x/"),
        Ok(ComicSource::ZerocalcareNet)
    );
    assert_eq!(identify_website("https://scanita.org/manga/x"), Ok(ComicSource::ScanitaOrg));
    assert_eq!(
        identify_website("https://unknown.example/comic/x"),
        Err(SiteDownloaderError::ParsingError)
    );
    assert_eq!(identify_website("not a url"), Err(SiteDownloaderError::ParsingError));
    // subdomains are not the registered host
    assert_eq!(
        identify_website("https://www.readcomic.me/comic/x"),
        Err(SiteDownloaderError::ParsingError)
    );
}

#[test]
fn new_job_resolves_site_and_name() {
    let comic = ComicUrl::new("https://readcomic.me/comic/spawn").unwrap();
    assert_eq!(comic.site, ComicSource::ReadcomicMe);
    assert_eq!(comic.comic_name, "spawn");
    assert_eq!(comic.download_path, "spawn");
    assert_eq!(comic.format, OutputFormats::Cbz);
    assert_eq!(comic.skip_first, 0);
    assert_eq!(comic.skip_last, 0);

    let comic = ComicUrl::new("https://www.zerocalcare.net/storie-a-fumetti/la-storia/").unwrap();
    assert_eq!(comic.site, ComicSource::ZerocalcareNet);
    assert_eq!(comic.comic_name, "la-storia");

    assert_eq!(
        ComicUrl::new("https://www.zerocalcare.net/storie-a-fumetti/no-slash").unwrap_err(),
        SiteDownloaderError::ParsingError
    );
    assert_eq!(
        ComicUrl::new("https://unknown.example/x").unwrap_err(),
        SiteDownloaderError::ParsingError
    );
}

#[test]
fn job_knobs_change_only_their_field() {
    let mut comic = ComicUrl::new("https://scanita.org/manga/berserk").unwrap();
    comic.change_path("out/dir");
    assert_eq!(comic.download_path, "out/dir");
    assert_eq!(comic.comic_name, "berserk");
    comic.change_format(OutputFormats::Pdf);
    assert!(matches!(comic.format, OutputFormats::Pdf));
    comic.change_skip_first(2);
    comic.change_skip_lasts(3);
    assert_eq!(comic.skip_first, 2);
    assert_eq!(comic.skip_last, 3);
    assert_eq!(comic.download_path, "out/dir");
}

#[test]
fn supported_websites_are_printable() {
    let listing = print_supported_websites();
    assert!(listing.contains("readcomic.me"));
    assert!(listing.contains("zerocalcare.net"));
    assert!(listing.contains("scanita.org"));
}

#[test]
fn processor_happy_path() {
    let (phase, action) = issue_start();
    assert_eq!(action, IssueAction::CheckOutput);
    let (phase, action) = issue_step(phase, IssueEvent::OutputChecked(false));
    assert_eq!(action, IssueAction::CreateStaging);
    let (phase, action) = issue_step(phase, IssueEvent::StagingMade(true));
    assert_eq!(action, IssueAction::FetchPages);
    let (phase, action) = issue_step(phase, IssueEvent::PagesFetched);
    assert_eq!(action, IssueAction::Package);
    let (phase, action) = issue_step(phase, IssueEvent::PackagingDone);
    assert_eq!(action, IssueAction::CleanStaging);
    let (phase, action) = issue_step(phase, IssueEvent::Cleaned(true));
    assert_eq!(phase, IssuePhase::Done);
    assert_eq!(action, IssueAction::Stop);
}

#[test]
fn processor_entry_guard_short_circuits() {
    // an existing archive is the sole completion marker: no staging, no fetch
    let (phase, _) = issue_start();
    let (phase, action) = issue_step(phase, IssueEvent::OutputChecked(true));
    assert_eq!(phase, IssuePhase::AlreadyComplete);
    assert_eq!(action, IssueAction::Stop);
    // whatever is fed afterwards, the machine never asks for work again
    let (phase, action) = issue_step(phase, IssueEvent::PagesFetched);
    assert_eq!(phase, IssuePhase::AlreadyComplete);
    assert_eq!(action, IssueAction::Stop);
}

#[test]
fn processor_failures_are_terminal_and_keep_staging() {
    let (phase, _) = issue_start();
    let (phase, _) = issue_step(phase, IssueEvent::OutputChecked(false));
    let (phase, action) = issue_step(phase, IssueEvent::StagingMade(false));
    assert_eq!(phase, IssuePhase::Failed(SiteDownloaderError::FileSystemError));
    assert_eq!(action, IssueAction::Stop);

    let (phase, _) = issue_start();
    let (phase, _) = issue_step(phase, IssueEvent::OutputChecked(false));
    let (phase, _) = issue_step(phase, IssueEvent::StagingMade(true));
    let (phase, _) = issue_step(phase, IssueEvent::PagesFetched);
    let (phase, action) =
        issue_step(phase, IssueEvent::PackagingFailed(SiteDownloaderError::FileSystemError));
    assert_eq!(phase, IssuePhase::Failed(SiteDownloaderError::FileSystemError));
    assert_eq!(action, IssueAction::Stop);
}

#[test]
fn processor_keeps_the_packagers_error() {
    // a paginated-document failure surfaces as the packager reported it,
    // not as a generic filesystem fault
    let (phase, _) = issue_start();
    let (phase, _) = issue_step(phase, IssueEvent::OutputChecked(false));
    let (phase, _) = issue_step(phase, IssueEvent::StagingMade(true));
    let (phase, _) = issue_step(phase, IssueEvent::PagesFetched);
    let (phase, action) =
        issue_step(phase, IssueEvent::PackagingFailed(SiteDownloaderError::ImageError));
    assert_eq!(phase, IssuePhase::Failed(SiteDownloaderError::ImageError));
    assert_eq!(action, IssueAction::Stop);
}

#[test]
fn pool_never_exceeds_its_limit() {
    // 5 issues through 2 slots: admissions wait for completions
    let mut pool = WorkerPool::new(2);
    let mut highest = 0;
    let mut admitted = 0;
    let mut completed = 0;
    while completed < 5 {
        if admitted < 5 && pool.has_free_slot() {
            pool.begin_issue();
            admitted += 1;
        } else {
            pool.finish_issue();
            completed += 1;
        }
        assert!(pool.in_flight <= 2);
        highest = highest.max(pool.in_flight);
    }
    assert_eq!(highest, 2);
    assert_eq!(pool.in_flight, 0);
}
