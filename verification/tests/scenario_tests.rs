use std::collections::HashMap;

use comic_dl::archive::PageFile;
use comic_dl::coordinator::ComicUrl;
use comic_dl::model::Issue;
use comic_dl::pool::WorkerPool;
use comic_dl::processor::{IssueAction, IssueEvent, IssuePhase, issue_start, issue_step};

/// Drives one issue through the processing machine against an in-memory
/// "disk" of archives, counting how many network fetches it performs.
/// Mirrors what a worker does: every decision comes from the machine, the
/// driver only performs the named action.
fn run_issue(
    comic: &ComicUrl,
    issue: &Issue,
    disk: &mut HashMap<String, Vec<u8>>,
    fetches: &mut usize,
) -> IssuePhase {
    let (mut phase, mut action) = issue_start();
    let mut staged: Vec<PageFile> = Vec::new();
    loop {
        let event = match action {
            IssueAction::CheckOutput => {
                let name = format!("{}-{}.cbz", comic.comic_name, issue.name);
                IssueEvent::OutputChecked(disk.contains_key(&name))
            },
            IssueAction::CreateStaging => IssueEvent::StagingMade(true),
            IssueAction::FetchPages => {
                // one simulated network fetch per page of the issue
                for page in 1..=2u32 {
                    *fetches += 1;
                    staged.push(PageFile {
                        name: comic_dl::text::page_file_name(page),
                        bytes: vec![page as u8, issue.name.as_bytes()[0]],
                    });
                }
                IssueEvent::PagesFetched
            },
            IssueAction::Package => match comic.create_volume(issue, &staged) {
                Ok(archive) => {
                    disk.insert(archive.name, archive.bytes);
                    IssueEvent::PackagingDone
                },
                Err(e) => IssueEvent::PackagingFailed(e),
            },
            IssueAction::CleanStaging => {
                staged.clear();
                IssueEvent::Cleaned(true)
            },
            IssueAction::Stop => return phase,
        };
        let next = issue_step(phase, event);
        phase = next.0;
        action = next.1;
    }
}

#[test]
fn one_existing_archive_is_left_alone() {
    // comic "x" has 3 issues 001,002,003; issue 002's archive already
    // exists; with two worker slots, 001 and 003 fetch and produce
    // archives, 002 performs zero fetches and stays unchanged, and the
    // output directory ends with exactly 3 archives
    let comic = ComicUrl::new("https://readcomic.me/comic/x").unwrap();
    let issues: Vec<Issue> = ["001", "002", "003"]
        .iter()
        .map(|n| Issue { name: n.to_string(), link: format!("https://readcomic.me/x/{n}") })
        .collect();

    let mut disk: HashMap<String, Vec<u8>> = HashMap::new();
    let preexisting = vec![0xAA, 0xBB];
    disk.insert("x-002.cbz".to_string(), preexisting.clone());

    let mut pool = WorkerPool::new(2);
    let mut fetches_per_issue = Vec::new();
    let mut peak_in_flight = 0;
    for issue in &issues {
        if !pool.has_free_slot() {
            pool.finish_issue();
        }
        pool.begin_issue();
        peak_in_flight = peak_in_flight.max(pool.in_flight);
        let mut fetches = 0;
        let phase = run_issue(&comic, issue, &mut disk, &mut fetches);
        fetches_per_issue.push(fetches);
        if issue.name == "002" {
            assert_eq!(phase, IssuePhase::AlreadyComplete);
        } else {
            assert_eq!(phase, IssuePhase::Done);
        }
    }
    while pool.in_flight > 0 {
        pool.finish_issue();
    }

    assert!(peak_in_flight <= 2);
    assert!(fetches_per_issue[0] > 0);
    assert_eq!(fetches_per_issue[1], 0);
    assert!(fetches_per_issue[2] > 0);
    assert_eq!(disk.len(), 3);
    assert_eq!(disk.get("x-002.cbz"), Some(&preexisting));
    assert!(disk.contains_key("x-001.cbz"));
    assert!(disk.contains_key("x-003.cbz"));
}

#[test]
fn second_run_fetches_nothing() {
    // idempotence: a rerun with no input changes detects every archive and
    // performs zero network calls
    let comic = ComicUrl::new("https://readcomic.me/comic/x").unwrap();
    let issues: Vec<Issue> = ["001", "002"]
        .iter()
        .map(|n| Issue { name: n.to_string(), link: format!("https://readcomic.me/x/{n}") })
        .collect();

    let mut disk: HashMap<String, Vec<u8>> = HashMap::new();
    let mut first_run_fetches = 0;
    for issue in &issues {
        run_issue(&comic, issue, &mut disk, &mut first_run_fetches);
    }
    assert!(first_run_fetches > 0);
    let after_first: Vec<Vec<u8>> = {
        let mut names: Vec<&String> = disk.keys().collect();
        names.sort();
        names.iter().map(|n| disk[*n].clone()).collect()
    };

    let mut second_run_fetches = 0;
    for issue in &issues {
        let phase = run_issue(&comic, issue, &mut disk, &mut second_run_fetches);
        assert_eq!(phase, IssuePhase::AlreadyComplete);
    }
    assert_eq!(second_run_fetches, 0);

    let after_second: Vec<Vec<u8>> = {
        let mut names: Vec<&String> = disk.keys().collect();
        names.sort();
        names.iter().map(|n| disk[*n].clone()).collect()
    };
    assert_eq!(disk.len(), 2);
    assert_eq!(after_first, after_second);
}
