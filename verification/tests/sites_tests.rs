use comic_dl::model::{ComicDownloader, SiteDownloaderError};
use comic_dl::readcomic::{
    self, ListingStep, ReadcomicMeStrategy, begin_listing, collect_listing, listing_step,
    locate_page_image, page_has_issues, page_link, parse_total_pages,
};
use comic_dl::scanita::{
    ProbeOutcome, ScanitaOrgStrategy, find_chapters_path, probe_page_link, probe_step,
    MAX_PROBE_PAGES,
};
use comic_dl::zerocalcare::{self, ZerocalcareNetStrategy, find_page_urls};

fn listing_page(entries: &[(&str, &str)]) -> String {
    let mut body = String::from("<html><body><div id=\"nt_listchapter\">");
    for (name, href) in entries {
        body.push_str(&format!("<a href=\"{href}\">\nIssue #{name}\n</a>"));
    }
    body.push_str("</div></body></html>");
    body
}

#[test]
fn readcomic_comic_name_strips_prefix() {
    let s = ReadcomicMeStrategy;
    assert_eq!(s.get_comic_name("https://readcomic.me/comic/spawn"), Some("spawn".to_string()));
}

#[test]
fn readcomic_live_page_detection() {
    assert!(page_has_issues(&listing_page(&[("3", "https://readcomic.me/spawn/3")])));
    // container present but no issue links: the pagination sentinel
    assert!(!page_has_issues(&listing_page(&[])));
    // container absent entirely
    assert!(!page_has_issues("<html><body><p>gone</p></body></html>"));
}

#[test]
fn readcomic_page_link_shape() {
    assert_eq!(page_link("https://readcomic.me/comic/spawn", 3), "https://readcomic.me/comic/spawn?page=3");
}

#[test]
fn readcomic_listing_walk_parses_and_reverses() {
    let (st, first) = begin_listing("https://readcomic.me/comic/spawn");
    assert_eq!(first, "https://readcomic.me/comic/spawn?page=1");
    let page1 = listing_page(&[("3", "https://readcomic.me/spawn/3"), ("2", "https://readcomic.me/spawn/2")]);
    let st = match listing_step(st, &page1).unwrap() {
        ListingStep::Continue(st, link) => {
            assert_eq!(link, "https://readcomic.me/comic/spawn?page=2");
            st
        },
        ListingStep::Finished(_) => panic!("walk stopped on a live page"),
    };
    let page2 = listing_page(&[("1", "https://readcomic.me/spawn/1")]);
    let st = match listing_step(st, &page2).unwrap() {
        ListingStep::Continue(st, _) => st,
        ListingStep::Finished(_) => panic!("walk stopped on a live page"),
    };
    let dead = listing_page(&[]);
    match listing_step(st, &dead).unwrap() {
        ListingStep::Continue(..) => panic!("walk went past the sentinel"),
        ListingStep::Finished(issues) => {
            let names: Vec<&str> = issues.iter().map(|i| i.name.as_str()).collect();
            assert_eq!(names, ["1", "2", "3"]);
            assert_eq!(issues[0].link, "https://readcomic.me/spawn/1");
        },
    }
}

#[test]
fn readcomic_listing_drops_unsafe_and_repeated_names() {
    // issue names become staging directories and archive-name fragments,
    // so a label with a path separator and a repeated label are dropped
    let (st, _) = begin_listing("https://readcomic.me/comic/x");
    let page = listing_page(&[("2", "l2-again"), ("2", "l2"), ("a/b", "lbad"), ("1", "l1")]);
    let st = match listing_step(st, &page).unwrap() {
        ListingStep::Continue(st, _) => st,
        ListingStep::Finished(_) => panic!("walk stopped on a live page"),
    };
    match listing_step(st, &listing_page(&[])).unwrap() {
        ListingStep::Continue(..) => panic!("walk went past the sentinel"),
        ListingStep::Finished(issues) => {
            let got: Vec<(&str, &str)> =
                issues.iter().map(|i| (i.name.as_str(), i.link.as_str())).collect();
            // reversed to oldest first; the duplicate "2" keeps its first
            // (oldest) occurrence, the slashed label is gone
            assert_eq!(got, [("1", "l1"), ("2", "l2")]);
        },
    }
}

#[test]
fn readcomic_listing_not_found_on_first_page() {
    let (st, _) = begin_listing("https://readcomic.me/comic/spawn");
    let err = listing_step(st, "<html><body>nothing here</body></html>").unwrap_err();
    assert_eq!(err, SiteDownloaderError::NotFound);
}

#[test]
fn readcomic_fake_source_walked_exactly_to_first_dead_page() {
    // a fake listing source with decreasing issue counts, reaching zero on
    // page 3: the walk must visit exactly 3 pages and reverse the order
    let bodies = vec![
        listing_page(&[("5", "l5"), ("4", "l4")]),
        listing_page(&[("3", "l3")]),
        listing_page(&[]),
        listing_page(&[("9", "l9")]), // never reached
    ];
    let (visited, links, issues) = collect_listing("https://readcomic.me/comic/x", &bodies).unwrap();
    assert_eq!(visited, 3);
    assert_eq!(
        links,
        [
            "https://readcomic.me/comic/x?page=1",
            "https://readcomic.me/comic/x?page=2",
            "https://readcomic.me/comic/x?page=3",
        ]
    );
    let issues = issues.expect("the walk found its sentinel");
    let names: Vec<&str> = issues.iter().map(|i| i.name.as_str()).collect();
    assert_eq!(names, ["3", "4", "5"]);
}

#[test]
fn readcomic_fake_source_without_sentinel_reports_incomplete() {
    let bodies = vec![listing_page(&[("1", "l1")])];
    let (visited, links, issues) = collect_listing("https://readcomic.me/comic/x", &bodies).unwrap();
    assert_eq!(visited, 1);
    assert_eq!(links, ["https://readcomic.me/comic/x?page=1"]);
    assert!(issues.is_none());
}

#[test]
fn readcomic_total_pages_and_page_image() {
    let reader = "<html><span class=\"total-pages\">of 24</span><img class=\"single-page\" src=\"https://cdn.example/p.jpg\"></html>";
    assert_eq!(parse_total_pages(reader), Ok(24));
    assert_eq!(locate_page_image(reader), Ok("https://cdn.example/p.jpg".to_string()));
    assert_eq!(parse_total_pages("<html></html>"), Err(SiteDownloaderError::ParsingError));
    assert_eq!(locate_page_image("<html></html>"), Err(SiteDownloaderError::ParsingError));
    assert_eq!(
        parse_total_pages("<html><span class=\"total-pages\">none</span></html>"),
        Err(SiteDownloaderError::ParsingError)
    );
}

#[test]
fn scanita_comic_name_strips_prefix() {
    let s = ScanitaOrgStrategy;
    assert_eq!(s.get_comic_name("https://scanita.org/manga/berserk"), Some("berserk".to_string()));
}

#[test]
fn scanita_chapter_list_discovery() {
    let landing = "<html><button data-show-more=\"#more-chapter\" data-path=\"/manga/berserk/all\">more</button></html>";
    assert_eq!(
        find_chapters_path(landing, "https://scanita.org"),
        Ok("https://scanita.org/manga/berserk/all".to_string())
    );
    assert_eq!(
        find_chapters_path("<html>no control</html>", "https://scanita.org"),
        Err(SiteDownloaderError::NotFound)
    );
}

#[test]
fn scanita_chapters_parse_and_reverse() {
    let chapters = "<html>\
        <a href=\"/read/2\"><h5>Chapter\n Chapter 2 \n</h5></a>\
        <a href=\"/read/1\"><h5>Chapter\n Chapter 1 \n</h5></a>\
        <a href=\"/elsewhere\">no heading</a>\
        </html>";
    let issues = comic_dl::scanita::get_issues_list(chapters, "https://scanita.org");
    let names: Vec<&str> = issues.iter().map(|i| i.name.as_str()).collect();
    assert_eq!(names, ["Chapter 1", "Chapter 2"]);
    assert_eq!(issues[0].link, "https://scanita.org/read/1");
}

#[test]
fn scanita_chapters_drop_unsafe_names() {
    let chapters = "<html>\
        <a href=\"/read/2\"><h5>Chapter\n ../escape \n</h5></a>\
        <a href=\"/read/1\"><h5>Chapter\n Chapter 1 \n</h5></a>\
        </html>";
    let issues = comic_dl::scanita::get_issues_list(chapters, "https://scanita.org");
    let names: Vec<&str> = issues.iter().map(|i| i.name.as_str()).collect();
    assert_eq!(names, ["Chapter 1"]);
}

#[test]
fn scanita_probe_stops_at_first_miss() {
    let live = "<html><div class=\"book-page\"><img src=\"https://cdn.example/7.jpg\"></div></html>".to_string();
    match probe_step(1, Some(&live)) {
        ProbeOutcome::Page(img, next) => {
            assert_eq!(img, "https://cdn.example/7.jpg");
            assert_eq!(next, 2);
        },
        ProbeOutcome::End => panic!("live page ended the probe"),
    }
    assert!(matches!(probe_step(2, Some(&"<html>gone</html>".to_string())), ProbeOutcome::End));
    assert!(matches!(probe_step(2, None), ProbeOutcome::End));
    assert!(matches!(probe_step(MAX_PROBE_PAGES, Some(&live)), ProbeOutcome::End));
}

#[test]
fn scanita_probe_link_shape() {
    assert_eq!(probe_page_link("https://scanita.org/read/1", 4), "https://scanita.org/read/1/4");
}

#[test]
fn zerocalcare_comic_name_needs_trailing_slash() {
    let s = ZerocalcareNetStrategy;
    assert_eq!(
        s.get_comic_name("https://www.zerocalcare.net/storie-a-fumetti/ogni-maledetto-lunedi/"),
        Some("ogni-maledetto-lunedi".to_string())
    );
    assert_eq!(s.get_comic_name("https://www.zerocalcare.net/storie-a-fumetti/senza-slash"), None);
}

#[test]
fn zerocalcare_single_issue_listing() {
    let issues = zerocalcare::get_issues_list("https://www.zerocalcare.net/storie-a-fumetti/la-storia/").unwrap();
    assert_eq!(issues.len(), 1);
    assert_eq!(issues[0].name, "la-storia");
    assert_eq!(issues[0].link, "https://www.zerocalcare.net/storie-a-fumetti/la-storia/");
    assert_eq!(
        zerocalcare::get_issues_list("https://www.zerocalcare.net/storie-a-fumetti/no-slash").unwrap_err(),
        SiteDownloaderError::ParsingError
    );
    // a derived name with a path separator cannot serve as a file name
    assert_eq!(
        zerocalcare::get_issues_list("https://www.zerocalcare.net/storie-a-fumetti/a/b/")
            .unwrap_err(),
        SiteDownloaderError::ParsingError
    );
}

#[test]
fn zerocalcare_scan_dedups_and_sorts() {
    let body = "noise\n\
        <img src=\"https://www.zerocalcare.net/wp-content/uploads/2020/01/2-800.jpg\">\n\
        more noise https://www.zerocalcare.net/wp-content/uploads/2020/01/10-800.jpg\n\
        <img src=\"https://www.zerocalcare.net/wp-content/uploads/2020/01/2-800.jpg\">\n\
        https://www.zerocalcare.net/wp-content/uploads/2020/01/1-800.jpg tail";
    let pages = find_page_urls(body);
    let got: Vec<(u32, &str)> = pages.iter().map(|p| (p.page, p.url.as_str())).collect();
    assert_eq!(
        got,
        [
            (1, "https://www.zerocalcare.net/wp-content/uploads/2020/01/1-800.jpg"),
            (2, "https://www.zerocalcare.net/wp-content/uploads/2020/01/2-800.jpg"),
            (10, "https://www.zerocalcare.net/wp-content/uploads/2020/01/10-800.jpg"),
        ]
    );
}

#[test]
fn zerocalcare_scan_rejects_near_misses() {
    let body = "https://www.zerocalcare.net/wp-content/uploads/20x0/01/1-800.jpg \
        https://www.zerocalcare.net/wp-content/uploads/2020/01/1-800.png \
        https://www.zerocalcare.net/wp-content/uploads/2020/01/800.jpg";
    assert!(find_page_urls(body).is_empty());
}

#[test]
fn readcomic_issue_page_link_shape() {
    assert_eq!(readcomic::issue_page_link("https://readcomic.me/spawn/3", 2), "https://readcomic.me/spawn/3/2");
}
