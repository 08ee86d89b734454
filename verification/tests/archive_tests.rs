use std::io::Read;

use comic_dl::archive::{ArchiveFile, PageFile, archive_file_name, package_cbz, package_cbz_bare};
use comic_dl::model::{Issue, OutputFormats, SiteDownloaderError};
use comic_dl::coordinator::ComicUrl;

fn staged(n: usize) -> Vec<PageFile> {
    (1..=n)
        .map(|k| PageFile {
            name: format!("{k:04}.jpg"),
            bytes: vec![k as u8, 0xff, (k * 7) as u8, b'%'],
        })
        .collect()
}

fn read_back(bytes: &[u8]) -> Vec<(String, Vec<u8>)> {
    let cursor = std::io::Cursor::new(bytes.to_vec());
    let mut archive = zip::ZipArchive::new(cursor).expect("output is a readable zip");
    let mut entries = Vec::new();
    for idx in 0..archive.len() {
        let mut entry = archive.by_index(idx).unwrap();
        let mut data = Vec::new();
        entry.read_to_end(&mut data).unwrap();
        entries.push((entry.name().to_string(), data));
    }
    entries
}

#[test]
fn archive_round_trip_keeps_every_byte() {
    // packaging N staged pages yields an archive with exactly N entries,
    // each byte-identical to its source, under its bare name
    let files = staged(5);
    let bytes = package_cbz(&files).unwrap();
    let entries = read_back(&bytes);
    assert_eq!(entries.len(), 5);
    for (k, (name, data)) in entries.iter().enumerate() {
        assert_eq!(name, &files[k].name);
        assert_eq!(data, &files[k].bytes);
        assert!(!name.contains('/'));
    }
}

#[test]
fn packaging_strips_directory_prefixes() {
    let files = vec![
        PageFile { name: "staging/spawn/0001.jpg".to_string(), bytes: vec![1, 2, 3] },
        PageFile { name: "staging/spawn/0002.jpg".to_string(), bytes: vec![4, 5, 6] },
    ];
    let bytes = package_cbz_bare(&files).unwrap();
    let entries = read_back(&bytes);
    assert_eq!(entries.len(), 2);
    assert_eq!(entries[0].0, "0001.jpg");
    assert_eq!(entries[1].0, "0002.jpg");
    assert_eq!(entries[0].1, vec![1, 2, 3]);
}

#[test]
fn packaging_refuses_duplicate_entry_names() {
    let files = vec![
        PageFile { name: "0001.jpg".to_string(), bytes: vec![1] },
        PageFile { name: "0001.jpg".to_string(), bytes: vec![2] },
    ];
    assert_eq!(package_cbz(&files).unwrap_err(), SiteDownloaderError::FileSystemError);
    // distinct paths whose bare names collide fail the bare packager too
    let files = vec![
        PageFile { name: "a/0001.jpg".to_string(), bytes: vec![1] },
        PageFile { name: "b/0001.jpg".to_string(), bytes: vec![2] },
    ];
    assert_eq!(package_cbz_bare(&files).unwrap_err(), SiteDownloaderError::FileSystemError);
}

#[test]
fn archive_names_follow_the_layout() {
    assert_eq!(archive_file_name("spawn", "12", OutputFormats::Cbz), "spawn-12.cbz");
    assert_eq!(archive_file_name("spawn", "12", OutputFormats::Pdf), "spawn-12.pdf");
}

#[test]
fn create_volume_packages_under_the_archive_name() {
    let mut comic = ComicUrl::new("https://readcomic.me/comic/spawn").unwrap();
    comic.change_skip_first(0);
    let issue = Issue { name: "3".to_string(), link: "https://readcomic.me/spawn/3".to_string() };
    let files = staged(2);
    let ArchiveFile { name, bytes } = comic.create_volume(&issue, &files).unwrap();
    assert_eq!(name, "spawn-3.cbz");
    assert_eq!(read_back(&bytes).len(), 2);
}

#[test]
fn paginated_documents_are_refused() {
    let mut comic = ComicUrl::new("https://readcomic.me/comic/spawn").unwrap();
    comic.change_format(OutputFormats::Pdf);
    let issue = Issue { name: "3".to_string(), link: "x".to_string() };
    assert_eq!(
        comic.create_volume(&issue, &staged(1)).unwrap_err(),
        SiteDownloaderError::ImageError
    );
}

#[test]
fn format_strings_name_the_extension() {
    assert_eq!(OutputFormats::Cbz.format_string(), "cbz");
    assert_eq!(OutputFormats::Pdf.format_string(), "pdf");
}
