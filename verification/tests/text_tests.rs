use comic_dl::text::{
    base_name, contains_sub, page_file_name, parse_first_number, remove_all, second_line, str_eq,
    str_starts_with, trim_str,
};
use comic_dl::util::{is_elf, is_link};

#[test]
fn starts_with_basics() {
    assert!(str_starts_with("https://a.example/x", "https://"));
    assert!(!str_starts_with("http://a.example/x", "https://"));
    assert!(str_starts_with("abc", ""));
    assert!(!str_starts_with("ab", "abc"));
}

#[test]
fn str_eq_basics() {
    assert!(str_eq("abc", "abc"));
    assert!(!str_eq("abc", "abd"));
    assert!(!str_eq("abc", "ab"));
    assert!(str_eq("", ""));
}

#[test]
fn contains_basics() {
    assert!(contains_sub("one Issue #3 two", "Issue #"));
    assert!(!contains_sub("one issue #3 two", "Issue #"));
    assert!(contains_sub("abc", ""));
    assert!(!contains_sub("ab", "abc"));
}

#[test]
fn remove_all_removes_every_occurrence() {
    assert_eq!(remove_all("https://readcomic.me/comic/spawn", "https://readcomic.me/comic/"), "spawn");
    assert_eq!(remove_all("abcabc", "abc"), "");
    assert_eq!(remove_all("xabcy", "abc"), "xy");
    assert_eq!(remove_all("aaa", "aa"), "a");
    assert_eq!(remove_all("plain", "zz"), "plain");
}

#[test]
fn parse_first_number_finds_first_run() {
    assert_eq!(parse_first_number("There are 24 pages of 3"), Some(24));
    assert_eq!(parse_first_number("0042x7"), Some(42));
    assert_eq!(parse_first_number("no digits here"), None);
    assert_eq!(parse_first_number(""), None);
    assert_eq!(parse_first_number("4294967295"), Some(u32::MAX));
    assert_eq!(parse_first_number("4294967296"), None);
    assert_eq!(parse_first_number("99999999999999999999999999"), None);
}

#[test]
fn page_file_name_pads_to_four() {
    assert_eq!(page_file_name(1), "0001.jpg");
    assert_eq!(page_file_name(42), "0042.jpg");
    assert_eq!(page_file_name(999), "0999.jpg");
    assert_eq!(page_file_name(1000), "1000.jpg");
    assert_eq!(page_file_name(12345), "12345.jpg");
    assert_eq!(page_file_name(0), "0000.jpg");
}

#[test]
fn second_line_splits_like_lines() {
    assert_eq!(second_line("first\nsecond\nthird"), Some("second".to_string()));
    assert_eq!(second_line("first\nsecond"), Some("second".to_string()));
    assert_eq!(second_line("first\r\nsecond\r\nthird"), Some("second".to_string()));
    assert_eq!(second_line("only one line"), None);
    assert_eq!(second_line("ends with newline\n"), None);
    assert_eq!(second_line("a\n\nb"), Some("".to_string()));
}

#[test]
fn trim_strips_both_ends() {
    assert_eq!(trim_str("  Chapter 1 \n"), "Chapter 1");
    assert_eq!(trim_str("untouched"), "untouched");
    assert_eq!(trim_str(" \t\r\n "), "");
    assert_eq!(trim_str(""), "");
}

#[test]
fn base_name_takes_last_component() {
    assert_eq!(base_name("dir/sub/0001.jpg"), "0001.jpg");
    assert_eq!(base_name("0001.jpg"), "0001.jpg");
    assert_eq!(base_name("dir/"), "");
}

#[test]
fn elf_magic_is_recognized() {
    assert!(is_elf(&[0x7f, b'E', b'L', b'F']));
    assert!(!is_elf(&[0x7f, b'E', b'L', b'G']));
    assert!(!is_elf(&[0, 0, 0, 0]));
}

#[test]
fn links_need_an_http_scheme() {
    assert!(is_link(&"https://readcomic.me/comic/spawn".to_string()));
    assert!(is_link(&"http://readcomic.me/comic/spawn".to_string()));
    assert!(!is_link(&"ftp://readcomic.me".to_string()));
    assert!(!is_link(&"readcomic.me".to_string()));
}
