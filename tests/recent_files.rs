use synaptrix::app_info::{AppInfo, ItemType, XbelBookmark};
use synaptrix::paths::{get_file_icon, is_image_file, path_extension, recent_file_item};
use synaptrix::recent::{bookmark_items, merge_recent_files, order_recent_files, recent_items, sort_newest_first};
use synaptrix::xbel::parse_xbel;

fn paths(items: &[AppInfo]) -> Vec<String> {
    items.iter().map(|a| a.file_path.clone().unwrap()).collect()
}

fn strings(v: &[&str]) -> Vec<String> {
    v.iter().map(|s| s.to_string()).collect()
}

const LOG: &str = r#"<?xml version="1.0" encoding="UTF-8"?>
<xbel version="1.0">
  <bookmark href="file:///home/u/My%20Notes.txt" added="x">
    <info>
      <metadata owner="http://freedesktop.org">
        <mime:mime-type type="text/plain"/>
      </metadata>
    </info>
  </bookmark>
  </bookmark>
  <bookmark href="file:///home/u/report.pdf" added="y">
  </bookmark>
  <bookmark href="https://example.org/page">
  </bookmark>
</xbel>
"#;

#[test]
fn bookmark_log_is_read_in_document_order() {
    let bs = parse_xbel(LOG);
    assert_eq!(bs.len(), 2);
    assert_eq!(bs[0].file_path, "/home/u/My Notes.txt");
    assert_eq!(bs[0].mime_type, "text/plain");
    assert_eq!(bs[1].file_path, "/home/u/report.pdf");
    assert_eq!(bs[1].mime_type, "");
}

#[test]
fn bookmark_log_without_bookmarks_is_empty() {
    assert!(parse_xbel("").is_empty());
    assert!(parse_xbel("</bookmark>\n<mime:mime-type type=\"a/b\"/>\n").is_empty());
}

#[test]
fn missing_bookmarked_files_are_dropped() {
    let bs = parse_xbel(LOG);
    let items = bookmark_items(&bs, &vec![false, true]);
    assert_eq!(items.len(), 1);
    assert_eq!(items[0].name, "📄 report.pdf");
    assert_eq!(items[0].description, "Recent file: /home/u/report.pdf");
    assert_eq!(items[0].icon, Some("application-pdf".to_string()));
    assert_eq!(items[0].categories, vec!["Recent"]);
    assert_eq!(items[0].item_type, ItemType::RecentFile);
    assert_eq!(items[0].exec_command, "");
}

#[test]
fn file_items_and_icons() {
    let a = recent_file_item("/home/u/song.MP3").unwrap();
    assert_eq!(a.name, "📄 song.MP3");
    assert_eq!(a.icon, Some("text-x-generic".to_string()));
    assert_eq!(a.file_path, Some("/home/u/song.MP3".to_string()));
    assert_eq!(get_file_icon("/x/a.tar.gz"), Some("package-x-generic".to_string()));
    assert_eq!(get_file_icon("/x/photo.jpeg"), Some("image-x-generic".to_string()));
    assert_eq!(get_file_icon("/x/Makefile"), None);
    assert_eq!(get_file_icon("/x/.bashrc"), None);
    assert!(recent_file_item("/").is_none());
    assert_eq!(path_extension("/x/notes."), Some(String::new()));
}

#[test]
fn image_files_by_extension_in_any_case() {
    assert!(is_image_file("/p/Holiday.PNG"));
    assert!(is_image_file("/p/logo.svg"));
    assert!(!is_image_file("/p/readme.txt"));
    assert!(!is_image_file("/p/png"));
}

#[test]
fn bookmarked_file_found_by_scan_is_listed_once() {
    let bm = recent_items(&strings(&["/d/a.txt"]));
    let merged = merge_recent_files(bm, &strings(&["/d/b.txt", "/d/a.txt", "/d/c.txt"]), 10);
    assert_eq!(paths(&merged), strings(&["/d/a.txt", "/d/b.txt", "/d/c.txt"]));
    let ordered = order_recent_files(merged, &vec![Some(5), Some(9), None], 10);
    assert_eq!(paths(&ordered), strings(&["/d/b.txt", "/d/a.txt", "/d/c.txt"]));
    assert_eq!(ordered.iter().filter(|a| a.file_path.as_deref() == Some("/d/a.txt")).count(), 1);
}

#[test]
fn directory_files_fill_only_the_free_slots() {
    let bm = recent_items(&strings(&["/d/a.txt", "/d/b.txt"]));
    let merged = merge_recent_files(bm, &strings(&["/d/c.txt", "/d/b.txt", "/d/e.txt", "/d/f.txt"]), 4);
    assert_eq!(paths(&merged), strings(&["/d/a.txt", "/d/b.txt", "/d/c.txt", "/d/e.txt"]));
    let bm = recent_items(&strings(&["/d/a.txt", "/d/b.txt", "/d/c.txt"]));
    let merged = merge_recent_files(bm, &strings(&["/d/e.txt"]), 2);
    assert_eq!(merged.len(), 3);
}

#[test]
fn recent_files_are_capped_and_newest_first() {
    let items = recent_items(&strings(&["/d/a", "/d/b", "/d/c", "/d/d"]));
    let ordered = order_recent_files(items, &vec![Some(1), None, Some(7), Some(7)], 3);
    assert_eq!(paths(&ordered), strings(&["/d/c", "/d/d", "/d/a"]));
    let none = order_recent_files(recent_items(&strings(&["/d/a"])), &vec![Some(1)], 0);
    assert!(none.is_empty());
}

#[test]
fn scanned_files_sorted_newest_first_stably() {
    let sorted = sort_newest_first(&strings(&["a", "b", "c", "d"]), &vec![3, 10, 3, 1]);
    assert_eq!(sorted, strings(&["b", "a", "c", "d"]));
    let bookmark = XbelBookmark { file_path: "/x".to_string(), mime_type: String::new() };
    assert_eq!(bookmark_items(&vec![bookmark], &vec![true]).len(), 1);
}

#[test]
fn later_mime_line_replaces_earlier() {
    let log = "<bookmark href=\"file:///a/x.txt\">\n<mime:mime-type type=\"text/plain\"/>\n<mime:mime-type type=\"text/x-log\"/>\n</bookmark>\n";
    let bs = parse_xbel(log);
    assert_eq!(bs.len(), 1);
    assert_eq!(bs[0].mime_type, "text/x-log");
}

#[test]
fn file_scanned_twice_is_listed_once() {
    let merged = merge_recent_files(Vec::new(), &strings(&["/d/a.txt", "/d/b.txt", "/d/a.txt", "/d/b.txt"]), 10);
    assert_eq!(paths(&merged), strings(&["/d/a.txt", "/d/b.txt"]));
    let bm = recent_items(&strings(&["/d/b.txt"]));
    let merged = merge_recent_files(bm, &strings(&["/d/a.txt", "/d/a.txt", "/d/c.txt"]), 3);
    assert_eq!(paths(&merged), strings(&["/d/b.txt", "/d/a.txt", "/d/c.txt"]));
}
