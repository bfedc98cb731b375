use synaptrix::settings::{expand_tilde, BehaviorSettings, RecentFilesSettings, WindowSettings};
use synaptrix::thumbnail::{hex_string, thumbnail_file_name};

#[test]
fn test_expand_tilde() {
    let home = Some("/home/testuser");
    assert_eq!(expand_tilde("~/Documents", home).unwrap(), "/home/testuser/Documents");
    assert_eq!(expand_tilde("/absolute/path", home).unwrap(), "/absolute/path");
}

#[test]
fn tilde_forms() {
    assert_eq!(expand_tilde("~", Some("/h")), Some("/h".to_string()));
    assert_eq!(expand_tilde("~bob/x", Some("/h")), Some("~bob/x".to_string()));
    assert_eq!(expand_tilde("~/x", None), None);
    assert_eq!(expand_tilde("/x", None), Some("/x".to_string()));
    assert_eq!(expand_tilde("~/a~b", Some("/h")), Some("/h/a~b".to_string()));
}

#[test]
fn test_path_expansion() {
    let mut recent = RecentFilesSettings::default();
    assert!(recent.expand_paths(Some("/home/testuser")));
    assert_eq!(recent.xbel_path, "/home/testuser/.local/share/recently-used.xbel");
    assert!(recent.directories.contains(&"/home/testuser/Documents".to_string()));
}

#[test]
fn expansion_without_home_leaves_paths() {
    let mut recent = RecentFilesSettings::default();
    assert!(!recent.expand_paths(None));
    assert_eq!(recent.xbel_path, "~/.local/share/recently-used.xbel");
    let mut recent = RecentFilesSettings::default();
    recent.xbel_path = "/abs/log.xbel".to_string();
    assert!(!recent.expand_paths(None));
    assert_eq!(recent.xbel_path, "/abs/log.xbel");
    assert_eq!(recent.directories[0], "~/Documents");
}

#[test]
fn test_default_settings() {
    let window = WindowSettings::default();
    let behavior = BehaviorSettings::default();
    let recent = RecentFilesSettings::default();
    assert_eq!(window.width, 700);
    assert_eq!(behavior.max_results, 50);
    assert!(recent.enabled);
    assert_eq!(behavior.quit_on_close, false);
    assert_eq!(recent.max_files, 200);
}

#[test]
fn thumbnail_name_is_md5_hex() {
    assert_eq!(
        thumbnail_file_name("/home/user/Pictures/cat.png"),
        "86489427f63d679ed89f107589618964.png"
    );
    assert_eq!(hex_string(&vec![0, 15, 16, 255]), "000f10ff");
}
