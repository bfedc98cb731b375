use synaptrix::app_info::{AppInfo, ItemType};
use synaptrix::launch::{centered_coordinate, launch_action, launch_argv, next_selection, section_starts, LaunchAction};
use synaptrix::recent::recent_items;
use synaptrix::search::classify_query;

fn strings(v: &[&str]) -> Vec<String> {
    v.iter().map(|s| s.to_string()).collect()
}

#[test]
fn command_lines_split_into_program_and_arguments() {
    assert_eq!(
        launch_argv("firefox  --new-window\turl"),
        Some(("firefox".to_string(), strings(&["--new-window", "url"])))
    );
    assert_eq!(
        launch_argv("pkexec sh -c 'sudo reboot'"),
        Some(("pkexec".to_string(), strings(&["sh", "-c", "'sudo", "reboot'"])))
    );
    assert_eq!(launch_argv("   "), None);
}

#[test]
fn activation_opens_files_and_runs_commands() {
    let file = recent_items(&strings(&["/d/a.txt"])).remove(0);
    assert_eq!(launch_action(&file), LaunchAction::OpenFile("/d/a.txt".to_string()));
    let cmd = classify_query("ls").unwrap();
    assert_eq!(launch_action(&cmd), LaunchAction::Run("sh -c 'ls'".to_string()));
    let pathless = AppInfo {
        name: "x".to_string(),
        description: String::new(),
        exec_command: String::new(),
        icon: None,
        categories: Vec::new(),
        item_type: ItemType::RecentFile,
        file_path: None,
    };
    assert_eq!(launch_action(&pathless), LaunchAction::Nothing);
}

#[test]
fn groups_start_where_the_kind_changes() {
    let mut items = vec![classify_query("ls").unwrap()];
    items.extend(recent_items(&strings(&["/d/a", "/d/b"])));
    assert_eq!(section_starts(&items), vec![false, true, false]);
    assert!(section_starts(&Vec::new()).is_empty());
}

#[test]
fn arrow_keys_move_the_selection() {
    assert_eq!(next_selection(None, 3, true), Some(0));
    assert_eq!(next_selection(None, 0, true), None);
    assert_eq!(next_selection(None, 3, false), None);
    assert_eq!(next_selection(Some(1), 3, true), Some(2));
    assert_eq!(next_selection(Some(2), 3, true), Some(2));
    assert_eq!(next_selection(Some(2), 3, false), Some(1));
    assert_eq!(next_selection(Some(0), 3, false), Some(0));
}

#[test]
fn window_centered_on_area() {
    assert_eq!(centered_coordinate(0, 1920, 700), 610);
    assert_eq!(centered_coordinate(1920, 1280, 501), 2309);
    assert_eq!(centered_coordinate(0, 500, 701), -100);
}
