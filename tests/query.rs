use synaptrix::app_info::{AppInfo, ItemType};
use synaptrix::catalog::Catalog;
use synaptrix::recent::recent_items;
use synaptrix::search::{app_matches_query, classify_query, file_matches_query, rank_results};
use synaptrix::text::contains_text;

fn app(name: &str, exec: &str, description: &str, categories: &[&str]) -> AppInfo {
    AppInfo {
        name: name.to_string(),
        description: description.to_string(),
        exec_command: exec.to_string(),
        icon: None,
        categories: categories.iter().map(|c| c.to_string()).collect(),
        item_type: ItemType::Application,
        file_path: None,
    }
}

fn catalog(apps: Vec<AppInfo>) -> Catalog {
    let mut c = Catalog::new();
    for a in apps {
        c.insert(a);
    }
    c
}

fn names(items: &[AppInfo]) -> Vec<String> {
    items.iter().map(|a| a.name.clone()).collect()
}

#[test]
fn command_queries_synthesize_a_shell_item() {
    let ls = classify_query("ls -la").unwrap();
    assert_eq!(ls.exec_command, "sh -c 'ls -la'");
    assert_eq!(ls.name, "💻 Run: ls -la");
    assert_eq!(ls.description, "Execute command in terminal");
    assert_eq!(ls.icon, Some("utilities-terminal".to_string()));
    assert_eq!(ls.categories, vec!["Command"]);
    assert_eq!(ls.item_type, ItemType::Command);
    let sudo = classify_query("sudo reboot").unwrap();
    assert_eq!(sudo.exec_command, "pkexec sh -c 'sudo reboot'");
    assert!(classify_query("firefox").is_none());
    assert!(classify_query("").is_none());
}

#[test]
fn leading_slash_and_dot_slash_are_stripped() {
    assert_eq!(classify_query("/usr/bin/top").unwrap().exec_command, "sh -c 'usr/bin/top'");
    assert_eq!(classify_query("./run.sh").unwrap().exec_command, "sh -c 'run.sh'");
    assert_eq!(classify_query("/sudo x").unwrap().exec_command, "pkexec sh -c 'sudo x'");
    assert_eq!(classify_query("gitk").unwrap().name, "💻 Run: gitk");
    assert!(classify_query("fil").is_none());
}

#[test]
fn empty_query_lists_apps_then_recent_files() {
    let c = catalog(vec![app("Zoo", "zoo", "", &[]), app("Alpha", "alpha", "", &[])]);
    let recent = recent_items(&vec!["/d/new.txt".to_string(), "/d/old.txt".to_string()]);
    let r = rank_results(&c, &recent, "", 10, true);
    assert_eq!(names(&r), vec!["Alpha", "Zoo", "📄 new.txt", "📄 old.txt"]);
    let r = rank_results(&c, &recent, "", 3, true);
    assert_eq!(names(&r), vec!["Alpha", "Zoo", "📄 new.txt"]);
    let r = rank_results(&c, &recent, "", 10, false);
    assert_eq!(names(&r), vec!["Alpha", "Zoo"]);
}

#[test]
fn results_hold_the_query() {
    let c = catalog(vec![
        app("Firefox", "firefox", "Web Browser", &["Network"]),
        app("Files", "nautilus", "Access files", &["Utility"]),
        app("Calculator", "calc", "Math", &["Office"]),
        app("Mail", "thunderbird", "Read mail", &["NETWORK"]),
    ]);
    let recent = recent_items(&vec!["/d/network.pdf".to_string(), "/d/other.txt".to_string()]);
    let r = rank_results(&c, &recent, "network", 10, true);
    assert_eq!(names(&r), vec!["Firefox", "Mail", "📄 network.pdf"]);
    for item in &r {
        assert!(
            item.name.to_lowercase().contains("network")
                || item.description.to_lowercase().contains("network")
                || item.categories.iter().any(|c| c.to_lowercase().contains("network"))
        );
    }
    let r = rank_results(&c, &recent, "utility", 10, true);
    assert_eq!(names(&r), vec!["Files"]);
    assert!(app_matches_query(&c.get(0).clone(), "math"));
    assert!(!file_matches_query(&recent[1], "network"));
}

#[test]
fn command_item_comes_first_and_counts_toward_the_cap() {
    let c = catalog(vec![app("Git Cola", "git-cola", "", &[]), app("Gitg", "gitg", "", &[])]);
    let r = rank_results(&c, &Vec::new(), "git", 2, true);
    assert_eq!(names(&r), vec!["💻 Run: git", "Git Cola"]);
    assert_eq!(r[0].item_type, ItemType::Command);
}

#[test]
fn files_app_found_without_command_item() {
    let c = catalog(vec![app("Files", "nautilus", "", &[])]);
    let recent = recent_items(&vec!["/d/file.txt".to_string()]);
    let r = rank_results(&c, &recent, "fil", 50, false);
    assert_eq!(r.len(), 1);
    assert_eq!(r[0].name, "Files");
    assert_eq!(r[0].exec_command, "nautilus");
}

#[test]
fn newest_recent_file_alone_under_cap_of_one() {
    let recent = recent_items(&vec!["/d/A.txt".to_string(), "/d/B.txt".to_string()]);
    let r = rank_results(&Catalog::new(), &recent, "", 1, true);
    assert_eq!(r.len(), 1);
    assert_eq!(r[0].file_path, Some("/d/A.txt".to_string()));
}

#[test]
fn substring_search() {
    assert!(contains_text("launcher", "unch"));
    assert!(contains_text("abc", ""));
    assert!(!contains_text("abc", "abcd"));
}
