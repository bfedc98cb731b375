use synaptrix::app_info::ItemType;
use synaptrix::catalog::{build_catalog, Catalog};
use synaptrix::entry::{clean_exec_line, parse_desktop_entry, EntryError};

fn entry(name: &str, exec: &str) -> String {
    format!("[Desktop Entry]\nName={}\nExec={}\nType=Application\n", name, exec)
}

#[test]
fn parses_a_plain_entry() {
    let content = "[Desktop Entry]\nName=Files\nComment=Browse files\nExec=nautilus --new-window %U\nIcon=org.gnome.Nautilus\nCategories=GNOME;Utility;;Core;\n";
    let app = parse_desktop_entry(content).unwrap();
    assert_eq!(app.name, "Files");
    assert_eq!(app.description, "Browse files");
    assert_eq!(app.exec_command, "nautilus --new-window");
    assert_eq!(app.icon, Some("org.gnome.Nautilus".to_string()));
    assert_eq!(app.categories, vec!["GNOME", "Utility", "Core"]);
    assert_eq!(app.item_type, ItemType::Application);
    assert_eq!(app.file_path, None);
}

#[test]
fn first_name_and_comment_win_last_exec_wins() {
    let content = "Name=Editor\nName[de]=Bearbeiter\nName=Other\nComment=First\nComment=Second\nExec=first\nExec=second --flag\nIcon=one\nIcon=two\n";
    let app = parse_desktop_entry(content).unwrap();
    assert_eq!(app.name, "Editor");
    assert_eq!(app.description, "First");
    assert_eq!(app.exec_command, "second --flag");
    assert_eq!(app.icon, Some("one".to_string()));
}

#[test]
fn lines_are_trimmed_and_crlf_accepted() {
    let content = "  Name=Term  \r\n\tExec=xterm   -e  %f  \r\n";
    let app = parse_desktop_entry(content).unwrap();
    assert_eq!(app.name, "Term");
    assert_eq!(app.exec_command, "xterm -e");
}

#[test]
fn field_codes_are_removed_from_exec() {
    let content = "Name=Viewer\nExec=%k viewer %f --open %U %%\n";
    let app = parse_desktop_entry(content).unwrap();
    assert_eq!(app.exec_command, "viewer --open");
    for token in app.exec_command.split_whitespace() {
        assert!(!token.starts_with('%'));
    }
    assert_eq!(clean_exec_line(&"a  %u b%c".chars().collect()), "a b%c".chars().collect::<Vec<char>>());
}

#[test]
fn entry_without_name_is_rejected() {
    assert_eq!(parse_desktop_entry("Exec=foo\n").unwrap_err(), EntryError::MissingName);
    assert_eq!(parse_desktop_entry("Name=\nExec=foo\n").unwrap_err(), EntryError::MissingName);
}

#[test]
fn entry_without_exec_is_rejected() {
    assert_eq!(parse_desktop_entry("Name=Foo\n").unwrap_err(), EntryError::MissingExec);
    assert_eq!(parse_desktop_entry("").unwrap_err(), EntryError::MissingName);
}

#[test]
fn hidden_and_no_display_entries_are_rejected() {
    assert_eq!(
        parse_desktop_entry("Name=Foo\nExec=foo\nNoDisplay=true\n").unwrap_err(),
        EntryError::Hidden
    );
    assert_eq!(
        parse_desktop_entry("Name=Foo\nExec=foo\nHidden=true\n").unwrap_err(),
        EntryError::Hidden
    );
    assert!(parse_desktop_entry("Name=Foo\nExec=foo\nNoDisplay=false\n").is_ok());
}

#[test]
fn later_directory_entry_replaces_earlier() {
    let contents = vec![
        entry("Files", "nautilus-system"),
        entry("Browser", "firefox"),
        entry("Files", "nautilus-user"),
    ];
    let catalog = build_catalog(&contents);
    assert_eq!(catalog.len(), 2);
    let mut files = Vec::new();
    for i in 0..catalog.len() {
        if catalog.get(i).name == "Files" {
            files.push(catalog.get(i).exec_command.clone());
        }
    }
    assert_eq!(files, vec!["nautilus-user".to_string()]);
}

#[test]
fn catalog_keeps_names_sorted_and_skips_rejected() {
    let contents = vec![
        entry("Zed", "zed"),
        "Name=Hidden\nExec=x\nHidden=true\n".to_string(),
        entry("Alpha", "alpha"),
        entry("Mid", "mid"),
    ];
    let catalog = build_catalog(&contents);
    let names: Vec<String> = (0..catalog.len()).map(|i| catalog.get(i).name.clone()).collect();
    assert_eq!(names, vec!["Alpha", "Mid", "Zed"]);
    let empty = Catalog::new();
    assert_eq!(empty.len(), 0);
}

#[test]
fn exec_of_field_codes_alone_is_rejected() {
    assert_eq!(parse_desktop_entry("Name=Foo\nExec=%U\n").unwrap_err(), EntryError::MissingExec);
    assert_eq!(parse_desktop_entry("Name=Foo\nExec= %f  %u \n").unwrap_err(), EntryError::MissingExec);
}
