use cli_rust_como::error::ComoError;
use cli_rust_como::models::PageData;
use cli_rust_como::storage::{
    como_data_dir_under, file_name_of_page, get_como_data_dir, get_current_page_config_path,
    get_page_path, list_pages, load_current_page, load_page_data, page_of_file_name, DataPath,
    DirEntry, PathRoot, Platform,
};
use cli_rust_como::text::{chars_of, str_ends_with, str_eq, str_le, string_le, trim};
use std::path::PathBuf;

fn given(path: &DataPath) -> Option<&str> {
    match &path.root {
        PathRoot::Given(dir) => Some(dir.as_str()),
        _ => None,
    }
}

fn segments(path: &DataPath) -> Vec<&str> {
    path.segments.iter().map(|s| s.as_str()).collect()
}

fn file(name: &str) -> DirEntry {
    DirEntry { name: name.to_string(), is_file: true }
}

fn dir(name: &str) -> DirEntry {
    DirEntry { name: name.to_string(), is_file: false }
}

fn base() -> DataPath {
    DataPath { root: PathRoot::Given("/data".to_string()), segments: vec!["como".to_string()] }
}

#[test]
fn data_dir_on_windows_lies_under_app_data() {
    let path = como_data_dir_under(
        Platform::Windows,
        Some("C:\\Users\\a\\AppData\\Roaming".to_string()),
        Some("ignored".to_string()),
        Some(PathBuf::from("C:\\Users\\a")),
    )
    .unwrap();
    assert_eq!(given(&path), Some("C:\\Users\\a\\AppData\\Roaming"));
    assert_eq!(segments(&path), vec!["como"]);
}

#[test]
fn data_dir_on_windows_needs_app_data() {
    let result = como_data_dir_under(Platform::Windows, None, None, None);
    assert_eq!(result.err(), Some(ComoError::AppDataUnknown));
    let result = como_data_dir_under(
        Platform::Windows,
        None,
        Some("/cfg".to_string()),
        Some(PathBuf::from("C:\\Users\\a")),
    );
    assert_eq!(result.err(), Some(ComoError::AppDataUnknown));
    let result = get_como_data_dir(Platform::Windows, None, None);
    assert_eq!(result.err(), Some(ComoError::AppDataUnknown));
    let path = get_como_data_dir(Platform::Windows, Some("D:\\data".to_string()), None).unwrap();
    assert_eq!(given(&path), Some("D:\\data"));
    assert_eq!(segments(&path), vec!["como"]);
}

#[test]
fn data_dir_on_macos_lies_under_application_support() {
    let path = como_data_dir_under(
        Platform::MacOs,
        Some("ignored".to_string()),
        Some("ignored".to_string()),
        Some(PathBuf::from("/Users/a")),
    )
    .unwrap();
    match &path.root {
        PathRoot::Home(home) => assert_eq!(home, &PathBuf::from("/Users/a")),
        other => panic!("unexpected root {:?}", other),
    }
    assert_eq!(segments(&path), vec!["Library", "Application Support", "como"]);
}

#[test]
fn data_dir_on_macos_needs_the_home_dir() {
    let result = como_data_dir_under(Platform::MacOs, None, Some("/cfg".to_string()), None);
    assert_eq!(result.err(), Some(ComoError::HomeDirUnknown));
}

#[test]
fn data_dir_elsewhere_lies_under_xdg_config_home() {
    let path = como_data_dir_under(
        Platform::Other,
        Some("ignored".to_string()),
        Some("/cfg".to_string()),
        Some(PathBuf::from("/home/a")),
    )
    .unwrap();
    assert_eq!(given(&path), Some("/cfg"));
    assert_eq!(segments(&path), vec!["como"]);
    let same = get_como_data_dir(Platform::Other, None, Some("/cfg".to_string())).unwrap();
    assert_eq!(given(&same), Some("/cfg"));
    assert_eq!(segments(&same), vec!["como"]);
}

#[test]
fn data_dir_elsewhere_falls_back_to_dot_config_at_home() {
    let path =
        como_data_dir_under(Platform::Other, None, None, Some(PathBuf::from("/home/a"))).unwrap();
    match &path.root {
        PathRoot::Home(home) => assert_eq!(home, &PathBuf::from("/home/a")),
        other => panic!("unexpected root {:?}", other),
    }
    assert_eq!(segments(&path), vec![".config", "como"]);
}

#[test]
fn data_dir_elsewhere_needs_a_root() {
    let result = como_data_dir_under(Platform::Other, None, None, None);
    assert_eq!(result.err(), Some(ComoError::HomeDirUnknown));
    let result = como_data_dir_under(Platform::Other, Some("ignored".to_string()), None, None);
    assert_eq!(result.err(), Some(ComoError::HomeDirUnknown));
}

#[test]
fn data_dir_asks_the_system_for_the_home_dir() {
    match get_como_data_dir(Platform::Other, None, None) {
        Ok(path) => {
            assert!(matches!(path.root, PathRoot::Home(_)));
            assert_eq!(segments(&path), vec![".config", "como"]);
        }
        Err(error) => assert_eq!(error, ComoError::HomeDirUnknown),
    }
    match get_como_data_dir(Platform::MacOs, None, None) {
        Ok(path) => {
            assert!(matches!(path.root, PathRoot::Home(_)));
            assert_eq!(segments(&path), vec!["Library", "Application Support", "como"]);
        }
        Err(error) => assert_eq!(error, ComoError::HomeDirUnknown),
    }
}

#[test]
fn page_file_gets_the_suffix() {
    assert_eq!(file_name_of_page("work"), "work.json");
    assert_eq!(file_name_of_page("a.b"), "a.b.json");
    assert_eq!(file_name_of_page(""), ".json");
    assert_eq!(file_name_of_page("json"), "json.json");
    assert_eq!(file_name_of_page("日本語"), "日本語.json");
}

#[test]
fn page_file_keeps_a_name_that_has_the_suffix() {
    assert_eq!(file_name_of_page("work.json"), "work.json");
    assert_eq!(file_name_of_page(".json"), ".json");
    assert_eq!(file_name_of_page("work.JSON"), "work.JSON.json");
}

#[test]
fn page_path_lies_in_the_data_dir() {
    let path = get_page_path(base(), "work");
    assert_eq!(given(&path), Some("/data"));
    assert_eq!(segments(&path), vec!["como", "work.json"]);
    let path = get_page_path(base(), "work.json");
    assert_eq!(segments(&path), vec!["como", "work.json"]);
}

#[test]
fn marker_path_lies_in_the_data_dir() {
    let path = get_current_page_config_path(base());
    assert_eq!(given(&path), Some("/data"));
    assert_eq!(segments(&path), vec!["como", "current_page.txt"]);
}

#[test]
fn page_of_a_file_is_what_stands_before_the_suffix() {
    assert_eq!(page_of_file_name("work.json"), Some("work".to_string()));
    assert_eq!(page_of_file_name("a.b.json"), Some("a.b".to_string()));
    assert_eq!(page_of_file_name("..json"), Some(".".to_string()));
    assert_eq!(page_of_file_name("日本語.json"), Some("日本語".to_string()));
    assert_eq!(page_of_file_name("x.json.json"), Some("x.json".to_string()));
    assert_eq!(page_of_file_name(".json"), Some("".to_string()));
}

#[test]
fn other_files_hold_no_page() {
    assert_eq!(page_of_file_name("current_page.txt"), None);
    assert_eq!(page_of_file_name("json"), None);
    assert_eq!(page_of_file_name("workjson"), None);
    assert_eq!(page_of_file_name("work.JSON"), None);
    assert_eq!(page_of_file_name("work.json.bak"), None);
    assert_eq!(page_of_file_name(""), None);
}

#[test]
fn stored_pages_are_listed_by_name() {
    let entries = vec![
        file("work.json"),
        file("current_page.txt"),
        dir("archive.json"),
        file("home.json"),
        file("notes.txt"),
        dir("sub"),
        file("Zeta.json"),
        file("a.b.json"),
        file("json"),
        file("work.json.bak"),
    ];
    assert_eq!(list_pages(&entries), vec!["Zeta", "a.b", "home", "work"]);
}

#[test]
fn every_file_with_the_suffix_is_a_page() {
    let entries = vec![file("b.json"), file(".json"), file("a.json"), dir(".json")];
    assert_eq!(list_pages(&entries), vec!["", "a", "b"]);
}

#[test]
fn a_page_is_listed_under_the_name_its_file_was_made_for() {
    for name in ["work", "", "a.b", "日本語", "json", ".", "x y"] {
        let file_name = file_name_of_page(name);
        assert_eq!(page_of_file_name(&file_name), Some(name.to_string()));
        assert_eq!(list_pages(&vec![file(&file_name)]), vec![name.to_string()]);
    }
}

#[test]
fn an_empty_dir_holds_no_pages() {
    assert!(list_pages(&Vec::new()).is_empty());
    assert!(list_pages(&vec![file("current_page.txt"), dir("x")]).is_empty());
}

#[test]
fn missing_page_loads_as_empty() {
    let page = load_page_data(None);
    assert_eq!(page.last_id, 0);
    assert!(page.tasks.is_empty());
}

#[test]
fn stored_page_loads_as_it_is() {
    let mut stored = PageData::new();
    stored.add_task("a".to_string());
    stored.add_task("b".to_string());
    stored.remove_task(1);
    let page = load_page_data(Some(stored));
    assert_eq!(page.last_id, 2);
    assert_eq!(page.tasks.len(), 1);
    assert_eq!(page.tasks[0].id, 2);
    assert_eq!(page.tasks[0].title, "b");
}

#[test]
fn current_page_is_default_without_a_marker() {
    assert_eq!(load_current_page(None), "default");
}

#[test]
fn current_page_is_the_trimmed_marker() {
    assert_eq!(load_current_page(Some("work")), "work");
    assert_eq!(load_current_page(Some("  work \n")), "work");
    assert_eq!(load_current_page(Some("\t\r\nmy page\u{3000}\u{a0}")), "my page");
    assert_eq!(load_current_page(Some("")), "");
    assert_eq!(load_current_page(Some(" \n ")), "");
}

#[test]
fn trim_takes_white_space_only() {
    assert_eq!(trim("x"), "x");
    assert_eq!(trim(" _ "), "_");
    assert_eq!(trim("\u{200b}a\u{200b}"), "\u{200b}a\u{200b}");
    assert_eq!(trim(" a b "), "a b");
    assert_eq!(trim("\u{2003}é\u{2028}"), "é");
    for s in ["", " ", "ab", " ab", "ab ", "\n\tab  c\r\n", "日本 語 "] {
        assert_eq!(trim(s), s.trim());
    }
}

#[test]
fn strings_compare_by_code_point() {
    assert!(str_le("", ""));
    assert!(str_le("", "a"));
    assert!(!str_le("a", ""));
    assert!(str_le("a", "a"));
    assert!(str_le("a", "ab"));
    assert!(!str_le("ab", "a"));
    assert!(str_le("B", "a"));
    assert!(!str_le("a", "B"));
    assert!(str_le("z", "é"));
    assert!(!str_le("é", "z"));
    assert!(str_le("abc", "abd"));
    assert!(!str_le("abd", "abc"));
    let words = ["", "a", "B", "ab", "b", "é", "日本", "\u{10000}", "\u{ffff}"];
    for a in words {
        for b in words {
            assert_eq!(str_le(a, b), a <= b);
            assert_eq!(string_le(&a.to_string(), &b.to_string()), a <= b);
            assert_eq!(str_eq(a, b), a == b);
        }
    }
}

#[test]
fn suffix_is_found_at_the_end_only() {
    assert!(str_ends_with("work.json", ".json"));
    assert!(str_ends_with(".json", ".json"));
    assert!(str_ends_with("abc", ""));
    assert!(str_ends_with("", ""));
    assert!(!str_ends_with("json", ".json"));
    assert!(!str_ends_with("work.json ", ".json"));
    assert!(!str_ends_with("work.jsom", ".json"));
    assert!(!str_ends_with("", "a"));
}

#[test]
fn chars_are_taken_in_order() {
    assert_eq!(chars_of("aé日"), vec!['a', 'é', '日']);
    assert!(chars_of("").is_empty());
}

#[test]
fn join_goes_one_level_down() {
    let path = base().join("a".to_string()).join("b".to_string());
    assert_eq!(given(&path), Some("/data"));
    assert_eq!(segments(&path), vec!["como", "a", "b"]);
}
