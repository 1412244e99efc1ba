use jeditr::file_ops::FileMetadata;
use jeditr::file_ops::WalkedEntry;
use jeditr::file_ops::list_files;
use jeditr::file_ops::list_git_files;
use jeditr::file_ops::temp_path_for;

fn entry(path: &str, name: &str, is_file: bool) -> WalkedEntry {
    WalkedEntry { path: path.to_string(), name: name.to_string(), is_file }
}

fn paths(files: &[FileMetadata]) -> Vec<String> {
    files.iter().map(|f| f.path.clone()).collect()
}

#[test]
fn listing_keeps_files_only_in_walk_order() {
    let entries = vec![
        entry("./src", "src", false),
        entry("./src/main.rs", "main.rs", true),
        entry("./README.md", "README.md", true),
    ];
    let files = list_files(&entries);
    assert_eq!(paths(&files), vec!["./src/main.rs".to_string(), "./README.md".to_string()]);
    assert_eq!(files[0].name, "main.rs");
    assert!(files[0].language.is_none());
}

#[test]
fn listing_caps_at_one_hundred() {
    let mut entries = Vec::new();
    for i in 0..150 {
        entries.push(entry(&format!("f{}", i), &format!("f{}", i), true));
    }
    let files = list_files(&entries);
    assert_eq!(files.len(), 100);
    assert_eq!(files[99].path, "f99");
}

#[test]
fn git_listing_parses_lines_and_names() {
    let files = list_git_files("src/lib.rs\ndocs/guide.md\nREADME\n");
    assert_eq!(files.len(), 3);
    assert_eq!(files[0].path, "src/lib.rs");
    assert_eq!(files[0].name, "lib.rs");
    assert_eq!(files[1].name, "guide.md");
    assert_eq!(files[2].name, "README");
    assert!(files.iter().all(|f| f.language.is_none()));
}

#[test]
fn git_listing_takes_a_final_unterminated_line() {
    let files = list_git_files("a/b.txt\nlast");
    assert_eq!(files.len(), 2);
    assert_eq!(files[1].path, "last");
    assert_eq!(files[1].name, "last");
}

#[test]
fn git_listing_strips_carriage_returns() {
    let files = list_git_files("dir/x.c\r\ny.c\r\n");
    assert_eq!(files[0].path, "dir/x.c");
    assert_eq!(files[0].name, "x.c");
    assert_eq!(files[1].path, "y.c");
}

#[test]
fn git_listing_of_nothing_is_empty() {
    assert!(list_git_files("").is_empty());
}

#[test]
fn git_listing_caps_at_one_hundred() {
    let mut listing = String::new();
    for i in 0..120 {
        listing.push_str(&format!("file{}\n", i));
    }
    let files = list_git_files(&listing);
    assert_eq!(files.len(), 100);
    assert_eq!(files[99].path, "file99");
}

#[test]
fn temp_path_replaces_the_extension() {
    assert_eq!(temp_path_for("src/main.rs"), "src/main.tmp~");
    assert_eq!(temp_path_for("a.b.c"), "a.b.tmp~");
}

#[test]
fn temp_path_appends_when_there_is_no_extension() {
    assert_eq!(temp_path_for("notes"), "notes.tmp~");
    assert_eq!(temp_path_for(".gitignore"), ".gitignore.tmp~");
    assert_eq!(temp_path_for("dir.d/plain"), "dir.d/plain.tmp~");
}

#[test]
fn git_listing_name_falls_back_to_the_whole_path() {
    // a path ending in a separator has no name of its own
    let files = list_git_files("dir/\n");
    assert_eq!(files[0].path, "dir/");
    assert_eq!(files[0].name, "dir/");
}
