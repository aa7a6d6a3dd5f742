use file_finder::cancel::CancelSignal;
use file_finder::request::MatchMode;
use file_finder::request::SearchError;
use file_finder::walker::run_search;
use file_finder::walker::DiscoveredEntry;

struct Tree {
    root: tempfile::TempDir,
    _dirs: Vec<tempfile::TempDir>,
    _files: Vec<tempfile::NamedTempFile>,
}

fn make_file(dir: &std::path::Path, name: &str) -> tempfile::NamedTempFile {
    tempfile::Builder::new()
        .prefix(name)
        .rand_bytes(0)
        .tempfile_in(dir)
        .unwrap()
}

fn make_dir(dir: &std::path::Path, name: &str) -> tempfile::TempDir {
    tempfile::Builder::new()
        .prefix(name)
        .rand_bytes(0)
        .tempdir_in(dir)
        .unwrap()
}

/// root/{report_2024.txt, notes.md, sub/MyFile.rs, .git/config}
fn build_tree() -> Tree {
    let root = tempfile::Builder::new().prefix("ffroot").tempdir().unwrap();
    let mut files = Vec::new();
    let mut dirs = Vec::new();
    files.push(make_file(root.path(), "report_2024.txt"));
    files.push(make_file(root.path(), "notes.md"));
    let sub = make_dir(root.path(), "sub");
    files.push(make_file(sub.path(), "MyFile.rs"));
    let git = make_dir(root.path(), ".git");
    files.push(make_file(git.path(), "config"));
    dirs.push(sub);
    dirs.push(git);
    Tree { root, _dirs: dirs, _files: files }
}

fn root_string(tree: &Tree) -> String {
    tree.root.path().to_str().unwrap().to_string()
}

fn find(
    tree: &Tree,
    pattern: &str,
    mode: MatchMode,
    include_hidden: bool,
    match_against_extension: bool,
) -> Vec<DiscoveredEntry> {
    let mut signal = CancelSignal::new();
    run_search(
        root_string(tree),
        pattern.to_string(),
        mode,
        include_hidden,
        match_against_extension,
        &mut signal,
    )
    .unwrap()
}

fn names(entries: &[DiscoveredEntry]) -> Vec<String> {
    let mut v: Vec<String> = entries.iter().map(|e| e.name.clone()).collect();
    v.sort();
    v
}

#[test]
fn walk_reports_every_visible_entry() {
    let tree = build_tree();
    let out = find(&tree, "*", MatchMode::Mask, false, true);
    let expected: Vec<String> = ["MyFile.rs", "notes.md", "report_2024.txt", "sub"]
        .iter()
        .map(|s| s.to_string())
        .collect();
    assert_eq!(names(&out), expected);
    let root = root_string(&tree);
    for e in &out {
        assert_ne!(e.path, root, "the search root must never be reported");
        assert!(!e.path.contains("/.git"));
    }
}

#[test]
fn hidden_entries_are_excluded_by_default() {
    let tree = build_tree();
    let out = find(&tree, "config", MatchMode::Substring, false, true);
    assert!(out.is_empty());
}

#[test]
fn hidden_entries_are_included_on_request() {
    let tree = build_tree();
    let out = find(&tree, "config", MatchMode::Substring, true, true);
    assert_eq!(out.len(), 1);
    assert_eq!(out[0].name, "config");
    assert!(out[0].path.ends_with(".git/config"));
    assert!(!out[0].is_folder);
    assert_eq!(out[0].extension, "");
}

#[test]
fn hidden_directory_itself_can_be_found() {
    let tree = build_tree();
    let out = find(&tree, ".git", MatchMode::Mask, true, true);
    assert_eq!(out.len(), 1);
    assert!(out[0].is_folder);
    assert_eq!(out[0].extension, "");
}

#[test]
fn entry_fields_carry_name_path_and_extension() {
    let tree = build_tree();
    let out = find(&tree, "report_*", MatchMode::Mask, false, true);
    assert_eq!(out.len(), 1);
    let e = &out[0];
    assert_eq!(e.name, "report_2024.txt");
    assert_eq!(e.extension, "txt");
    assert!(!e.is_folder);
    assert!(e.path.starts_with(&root_string(&tree)));
    assert!(e.path.ends_with("report_2024.txt"));
    let folders = find(&tree, "sub", MatchMode::Mask, false, true);
    assert_eq!(folders.len(), 1);
    assert!(folders[0].is_folder);
}

#[test]
fn matching_against_the_bare_stem() {
    let tree = build_tree();
    // the mask must cover the whole candidate: with the extension kept the
    // bare stem no longer matches
    assert_eq!(find(&tree, "report_2024", MatchMode::Mask, false, false).len(), 1);
    assert!(find(&tree, "report_2024", MatchMode::Mask, false, true).is_empty());
    // the stem of MyFile.rs is MyFile
    assert_eq!(find(&tree, "MyFile", MatchMode::Mask, false, false).len(), 1);
    assert!(find(&tree, "rs", MatchMode::Substring, false, false).is_empty());
    assert_eq!(find(&tree, "rs", MatchMode::Substring, false, true).len(), 1);
}

#[test]
fn regex_search_end_to_end() {
    let tree = build_tree();
    let out = find(&tree, "^report.*txt$", MatchMode::Regex, false, true);
    assert_eq!(names(&out), vec!["report_2024.txt".to_string()]);
}

#[test]
fn invalid_regex_aborts_the_whole_search() {
    let tree = build_tree();
    let mut signal = CancelSignal::new();
    let r = run_search(
        root_string(&tree),
        "(".to_string(),
        MatchMode::Regex,
        false,
        true,
        &mut signal,
    );
    assert_eq!(r.err(), Some(SearchError::InvalidPattern));
}

#[test]
fn precancelled_search_publishes_nothing_and_resets_the_flag() {
    let tree = build_tree();
    let mut signal = CancelSignal::new();
    signal.request();
    let out = run_search(
        root_string(&tree),
        "*".to_string(),
        MatchMode::Mask,
        false,
        true,
        &mut signal,
    )
    .unwrap();
    assert!(out.is_empty());
    assert!(!signal.observe_and_clear());
}

#[test]
fn searching_a_missing_root_yields_nothing() {
    let tree = build_tree();
    let mut gone = root_string(&tree);
    gone.push_str("/no_such_dir");
    let mut signal = CancelSignal::new();
    let out = run_search(
        gone,
        "*".to_string(),
        MatchMode::Mask,
        false,
        true,
        &mut signal,
    )
    .unwrap();
    assert!(out.is_empty());
}
