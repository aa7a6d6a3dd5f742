use file_finder::text::is_hidden_path;
use file_finder::text::name_extension;

fn chars(s: &str) -> Vec<char> {
    s.chars().collect()
}

#[test]
fn hidden_when_a_segment_starts_with_a_dot() {
    assert!(is_hidden_path(&chars(".git")));
    assert!(is_hidden_path(&chars("home/user/.config/app")));
    assert!(!is_hidden_path(&chars("home/user/config.d/app")));
    assert!(!is_hidden_path(&chars("")));
}

#[test]
fn both_separator_conventions_are_read_alike() {
    assert!(is_hidden_path(&chars("home\\user\\.config")));
    assert!(!is_hidden_path(&chars("home\\user\\conf.ig")));
}

#[test]
fn extension_after_last_dot() {
    assert_eq!(name_extension("report_2024.txt"), "txt");
    assert_eq!(name_extension("archive.tar.gz"), "gz");
    assert_eq!(name_extension("a.b"), "b");
}

#[test]
fn no_dot_means_no_extension() {
    assert_eq!(name_extension("Makefile"), "");
    assert_eq!(name_extension(""), "");
}

#[test]
fn leading_dot_is_not_an_extension_separator() {
    assert_eq!(name_extension(".bashrc"), "");
    assert_eq!(name_extension(".tar.gz"), "gz");
}

#[test]
fn trailing_dot_gives_empty_extension() {
    assert_eq!(name_extension("foo."), "");
}
