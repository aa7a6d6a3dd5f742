use file_finder::matcher::match_mask;
use file_finder::request::MatchMode;
use file_finder::request::SearchError;
use file_finder::request::SearchRequest;

fn request(pattern: &str, mode: MatchMode) -> SearchRequest {
    SearchRequest::new(String::new(), pattern.to_string(), mode, true, true).unwrap()
}

#[test]
fn mask_literal_prefix_star() {
    assert!(match_mask("report_2024.txt", "report_*"));
    assert!(!match_mask("report", "report_*"));
    assert!(match_mask("report_", "report_*"));
}

#[test]
fn mask_question_needs_one_char() {
    assert!(!match_mask("a", "a?"));
    assert!(match_mask("ab", "a?"));
    assert!(!match_mask("abc", "a?"));
}

#[test]
fn mask_star_matches_any_string() {
    assert!(match_mask("abc", "*"));
    assert!(match_mask("", "*"));
    assert!(match_mask("*b", "*"));
    assert!(match_mask("a*b", "*"));
    assert!(match_mask(".hidden", "*"));
}

#[test]
fn mask_question_rejects_empty() {
    assert!(!match_mask("", "?"));
}

#[test]
fn mask_backtracking() {
    assert!(match_mask("aab", "*ab"));
    assert!(match_mask("aaab", "*a*b"));
    assert!(!match_mask("aaac", "*a*b"));
    assert!(match_mask("abcbcd", "a*bcd"));
    assert!(match_mask("x", "**x"));
    assert!(!match_mask("x", "**x?"));
    assert!(match_mask("xy", "**x?"));
}

#[test]
fn mask_trailing_stars_are_free() {
    assert!(match_mask("abc", "abc***"));
    assert!(!match_mask("abc", "abc**d"));
}

#[test]
fn mask_literal_star_in_text() {
    // `*` in the text is an ordinary character; `*` in the mask is not
    assert!(match_mask("a*c", "a?c"));
    assert!(match_mask("a*c", "a*c"));
    assert!(!match_mask("abc", "a*d"));
}

#[test]
fn substring_is_case_sensitive() {
    let lower = request("file", MatchMode::Substring);
    let upper = request("File", MatchMode::Substring);
    assert!(!lower.matches("MyFile"));
    assert!(upper.matches("MyFile"));
}

#[test]
fn substring_is_order_preserving() {
    let req = request("eli", MatchMode::Substring);
    assert!(!req.matches("MyFile"));
    let req2 = request("yFi", MatchMode::Substring);
    assert!(req2.matches("MyFile"));
}

#[test]
fn substring_empty_pattern_matches_everything() {
    let req = request("", MatchMode::Substring);
    assert!(req.matches("anything"));
    assert!(req.matches(""));
}

#[test]
fn regex_anchored_pattern() {
    let req = request("^test\\d+$", MatchMode::Regex);
    assert!(req.matches("test42"));
    assert!(!req.matches("test42x"));
    assert!(!req.matches("xtest42"));
}

#[test]
fn regex_unanchored_pattern_matches_anywhere() {
    let req = request("est\\d", MatchMode::Regex);
    assert!(req.matches("test42"));
    assert!(req.matches("xxtest9yy"));
    assert!(!req.matches("est"));
}

#[test]
fn regex_invalid_pattern_fails_at_construction() {
    let r = SearchRequest::new(
        String::new(),
        "(".to_string(),
        MatchMode::Regex,
        true,
        true,
    );
    assert_eq!(r.err(), Some(SearchError::InvalidPattern));
}

#[test]
fn invalid_pattern_is_fine_outside_regex_mode() {
    let req = request("(", MatchMode::Substring);
    assert!(req.matches("f(x)"));
    assert!(!req.matches("fx"));
}
