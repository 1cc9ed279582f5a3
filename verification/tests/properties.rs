//! Pointwise checks of the documented matching and filling behaviour:
//! exact-match patterns, trailing-run collapse, the leftmost-search
//! policy, placeholder substitution order, and path normalization.

use mmv::controller::MassMoveController;
use mmv::filesystem::FileSystemManager;
use mmv::matcher::Matcher;

fn captures(pattern: &str, name: &str) -> Option<Vec<String>> {
    Matcher::new(pattern.to_string()).pattern_matcher(name)
}

fn fill(caps: Vec<&str>, template: &str) -> String {
    Matcher::new(String::new()).fill_in_template(caps, template)
}

#[test]
fn no_wildcard_exact_match_only() {
    assert_eq!(captures("abc", "abc"), Some(vec![]));
    assert_eq!(captures("abc", "abd"), None);
    assert_eq!(captures("abc", "abcd"), None);
    assert_eq!(captures("abc", "ab"), None);
    assert_eq!(captures("", ""), Some(vec![]));
    assert_eq!(captures("", "x"), None);
}

#[test]
fn single_interior_wildcard() {
    assert_eq!(captures("a*c", "abc"), Some(vec!["b".to_string()]));
    assert_eq!(fill(vec!["b"], "a#1d"), "abd");
}

#[test]
fn trailing_star_captures_rest() {
    assert_eq!(captures("a*", "a"), Some(vec!["".to_string()]));
    assert_eq!(captures("*", ""), Some(vec!["".to_string()]));
    assert_eq!(captures("*", "xyz"), Some(vec!["xyz".to_string()]));
}

#[test]
fn trailing_run_collapses_to_one_capture() {
    assert_eq!(captures("a**", "aXY"), Some(vec!["XY".to_string()]));
    assert_eq!(captures("**", "ab"), Some(vec!["ab".to_string()]));
}

#[test]
fn interior_adjacent_stars_each_capture() {
    assert_eq!(
        captures("a**b", "aXYb"),
        Some(vec!["".to_string(), "XY".to_string()])
    );
}

#[test]
fn leftmost_occurrence_bounds_each_capture() {
    assert_eq!(
        captures("a*b*c", "aXbYbZc"),
        Some(vec!["X".to_string(), "YbZ".to_string()])
    );
    assert_eq!(
        captures("a*b*c", "abbbc"),
        Some(vec!["".to_string(), "bb".to_string()])
    );
}

#[test]
fn final_literal_found_leftmost() {
    assert_eq!(captures("a*b", "aXb"), Some(vec!["X".to_string()]));
    assert_eq!(captures("a*b", "aXbY"), Some(vec!["X".to_string()]));
    assert_eq!(captures("a*b", "aXY"), None);
}

#[test]
fn multibyte_prefix_mismatch_is_none() {
    assert_eq!(captures("\u{e9}*c", "\u{20ac}abc"), None);
    assert_eq!(captures("\u{e9}*", "\u{e9}\u{3a9}"), Some(vec!["\u{3a9}".to_string()]));
}

#[test]
fn out_of_range_placeholder_untouched() {
    assert_eq!(fill(vec!["x"], "#2"), "#2");
    assert_eq!(fill(vec!["x"], "#0"), "#0");
    assert_eq!(fill(vec![], "#1"), "#1");
}

#[test]
fn two_digit_placeholder_substituted_whole() {
    let caps = vec!["a", "b", "c", "d", "e", "f", "g", "h", "i", "j"];
    assert_eq!(fill(caps.clone(), "#10#1"), "ja");
    assert_eq!(fill(caps, "#1-#10"), "a-j");
}

#[test]
fn twelve_captures_exact_index() {
    let caps = vec!["a", "b", "c", "d", "e", "f", "g", "h", "i", "j", "k", "l"];
    assert_eq!(fill(caps, "#12#11#2"), "lkb");
}

#[test]
fn placeholder_replaced_everywhere() {
    assert_eq!(fill(vec!["z"], "#1#1"), "zz");
}

#[test]
fn later_pass_rescans_substituted_text() {
    assert_eq!(fill(vec!["x", "#1"], "#2"), "x");
}

#[test]
fn normalize_path_strips_working_directory() {
    let fsm = FileSystemManager::new("/x/tmp".to_string(), false);
    assert_eq!(
        fsm.normalize_path("../tmp/test/abc"),
        Some("test/abc".to_string())
    );
    assert_eq!(fsm.normalize_path("a//b/./c"), Some("a/b/c".to_string()));
    assert_eq!(fsm.normalize_path("../../c"), None);
}

#[test]
fn context_keeps_its_configuration() {
    let fsm = FileSystemManager::new("/w".to_string(), true);
    assert_eq!(fsm.current_dir, "/w");
    assert!(fsm.force_overwrite);
    let _ = MassMoveController::new();
}
