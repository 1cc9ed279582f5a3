//! End-to-end scenarios over the matching and filling core: each case
//! lists candidate names, a pattern, a rename template and the new names
//! the run is expected to produce for the matching candidates.

use mmv::matcher::Matcher;

fn renamed_names(filenames: &[&str], pattern: &str, target: &str) -> Vec<String> {
    let matcher = Matcher::new(pattern.to_string());
    let mut result: Vec<String> = vec![];
    for file in filenames {
        if let Some(changes) = matcher.pattern_matcher(file) {
            let new_name = matcher
                .fill_in_template(changes.iter().map(|s| s.as_str()).collect(), target);
            result.push(new_name);
        }
    }
    result
}

fn check_renames(filenames: &[&str], pattern: &str, target: &str, new_names: &[&str]) {
    let produced = renamed_names(filenames, pattern, target);
    for expected in new_names {
        assert!(
            produced.iter().any(|p| p == expected),
            "expected {} among {:?}",
            expected,
            produced
        );
    }
}

#[test]
fn test_single_file() {
    check_renames(&["abc"], "a*c", "a#1d", &["abd"]);
}

#[test]
fn test_notion_example() {
    check_renames(
        &[
            "some_A_filename.jpg",
            "some_A_filename.bin",
            "some_B_filename.jpg",
            "some_B_filename.bin",
        ],
        "some_*_filename.*",
        "changed_#1_filename.#2",
        &[
            "changed_A_filename.jpg",
            "changed_B_filename.jpg",
            "changed_A_filename.bin",
            "changed_B_filename.bin",
        ],
    );
}

#[test]
fn test_utf() {
    check_renames(
        &["somewhere/not/here/\u{2013}\u{ea}\u{2013}\u{aa}\u{2013}\u{b5}\u{2013}\u{3a9}\u{2013}\u{222b}\u{2013}\u{221e}"],
        "somewhere/not/here/\u{2013}\u{ea}*\u{2013}\u{222b}\u{2013}\u{221e}",
        "sowhere/\u{2013}\u{ef}#1\u{2013}\u{221e}",
        &["sowhere/\u{2013}\u{ef}\u{2013}\u{aa}\u{2013}\u{b5}\u{2013}\u{3a9}\u{2013}\u{221e}"],
    );
}

#[test]
fn test_dummy_template() {
    check_renames(
        &["somewhere/not/a", "somewhere/not/b"],
        "somewhere/not/*",
        "#1",
        &["a", "b"],
    );
}

#[test]
fn test_cut_suffix() {
    check_renames(
        &["aXXXcYYY", "aXc", "acY"],
        "a*c*",
        "a#1c",
        &["aXXXc", "aXc", "ac"],
    );
}
