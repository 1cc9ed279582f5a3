use mmv::matcher::Matcher;

#[test]
fn test_substitution() {
    let matcher = Matcher::new("path/to/some_*_filename.*".to_string());
    let template = "path2/to/changed_#1_filename.#2";
    let filenames = vec![
        "path/to/some_A_filename.bin",
        "path/to/some_B_filename.bin",
        "path/to/some_A_filename.jpg",
        "path/to/some_B_filename.jpg",
    ];
    for file in filenames {
        let changes = matcher.pattern_matcher(file);
        let file_letter = &file[13..14];
        let file_extension = &file[file.len() - 3..];
        assert!(changes.is_some());
        assert!(changes.clone().unwrap() == vec![file_letter, file_extension]);
        let new_name = matcher.fill_in_template(
            changes.unwrap().iter().map(|s| s.as_str()).collect(),
            template,
        );
        assert_eq!(
            new_name,
            template
                .replace("#1", file_letter)
                .replace("#2", file_extension)
        );
    }
}

#[test]
fn test_star_as_dirname() {
    let matcher = Matcher::new("path/*".to_string());
    let filename = "path/to/some/file";
    let changes = matcher.pattern_matcher(filename);
    assert!(changes.is_some());
}

#[test]
fn test_no_star() {
    let matcher = Matcher::new("abc".to_string());
    let filename = "abc";
    let changes = matcher.pattern_matcher(filename);
    assert_eq!(changes, Some(vec![]))
}
