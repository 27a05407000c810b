use doot::ignore::IgnoreRules;

#[test]
fn ignore_all_except_specific_files() {
    let rules = IgnoreRules::parse("*\n!.bashrc\n!.profile").unwrap();

    assert!(rules.is_ignored("random.txt"));
    assert!(rules.is_ignored(".bash_history"));
    assert!(!rules.is_ignored(".bashrc"));
    assert!(!rules.is_ignored(".profile"));
}

#[test]
fn empty_rules_include_everything() {
    let rules = IgnoreRules::parse("").unwrap();
    assert!(rules.is_included("anything"));
    assert!(rules.is_included(".hidden"));
}

#[test]
fn comments_and_blank_lines_are_skipped() {
    let rules = IgnoreRules::parse(
        r#"
# This is a comment
*.log

# Another comment
*.tmp
"#,
    )
    .unwrap();

    assert!(rules.is_ignored("debug.log"));
    assert!(rules.is_ignored("cache.tmp"));
    assert!(!rules.is_ignored("config.yaml"));
}

#[test]
fn inline_comments_are_stripped() {
    let rules = IgnoreRules::parse("*.bak # backup files").unwrap();
    assert!(rules.is_ignored("file.bak"));
    assert!(!rules.is_ignored("file.bak # backup files"));
}

#[test]
fn later_rules_override_earlier() {
    let rules = IgnoreRules::parse("*\n!*.txt\n*.txt").unwrap();
    assert!(rules.is_ignored("file.txt"));

    let rules = IgnoreRules::parse("*.txt\n!*.txt").unwrap();
    assert!(!rules.is_ignored("file.txt"));
}

#[test]
fn glob_patterns_work() {
    let rules = IgnoreRules::parse("*.log\ntemp_*\n?.tmp").unwrap();

    assert!(rules.is_ignored("error.log"));
    assert!(rules.is_ignored("temp_file"));
    assert!(rules.is_ignored("a.tmp"));
    assert!(!rules.is_ignored("ab.tmp"));
    assert!(!rules.is_ignored("keep.txt"));
}

#[test]
fn negation_without_prior_ignore_does_nothing() {
    let rules = IgnoreRules::parse("!.bashrc").unwrap();
    assert!(!rules.is_ignored(".bashrc"));
    assert!(!rules.is_ignored("other"));
}

#[test]
fn order_sensitivity_txt_round_trip() {
    let included = IgnoreRules::parse("*\n!*.txt").unwrap();
    assert!(included.is_included("notes.txt"));
    assert!(!included.is_included("notes.md"));

    let ignored_again = IgnoreRules::parse("*\n!*.txt\n*.txt").unwrap();
    assert!(!ignored_again.is_included("notes.txt"));
}

#[test]
fn included_is_complement_of_ignored() {
    let rules = IgnoreRules::parse("*.log\n!keep.log").unwrap();
    for path in ["a.log", "keep.log", "other.txt", ""] {
        assert_eq!(rules.is_included(path), !rules.is_ignored(path));
    }
}

#[test]
fn malformed_glob_is_a_pattern_error() {
    let err = IgnoreRules::parse("[").unwrap_err();
    assert_eq!(err.kind(), doot::error::ErrorKind::Pattern);
    assert!(err.message().contains("Invalid pattern '['"));
}

#[test]
fn unicode_whitespace_is_trimmed_from_rule_lines() {
    let rules = IgnoreRules::parse("\u{00A0}*.log\u{00A0}\n\u{2003}# padded comment").unwrap();
    assert!(rules.is_ignored("a.log"));
    assert!(!rules.is_ignored("a.txt"));
}
