use doot::config::{Config, GroupEntry, Mode, PlanEntry, ResolverEntry};
use doot::executor::{
    diff_line_index, diff_sign, interpret_answer, status_label, ConfirmAnswer, DiffLineKind,
};
use doot::ignore::IgnoreRules;
use doot::plan::{FileProbe, FileStatus};
use doot::cli::{get_operation_name, get_resolver_name, resolve_groups, Target};
use doot::status::{
    FileState, GroupProbe, GroupStatus, GroupStatusResult, StatusChecker,
};

fn probe(rel: &str, source: Option<&[u8]>, destination: Option<&[u8]>) -> FileProbe {
    FileProbe {
        relative_path: rel.to_string(),
        source_exists: source.is_some(),
        source_content: source.map(|b| b.to_vec()),
        destination_exists: destination.is_some(),
        destination_content: destination.map(|b| b.to_vec()),
    }
}

fn config_with_group() -> Config {
    Config::new(
        "v1".to_string(),
        Mode::File,
        vec![
            PlanEntry { name: "everything".to_string(), members: None },
            PlanEntry {
                name: "mini".to_string(),
                members: Some(vec!["shell".to_string()]),
            },
        ],
        vec![GroupEntry {
            name: "shell".to_string(),
            resolvers: vec![ResolverEntry { name: "nux".to_string(), path: "~".to_string() }],
        }],
    )
    .unwrap()
}

fn present(probes: Vec<FileProbe>) -> GroupProbe {
    GroupProbe::Present(IgnoreRules::parse("").unwrap(), probes)
}

#[test]
fn missing_resolver_reports_skipped() {
    let config = config_with_group();
    let checker = StatusChecker::new(&config, "windows".to_string());
    let res = checker.check_group("shell", GroupProbe::NoDirectory).unwrap();
    assert_eq!(res.status, GroupStatus::Skipped);
    assert!(res.files.is_empty());
}

#[test]
fn absent_directory_reports_new() {
    let config = config_with_group();
    let checker = StatusChecker::new(&config, "nux".to_string());
    let res = checker.check_group("shell", GroupProbe::NoDirectory).unwrap();
    assert_eq!(res.status, GroupStatus::New);
    assert!(res.files.is_empty());
}

#[test]
fn empty_directory_reports_new() {
    let config = config_with_group();
    let checker = StatusChecker::new(&config, "nux".to_string());
    let res = checker.check_group("shell", present(vec![])).unwrap();
    assert_eq!(res.status, GroupStatus::New);
    assert!(res.files.is_empty());
}

#[test]
fn all_in_sync_reports_in_sync() {
    let config = config_with_group();
    let checker = StatusChecker::new(&config, "nux".to_string());
    let res = checker
        .check_group(
            "shell",
            present(vec![
                probe("a", Some(b"x"), Some(b"x")),
                probe("b", Some(b"y"), Some(b"y")),
            ]),
        )
        .unwrap();
    assert_eq!(res.status, GroupStatus::InSync);
    assert_eq!(res.files.len(), 2);
    assert!(res.files.iter().all(|f| f.state == FileState::InSync));
}

#[test]
fn all_new_reports_new() {
    let config = config_with_group();
    let checker = StatusChecker::new(&config, "nux".to_string());
    let res = checker
        .check_group(
            "shell",
            present(vec![probe("a", Some(b"x"), None), probe("b", Some(b"y"), None)]),
        )
        .unwrap();
    assert_eq!(res.status, GroupStatus::New);
}

#[test]
fn new_files_beside_in_sync_report_new() {
    let config = config_with_group();
    let checker = StatusChecker::new(&config, "nux".to_string());
    let res = checker
        .check_group(
            "shell",
            present(vec![
                probe("a", Some(b"x"), Some(b"x")),
                probe("b", Some(b"y"), None),
            ]),
        )
        .unwrap();
    assert_eq!(res.status, GroupStatus::New);
}

#[test]
fn modified_is_sticky_for_out_of_sync() {
    let config = config_with_group();
    let checker = StatusChecker::new(&config, "nux".to_string());
    let res = checker
        .check_group(
            "shell",
            present(vec![
                probe("a", Some(b"x"), Some(b"x")),
                probe("b", Some(b"y"), None),
                probe("c", Some(b"new"), Some(b"old")),
            ]),
        )
        .unwrap();
    assert_eq!(res.status, GroupStatus::OutOfSync);
    // files come back sorted by relative path
    let names: Vec<&str> = res.files.iter().map(|f| f.relative_path.as_str()).collect();
    assert_eq!(names, vec!["a", "b", "c"]);
    assert_eq!(res.files[2].state, FileState::Modified);
}

fn group_result(name: &str, status: GroupStatus) -> GroupStatusResult {
    GroupStatusResult { name: name.to_string(), status, files: Vec::new() }
}

#[test]
fn plan_with_out_of_sync_member_is_out_of_sync() {
    let config = Config::new(
        "v1".to_string(),
        Mode::File,
        vec![PlanEntry {
            name: "both".to_string(),
            members: Some(vec!["a".to_string(), "b".to_string()]),
        }],
        Vec::new(),
    )
    .unwrap();
    let checker = StatusChecker::new(&config, "nux".to_string());
    let results = vec![
        group_result("a", GroupStatus::OutOfSync),
        group_result("b", GroupStatus::InSync),
    ];
    let res = checker.check_plan("both", &results);
    assert_eq!(res.status, GroupStatus::OutOfSync);
}

#[test]
fn plan_with_only_skipped_members_is_skipped() {
    let config = Config::new(
        "v1".to_string(),
        Mode::File,
        vec![PlanEntry {
            name: "both".to_string(),
            members: Some(vec!["a".to_string(), "b".to_string()]),
        }],
        Vec::new(),
    )
    .unwrap();
    let checker = StatusChecker::new(&config, "nux".to_string());
    let results = vec![
        group_result("a", GroupStatus::Skipped),
        group_result("b", GroupStatus::Skipped),
    ];
    let res = checker.check_plan("both", &results);
    assert_eq!(res.status, GroupStatus::Skipped);
}

#[test]
fn plan_new_upgrades_in_sync_but_not_out_of_sync() {
    let config = Config::new(
        "v1".to_string(),
        Mode::File,
        vec![PlanEntry {
            name: "p".to_string(),
            members: Some(vec!["a".to_string(), "b".to_string()]),
        }],
        Vec::new(),
    )
    .unwrap();
    let checker = StatusChecker::new(&config, "nux".to_string());

    let in_sync_and_new = vec![
        group_result("a", GroupStatus::InSync),
        group_result("b", GroupStatus::New),
    ];
    assert_eq!(checker.check_plan("p", &in_sync_and_new).status, GroupStatus::New);

    let out_of_sync_and_new = vec![
        group_result("a", GroupStatus::OutOfSync),
        group_result("b", GroupStatus::New),
    ];
    assert_eq!(
        checker.check_plan("p", &out_of_sync_and_new).status,
        GroupStatus::OutOfSync
    );
}

#[test]
fn confirm_answers_are_trimmed_and_case_insensitive() {
    assert_eq!(interpret_answer("y"), ConfirmAnswer::Proceed);
    assert_eq!(interpret_answer("  Y \n"), ConfirmAnswer::Proceed);
    assert_eq!(interpret_answer("n"), ConfirmAnswer::Abort);
    assert_eq!(interpret_answer(""), ConfirmAnswer::Abort);
    assert_eq!(interpret_answer("   "), ConfirmAnswer::Abort);
    assert_eq!(interpret_answer("d"), ConfirmAnswer::ShowDiff);
    assert_eq!(interpret_answer("D"), ConfirmAnswer::ShowDiff);
    assert_eq!(interpret_answer("yes"), ConfirmAnswer::Invalid);
    assert_eq!(interpret_answer("x"), ConfirmAnswer::Invalid);
}

#[test]
fn status_labels_match_actions() {
    assert_eq!(status_label(FileStatus::Create), "Created");
    assert_eq!(status_label(FileStatus::Overwrite), "Updated");
    assert_eq!(status_label(FileStatus::Same), "Skipped");
}

#[test]
fn operation_names_quote_the_target() {
    let target = Target::Group { name: "shell".to_string(), resolver: "nux".to_string() };
    assert_eq!(get_operation_name("Import", &target), "Import group 'shell'");
    assert_eq!(get_resolver_name(&target), "nux");

    let plan_target = Target::Plan { name: "all".to_string(), resolver: "mac".to_string() };
    assert_eq!(get_operation_name("Export", &plan_target), "Export plan 'all'");

    let config = config_with_group();
    let groups = resolve_groups(&config, &target).unwrap();
    assert_eq!(groups, vec!["shell".to_string()]);
}

#[test]
fn all_groups_and_plans_roll_up() {
    let config = Config::new(
        "v1".to_string(),
        Mode::File,
        vec![
            PlanEntry { name: "everything".to_string(), members: None },
            PlanEntry { name: "web".to_string(), members: Some(vec!["web".to_string()]) },
        ],
        vec![
            GroupEntry {
                name: "shell".to_string(),
                resolvers: vec![ResolverEntry { name: "nux".to_string(), path: "~".to_string() }],
            },
            GroupEntry {
                name: "editor".to_string(),
                resolvers: vec![ResolverEntry { name: "nux".to_string(), path: "~".to_string() }],
            },
        ],
    )
    .unwrap();
    let checker = StatusChecker::new(&config, "nux".to_string());

    let names = checker.sorted_group_names();
    assert_eq!(names, vec!["editor".to_string(), "shell".to_string()]);

    let probes = vec![
        ("editor".to_string(), present(vec![probe("rc", Some(b"a"), Some(b"b"))])),
        ("shell".to_string(), GroupProbe::NoDirectory),
    ];
    let results = checker.check_all_groups(probes).unwrap();
    assert_eq!(results.len(), 2);
    assert_eq!(results[0].name, "editor");
    assert_eq!(results[0].status, GroupStatus::OutOfSync);
    assert_eq!(results[1].name, "shell");
    assert_eq!(results[1].status, GroupStatus::New);

    let plans = checker.check_all_plans(&results);
    assert_eq!(plans.len(), 2);
    assert_eq!(plans[0].name, "everything");
    assert_eq!(plans[0].status, GroupStatus::OutOfSync);
    assert_eq!(plans[1].name, "web");
    assert_eq!(plans[1].status, GroupStatus::Skipped);
}

#[test]
fn confirm_answers_strip_unicode_whitespace() {
    assert_eq!(interpret_answer("\u{00A0}y\u{00A0}"), ConfirmAnswer::Proceed);
    assert_eq!(interpret_answer("\u{2003}d\u{2003}"), ConfirmAnswer::ShowDiff);
    assert_eq!(interpret_answer("\u{3000}"), ConfirmAnswer::Abort);
}

#[test]
fn failed_observation_surfaces_its_error() {
    let config = config_with_group();
    let checker = StatusChecker::new(&config, "nux".to_string());
    let err = checker
        .check_all_groups(vec![(
            "shell".to_string(),
            GroupProbe::Failed(doot::error::Error::new(
                doot::error::ErrorKind::PathResolution,
                "bad path".to_string(),
            )),
        )])
        .unwrap_err();
    assert_eq!(err.kind(), doot::error::ErrorKind::PathResolution);
    assert_eq!(err.message(), "bad path");

    // an unknown resolver skips the group before its observation matters
    let other = StatusChecker::new(&config, "windows".to_string());
    let results = other
        .check_all_groups(vec![(
            "shell".to_string(),
            GroupProbe::Failed(doot::error::Error::new(
                doot::error::ErrorKind::Io,
                "x".to_string(),
            )),
        )])
        .unwrap();
    assert_eq!(results[0].status, GroupStatus::Skipped);
}

#[test]
fn diff_lines_number_and_sign() {
    assert_eq!(diff_line_index(DiffLineKind::Removed, Some(3), Some(7)), Some(3));
    assert_eq!(diff_line_index(DiffLineKind::Added, None, Some(7)), Some(7));
    assert_eq!(diff_line_index(DiffLineKind::Context, Some(3), Some(7)), Some(7));
    assert_eq!(diff_sign(DiffLineKind::Removed), "-");
    assert_eq!(diff_sign(DiffLineKind::Added), "+");
    assert_eq!(diff_sign(DiffLineKind::Context), " ");
}
