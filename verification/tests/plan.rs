use doot::config::Mode;
use doot::executor::{plan_actions, ActionKind};
use doot::ignore::IgnoreRules;
use doot::plan::{compute_status, FileEntry, FileProbe, FileStatus, Plan, PlanBuilder};

fn probe(rel: &str, source: Option<&[u8]>, destination: Option<&[u8]>) -> FileProbe {
    FileProbe {
        relative_path: rel.to_string(),
        source_exists: source.is_some(),
        source_content: source.map(|b| b.to_vec()),
        destination_exists: destination.is_some(),
        destination_content: destination.map(|b| b.to_vec()),
    }
}

fn entry(rel: &str, source: &str, destination: &str, status: FileStatus) -> FileEntry {
    FileEntry {
        relative_path: rel.to_string(),
        source: source.to_string(),
        destination: destination.to_string(),
        status,
    }
}

#[test]
fn plan_tracks_changes_across_groups() {
    let mut plan = Plan::new();

    plan.add_group(
        "group1".to_string(),
        vec![entry("file1", "/src/file1", "/dst/file1", FileStatus::Same)],
    );

    plan.add_group(
        "group2".to_string(),
        vec![entry("file2", "/src/file2", "/dst/file2", FileStatus::Create)],
    );

    assert!(plan.has_changes());
    assert_eq!(plan.total_count_by_status(FileStatus::Same), 1);
    assert_eq!(plan.total_count_by_status(FileStatus::Create), 1);
}

#[test]
fn plan_with_no_changes() {
    let mut plan = Plan::new();
    plan.add_group(
        "group".to_string(),
        vec![entry("file", "/src/file", "/dst/file", FileStatus::Same)],
    );

    assert!(!plan.has_changes());
}

#[test]
fn status_create_when_destination_missing() {
    let status = compute_status(&probe("file", Some(b"content"), None));
    assert_eq!(status, FileStatus::Create);
}

#[test]
fn status_same_when_content_matches() {
    let status = compute_status(&probe("file", Some(b"content"), Some(b"content")));
    assert_eq!(status, FileStatus::Same);
}

#[test]
fn status_overwrite_when_content_differs() {
    let status = compute_status(&probe("file", Some(b"new content"), Some(b"old content")));
    assert_eq!(status, FileStatus::Overwrite);
}

#[test]
fn status_holds_for_binary_payloads() {
    let blob_a: Vec<u8> = vec![0, 159, 146, 150, 255, 0, 17];
    let blob_b: Vec<u8> = vec![0, 159, 146, 150, 255, 0, 18];
    assert_eq!(
        compute_status(&probe("b", Some(&blob_a), Some(&blob_a))),
        FileStatus::Same
    );
    assert_eq!(
        compute_status(&probe("b", Some(&blob_a), Some(&blob_b))),
        FileStatus::Overwrite
    );
    assert_eq!(
        compute_status(&probe("b", Some(&blob_a), None)),
        FileStatus::Create
    );
}

#[test]
fn nonempty_plan_can_be_change_free() {
    let mut plan = Plan::new();
    plan.add_group(
        "group".to_string(),
        vec![entry("file", "/s/file", "/d/file", FileStatus::Same)],
    );
    assert!(!plan.is_empty());
    assert!(!plan.has_changes());

    let empty = Plan::new();
    assert!(empty.is_empty());
    assert!(!empty.has_changes());
}

#[test]
fn import_copy_mode_end_to_end() {
    // External source holds a.txt and b.txt; the managed directory is empty.
    let rules = IgnoreRules::parse("").unwrap();
    let builder = PlanBuilder::new(&rules);
    let probes = vec![
        probe("b.txt", Some(b"world"), None),
        probe("a.txt", Some(b"hello"), None),
    ];
    let entries = builder.build_import("/repo/shell", "/home/user", probes);

    assert_eq!(entries.len(), 2);
    assert_eq!(entries[0].relative_path, "a.txt");
    assert_eq!(entries[0].source, "/home/user/a.txt");
    assert_eq!(entries[0].destination, "/repo/shell/a.txt");
    assert_eq!(entries[0].status, FileStatus::Create);
    assert_eq!(entries[1].relative_path, "b.txt");
    assert_eq!(entries[1].status, FileStatus::Create);

    let mut plan = Plan::new();
    plan.add_group("shell".to_string(), entries);
    assert!(plan.has_changes());

    // Applying the plan copies both contents into the managed tree.
    let sources = [("/home/user/a.txt", b"hello".to_vec()), ("/home/user/b.txt", b"world".to_vec())];
    let mut managed: Vec<(String, Vec<u8>)> = Vec::new();
    for action in plan_actions(&plan, Mode::File) {
        assert_eq!(action.kind, ActionKind::CopyContent);
        let content = sources
            .iter()
            .find(|(p, _)| *p == action.entry.source)
            .map(|(_, c)| c.clone())
            .unwrap();
        managed.push((action.entry.destination.clone(), content));
    }
    assert_eq!(
        managed,
        vec![
            ("/repo/shell/a.txt".to_string(), b"hello".to_vec()),
            ("/repo/shell/b.txt".to_string(), b"world".to_vec()),
        ]
    );
}

#[test]
fn export_link_mode_end_to_end() {
    // Managed c.txt holds "data"; the target already has an old regular file.
    let rules = IgnoreRules::parse("").unwrap();
    let builder = PlanBuilder::new(&rules);
    let probes = vec![probe("c.txt", Some(b"data"), Some(b"old"))];
    let entries = builder.build_export("/repo/shell", "/home/user", probes);

    assert_eq!(entries.len(), 1);
    assert_eq!(entries[0].status, FileStatus::Overwrite);
    assert_eq!(entries[0].source, "/repo/shell/c.txt");
    assert_eq!(entries[0].destination, "/home/user/c.txt");

    let mut plan = Plan::new();
    plan.add_group("shell".to_string(), entries);

    // Link mode materializes a symlink to the managed file, never a write.
    let actions = plan_actions(&plan, Mode::Link);
    assert_eq!(actions.len(), 1);
    assert_eq!(actions[0].kind, ActionKind::MakeLink);
    assert_eq!(actions[0].entry.source, "/repo/shell/c.txt");
    assert_eq!(actions[0].entry.destination, "/home/user/c.txt");
}

#[test]
fn export_always_excludes_the_rule_file() {
    let rules = IgnoreRules::parse("").unwrap();
    let builder = PlanBuilder::new(&rules);
    let probes = vec![
        probe(".dootignore", Some(b"*.log"), None),
        probe("x.conf", Some(b"x"), None),
    ];
    let entries = builder.build_export("/repo/g", "/home/u", probes);
    assert_eq!(entries.len(), 1);
    assert_eq!(entries[0].relative_path, "x.conf");
}

#[test]
fn import_filters_by_ignore_rules() {
    let rules = IgnoreRules::parse("*.log").unwrap();
    let builder = PlanBuilder::new(&rules);
    let probes = vec![
        probe("keep.txt", Some(b"k"), None),
        probe("drop.log", Some(b"d"), None),
    ];
    let entries = builder.build_import("/repo/g", "/home/u", probes);
    assert_eq!(entries.len(), 1);
    assert_eq!(entries[0].relative_path, "keep.txt");
}

#[test]
fn fingerprints_match_known_digests() {
    assert_eq!(
        doot::store::hash_bytes(&Vec::new()),
        "e3b0c44298fc1c149afbf4c8996fb92427ae41e4649b934ca495991b7852b855"
    );
    assert_eq!(
        doot::store::hash_bytes(&b"hello".to_vec()),
        "2cf24dba5fb0a30e26e83b2ac5b9e29e1b161e5c1fa7425e73043362938b9824"
    );
    assert!(doot::store::compare_bytes(&b"same".to_vec(), &b"same".to_vec()));
    assert!(!doot::store::compare_bytes(&b"one".to_vec(), &b"two".to_vec()));
}

#[test]
fn joined_paths_use_single_separators() {
    let rules = IgnoreRules::parse("").unwrap();
    let builder = PlanBuilder::new(&rules);
    let entries = builder.build_import("/repo/g/", "/home/u/", vec![probe("f", Some(b"x"), None)]);
    assert_eq!(entries[0].source, "/home/u/f");
    assert_eq!(entries[0].destination, "/repo/g/f");
}
