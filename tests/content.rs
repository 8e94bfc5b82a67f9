use logreduce::content::{group_sources, Content, ContentError, PathKind, Source, WalkEntry};
use logreduce::index_name::IndexName;

fn local(n: usize, p: &str) -> Source {
    Source::Local(n, p.to_string())
}

#[test]
fn from_path_classifies_by_kind() {
    assert_eq!(
        Content::from_path("/tmp/d", PathKind::Directory),
        Ok(Content::Directory(local(0, "/tmp/d")))
    );
    assert_eq!(
        Content::from_path("/tmp/f", PathKind::File),
        Ok(Content::File(local(0, "/tmp/f")))
    );
    assert_eq!(
        Content::from_path("/nope", PathKind::Missing),
        Err(ContentError::NotFound("/nope".to_string()))
    );
}

#[test]
fn baseline_candidate_appends_rotation_suffix() {
    assert_eq!(Content::baseline_candidate("/var/log/app.log"), "/var/log/app.log.0");
    assert_eq!(Content::baseline_candidate(""), ".0");
}

#[test]
fn discover_baselines_follows_the_candidate() {
    assert_eq!(
        Content::discover_baselines_from_path("job.log", PathKind::File),
        vec![Content::File(local(0, "job.log.0"))]
    );
    assert_eq!(
        Content::discover_baselines_from_path("logs", PathKind::Directory),
        vec![Content::Directory(local(0, "logs.0"))]
    );
    assert_eq!(
        Content::discover_baselines_from_path("job.log", PathKind::Missing),
        Vec::<Content>::new()
    );
}

#[test]
fn file_iter_yields_the_source_itself() {
    let s = local(3, "abc/def");
    assert_eq!(s.file_iter(), vec![local(3, "abc/def")]);
}

#[test]
fn keep_path_keeps_regular_files_and_errors() {
    let file = WalkEntry::Found { path: "a".to_string(), is_symlink: false, is_file: true };
    let dir = WalkEntry::Found { path: "d".to_string(), is_symlink: false, is_file: false };
    let link = WalkEntry::Found { path: "l".to_string(), is_symlink: true, is_file: true };
    let failed = WalkEntry::Failed("denied".to_string());
    assert!(Source::keep_path(&file));
    assert!(!Source::keep_path(&dir));
    assert!(!Source::keep_path(&link));
    assert!(Source::keep_path(&failed));
}

#[test]
fn dir_iter_filters_the_walk() {
    let entries = vec![
        WalkEntry::Found { path: "/r".to_string(), is_symlink: false, is_file: false },
        WalkEntry::Found { path: "/r/a.log".to_string(), is_symlink: false, is_file: true },
        WalkEntry::Found { path: "/r/sub".to_string(), is_symlink: false, is_file: false },
        WalkEntry::Found { path: "/r/link".to_string(), is_symlink: true, is_file: true },
        WalkEntry::Failed("permission denied".to_string()),
        WalkEntry::Found { path: "/r/sub/b.log".to_string(), is_symlink: false, is_file: true },
    ];
    assert_eq!(
        Source::dir_iter("/r", entries),
        vec![
            Ok(local(2, "/r/a.log")),
            Err("permission denied".to_string()),
            Ok(local(2, "/r/sub/b.log")),
        ]
    );
}

#[test]
fn dir_iter_counts_root_characters() {
    let entries = vec![WalkEntry::Found {
        path: "/d\u{e9}/x".to_string(),
        is_symlink: false,
        is_file: true,
    }];
    assert_eq!(Source::dir_iter("/d\u{e9}", entries), vec![Ok(local(3, "/d\u{e9}/x"))]);
}

#[test]
fn dir_iter_of_empty_walk_is_empty() {
    assert!(Source::dir_iter("/r", vec![]).is_empty());
}

#[test]
fn source_index_name_uses_its_path() {
    assert_eq!(
        local(5, "/logs/audit/audit.log.1").index_name(),
        IndexName("audit/audit.log".to_string())
    );
}

#[test]
fn grouping_partitions_sources_by_key() {
    let sources = vec![
        local(0, "a/x.log.1"),
        local(0, "b/y.log"),
        local(0, "a/x.log.2"),
        local(0, "k8s_web-123"),
    ];
    let groups = group_sources(&sources);
    assert_eq!(
        groups,
        vec![
            (
                IndexName("a/x.log".to_string()),
                vec![local(0, "a/x.log.1"), local(0, "a/x.log.2")]
            ),
            (IndexName("b/y.log".to_string()), vec![local(0, "b/y.log")]),
            (IndexName("k8s_web".to_string()), vec![local(0, "k8s_web-123")]),
        ]
    );
    let total: usize = groups.iter().map(|(_, v)| v.len()).sum();
    assert_eq!(total, sources.len());
}

#[test]
fn grouping_of_nothing_is_empty() {
    assert!(group_sources(&vec![]).is_empty());
}
