use logreduce::index_name::{is_k8s_service, IndexName};

#[test]
fn test_is_k8s_service() {
    assert_eq!(is_k8s_service("k8s_zuul-uuid").as_deref(), Some("k8s_zuul"));
    assert_eq!(is_k8s_service("k3s_zuul-uuid"), None);
}

#[test]
fn log_model_name() {
    IntoIterator::into_iter([
        (
            "qemu/instance",
            [
                "containers/libvirt/qemu/instance-0000001d.log.txt.gz",
                "libvirt/qemu/instance-000000ec.log.txt.gz",
            ],
        ),
        ("log", ["builds/2/log", "42/log"]),
        ("audit/audit.log", ["audit/audit.log", "audit/audit.log.1"]),
        (
            "zuul/merger.log",
            ["zuul/merger.log", "zuul/merger.log.2017-11-12"],
        ),
    ])
    .for_each(|(expected_model, paths)| {
        IntoIterator::into_iter(paths).for_each(|path| {
            assert_eq!(
                IndexName(expected_model.to_string()),
                IndexName::from_path(path),
                "for {}",
                path
            )
        })
    });
}

#[test]
fn k8s_service_without_dash_is_not_a_service() {
    assert_eq!(is_k8s_service("k8s_zuul"), None);
    assert_eq!(is_k8s_service(""), None);
    assert_eq!(is_k8s_service("k8s_-x-y").as_deref(), Some("k8s_"));
}

#[test]
fn k8s_container_logs_share_a_key() {
    assert_eq!(
        IndexName::from_path("k8s_zuul-3f2a9c1e-77b0-4e5c"),
        IndexName("k8s_zuul".to_string())
    );
    assert_eq!(
        IndexName::from_path("pods/k8s_zuul-0a1b"),
        IndexName("k8s_zuul".to_string())
    );
    assert_ne!(
        IndexName::from_path("k3s_zuul-3f2a9c1e"),
        IndexName("k3s_zuul".to_string())
    );
    assert_eq!(
        IndexName::from_path("k3s_zuul-3f2a9c1e"),
        IndexName("ks_zuul-face".to_string())
    );
}

#[test]
fn k8s_prefix_without_dash_falls_through_to_cleaning() {
    assert_eq!(
        IndexName::from_path("k8s_nodash"),
        IndexName("ks_nodash".to_string())
    );
}

#[test]
fn qemu_rule_needs_the_instance_dash() {
    assert_eq!(
        IndexName::from_path("qemu/instance.log"),
        IndexName("qemu/instance.log".to_string())
    );
    assert_eq!(
        IndexName::from_path("/var/qemu/instance-1"),
        IndexName("qemu/instance".to_string())
    );
}

#[test]
fn derivation_is_total_on_odd_paths() {
    let cases = [
        ("", "N/A"),
        ("/", "N/A"),
        ("..", "N/A"),
        ("a/..", "a/N/A"),
        ("./foo", "foo"),
        ("foo//bar/", "foo/bar"),
        ("foo/./bar/.", "foo/bar"),
        ("../x.log", "x.log"),
        ("/var/log/2022/", "log"),
        ("12/34", ""),
        ("dir/caf\u{e9}.log", "dir/caf.log"),
    ];
    for (path, expected) in cases {
        assert_eq!(
            IndexName::from_path(path),
            IndexName(expected.to_string()),
            "for {:?}",
            path
        );
    }
}

#[test]
fn derivation_is_deterministic() {
    let p = "logs/zuul/executor.log.3";
    assert_eq!(IndexName::from_path(p), IndexName::from_path(p));
    assert_eq!(
        IndexName::from_path(p),
        IndexName("zuul/executor.log".to_string())
    );
}
