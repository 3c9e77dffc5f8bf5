use wasi_security_layer::CapabilityManifest;
use wasi_security_layer::FSAccess;

fn test_manifest() -> CapabilityManifest {
    CapabilityManifest {
        skill_name: "TestSkill".to_string(),
        filesystem: FSAccess {
            read: vec!["/data".to_string()],
            write: vec![],
            delete: vec!["/tmp".to_string()],
        },
        network: false,
        gpu: false,
        sensors: true,
        camera: false,
    }
}

#[test]
fn test_manifest_validation() {
    let manifest = test_manifest();

    assert!(!manifest.validate("read", "/data/../etc/passwd"));
    assert!(!manifest.validate("delete", "/tmp/../etc"));
    assert!(!manifest.validate("read", "/data/./../root"));
    assert!(manifest.validate("read", "/data/./file.txt"));
}

#[test]
fn test_path_normalization() {
    assert_eq!(CapabilityManifest::normalize_path("/tmp/../etc"), "/etc");
    assert_eq!(CapabilityManifest::normalize_path("/var/./log/../tmp"), "/var/tmp");
    assert_eq!(CapabilityManifest::normalize_path("C:\\Windows\\..\\System32"), "C:/System32");
    assert_eq!(CapabilityManifest::normalize_path("/a/b/c/../../d"), "/a/d");
    assert_eq!(CapabilityManifest::normalize_path("/data/../etc/passwd"), "/etc/passwd");
    assert_eq!(CapabilityManifest::normalize_path("C:\\\\Users\\\\test"), "C:/Users/test");
}

#[test]
fn normalization_root_containment() {
    assert_eq!(CapabilityManifest::normalize_path("/a/../../b"), "/b");
    assert_eq!(CapabilityManifest::normalize_path("/.."), "/");
    assert_eq!(CapabilityManifest::normalize_path("/../../.."), "/");
}

#[test]
fn normalization_edge_cases() {
    assert_eq!(CapabilityManifest::normalize_path(""), "");
    assert_eq!(CapabilityManifest::normalize_path("."), "");
    assert_eq!(CapabilityManifest::normalize_path(".."), "..");
    assert_eq!(CapabilityManifest::normalize_path("../../x"), "../../x");
    assert_eq!(CapabilityManifest::normalize_path("a//b///c"), "a/b/c");
    assert_eq!(CapabilityManifest::normalize_path("c:"), "c:");
    assert_eq!(CapabilityManifest::normalize_path("C:relative\\x"), "C:relative/x");
}

#[test]
fn normalization_is_idempotent_on_samples() {
    let samples = [
        "/tmp/../etc",
        "C:\\Windows\\..\\System32",
        "a//b///c",
        "../../x",
        "",
        "/a/../../b",
        "C:relative\\x",
        "/..",
    ];
    for s in samples {
        let once = CapabilityManifest::normalize_path(s);
        let twice = CapabilityManifest::normalize_path(&once);
        assert_eq!(once, twice);
    }
}

#[test]
fn unknown_operation_is_denied() {
    let manifest = test_manifest();
    assert!(!manifest.validate("execute", "/data/file.txt"));
    assert!(!manifest.validate("", "/data/file.txt"));
    assert!(!manifest.validate("READ", "/data/file.txt"));
}

#[test]
fn prefix_match_is_literal() {
    let manifest = test_manifest();
    // An allow-list entry matches as a literal string prefix, not at a
    // path segment boundary.
    assert!(manifest.validate("read", "/database/secrets"));
    assert!(!manifest.validate("write", "/data/file.txt"));
    assert!(manifest.validate("delete", "/tmp/scratch"));
}

#[test]
fn flag_accessors_read_fields() {
    let manifest = test_manifest();
    assert!(!manifest.has_network());
    assert!(!manifest.has_gpu());
    assert!(manifest.has_sensors());
    assert!(!manifest.has_camera());
}

#[test]
fn drive_dot_outputs_are_the_idempotence_exception() {
    // A relative path with no drive prefix can resolve to a first segment
    // that re-parses as a drive prefix followed by a bare dot; a second
    // pass then drops that dot. This is the one family of outputs the
    // idempotence law excludes.
    let once = CapabilityManifest::normalize_path("x/../c:./b");
    assert_eq!(once, "c:./b");
    assert_eq!(CapabilityManifest::normalize_path(&once), "c:b");
}
