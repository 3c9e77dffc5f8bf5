use wasi_security_layer::CapabilityManifest;
use wasi_security_layer::FSAccess;
use wasi_security_layer::access::validate_camera_access;
use wasi_security_layer::access::validate_file_access;
use wasi_security_layer::access::validate_gpu_access;
use wasi_security_layer::access::validate_network_access;
use wasi_security_layer::access::validate_sensor_access;
use wasi_security_layer::gpu::aligned_size;
use wasi_security_layer::gpu::pad_to_alignment;
use wasi_security_layer::gpu::trim_to_length;
use wasi_security_layer::update::apply_updates;
use wasi_security_layer::hardware::HardwareOp;
use wasi_security_layer::hardware::HardwareOpType;

fn sample() -> CapabilityManifest {
    CapabilityManifest {
        skill_name: "TestSkill".to_string(),
        filesystem: FSAccess {
            read: vec!["/data".to_string()],
            write: vec!["/data/temp".to_string(), "/out".to_string()],
            delete: vec![],
        },
        network: false,
        gpu: false,
        sensors: true,
        camera: false,
    }
}

#[test]
fn update_ignores_unknown_keys() {
    let m = sample();
    let updates = vec![("unknown_key".to_string(), true)];
    let m2 = apply_updates(m, &updates);
    assert_eq!(m2.skill_name, "TestSkill");
    assert_eq!(m2.filesystem.read, vec!["/data".to_string()]);
    assert!(!m2.network);
    assert!(!m2.gpu);
    assert!(m2.sensors);
    assert!(!m2.camera);
}

#[test]
fn update_changes_only_named_flag() {
    let m = sample();
    let updates = vec![("gpu".to_string(), true)];
    let m2 = apply_updates(m, &updates);
    assert!(m2.gpu);
    assert!(!m2.network);
    assert!(m2.sensors);
    assert!(!m2.camera);
    assert_eq!(m2.skill_name, "TestSkill");
    assert_eq!(m2.filesystem.write, vec!["/data/temp".to_string(), "/out".to_string()]);
}

#[test]
fn update_applies_in_order() {
    let m = sample();
    let updates = vec![
        ("network".to_string(), true),
        ("camera".to_string(), true),
        ("network".to_string(), false),
    ];
    let m2 = apply_updates(m, &updates);
    assert!(!m2.network);
    assert!(m2.camera);
}

#[test]
fn file_access_rejects_traversal() {
    let json = sample().to_json();
    assert_eq!(validate_file_access("/data/../etc/passwd", &json), Ok(false));
    assert_eq!(validate_file_access("../data/x", &json), Ok(false));
}

#[test]
fn file_access_infers_operation() {
    let json = sample().to_json();
    // plain path: checked against the read list
    assert_eq!(validate_file_access("/data/file.txt", &json), Ok(true));
    // `.tmp` suffix: checked against the write list
    assert_eq!(validate_file_access("/out/scratch.tmp", &json), Ok(true));
    assert_eq!(validate_file_access("/data/file.tmp", &json), Ok(false));
    // `/temp/` run: checked against the write list
    assert_eq!(validate_file_access("/data/temp/x", &json), Ok(true));
}

#[test]
fn file_access_rejects_malformed_manifest() {
    assert!(validate_file_access("/data/x", "{oops").is_err());
}

#[test]
fn flag_gateways_read_parsed_manifest() {
    let json = sample().to_json();
    assert_eq!(validate_gpu_access(&json), Ok(false));
    assert_eq!(validate_network_access(&json), Ok(false));
    assert_eq!(validate_sensor_access(&json), Ok(true));
    assert_eq!(validate_camera_access(&json), Ok(false));
    assert!(validate_gpu_access("nope").is_err());
}

#[test]
fn gpu_buffer_framing() {
    assert_eq!(aligned_size(0), 0);
    assert_eq!(aligned_size(1), 4);
    assert_eq!(aligned_size(4), 4);
    assert_eq!(aligned_size(5), 8);
    let data = vec![1u8, 2, 3, 4, 5];
    let padded = pad_to_alignment(&data);
    assert_eq!(padded, vec![1u8, 2, 3, 4, 5, 0, 0, 0]);
    let trimmed = trim_to_length(&padded, data.len());
    assert_eq!(trimmed, data);
}

#[test]
fn hardware_op_defaults_and_setters() {
    let mut op = HardwareOp::new(HardwareOpType::GpuCompute);
    assert_eq!(op.method.as_deref(), Some("GET"));
    assert!(op.path.is_none());
    assert!(op.shader_code.is_none());
    op.set_path("C:\\data\\file".to_string());
    assert_eq!(op.path.as_deref(), Some("C:/data/file"));
    op.set_url("http://example".to_string());
    assert_eq!(op.url.as_deref(), Some("http://example"));
    op.set_method("POST".to_string());
    assert_eq!(op.method.as_deref(), Some("POST"));
    op.set_data(vec![1, 2, 3]);
    assert_eq!(op.data, Some(vec![1, 2, 3]));
    assert!(matches!(op.op_type, HardwareOpType::GpuCompute));
}
