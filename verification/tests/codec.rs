use wasi_security_layer::CapabilityManifest;
use wasi_security_layer::FSAccess;
use wasi_security_layer::json::ParseError;

fn sample() -> CapabilityManifest {
    CapabilityManifest {
        skill_name: "TestSkill".to_string(),
        filesystem: FSAccess {
            read: vec!["/data".to_string()],
            write: vec![],
            delete: vec![],
        },
        network: false,
        gpu: false,
        sensors: true,
        camera: false,
    }
}

fn assert_same(a: &CapabilityManifest, b: &CapabilityManifest) {
    assert_eq!(a.skill_name, b.skill_name);
    assert_eq!(a.filesystem.read, b.filesystem.read);
    assert_eq!(a.filesystem.write, b.filesystem.write);
    assert_eq!(a.filesystem.delete, b.filesystem.delete);
    assert_eq!(a.network, b.network);
    assert_eq!(a.gpu, b.gpu);
    assert_eq!(a.sensors, b.sensors);
    assert_eq!(a.camera, b.camera);
}

#[test]
fn to_json_pretty_prints() {
    let expected = "{\n  \"skill_name\": \"TestSkill\",\n  \"filesystem\": {\n    \"read\": [\n      \"/data\"\n    ],\n    \"write\": [],\n    \"delete\": []\n  },\n  \"network\": false,\n  \"gpu\": false,\n  \"sensors\": true,\n  \"camera\": false\n}";
    assert_eq!(sample().to_json(), expected);
}

#[test]
fn parse_inverts_to_json() {
    let m = sample();
    let parsed = CapabilityManifest::parse(&m.to_json()).unwrap();
    assert_same(&m, &parsed);
}

#[test]
fn parse_inverts_to_json_with_escapes() {
    let m = CapabilityManifest {
        skill_name: "weird \"name\" \\ with\ttabs\nand newlines".to_string(),
        filesystem: FSAccess {
            read: vec!["C:\\Users\\test".to_string(), "/a b/c".to_string()],
            write: vec!["/w".to_string()],
            delete: vec!["/d1".to_string(), "/d2".to_string(), "/d3".to_string()],
        },
        network: true,
        gpu: true,
        sensors: false,
        camera: true,
    };
    let parsed = CapabilityManifest::parse(&m.to_json()).unwrap();
    assert_same(&m, &parsed);
}

#[test]
fn parse_rejects_bad_input() {
    let r = CapabilityManifest::parse("{not json");
    assert_eq!(r.unwrap_err(), ParseError::MalformedManifest);
    assert!(CapabilityManifest::parse("").is_err());
    assert!(CapabilityManifest::parse("{}").is_err());
    assert!(CapabilityManifest::parse("42").is_err());
}

#[test]
fn parse_rejects_missing_fields() {
    // camera is missing
    let doc = "{\n  \"skill_name\": \"S\",\n  \"filesystem\": {\n    \"read\": [],\n    \"write\": [],\n    \"delete\": []\n  },\n  \"network\": false,\n  \"gpu\": false,\n  \"sensors\": true\n}";
    assert!(CapabilityManifest::parse(doc).is_err());
}

#[test]
fn parse_rejects_trailing_text() {
    let mut doc = sample().to_json();
    doc.push_str("x");
    assert!(CapabilityManifest::parse(&doc).is_err());
}

#[test]
fn parse_accepts_free_whitespace() {
    let doc = "  {  \"skill_name\" : \"S\" ,\n \"filesystem\" : { \"read\" : [ \"/r\" ] , \"write\" : [ ] , \"delete\" : [\"/x\",\"/y\"] } , \"network\" : true , \"gpu\" : false , \"sensors\" : false , \"camera\" : true }  ";
    let m = CapabilityManifest::parse(doc).unwrap();
    assert_eq!(m.skill_name, "S");
    assert_eq!(m.filesystem.read, vec!["/r".to_string()]);
    assert!(m.filesystem.write.is_empty());
    assert_eq!(m.filesystem.delete, vec!["/x".to_string(), "/y".to_string()]);
    assert!(m.network);
    assert!(!m.gpu);
    assert!(!m.sensors);
    assert!(m.camera);
}

#[test]
fn parse_decodes_escapes() {
    let doc = "{ \"skill_name\": \"a\\\"b\\\\c\\n\\t\\r\", \"filesystem\": { \"read\": [], \"write\": [], \"delete\": [] }, \"network\": false, \"gpu\": false, \"sensors\": false, \"camera\": false }";
    let m = CapabilityManifest::parse(doc).unwrap();
    assert_eq!(m.skill_name, "a\"b\\c\n\t\r");
}
