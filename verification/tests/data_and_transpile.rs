use modloader::errors::{LoadError, ModuleType, RequestedKind};
use modloader::fetch::fetch_data;
use modloader::specifier::ModuleSpecifier;
use modloader::transpile::maybe_transpile;

fn spec_of(s: &str) -> ModuleSpecifier {
    ModuleSpecifier::from_bytes(s.as_bytes().to_vec()).unwrap()
}

fn contains(haystack: &[u8], needle: &[u8]) -> bool {
    haystack.windows(needle.len()).any(|w| w == needle)
}

#[test]
fn plain_data_url_decodes_to_its_payload() {
    let m = spec_of("data:text/plain,hello%20world");
    let src = fetch_data(&m, RequestedKind::Default).unwrap();
    assert_eq!(src.bytes, b"hello world".to_vec());
    assert_eq!(src.module_type, ModuleType::Script);
}

#[test]
fn base64_data_url_decodes_to_its_payload() {
    let m = spec_of("data:text/plain;base64,aGVsbG8=");
    let src = fetch_data(&m, RequestedKind::Default).unwrap();
    assert_eq!(src.bytes, b"hello".to_vec());
}

#[test]
fn data_url_without_a_comma_is_invalid_encoding() {
    let m = spec_of("data:text/plain;base64");
    assert_eq!(
        fetch_data(&m, RequestedKind::Default).unwrap_err(),
        LoadError::InvalidDataEncoding
    );
}

#[test]
fn data_url_kind_outside_the_supported_set_is_refused() {
    let m = spec_of("data:text/plain,hi");
    assert_eq!(
        fetch_data(&m, RequestedKind::Other).unwrap_err(),
        LoadError::UnsupportedModuleType
    );
}

#[test]
fn typed_superset_source_is_lowered_to_native_source() {
    let m = spec_of("file:///proj/mod.ts");
    let out = maybe_transpile(&m, b"const x: number = 42;\n".to_vec()).unwrap();
    assert!(contains(&out, b"const x = 42"));
    assert!(!contains(&out, b": number"));
}

#[test]
fn type_annotations_alone_leave_the_runtime_code_intact() {
    let m = spec_of("file:///proj/mod.ts");
    let typed = b"interface P { x: number }\nconst p = { x: 1 };\nconsole.log(p.x);\n".to_vec();
    let out = maybe_transpile(&m, typed).unwrap();
    assert!(contains(&out, b"const p = {"));
    assert!(contains(&out, b"console.log(p.x);"));
    assert!(!contains(&out, b"interface"));
}

#[test]
fn native_source_passes_through_unchanged() {
    let m = spec_of("file:///proj/mod.js");
    let body = b"const x: this would not even parse;".to_vec();
    let out = maybe_transpile(&m, body.clone()).unwrap();
    assert_eq!(out, body);
}

#[test]
fn short_specifiers_never_match_the_marker() {
    let m = spec_of("a:b");
    let body = b"1;".to_vec();
    let out = maybe_transpile(&m, body.clone()).unwrap();
    assert_eq!(out, body);
}

#[test]
fn malformed_typed_source_reports_its_location() {
    let m = spec_of("file:///proj/bad.ts");
    let err = maybe_transpile(&m, b"const x: = ;\n".to_vec()).unwrap_err();
    match err {
        LoadError::Transpile { line, column } => {
            assert_eq!(line, 1);
            assert!(column > 0);
        },
        other => panic!("expected a transpile error, got {:?}", other),
    }
}
