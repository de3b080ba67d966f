use modloader::errors::{IoKind, LoadError, ModuleType, RequestedKind};
use modloader::fetch::{complete_fetch, plan_fetch, FetchOutcome, FetchPlan};
use modloader::specifier::ModuleSpecifier;

fn spec_of(s: &str) -> ModuleSpecifier {
    ModuleSpecifier::from_bytes(s.as_bytes().to_vec()).unwrap()
}

#[test]
fn file_specifier_plans_a_read_of_its_decoded_path() {
    let m = spec_of("file:///tmp/a%20b.js");
    match plan_fetch(&m, RequestedKind::Default).unwrap() {
        FetchPlan::ReadFile(path) => assert_eq!(path, b"/tmp/a b.js".to_vec()),
        _ => panic!("expected a file read"),
    }
}

#[test]
fn http_and_https_plan_a_get() {
    for s in ["http://h/x.js", "https://h/x.js"] {
        let m = spec_of(s);
        assert!(matches!(plan_fetch(&m, RequestedKind::Default).unwrap(), FetchPlan::HttpGet));
    }
}

#[test]
fn data_specifier_plans_inline_decoding() {
    let m = spec_of("data:text/plain,hi");
    assert!(matches!(plan_fetch(&m, RequestedKind::Default).unwrap(), FetchPlan::DecodeData));
}

#[test]
fn unknown_scheme_is_unsupported() {
    let m = spec_of("ftp://h/x.js");
    assert_eq!(plan_fetch(&m, RequestedKind::Default).unwrap_err(), LoadError::UnsupportedScheme);
}

#[test]
fn file_specifier_with_a_host_is_an_invalid_file_reference() {
    let m = spec_of("file://host/x.js");
    assert_eq!(
        plan_fetch(&m, RequestedKind::Default).unwrap_err(),
        LoadError::InvalidFileReference
    );
}

#[test]
fn file_specifier_with_a_bad_escape_is_an_invalid_file_reference() {
    let m = spec_of("file:///tmp/a%zz.js");
    assert_eq!(
        plan_fetch(&m, RequestedKind::Default).unwrap_err(),
        LoadError::InvalidFileReference
    );
}

#[test]
fn unsupported_module_kind_fails_before_any_fetch_is_planned() {
    let m = spec_of("https://h/x.js");
    assert_eq!(
        plan_fetch(&m, RequestedKind::Other).unwrap_err(),
        LoadError::UnsupportedModuleType
    );
    let d = spec_of("data:text/plain,hi");
    assert_eq!(
        plan_fetch(&d, RequestedKind::Other).unwrap_err(),
        LoadError::UnsupportedModuleType
    );
}

#[test]
fn failed_file_read_keeps_its_io_kind() {
    let m = spec_of("file:///no/such/file.js");
    let out = complete_fetch(&m, RequestedKind::Default, FetchOutcome::FileError(IoKind::NotFound));
    assert_eq!(out.unwrap_err(), LoadError::Io(IoKind::NotFound));
}

#[test]
fn transport_failure_is_a_network_error() {
    let m = spec_of("https://h/x.js");
    let out = complete_fetch(&m, RequestedKind::Default, FetchOutcome::HttpTransportError);
    assert_eq!(out.unwrap_err(), LoadError::Network);
}

#[test]
fn non_success_status_keeps_its_code() {
    let m = spec_of("https://h/x.js");
    let outcome = FetchOutcome::HttpResponse {
        status: 404,
        bytes: b"gone".to_vec(),
        final_url: b"https://h/x.js".to_vec(),
    };
    let out = complete_fetch(&m, RequestedKind::Default, outcome);
    assert_eq!(out.unwrap_err(), LoadError::HttpStatus(404));
}

#[test]
fn default_kind_is_served_as_script() {
    let m = spec_of("file:///a.js");
    let outcome = FetchOutcome::FileBytes(b"1 + 1;".to_vec());
    let src = complete_fetch(&m, RequestedKind::Default, outcome).unwrap();
    assert_eq!(src.module_type, ModuleType::Script);
    assert_eq!(src.bytes, b"1 + 1;".to_vec());
    assert!(src.resolved_specifier.is_none());
}

#[test]
fn structured_data_kind_is_served_as_structured_data() {
    let m = spec_of("file:///a.json");
    let outcome = FetchOutcome::FileBytes(b"{\"k\":1}".to_vec());
    let src = complete_fetch(&m, RequestedKind::StructuredData, outcome).unwrap();
    assert_eq!(src.module_type, ModuleType::StructuredData);
}

#[test]
fn redirected_response_records_the_final_identifier() {
    let m = spec_of("https://h/a.js");
    let outcome = FetchOutcome::HttpResponse {
        status: 200,
        bytes: b"x;".to_vec(),
        final_url: b"https://h/b.js".to_vec(),
    };
    let src = complete_fetch(&m, RequestedKind::Default, outcome).unwrap();
    assert_eq!(src.specifier.as_bytes(), &b"https://h/a.js".to_vec());
    let rs = src.resolved_specifier.unwrap();
    assert_eq!(rs.as_bytes(), &b"https://h/b.js".to_vec());
}

#[test]
fn response_without_redirect_records_no_final_identifier() {
    let m = spec_of("https://h/a.js");
    let outcome = FetchOutcome::HttpResponse {
        status: 200,
        bytes: b"x;".to_vec(),
        final_url: b"https://h/a.js".to_vec(),
    };
    let src = complete_fetch(&m, RequestedKind::Default, outcome).unwrap();
    assert!(src.resolved_specifier.is_none());
}
