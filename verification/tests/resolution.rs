use modloader::errors::LoadError;
use modloader::resolve::resolve;
use modloader::specifier::ModuleSpecifier;

fn spec_of(s: &str) -> ModuleSpecifier {
    ModuleSpecifier::from_bytes(s.as_bytes().to_vec()).unwrap()
}

fn resolve_str(raw: &str, referrer: &str) -> Result<Vec<u8>, LoadError> {
    let r = spec_of(referrer);
    resolve(&raw.as_bytes().to_vec(), &r).map(|m| m.as_bytes().clone())
}

#[test]
fn absolute_specifier_is_returned_unchanged() {
    let out = resolve_str("https://example.com/lib.js", "file:///proj/main.js").unwrap();
    assert_eq!(out, b"https://example.com/lib.js".to_vec());
}

#[test]
fn absolute_specifier_unchanged_against_any_referrer() {
    for referrer in ["file:///a/b.js", "https://h/x/y.js", "data:text/plain,zz"] {
        let out = resolve_str("file:///etc/mod.js", referrer).unwrap();
        assert_eq!(out, b"file:///etc/mod.js".to_vec());
    }
}

#[test]
fn dot_relative_joins_referrer_directory() {
    let out = resolve_str("./c.js", "file:///a/b.js").unwrap();
    assert_eq!(out, b"file:///a/c.js".to_vec());
}

#[test]
fn dotdot_relative_drops_one_segment() {
    let out = resolve_str("../c.js", "file:///a/d/b.js").unwrap();
    assert_eq!(out, b"file:///a/c.js".to_vec());
}

#[test]
fn dotdot_stops_at_the_path_root() {
    let out = resolve_str("../../../c.js", "file:///a/b.js").unwrap();
    assert_eq!(out, b"file:///c.js".to_vec());
}

#[test]
fn path_absolute_keeps_scheme_and_authority() {
    let out = resolve_str("/c.js", "https://host/x/y.js").unwrap();
    assert_eq!(out, b"https://host/c.js".to_vec());
}

#[test]
fn scheme_relative_keeps_the_scheme() {
    let out = resolve_str("//other/z.js", "https://host/x.js").unwrap();
    assert_eq!(out, b"https://other/z.js".to_vec());
}

#[test]
fn bare_specifier_is_a_resolution_error() {
    let err = resolve_str("bare.js", "file:///a/b.js").unwrap_err();
    assert_eq!(err, LoadError::Resolution);
}

#[test]
fn empty_specifier_is_a_resolution_error() {
    let err = resolve_str("", "file:///a/b.js").unwrap_err();
    assert_eq!(err, LoadError::Resolution);
}

#[test]
fn resolution_is_idempotent() {
    let once = resolve_str("./c.js", "file:///a/b.js").unwrap();
    let text = String::from_utf8(once.clone()).unwrap();
    for referrer in ["file:///a/b.js", "https://h/q.js"] {
        let again = resolve_str(&text, referrer).unwrap();
        assert_eq!(again, once);
    }
}

#[test]
fn resolution_is_deterministic() {
    let a = resolve_str("./c.js", "file:///a/b.js").unwrap();
    let b = resolve_str("./c.js", "file:///a/b.js").unwrap();
    assert_eq!(a, b);
}

#[test]
fn schemeless_bytes_are_no_specifier() {
    assert!(ModuleSpecifier::from_bytes(b"no-scheme-here/x".to_vec()).is_err());
    assert!(ModuleSpecifier::from_bytes(b"".to_vec()).is_err());
    assert!(ModuleSpecifier::from_bytes(b"file:///ok.js".to_vec()).is_ok());
}

#[test]
fn dot_segments_normalize_anywhere_in_the_merged_path() {
    let out = resolve_str("./x/../c.js", "file:///a/b.js").unwrap();
    assert_eq!(out, b"file:///a/c.js".to_vec());
    let out = resolve_str("./x/./y.js", "file:///a/b.js").unwrap();
    assert_eq!(out, b"file:///a/x/y.js".to_vec());
    let out = resolve_str("../p/q/../r.js", "https://h/a/b/c.js").unwrap();
    assert_eq!(out, b"https://h/a/p/r.js".to_vec());
}

#[test]
fn a_trailing_dot_segment_yields_the_directory() {
    let out = resolve_str("./x/.", "file:///a/b.js").unwrap();
    assert_eq!(out, b"file:///a/x/".to_vec());
    let out = resolve_str("./x/..", "file:///a/b.js").unwrap();
    assert_eq!(out, b"file:///a/".to_vec());
}
