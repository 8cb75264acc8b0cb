use cratesync::digest::sha256_hex;
use cratesync::item::{artifact_path, download_url, partial_path, WorkItem};
use cratesync::report::dec_str;
use cratesync::worker::{
    classify_status, http_failure_record, verify_body, BodyVerdict, StatusClass,
};

fn item(name: &str, version: &str, cksum: &str) -> WorkItem {
    WorkItem {
        name: name.to_owned(),
        version: version.to_owned(),
        cksum: cksum.to_owned(),
    }
}

#[test]
fn sha256_hex_of_empty_input() {
    let body: Vec<u8> = Vec::new();
    assert_eq!(
        sha256_hex(&body),
        "e3b0c44298fc1c149afbf4c8996fb92427ae41e4649b934ca495991b7852b855"
    );
}

#[test]
fn sha256_hex_of_known_input() {
    let body = b"hello world".to_vec();
    assert_eq!(
        sha256_hex(&body),
        "b94d27b9934d3e08a52e52d7da7dabfac484efe37a5380ee9088f7ace2efcde9"
    );
}

#[test]
fn artifact_paths_are_deterministic() {
    assert_eq!(artifact_path("foo", "1.0.0"), "crates/foo/foo-1.0.0.crate");
    assert_eq!(
        partial_path("foo", "1.0.0"),
        "crates/foo/foo-1.0.0.crate.partial"
    );
    assert_eq!(
        download_url("foo", "1.0.0"),
        "https://static.crates.io/crates/foo/foo-1.0.0.crate"
    );
}

#[test]
fn status_classification() {
    assert!(matches!(classify_status(200), StatusClass::Success));
    assert!(matches!(classify_status(299), StatusClass::Success));
    assert!(matches!(classify_status(403), StatusClass::Forbidden));
    assert!(matches!(classify_status(300), StatusClass::Failure));
    assert!(matches!(classify_status(404), StatusClass::Failure));
    assert!(matches!(classify_status(500), StatusClass::Failure));
    assert!(matches!(classify_status(199), StatusClass::Failure));
}

#[test]
fn matching_body_commits() {
    // Scenario: the catalog expects the digest the server's bytes hash to,
    // so the download may be committed to its final path.
    let body = b"hello world".to_vec();
    let it = item(
        "foo",
        "1.0.0",
        "b94d27b9934d3e08a52e52d7da7dabfac484efe37a5380ee9088f7ace2efcde9",
    );
    assert!(matches!(verify_body(&it, &body), BodyVerdict::Commit));
}

#[test]
fn mismatching_body_reports_both_digests() {
    // Scenario: the server's bytes hash to a digest the catalog does not
    // expect; nothing may be committed and the report names both digests.
    let body = b"xyz".to_vec();
    let expected = "1111111111111111111111111111111111111111111111111111111111111111";
    let actual = "3608bca1e44ea6c4d268eb6db02260269892c0b42b86bbf1e77a6fa16c3c9282";
    assert_eq!(sha256_hex(&body), actual);
    let it = item("baz", "0.1.0", expected);
    match verify_body(&it, &body) {
        BodyVerdict::Commit => panic!("a mismatched body must not be committed"),
        BodyVerdict::Mismatch(e) => {
            assert_eq!(e.name, "baz");
            assert_eq!(e.version, "0.1.0");
            assert_eq!(
                e.message,
                format!(
                    "invalid checksum on crates/baz/baz-0.1.0.crate: should be {expected}, but is {actual}"
                )
            );
        }
    }
}

#[test]
fn decimal_rendering_is_exact() {
    assert_eq!(dec_str(0), "0");
    assert_eq!(dec_str(10), "10");
    assert_eq!(dec_str(404), "404");
    assert_eq!(dec_str(65535), "65535");
}

#[test]
fn http_failure_names_status_and_url() {
    let it = item("foo", "1.0.0", "c1");
    let e = http_failure_record(&it, 404);
    assert_eq!(e.name, "foo");
    assert_eq!(e.version, "1.0.0");
    assert_eq!(
        e.message,
        "HTTP status 404 for https://static.crates.io/crates/foo/foo-1.0.0.crate"
    );
}

#[test]
fn tampered_body_is_detected() {
    let body = b"hello world".to_vec();
    let mut tampered = body.clone();
    tampered[0] ^= 1;
    let it = item(
        "foo",
        "1.0.0",
        "b94d27b9934d3e08a52e52d7da7dabfac484efe37a5380ee9088f7ace2efcde9",
    );
    assert!(matches!(verify_body(&it, &body), BodyVerdict::Commit));
    assert!(matches!(
        verify_body(&it, &tampered),
        BodyVerdict::Mismatch(_)
    ));
}
