use base64::Engine;
use sha2::{Digest, Sha256, Sha512};
use vtz::pm::tarball::{base64_encode, strip_first_component, strip_package_prefix, verify_integrity};

#[test]
fn test_strip_first_component() {
    assert_eq!(strip_first_component("my-lib-abc123/index.js"), "index.js");
    assert_eq!(strip_first_component("my-lib-2.1.0/lib/utils.js"), "lib/utils.js");
    assert_eq!(strip_first_component("my-lib-develop/package.json"), "package.json");
    assert_eq!(strip_first_component("index.js"), "index.js");
}

#[test]
fn test_strip_package_prefix() {
    assert_eq!(strip_package_prefix("package/index.js"), "index.js");
    assert_eq!(strip_package_prefix("package/lib/utils.js"), "lib/utils.js");
    assert_eq!(strip_package_prefix("other/index.js"), "other/index.js");
    assert_eq!(strip_package_prefix("index.js"), "index.js");
}

#[test]
fn test_base64_encode() {
    assert_eq!(base64_encode(b"hello"), "aGVsbG8=");
    assert_eq!(base64_encode(b""), "");
    assert_eq!(base64_encode(b"abc"), "YWJj");
}

#[test]
fn base64_encode_padding_and_alphabet() {
    assert_eq!(base64_encode(b"a"), "YQ==");
    assert_eq!(base64_encode(b"ab"), "YWI=");
    assert_eq!(base64_encode(&[0xfb, 0xff, 0xbf]), "+/+/");
    assert_eq!(base64_encode(&[0, 0, 0, 0]), "AAAAAA==");
}

#[test]
fn test_verify_integrity_valid() {
    let data = b"test data";
    let mut hasher = Sha512::new();
    hasher.update(data);
    let hash = hasher.finalize();
    let integrity = format!("sha512-{}", base64_encode(&hash));
    assert!(verify_integrity(data, &integrity).is_ok());
}

#[test]
fn test_verify_integrity_invalid() {
    let result = verify_integrity(b"test data", "sha512-invalidhash");
    assert!(result.is_err());
    assert!(result.unwrap_err().contains("Integrity check failed"));
}

#[test]
fn test_verify_integrity_sha256_valid() {
    let data = b"test data for sha256";
    let mut hasher = Sha256::new();
    hasher.update(data);
    let hash = hasher.finalize();
    let integrity = format!("sha256-{}", base64_encode(&hash));
    assert!(verify_integrity(data, &integrity).is_ok());
}

#[test]
fn test_verify_integrity_sha256_invalid() {
    let result = verify_integrity(b"test data", "sha256-invalidhash");
    assert!(result.is_err());
    assert!(result.unwrap_err().contains("Integrity check failed"));
}

#[test]
fn test_verify_integrity_unknown_algo_errors() {
    let result = verify_integrity(b"test", "sha1-whatever");
    assert!(result.is_err());
    assert!(result.unwrap_err().contains("Unsupported integrity algorithm"));
}

#[test]
fn verify_integrity_malformed_and_exact_messages() {
    assert_eq!(
        verify_integrity(b"x", "nodash").unwrap_err(),
        "Invalid integrity format: nodash"
    );
    assert_eq!(
        verify_integrity(b"", "sha256-abc").unwrap_err(),
        "Integrity check failed: expected sha256-abc, got sha256-47DEQpj8HBSa+/TImW+5JCeuQeRkm5NMpJWZG3hSuFU="
    );
}

#[test]
fn base64_encode_decodes_back() {
    let inputs: Vec<Vec<u8>> = vec![vec![], vec![0], vec![1, 2], vec![255, 254, 253], (0..=255).collect()];
    for b in inputs {
        let text = base64_encode(&b);
        let back = base64::engine::general_purpose::STANDARD.decode(text.as_bytes()).unwrap();
        assert_eq!(back, b);
    }
}
