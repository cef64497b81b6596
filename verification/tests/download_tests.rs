use bible_mcp::download::{
    check_digest, db_needs_update, hex_string, sha256_hex, verify_download, Manifest,
};

fn manifest(sha: &str) -> Manifest {
    Manifest {
        version: "1.0.0".to_string(),
        sha256: sha.to_string(),
        url: "https://example.invalid/bible.db".to_string(),
    }
}

const ABC_SHA256: &str = "ba7816bf8f01cfea414140de5dae2223b00361a396177a9cb410ff61f20015ad";

#[test]
fn sha256_of_abc() {
    assert_eq!(sha256_hex(b"abc"), ABC_SHA256);
    assert_eq!(
        sha256_hex(b""),
        "e3b0c44298fc1c149afbf4c8996fb92427ae41e4649b934ca495991b7852b855"
    );
}

#[test]
fn hex_is_lowercase_two_digits_per_byte() {
    assert_eq!(hex_string(&[0x0a, 0x14, 0x1e]), "0a141e");
    assert_eq!(hex_string(&[0xff, 0x00]), "ff00");
    assert_eq!(hex_string(&[]), "");
}

#[test]
fn database_update_decisions() {
    assert!(db_needs_update(None, &manifest(ABC_SHA256)));
    assert!(!db_needs_update(Some(b"abc"), &manifest(ABC_SHA256)));
    assert!(db_needs_update(Some(b"abd"), &manifest(ABC_SHA256)));
    assert!(db_needs_update(Some(b"abc"), &manifest(&ABC_SHA256.to_uppercase())));
}

#[test]
fn download_checksum() {
    assert!(verify_download(b"abc", &manifest(ABC_SHA256)).is_ok());
    let err = verify_download(b"abc", &manifest("00")).unwrap_err();
    assert_eq!(err.expected, "00");
    assert_eq!(err.actual, ABC_SHA256);
    assert_eq!(
        err.message(),
        format!("SHA-256 mismatch: expected 00, got {}", ABC_SHA256)
    );
}

#[test]
fn digest_check_compares_hex() {
    let digest = [0xba, 0x78, 0x16, 0xbf];
    assert!(check_digest(&digest, &manifest("ba7816bf")).is_ok());
    let err = check_digest(&digest, &manifest("BA7816BF")).unwrap_err();
    assert_eq!(err.expected, "BA7816BF");
    assert_eq!(err.actual, "ba7816bf");
    assert!(check_digest(&[], &manifest("")).is_ok());
}
