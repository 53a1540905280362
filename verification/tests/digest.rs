use buck2_telemetry::digest::digest_to_text;
use buck2_telemetry::digest::sha256_text;

#[test]
fn the_digest_of_hello() {
    assert_eq!(
        sha256_text(b"hello"),
        "SHA256:2cf24dba5fb0a30e26e83b2ac5b9e29e1b161e5c1fa7425e73043362938b9824",
    );
    let digest = ring::digest::digest(&ring::digest::SHA256, b"hello");
    assert_eq!(sha256_text(b"hello"), format!("{digest:?}"));
}

#[test]
fn digests_are_written_in_hexadecimal() {
    assert_eq!(digest_to_text(&vec![]), "SHA256:");
    assert_eq!(digest_to_text(&vec![0x00, 0x0f, 0xa9, 0xff]), "SHA256:000fa9ff");
    assert_ne!(sha256_text(b"a"), sha256_text(b"b"));
}
