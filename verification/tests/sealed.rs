use mv_engine::sealed::{frame_sealed_blob, is_sealed_blob, vault_is_sealed};

#[test]
fn sealed_vault_blocks_until_unsealed() {
    assert!(vault_is_sealed(true, false));
    assert!(!vault_is_sealed(true, true));
    assert!(!vault_is_sealed(false, false));
    assert!(!vault_is_sealed(false, true));
}

#[test]
fn framed_blob_starts_with_magic_and_keeps_envelope() {
    let envelope = vec![1u8, 2, 3, 250];
    let framed = frame_sealed_blob(&envelope);
    assert_eq!(framed, b"MVB1\x01\x02\x03\xfa".to_vec());
    assert!(is_sealed_blob(&framed));
}

#[test]
fn plain_bytes_are_not_sealed_blobs() {
    assert!(!is_sealed_blob(b"MVB"));
    assert!(!is_sealed_blob(b""));
    assert!(!is_sealed_blob(b"MVB2payload"));
    assert!(!is_sealed_blob(b"{\"id\":1}"));
    assert!(is_sealed_blob(b"MVB1"));
}
