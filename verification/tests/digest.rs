use sha2::Digest;
use validation_archiver::digest::{compute_file_hash, hex_string};

#[test]
fn known_digests() {
    assert_eq!(
        compute_file_hash(b""),
        "e3b0c44298fc1c149afbf4c8996fb92427ae41e4649b934ca495991b7852b855"
    );
    assert_eq!(
        compute_file_hash(b"abc"),
        "ba7816bf8f01cfea414140de5dae2223b00361a396177a9cb410ff61f20015ad"
    );
    assert_eq!(
        compute_file_hash(b"hello world"),
        "b94d27b9934d3e08a52e52d7da7dabfac484efe37a5380ee9088f7ace2efcde9"
    );
}

#[test]
fn digest_in_lower_case_hexadecimal() {
    let data: Vec<u8> = (0..2000u32).map(|i| (i % 251) as u8).collect();
    let mut hasher = sha2::Sha256::new();
    for chunk in data.chunks(333) {
        hasher.update(chunk);
    }
    assert_eq!(compute_file_hash(&data), format!("{:x}", hasher.finalize()));
}

#[test]
fn bytes_in_hexadecimal() {
    assert_eq!(hex_string(&[]), "");
    assert_eq!(hex_string(&[0x00, 0x0a, 0xbe, 0xef, 0xff]), "000abeefff");
}

#[test]
fn different_bytes_have_different_hexadecimal_forms() {
    for a in 0..=255u8 {
        for b in 0..=255u8 {
            assert_eq!(hex_string(&[a]) == hex_string(&[b]), a == b);
        }
    }
}
