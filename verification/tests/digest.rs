use dencrypt::digest::{md5_hex, to_hex};
use dencrypt::job::{hash_key, DencryptData};

fn job_with_key(key: &str) -> DencryptData {
    DencryptData::new(String::from("target"), false, String::from(key), false, true)
}

#[test]
fn to_hex_writes_two_lower_case_digits_per_byte() {
    assert_eq!(to_hex(&[]), "");
    assert_eq!(to_hex(&[0x00]), "00");
    assert_eq!(to_hex(&[0x0f, 0xa0, 0xff, 0x09, 0x9a]), "0fa0ff099a");
    assert_eq!(to_hex(&[0x01, 0x23, 0x45, 0x67, 0x89, 0xab, 0xcd, 0xef]), "0123456789abcdef");
}

#[test]
fn md5_hex_of_known_inputs() {
    assert_eq!(md5_hex(b""), "d41d8cd98f00b204e9800998ecf8427e");
    assert_eq!(md5_hex(b"abc"), "900150983cd24fb0d6963f7d28e17f72");
    assert_eq!(md5_hex(b"abcdefghijklmnopqrstuvwxyz"), "c3fcd3d76192e4007dfb496cca67e13b");
}

#[test]
fn md5_hex_agrees_with_the_digest_formatted_by_its_crate() {
    for input in [&b""[..], &b"a"[..], &b"ab"[..], &b"\x00\x01\xfe\xff"[..], &b"passphrase"[..]] {
        assert_eq!(md5_hex(input), format!("{:x}", md5::compute(input)));
    }
    let long: Vec<u8> = (0..1000u32).map(|n| (n % 251) as u8).collect();
    assert_eq!(md5_hex(&long), format!("{:x}", md5::compute(&long)));
}

#[test]
fn md5_hex_differs_from_its_input() {
    let text = md5_hex(b"0123456789abcdef0123456789abcdef");
    assert_eq!(text.len(), 32);
    assert_ne!(text, "0123456789abcdef0123456789abcdef");
}

#[test]
fn hash_key_is_the_digest_of_the_passphrase() {
    assert_eq!(hash_key(&job_with_key("ab"), 3), "187ef4436122d1cc2f40dc2b92f0eba0");
    assert_eq!(hash_key(&job_with_key("abc"), 3), "900150983cd24fb0d6963f7d28e17f72");
    assert_eq!(hash_key(&job_with_key(""), 3), "d41d8cd98f00b204e9800998ecf8427e");
}

#[test]
fn hash_key_ignores_the_round_count() {
    let job = job_with_key("secret");
    let once = hash_key(&job, 1);
    assert_eq!(once, format!("{:x}", md5::compute("secret")));
    for rounds in [0u8, 1, 2, 3, 4, 100, 255] {
        assert_eq!(hash_key(&job, rounds), once);
    }
}

#[test]
fn hash_key_digests_the_utf8_bytes() {
    let job = job_with_key("cl\u{e9}");
    assert_eq!(hash_key(&job, 3), format!("{:x}", md5::compute("cl\u{e9}".as_bytes())));
}
