use std::hash::BuildHasher;
use std::hash::Hash;
use std::hash::Hasher;

use ficcache::digest::digest;
use ficcache::digest::digest_of_hash;

fn is_upper_hex(c: char) -> bool {
    c.is_ascii_digit() || ('A'..='F').contains(&c)
}

#[test]
fn digest_of_url_has_fixed_shape() {
    let d = digest("https://example.com/x".as_bytes());
    assert_eq!(d.chars().count(), 17);
    assert!(d.starts_with('x'));
    assert!(d.chars().skip(1).all(is_upper_hex));
    assert_eq!(d, digest("https://example.com/x".as_bytes()));
}

#[test]
fn digest_is_stable_and_separates_inputs() {
    let a = digest(b"https://example.com/a");
    let b = digest(b"https://example.com/b");
    assert_eq!(a, digest(b"https://example.com/a"));
    assert_ne!(a, b);
    assert_ne!(digest(b""), digest(b"\0"));
}

#[test]
fn digest_matches_xxh3_of_slice() {
    let bytes: &[u8] = b"https://example.com/x";
    let mut h = std::hash::BuildHasherDefault::<twox_hash::Xxh3Hash64>::default().build_hasher();
    bytes.hash(&mut h);
    let expected = format!("x{:016X}", h.finish());
    assert_eq!(digest(bytes), expected);
}

#[test]
fn digest_of_hash_renders_sixteen_digits() {
    assert_eq!(digest_of_hash(0), "x0000000000000000");
    assert_eq!(digest_of_hash(0x0123_4567_89AB_CDEF), "x0123456789ABCDEF");
    assert_eq!(digest_of_hash(u64::MAX), "xFFFFFFFFFFFFFFFF");
    assert_eq!(digest_of_hash(255), "x00000000000000FF");
}
