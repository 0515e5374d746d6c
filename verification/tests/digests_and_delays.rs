use danbooru_tools::danbooru_client::retry_after_delay;
use danbooru_tools::digest::{Md5Hasher, Sha256Hasher};

#[test]
fn sha256_fed_in_chunks_matches_the_whole_input() {
    let mut hasher = Sha256Hasher::new();
    hasher.update(b"a");
    hasher.update(b"");
    hasher.update(b"bc");
    assert_eq!(
        hasher.finish_hex(),
        "ba7816bf8f01cfea414140de5dae2223b00361a396177a9cb410ff61f20015ad"
    );
}

#[test]
fn sha256_of_nothing() {
    let hasher = Sha256Hasher::new();
    let digest = hasher.finish();
    assert_eq!(digest.len(), 32);
    assert_eq!(digest[0], 0xe3);
    assert_eq!(digest[31], 0x55);
}

#[test]
fn md5_fed_in_chunks_matches_the_whole_input() {
    let mut hasher = Md5Hasher::new();
    hasher.update(b"ab");
    hasher.update(b"c");
    assert_eq!(hasher.finish_hex(), "900150983cd24fb0d6963f7d28e17f72");
}

#[test]
fn md5_of_nothing() {
    assert_eq!(Md5Hasher::new().finish_hex(), "d41d8cd98f00b204e9800998ecf8427e");
}

#[test]
fn retry_after_whole_seconds_are_trimmed() {
    assert_eq!(retry_after_delay("  12 ", 1_000, 5), Some((12, 0)));
    assert_eq!(retry_after_delay("0", 1_000, 0), Some((0, 0)));
}

#[test]
fn retry_after_http_date_is_measured_from_now() {
    // Wed, 21 Oct 2015 07:28:00 GMT is 1445412480 seconds after the epoch.
    let date = "Wed, 21 Oct 2015 07:28:00 GMT";
    assert_eq!(retry_after_delay(date, 1_445_412_470, 0), Some((10, 0)));
    assert_eq!(retry_after_delay(date, 1_445_412_470, 500), Some((9, 999_999_500)));
    assert_eq!(retry_after_delay(date, 1_445_412_480, 0), Some((0, 0)));
    assert_eq!(retry_after_delay(date, 1_445_412_999, 7), Some((0, 0)));
}

#[test]
fn retry_after_rejects_other_text() {
    assert_eq!(retry_after_delay("soon", 0, 0), None);
    assert_eq!(retry_after_delay("", 0, 0), None);
    assert_eq!(retry_after_delay("-5", 0, 0), None);
}
