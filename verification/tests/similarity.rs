use danbooru_tools::digest::sha256_hex;
use danbooru_tools::similarity::{count_ones, near_duplicate_members, similar_index_pairs};

#[test]
fn bits_are_counted() {
    assert_eq!(count_ones(0), 0);
    assert_eq!(count_ones(0b1011), 3);
    assert_eq!(count_ones(u64::MAX), 64);
}

#[test]
fn close_pairs_are_listed_in_index_order() {
    let hashes = vec![0b0000_u64, 0b0001, 0b1111, 0b0011];

    let pairs = similar_index_pairs(&hashes, 1).unwrap();

    assert_eq!(pairs, vec![(0, 1, 1), (1, 3, 1)]);
}

#[test]
fn clusters_keep_their_smallest_member() {
    let members = near_duplicate_members(5, &vec![(3, 4, 0), (1, 3, 2), (0, 2, 1)]);

    assert_eq!(members, vec![(2, 0), (3, 1), (4, 1)]);
}

#[test]
fn sha256_hex_is_lowercase_hex() {
    assert_eq!(
        sha256_hex("abc"),
        "ba7816bf8f01cfea414140de5dae2223b00361a396177a9cb410ff61f20015ad"
    );
}
