use keccak_merkle::hasher::{digest_eq, digest_le, SolanaHasher};
use rs_merkle::Hasher;

fn unhex(s: &str) -> [u8; 32] {
    assert_eq!(s.len(), 64);
    let mut out = [0u8; 32];
    for i in 0..32 {
        out[i] = u8::from_str_radix(&s[2 * i..2 * i + 2], 16).unwrap();
    }
    out
}

#[test]
fn hash_of_empty_input() {
    assert_eq!(
        SolanaHasher::hash(&[]),
        unhex("c5d2460186f7233c927e7db2dcc703c0e500b653ca82273b7bfad8045d85a470")
    );
}

#[test]
fn hash_of_short_inputs() {
    assert_eq!(
        SolanaHasher::hash(b"a"),
        unhex("3ac225168df54212a25c1c01fd35bebfea408fdac2e31ddd6f80a4bbf9a5f1cb")
    );
    assert_eq!(
        SolanaHasher::hash(b"abc"),
        unhex("4e03657aea45a94fc7d47ba826c8d667c0d1e6e33a64a036ec44f58fa12d6c45")
    );
}

#[test]
fn hash_is_not_the_identity_on_a_digest() {
    let d = SolanaHasher::hash(b"a");
    assert_ne!(SolanaHasher::hash(&d), d);
}

#[test]
fn combine_hashes_the_smaller_digest_first() {
    let a = SolanaHasher::hash(b"a");
    let b = SolanaHasher::hash(b"b");
    assert!(a < b);
    let mut joined = Vec::new();
    joined.extend_from_slice(&a);
    joined.extend_from_slice(&b);
    let expected = SolanaHasher::hash(&joined);
    assert_eq!(SolanaHasher::combine(&a, &b), expected);
    assert_eq!(SolanaHasher::combine(&b, &a), expected);
    assert_eq!(
        expected,
        unhex("805b21d846b189efaeb0377d6bb0d201b3872a363e607c25088f025b0c6ae1f8")
    );
}

#[test]
fn combine_is_commutative() {
    for i in 0u8..12 {
        for j in 0u8..12 {
            let a = SolanaHasher::hash(&[i]);
            let b = SolanaHasher::hash(&[j, j]);
            assert_eq!(SolanaHasher::combine(&a, &b), SolanaHasher::combine(&b, &a));
        }
    }
}

#[test]
fn combine_of_a_digest_with_itself_hashes_it_twice() {
    let a = SolanaHasher::hash(b"a");
    let mut joined = Vec::new();
    joined.extend_from_slice(&a);
    joined.extend_from_slice(&a);
    assert_eq!(SolanaHasher::combine(&a, &a), SolanaHasher::hash(&joined));
}

#[test]
fn concat_and_hash_follows_the_tree_rule() {
    let a = SolanaHasher::hash(b"a");
    let b = SolanaHasher::hash(b"b");
    assert_eq!(SolanaHasher::concat_and_hash(&a, None), a);
    assert_eq!(
        SolanaHasher::concat_and_hash(&b, Some(&a)),
        SolanaHasher::combine(&a, &b)
    );
    assert_eq!(<SolanaHasher as Hasher>::hash(b"abc"), SolanaHasher::hash(b"abc"));
}

#[test]
fn digest_le_is_lexicographic() {
    let mut lo = [0u8; 32];
    let mut hi = [0u8; 32];
    assert!(digest_le(&lo, &hi));
    hi[31] = 1;
    assert!(digest_le(&lo, &hi));
    assert!(!digest_le(&hi, &lo));
    lo[0] = 1;
    assert!(!digest_le(&lo, &hi));
    assert!(digest_le(&hi, &lo));
    lo[0] = 0;
    lo[30] = 0xff;
    hi[30] = 0xfe;
    hi[31] = 0xff;
    assert!(digest_le(&hi, &lo));
    assert!(!digest_le(&lo, &hi));
    for i in 0u8..20 {
        for j in 0u8..20 {
            let a = SolanaHasher::hash(&[i]);
            let b = SolanaHasher::hash(&[j]);
            assert_eq!(digest_le(&a, &b), a <= b);
        }
    }
}

#[test]
fn digest_eq_compares_every_byte() {
    let a = SolanaHasher::hash(b"a");
    let mut b = a;
    assert!(digest_eq(&a, &b));
    b[31] ^= 1;
    assert!(!digest_eq(&a, &b));
    b = a;
    b[0] ^= 0x80;
    assert!(!digest_eq(&a, &b));
}
