//! The digest function and the order-independent pair combiner.

use vstd::prelude::*;

verus! {

/// The Keccak-256 digest of a byte string.
pub uninterp spec fn keccak256(data: Seq<u8>) -> [u8; 32];

/// Lexicographic comparison of two byte strings from position `i` on, given
/// that they agree before `i`.
pub open spec fn lex_le_from(a: Seq<u8>, b: Seq<u8>, i: int) -> bool
    decreases a.len() - i,
{
    if i < 0 || i >= a.len() {
        true
    } else if i >= b.len() {
        false
    } else if a[i] != b[i] {
        a[i] < b[i]
    } else {
        lex_le_from(a, b, i + 1)
    }
}

/// `a` is at most `b` in byte-wise lexicographic order.
pub open spec fn lex_le(a: Seq<u8>, b: Seq<u8>) -> bool {
    lex_le_from(a, b, 0)
}

/// The 64 bytes of `a` and `b`, the smaller digest first.
pub open spec fn ordered_concat(a: [u8; 32], b: [u8; 32]) -> Seq<u8> {
    if lex_le(a@, b@) {
        a@ + b@
    } else {
        b@ + a@
    }
}

/// The order of digests, as a relation.
pub open spec fn digest_leq() -> spec_fn([u8; 32], [u8; 32]) -> bool {
    |a: [u8; 32], b: [u8; 32]| lex_le(a@, b@)
}

/// The digest of the pair `a`, `b`: the smaller one first, then the larger,
/// hashed as one 64-byte string.
pub open spec fn combine_spec(a: [u8; 32], b: [u8; 32]) -> [u8; 32] {
    keccak256(ordered_concat(a, b))
}

/// What a node becomes one layer up: combined with its sibling, or carried
/// over unchanged where it has none.
pub open spec fn concat_and_hash_spec(left: [u8; 32], right: Option<[u8; 32]>) -> [u8; 32] {
    match right {
        Some(r) => combine_spec(left, r),
        None => left,
    }
}

/// From a position up to which `a` and `b` agree, one of them is at most
/// the other, and both ways only if they are equal.
proof fn lemma_lex_from(a: Seq<u8>, b: Seq<u8>, i: int)
    requires
        0 <= i <= a.len(),
        i <= b.len(),
        forall|k: int| 0 <= k < i ==> a[k] == b[k],
    ensures
        lex_le_from(a, b, i) || lex_le_from(b, a, i),
        lex_le_from(a, b, i) && lex_le_from(b, a, i) ==> a == b,
    decreases a.len() - i,
{
    if i < a.len() && i < b.len() {
        if a[i] == b[i] {
            lemma_lex_from(a, b, i + 1);
        }
    } else if i == a.len() && i == b.len() {
        assert(a =~= b);
    }
}

/// Any two byte strings are comparable.
pub proof fn lemma_lex_le_total(a: Seq<u8>, b: Seq<u8>)
    ensures
        lex_le(a, b) || lex_le(b, a),
{
    lemma_lex_from(a, b, 0);
}

/// Two byte strings that are each at most the other are equal.
pub proof fn lemma_lex_le_antisymmetric(a: Seq<u8>, b: Seq<u8>)
    requires
        lex_le(a, b),
        lex_le(b, a),
    ensures
        a == b,
{
    lemma_lex_from(a, b, 0);
}

/// The order is transitive, from any position on.
proof fn lemma_lex_from_transitive(a: Seq<u8>, b: Seq<u8>, c: Seq<u8>, i: int)
    requires
        0 <= i,
        lex_le_from(a, b, i),
        lex_le_from(b, c, i),
    ensures
        lex_le_from(a, c, i),
    decreases a.len() - i,
{
    if i < a.len() && a[i] == b[i] && b[i] == c[i] {
        lemma_lex_from_transitive(a, b, c, i + 1);
    }
}

/// If `a` is at most `b` and `b` at most `c`, then `a` is at most `c`.
pub proof fn lemma_lex_le_transitive(a: Seq<u8>, b: Seq<u8>, c: Seq<u8>)
    requires
        lex_le(a, b),
        lex_le(b, c),
    ensures
        lex_le(a, c),
{
    lemma_lex_from_transitive(a, b, c, 0);
}

/// Digests are totally ordered.
pub proof fn lemma_digest_order_is_total()
    ensures
        vstd::relations::total_ordering(digest_leq()),
{
    let leq = digest_leq();
    assert forall|a: [u8; 32]| #[trigger] leq(a, a) by {
        lemma_lex_le_total(a@, a@);
    }
    assert forall|a: [u8; 32], b: [u8; 32]| #[trigger] leq(a, b) && #[trigger] leq(b, a) implies a
        == b by {
        lemma_lex_le_antisymmetric(a@, b@);
        assert(a =~= b);
    }
    assert forall|a: [u8; 32], b: [u8; 32], c: [u8; 32]| #[trigger]
        leq(a, b) && #[trigger] leq(b, c) implies leq(a, c) by {
        lemma_lex_le_transitive(a@, b@, c@);
    }
    assert forall|a: [u8; 32], b: [u8; 32]| #[trigger] leq(a, b) || #[trigger] leq(b, a) by {
        lemma_lex_le_total(a@, b@);
    }
}

/// The bytes that are hashed for a pair do not depend on the order in which
/// the pair is given.
pub proof fn lemma_ordered_concat_symmetric(a: [u8; 32], b: [u8; 32])
    ensures
        ordered_concat(a, b) == ordered_concat(b, a),
{
    lemma_lex_le_total(a@, b@);
    if lex_le(a@, b@) && lex_le(b@, a@) {
        lemma_lex_le_antisymmetric(a@, b@);
    }
}

/// Combining is commutative: the order in which the two digests are given
/// does not change the result.
pub proof fn lemma_combine_commutative(a: [u8; 32], b: [u8; 32])
    ensures
        combine_spec(a, b) == combine_spec(b, a),
{
    lemma_ordered_concat_symmetric(a, b);
}

/// Two different digests paired with the same third one give different
/// bytes to hash.
pub proof fn lemma_ordered_concat_injective(a: [u8; 32], b: [u8; 32], c: [u8; 32])
    requires
        a != b,
    ensures
        ordered_concat(a, c) != ordered_concat(b, c),
{
    let x = ordered_concat(a, c);
    let y = ordered_concat(b, c);
    if x == y {
        let (lo1, hi1) = if lex_le(a@, c@) {
            (a@, c@)
        } else {
            (c@, a@)
        };
        let (lo2, hi2) = if lex_le(b@, c@) {
            (b@, c@)
        } else {
            (c@, b@)
        };
        assert(x.subrange(0, 32) =~= lo1);
        assert(x.subrange(32, 64) =~= hi1);
        assert(y.subrange(0, 32) =~= lo2);
        assert(y.subrange(32, 64) =~= hi2);
        assert(a@ == b@);
        assert(a =~= b);
    }
}

/// Calls `solana_sdk::keccak::hashv` on the single slice `data` and returns
/// the 32 bytes of the hash. The contract claims that they are the
/// Keccak-256 digest of `data`, which `keccak256` stands for.
#[verifier::external_body]
fn keccak(data: &[u8]) -> (r: [u8; 32])
    ensures
        r == keccak256(data@),
{
    solana_sdk::keccak::hashv(&[data]).0
}

/// Whether `a` is at most `b` in byte-wise lexicographic order.
pub fn digest_le(a: &[u8; 32], b: &[u8; 32]) -> (r: bool)
    ensures
        r == lex_le(a@, b@),
{
    let mut i: usize = 0;
    while i < 32
        invariant
            i <= 32,
            lex_le(a@, b@) == lex_le_from(a@, b@, i as int),
        decreases 32 - i,
    {
        if a[i] != b[i] {
            return a[i] < b[i];
        }
        i = i + 1;
    }
    true
}

/// Whether two digests hold the same bytes.
pub fn digest_eq(a: &[u8; 32], b: &[u8; 32]) -> (r: bool)
    ensures
        r == (a == b),
{
    let mut i: usize = 0;
    while i < 32
        invariant
            i <= 32,
            forall|k: int| 0 <= k < i ==> a@[k] == b@[k],
        decreases 32 - i,
    {
        if a[i] != b[i] {
            return false;
        }
        i = i + 1;
    }
    assert(a =~= b);
    true
}

/// The hasher of the tree: Keccak-256, with pairs put in ascending order
/// before they are hashed.
#[derive(Clone, Copy)]
pub struct SolanaHasher;

impl SolanaHasher {
    /// The Keccak-256 digest of `data`, for input of any length.
    pub fn hash(data: &[u8]) -> (r: [u8; 32])
        ensures
            r == keccak256(data@),
    {
        keccak(data)
    }

    /// Combines two digests into one, whatever the order they are given in.
    pub fn combine(a: &[u8; 32], b: &[u8; 32]) -> (r: [u8; 32])
        ensures
            r == combine_spec(*a, *b),
    {
        let a_first = digest_le(a, b);
        let mut buf: Vec<u8> = Vec::with_capacity(64);
        let mut i: usize = 0;
        while i < 32
            invariant
                i <= 32,
                buf@ == (if a_first { a@ } else { b@ }).subrange(0, i as int),
            decreases 32 - i,
        {
            buf.push(if a_first { a[i] } else { b[i] });
            i = i + 1;
        }
        let mut j: usize = 0;
        while j < 32
            invariant
                j <= 32,
                buf@ == (if a_first { a@ } else { b@ }) + (if a_first { b@ } else { a@ }).subrange(
                    0,
                    j as int,
                ),
            decreases 32 - j,
        {
            buf.push(if a_first { b[j] } else { a[j] });
            j = j + 1;
        }
        assert(buf@ == ordered_concat(*a, *b));
        keccak(buf.as_slice())
    }
}

/// The hasher as `rs_merkle` takes it: the tree calls `concat_and_hash`
/// for every node above the leaves.
impl rs_merkle::Hasher for SolanaHasher {
    type Hash = [u8; 32];

    /// The Keccak-256 digest of `data`.
    fn hash(data: &[u8]) -> (r: [u8; 32])
        ensures
            r == keccak256(data@),
    {
        keccak(data)
    }

    /// The node above `left`: combined with `right`, or `left` itself
    /// where there is no `right`.
    fn concat_and_hash(left: &[u8; 32], right: Option<&[u8; 32]>) -> (r: [u8; 32])
        ensures
            r == concat_and_hash_spec(
                *left,
                match right {
                    Some(d) => Some(*d),
                    None => None,
                },
            ),
    {
        match right {
            Some(sibling) => SolanaHasher::combine(left, sibling),
            None => *left,
        }
    }
}

} // verus!
