//! SHA-256 digests of messages and of pairs of digests.
use sha2::Digest;
use vstd::prelude::*;

verus! {

/// What `sha2::Sha256::digest` returns for a message.
pub uninterp spec fn sha256_digest(message: Seq<u8>) -> [u8; 32];

/// SHA-256 is defined for messages of fewer than `2^64` bits, that is for
/// messages of fewer bytes than this.
pub const MESSAGE_LIMIT: u64 = 0x2000_0000_0000_0000;

/// Calls `sha2::Sha256::digest`. Claimed of it: the digest is a function of
/// the message, 32 bytes long. From `MESSAGE_LIMIT` bytes on, the length in
/// bits that the hasher appends overflows, so such messages are left out.
#[verifier::external_body]
fn sha2_digest(bytes: &[u8]) -> (out: [u8; 32])
    requires
        bytes@.len() < MESSAGE_LIMIT,
    ensures
        out == sha256_digest(bytes@),
{
    sha2::Sha256::digest(bytes).into()
}

/// The two messages are a collision of SHA-256: they differ, but have the same
/// digest.
pub open spec fn collide(x: Seq<u8>, y: Seq<u8>) -> bool {
    x != y && sha256_digest(x) == sha256_digest(y)
}

/// The SHA-256 digest of `bytes`.
pub fn sha256(bytes: &[u8]) -> (out: [u8; 32])
    requires
        bytes@.len() < MESSAGE_LIMIT,
    ensures
        out == sha256_digest(bytes@),
{
    sha2_digest(bytes)
}

/// The digest of an inner node: SHA-256 of `left || right`.
pub open spec fn pair_digest(left: [u8; 32], right: [u8; 32]) -> [u8; 32] {
    sha256_digest(left@ + right@)
}

/// The SHA-256 digest of the 64 bytes of `left` followed by `right`.
pub fn hash_pair(left: &[u8; 32], right: &[u8; 32]) -> (out: [u8; 32])
    ensures
        out == pair_digest(*left, *right),
        out == sha256_digest(left@ + right@),
{
    let mut buf: [u8; 64] = [0u8; 64];
    let mut i: usize = 0;
    while i < 32
        invariant
            i <= 32,
            forall|j: int| 0 <= j < i ==> buf@[j] == left@[j],
            forall|j: int| 32 <= j < 32 + i ==> buf@[j] == right@[j - 32],
        decreases 32 - i,
    {
        buf[i] = left[i];
        buf[i + 32] = right[i];
        i += 1;
    }
    assert(buf@ =~= left@ + right@);
    sha256(&buf)
}

/// The digest of a pair determines both of its halves, unless the two pairs are
/// a collision of SHA-256.
pub proof fn law_pair_digest_binds(
    left1: [u8; 32],
    right1: [u8; 32],
    left2: [u8; 32],
    right2: [u8; 32],
)
    requires
        pair_digest(left1, right1) == pair_digest(left2, right2),
    ensures
        (left1 == left2 && right1 == right2) || collide(left1@ + right1@, left2@ + right2@),
{
    let x = left1@ + right1@;
    let y = left2@ + right2@;
    if x == y {
        assert(x.subrange(0, 32) =~= left1@);
        assert(y.subrange(0, 32) =~= left2@);
        assert(x.subrange(32, 64) =~= right1@);
        assert(y.subrange(32, 64) =~= right2@);
        assert(left1@ == left2@ && right1@ == right2@);
        assert forall|i: int| 0 <= i < 32 implies left1[i] == left2[i] && right1[i]
            == right2[i] by {}
        assert(left1 =~= left2);
        assert(right1 =~= right2);
    }
}

/// SHA-256 is asked for every message of fewer than `2^64` bits, and the digest of
/// a pair is that of its left half followed by its right half.
pub proof fn law_pairs_are_hashed_left_to_right(left: [u8; 32], right: [u8; 32])
    ensures
        pair_digest(left, right) == sha256_digest(left@ + right@),
        8 * MESSAGE_LIMIT == 0x1_0000_0000_0000_0000int,
{
}

} // verus!
