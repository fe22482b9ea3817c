use vstd::prelude::*;

verus! {

/// `blake3::Hasher`, the incremental BLAKE3 hasher, carried through opaque.
#[verifier::external_type_specification]
#[verifier::external_body]
pub struct ExHasher(blake3::Hasher);

/// The bytes that a `blake3::Hasher` has taken in so far, in order.
pub uninterp spec fn blake3_absorbed(h: blake3::Hasher) -> Seq<u8>;

/// The 32-byte BLAKE3 hash of `data`.
pub uninterp spec fn blake3_digest(data: Seq<u8>) -> Seq<u8>;

/// `blake3::Hasher::new`: a hasher that has taken in nothing.
#[verifier::external_body]
pub(crate) fn hasher_new() -> (res: blake3::Hasher)
    ensures
        blake3_absorbed(res) == Seq::<u8>::empty(),
{
    blake3::Hasher::new()
}

/// `blake3::Hasher::update`: the hasher takes in `data` after what it held.
#[verifier::external_body]
pub(crate) fn hasher_update(h: &mut blake3::Hasher, data: &[u8])
    ensures
        blake3_absorbed(*final(h)) == blake3_absorbed(*old(h)) + data@,
{
    h.update(data);
}

/// `blake3::Hasher::finalize`: the hash of everything taken in so far, which the
/// crate documents to equal the hash of that input in one piece.
#[verifier::external_body]
pub(crate) fn hasher_finalize(h: &blake3::Hasher) -> (res: [u8; 32])
    ensures
        res@ == blake3_digest(blake3_absorbed(*h)),
{
    *h.finalize().as_bytes()
}

/// Whether `block` is exactly the 32 bytes of `digest`.
pub fn digest_matches(block: &[u8], digest: &[u8; 32]) -> (res: bool)
    ensures
        res == (block@ == digest@),
{
    if block.len() != 32 {
        return false;
    }
    let mut i: usize = 0;
    while i < 32
        invariant
            block@.len() == 32,
            digest@.len() == 32,
            i <= 32,
            forall|k: int| 0 <= k < i ==> block@[k] == digest@[k],
        decreases 32 - i,
    {
        if block[i] != digest[i] {
            return false;
        }
        i = i + 1;
    }
    assert(block@ =~= digest@);
    true
}

} // verus!
