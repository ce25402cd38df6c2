//! Sealed-mode storage: whether the vault is sealed, and the framing of an
//! encrypted attachment blob.

use vstd::prelude::*;

verus! {

/// The bytes that open every sealed attachment blob: `MVB1`.
pub open spec fn sealed_magic() -> Seq<u8> {
    seq![77u8, 86u8, 66u8, 49u8]
}

/// Whether node storage is closed: the vault runs in sealed mode and its
/// keychain is not unsealed.
pub fn vault_is_sealed(sealed_mode: bool, unsealed: bool) -> (b: bool)
    ensures
        b == (sealed_mode && !unsealed),
{
    sealed_mode && !unsealed
}

/// A sealed blob: the magic bytes, then the encrypted envelope's bytes.
pub fn frame_sealed_blob(envelope: &[u8]) -> (out: Vec<u8>)
    ensures
        out@ == sealed_magic() + envelope@,
{
    let mut out: Vec<u8> = Vec::new();
    out.push(77u8);
    out.push(86u8);
    out.push(66u8);
    out.push(49u8);
    let mut i: usize = 0;
    proof { assert(out@ =~= sealed_magic() + envelope@.take(0)); }
    while i < envelope.len()
        invariant
            i <= envelope@.len(),
            out@ == sealed_magic() + envelope@.take(i as int),
        decreases envelope.len() - i,
    {
        proof { assert(sealed_magic() + envelope@.take(i + 1) =~= (sealed_magic() + envelope@.take(i as int)).push(envelope@[i as int])); }
        out.push(envelope[i]);
        i += 1;
    }
    proof { assert(envelope@.take(envelope@.len() as int) =~= envelope@); }
    out
}

/// Whether `bytes` is already a sealed blob (it starts with the magic
/// bytes), so that migrating it again is skipped.
pub fn is_sealed_blob(bytes: &[u8]) -> (b: bool)
    ensures
        b == (bytes@.len() >= 4 && bytes@.take(4) == sealed_magic()),
{
    if bytes.len() < 4 {
        return false;
    }
    let r = bytes[0] == 77u8 && bytes[1] == 86u8 && bytes[2] == 66u8 && bytes[3] == 49u8;
    proof {
        if r {
            assert(bytes@.take(4) =~= sealed_magic());
        } else {
            if bytes@.take(4) == sealed_magic() {
                assert(bytes@.take(4)[0] == bytes@[0]);
                assert(bytes@.take(4)[1] == bytes@[1]);
                assert(bytes@.take(4)[2] == bytes@[2]);
                assert(bytes@.take(4)[3] == bytes@[3]);
            }
        }
    }
    r
}

/// Framing and then recognising a blob agree: a framed blob is recognised
/// as sealed.
pub proof fn lemma_framed_blob_is_sealed(envelope: Seq<u8>)
    ensures
        (sealed_magic() + envelope).len() >= 4,
        (sealed_magic() + envelope).take(4) == sealed_magic(),
{
    assert((sealed_magic() + envelope).take(4) =~= sealed_magic());
}

} // verus!
