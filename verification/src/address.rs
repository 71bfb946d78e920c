//! Deterministic addressing: where an owner's tip jar record lives.
//!
//! A jar's storage address is the fixed namespace tag `"tip_jar"` followed by
//! the owner identity's raw bytes. The derivation is injective, so each owner
//! has exactly one possible jar address.

use vstd::prelude::*;

use crate::jar::Pubkey;
use crate::jar::KEY_LEN;

verus! {

/// The namespace tag `"tip_jar"` in ASCII.
pub open spec fn spec_namespace_tag() -> Seq<u8> {
    seq![116u8, 105u8, 112u8, 95u8, 106u8, 97u8, 114u8]
}

/// The storage address of `owner`'s tip jar: the namespace tag followed by
/// the owner's identity bytes.
pub open spec fn spec_tip_jar_address(owner: Seq<u8>) -> Seq<u8> {
    spec_namespace_tag() + owner
}

/// Computes the storage address of `owner`'s tip jar.
pub fn tip_jar_address(owner: &Pubkey) -> (r: Vec<u8>)
    ensures
        r@ == spec_tip_jar_address(owner@),
{
    let mut v: Vec<u8> = Vec::new();
    v.push(116);
    v.push(105);
    v.push(112);
    v.push(95);
    v.push(106);
    v.push(97);
    v.push(114);
    let mut i: usize = 0;
    while i < KEY_LEN
        invariant
            i <= KEY_LEN,
            v@.len() == 7 + i,
            v@.subrange(0, 7) == spec_namespace_tag(),
            forall|j: int| 0 <= j < i ==> v@[7 + j] == owner.bytes@[j],
        decreases KEY_LEN - i,
    {
        v.push(owner.bytes[i]);
        i += 1;
    }
    proof {
        assert(v@ =~= spec_tip_jar_address(owner@));
    }
    v
}

/// Distinct owners derive distinct jar addresses: the derivation is a pure,
/// injective function of the owner identity, so each owner has exactly one
/// record location and no two owners share one.
pub proof fn lemma_tip_jar_address_injective(o1: Seq<u8>, o2: Seq<u8>)
    requires
        spec_tip_jar_address(o1) == spec_tip_jar_address(o2),
    ensures
        o1 == o2,
{
    assert(spec_tip_jar_address(o1).len() == 7 + o1.len());
    assert(spec_tip_jar_address(o2).len() == 7 + o2.len());
    assert forall|j: int| 0 <= j < o1.len() implies o1[j] == o2[j] by {
        assert(spec_tip_jar_address(o1)[7 + j] == o1[j]);
        assert(spec_tip_jar_address(o2)[7 + j] == o2[j]);
    }
    assert(o1 =~= o2);
}

/// A jar address is never a wallet address: wallets are keyed by their
/// 32-byte identity, while every derived jar address is 39 bytes long.
pub proof fn lemma_tip_jar_address_not_a_key(owner: Seq<u8>, key: Seq<u8>)
    requires
        owner.len() == 32,
        key.len() == 32,
    ensures
        spec_tip_jar_address(owner) != key,
{
    assert(spec_tip_jar_address(owner).len() == 39);
}

} // verus!
