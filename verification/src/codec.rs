//! The persisted record layout: 56 fixed-width, little-endian bytes.
//!
//! | offset | field                        | width |
//! |--------|------------------------------|-------|
//! | 0      | storage-format discriminator | 8     |
//! | 8      | owner identity               | 32    |
//! | 40     | `total_tips` (uint64)        | 8     |
//! | 48     | `created_at` (int64)         | 8     |

use vstd::prelude::*;
use vstd::bytes::lemma_auto_spec_u64_to_from_le_bytes;
use vstd::bytes::spec_u64_from_le_bytes;
use vstd::bytes::spec_u64_to_le_bytes;
use vstd::bytes::u64_from_le_bytes;
use vstd::bytes::u64_to_le_bytes;

use crate::jar::Pubkey;
use crate::jar::TipJar;
use crate::jar::KEY_LEN;

verus! {

/// The number of bytes in a persisted record.
pub const RECORD_LEN: usize = 56;

/// The storage-format discriminator: the ASCII bytes of `"TipJarV1"`.
pub open spec fn spec_discriminator() -> Seq<u8> {
    seq![84u8, 105u8, 112u8, 74u8, 97u8, 114u8, 86u8, 49u8]
}

/// The 56 persisted bytes of a record: discriminator, owner identity,
/// `total_tips` as little-endian uint64, `created_at` as little-endian int64
/// (its two's-complement image as a uint64).
pub open spec fn spec_encode_record(j: TipJar) -> Seq<u8> {
    spec_discriminator() + j.owner@ + spec_u64_to_le_bytes(j.total_tips) + spec_u64_to_le_bytes(
        j.created_at as u64,
    )
}

/// Two records with the same persisted bytes are the same record: every field
/// is read back exactly from its fixed window.
pub proof fn lemma_encode_record_injective(j1: TipJar, j2: TipJar)
    requires
        spec_encode_record(j1) == spec_encode_record(j2),
    ensures
        j1 == j2,
{
    lemma_auto_spec_u64_to_from_le_bytes();
    let b1 = spec_encode_record(j1);
    let b2 = spec_encode_record(j2);
    assert forall|i: int| 0 <= i < 32 implies j1.owner@[i] == j2.owner@[i] by {
        assert(b1[8 + i] == j1.owner@[i]);
        assert(b2[8 + i] == j2.owner@[i]);
    }
    assert(j1.owner@ =~= j2.owner@);
    assert(j1.owner.bytes =~= j2.owner.bytes);
    assert(spec_u64_to_le_bytes(j1.total_tips) =~= b1.subrange(40, 48));
    assert(spec_u64_to_le_bytes(j2.total_tips) =~= b2.subrange(40, 48));
    assert(j1.total_tips == j2.total_tips) by {
        assert(spec_u64_from_le_bytes(spec_u64_to_le_bytes(j1.total_tips)) == j1.total_tips);
        assert(spec_u64_from_le_bytes(spec_u64_to_le_bytes(j2.total_tips)) == j2.total_tips);
    }
    assert(spec_u64_to_le_bytes(j1.created_at as u64) =~= b1.subrange(48, 56));
    assert(spec_u64_to_le_bytes(j2.created_at as u64) =~= b2.subrange(48, 56));
    assert(j1.created_at as u64 == j2.created_at as u64) by {
        assert(spec_u64_from_le_bytes(spec_u64_to_le_bytes(j1.created_at as u64)) == j1.created_at
            as u64);
        assert(spec_u64_from_le_bytes(spec_u64_to_le_bytes(j2.created_at as u64)) == j2.created_at
            as u64);
    }
    assert(j1.created_at == j2.created_at) by {
        lemma_i64_u64_round_trip(j1.created_at);
        lemma_i64_u64_round_trip(j2.created_at);
    }
}

/// Casting an int64 to its two's-complement uint64 image and back returns it.
proof fn lemma_i64_u64_round_trip(x: i64)
    ensures
        (x as u64) as i64 == x,
{
    assert((x as u64) as i64 == x) by (bit_vector);
}

/// Serializes a record into its 56 persisted bytes.
pub fn encode_record(j: &TipJar) -> (r: Vec<u8>)
    ensures
        r@ == spec_encode_record(*j),
        r@.len() == 56,
{
    let mut v: Vec<u8> = Vec::new();
    v.push(84);
    v.push(105);
    v.push(112);
    v.push(74);
    v.push(97);
    v.push(114);
    v.push(86);
    v.push(49);
    proof {
        assert(v@ =~= spec_discriminator());
    }
    let mut i: usize = 0;
    while i < KEY_LEN
        invariant
            i <= KEY_LEN,
            v@.len() == 8 + i,
            v@.subrange(0, 8) == spec_discriminator(),
            forall|k: int| 0 <= k < i ==> v@[8 + k] == j.owner.bytes@[k],
        decreases KEY_LEN - i,
    {
        v.push(j.owner.bytes[i]);
        i += 1;
    }
    let mut tips = u64_to_le_bytes(j.total_tips);
    v.append(&mut tips);
    let mut created = u64_to_le_bytes(j.created_at as u64);
    v.append(&mut created);
    proof {
        assert(v@ =~= spec_encode_record(*j));
        lemma_auto_spec_u64_to_from_le_bytes();
    }
    v
}

/// Reads a record back from its persisted bytes.
///
/// Succeeds exactly on byte strings of length 56 that open with the
/// discriminator; the record returned is the one whose encoding is `b`.
pub fn decode_record(b: &Vec<u8>) -> (r: Option<TipJar>)
    ensures
        r is Some <==> (b@.len() == 56 && b@.subrange(0, 8) == spec_discriminator()),
        r matches Option::Some(j) ==> spec_encode_record(j) == b@,
{
    if b.len() != RECORD_LEN {
        proof {
            assert(b@.len() != 56);
        }
        return None;
    }
    let disc: [u8; 8] = [84, 105, 112, 74, 97, 114, 86, 49];
    proof {
        assert(disc@ =~= spec_discriminator());
    }
    let mut i: usize = 0;
    while i < 8
        invariant
            i <= 8,
            b@.len() == 56,
            disc@ == spec_discriminator(),
            forall|k: int| 0 <= k < i ==> b@[k] == spec_discriminator()[k],
        decreases 8 - i,
    {
        if b[i] != disc[i] {
            proof {
                assert(b@.subrange(0, 8)[i as int] == b@[i as int]);
                assert(b@.subrange(0, 8) != spec_discriminator());
            }
            return None;
        }
        i += 1;
    }
    proof {
        assert(b@.subrange(0, 8) =~= spec_discriminator());
    }
    let mut owner_bytes: [u8; 32] = [0; 32];
    let mut k: usize = 0;
    while k < KEY_LEN
        invariant
            k <= KEY_LEN,
            b@.len() == 56,
            forall|n: int| 0 <= n < k ==> owner_bytes@[n] == b@[8 + n],
        decreases KEY_LEN - k,
    {
        owner_bytes[k] = b[8 + k];
        k += 1;
    }
    let tips_window = slice_of(b, 40, 48);
    let total_tips = u64_from_le_bytes(tips_window.as_slice());
    let created_window = slice_of(b, 48, 56);
    let created_bits = u64_from_le_bytes(created_window.as_slice());
    let created_at = created_bits as i64;
    let j = TipJar { owner: Pubkey { bytes: owner_bytes }, total_tips, created_at };
    proof {
        lemma_auto_spec_u64_to_from_le_bytes();
        lemma_i64_u64_round_trip(created_at);
        lemma_u64_i64_round_trip(created_bits);
        assert(spec_encode_record(j) =~= b@) by {
            assert(spec_u64_to_le_bytes(j.total_tips) =~= b@.subrange(40, 48));
            assert(spec_u64_to_le_bytes(j.created_at as u64) =~= b@.subrange(48, 56));
        }
    }
    Some(j)
}

/// Casting a uint64 to int64 and back returns it: the two's-complement image
/// is faithful in both directions.
proof fn lemma_u64_i64_round_trip(x: u64)
    ensures
        (x as i64) as u64 == x,
{
    assert((x as i64) as u64 == x) by (bit_vector);
}

/// Copies the window `[from, to)` of `b` into a fresh vector.
fn slice_of(b: &Vec<u8>, from: usize, to: usize) -> (r: Vec<u8>)
    requires
        from <= to <= b@.len(),
    ensures
        r@ == b@.subrange(from as int, to as int),
{
    let mut v: Vec<u8> = Vec::new();
    let mut i: usize = from;
    while i < to
        invariant
            from <= i <= to <= b@.len(),
            v@.len() == i - from,
            forall|k: int| 0 <= k < v@.len() ==> v@[k] == b@[from + k],
        decreases to - i,
    {
        v.push(b[i]);
        i += 1;
    }
    proof {
        assert(v@ =~= b@.subrange(from as int, to as int));
    }
    v
}

} // verus!
