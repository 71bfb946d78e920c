//! The identities, the persistent record, and the error taxonomy.

use vstd::prelude::*;

verus! {

/// The number of raw bytes in an account identity.
pub const KEY_LEN: usize = 32;

/// An account identity: 32 raw bytes, as wallets are keyed on the host chain.
#[derive(Clone, Copy)]
pub struct Pubkey {
    pub bytes: [u8; 32],
}

impl View for Pubkey {
    type V = Seq<u8>;

    open spec fn view(&self) -> Seq<u8> {
        self.bytes@
    }
}

/// The persistent per-owner record.
///
/// `total_tips` counts lifetime inflow and never decreases; the current
/// withdrawable balance is the backing balance held by the account store,
/// not this counter.
#[derive(Clone, Copy)]
pub struct TipJar {
    /// The wallet that owns this tip jar; set at creation, never changed.
    pub owner: Pubkey,
    /// Cumulative value ever received, in lamports.
    pub total_tips: u64,
    /// Unix timestamp captured when the jar was created.
    pub created_at: i64,
}

/// The ghost image of a [`TipJar`], with the owner as a plain byte sequence.
pub ghost struct JarView {
    pub owner: Seq<u8>,
    pub total_tips: u64,
    pub created_at: i64,
}

impl View for TipJar {
    type V = JarView;

    open spec fn view(&self) -> JarView {
        JarView { owner: self.owner@, total_tips: self.total_tips, created_at: self.created_at }
    }
}

/// Every way an instruction can be refused. Any error leaves the whole
/// ledger exactly as it was: an instruction commits fully or not at all.
#[derive(Clone, Copy, Debug, PartialEq, Eq, Structural)]
pub enum CustomError {
    /// `initialize_tip_jar` found the derived address already occupied.
    AlreadyExists,
    /// A transfer asked for more than the paying balance holds.
    InsufficientFunds,
    /// `withdraw_tips` was signed by someone other than the recorded owner.
    Unauthorized,
    /// A balance or the lifetime counter would leave the unsigned 64-bit range.
    Overflow,
}

/// Compares two identities byte for byte.
pub fn key_eq(a: &Pubkey, b: &Pubkey) -> (r: bool)
    ensures
        r == (a@ == b@),
{
    let mut i: usize = 0;
    while i < KEY_LEN
        invariant
            i <= KEY_LEN,
            forall|j: int| 0 <= j < i ==> a.bytes@[j] == b.bytes@[j],
        decreases KEY_LEN - i,
    {
        if a.bytes[i] != b.bytes[i] {
            return false;
        }
        i += 1;
    }
    proof {
        assert(a@ =~= b@);
    }
    true
}

/// Copies an identity out as a plain byte vector.
pub fn key_bytes(p: &Pubkey) -> (r: Vec<u8>)
    ensures
        r@ == p@,
{
    let mut v: Vec<u8> = Vec::new();
    let mut i: usize = 0;
    while i < KEY_LEN
        invariant
            i <= KEY_LEN,
            v@.len() == i,
            forall|j: int| 0 <= j < i ==> v@[j] == p.bytes@[j],
        decreases KEY_LEN - i,
    {
        v.push(p.bytes[i]);
        i += 1;
    }
    proof {
        assert(v@ =~= p@);
    }
    v
}

} // verus!
