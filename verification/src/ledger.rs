//! The account store and the three instructions.
//!
//! The ledger models the runtime's account storage: a content-addressed store
//! in which wallets sit at their 32-byte identity and each tip jar record sits
//! at the address derived from its owner's identity. Each instruction is a
//! single atomic step: it either commits every change it describes or returns
//! an error and leaves the store exactly as it was.

use vstd::prelude::*;
use vstd::pervasive::unreached;

use crate::address::spec_tip_jar_address;
use crate::address::tip_jar_address;
use crate::jar::CustomError;
use crate::jar::JarView;
use crate::jar::Pubkey;
use crate::jar::TipJar;
use crate::jar::key_bytes;
use crate::jar::key_eq;

verus! {

/// What the store holds at one address: a lamport balance and, for a tip jar
/// account, the persistent record.
pub ghost struct AccountView {
    pub lamports: u64,
    pub jar: Option<JarView>,
}

/// One stored account: its address, its lamport balance, and its record.
struct StoredAccount {
    address: Vec<u8>,
    lamports: u64,
    jar: Option<TipJar>,
}

impl View for StoredAccount {
    type V = AccountView;

    closed spec fn view(&self) -> AccountView {
        AccountView {
            lamports: self.lamports,
            jar: match self.jar {
                Option::Some(j) => Option::Some(j@),
                Option::None => Option::None,
            },
        }
    }
}

spec fn has_addr(s: Seq<StoredAccount>, k: Seq<u8>) -> bool {
    exists|i: int| 0 <= i < s.len() && s[i].address@ == k
}

spec fn idx_of(s: Seq<StoredAccount>, k: Seq<u8>) -> int {
    choose|i: int| 0 <= i < s.len() && s[i].address@ == k
}

spec fn map_of(s: Seq<StoredAccount>) -> Map<Seq<u8>, AccountView> {
    Map::new(|k: Seq<u8>| has_addr(s, k), |k: Seq<u8>| s[idx_of(s, k)]@)
}

spec fn distinct_addrs(s: Seq<StoredAccount>) -> bool {
    forall|i: int, j: int| 0 <= i < j < s.len() ==> s[i].address@ != s[j].address@
}

/// A jar record may only sit at the address derived from its owner.
spec fn wf_entry(e: StoredAccount) -> bool {
    e.jar matches Option::Some(j) ==> e.address@ == spec_tip_jar_address(j.owner@)
}

proof fn lemma_map_of_lookup(s: Seq<StoredAccount>, i: int)
    requires
        distinct_addrs(s),
        0 <= i < s.len(),
    ensures
        map_of(s).dom().contains(s[i].address@),
        map_of(s)[s[i].address@] == s[i]@,
{
    let k = s[i].address@;
    assert(has_addr(s, k));
    let j = idx_of(s, k);
    assert(0 <= j < s.len() && s[j].address@ == k);
    if i < j {
        assert(s[i].address@ != s[j].address@);
    }
    if j < i {
        assert(s[j].address@ != s[i].address@);
    }
}

proof fn lemma_map_of_push(s: Seq<StoredAccount>, a: StoredAccount)
    requires
        distinct_addrs(s),
        !has_addr(s, a.address@),
    ensures
        distinct_addrs(s.push(a)),
        map_of(s.push(a)) == map_of(s).insert(a.address@, a@),
{
    let s2 = s.push(a);
    assert forall|i: int, j: int| 0 <= i < j < s2.len() implies s2[i].address@ != s2[j].address@ by {
        if j < s.len() {
            assert(s2[i] == s[i] && s2[j] == s[j]);
        } else {
            assert(s2[j] == a && s2[i] == s[i]);
            if s[i].address@ == a.address@ {
                assert(has_addr(s, a.address@));
            }
        }
    }
    let m1 = map_of(s2);
    let m2 = map_of(s).insert(a.address@, a@);
    assert forall|k: Seq<u8>| #[trigger] m1.dom().contains(k) implies m2.dom().contains(k) && m1[k]
        == m2[k] by {
        let i = idx_of(s2, k);
        assert(0 <= i < s2.len() && s2[i].address@ == k);
        if i < s.len() {
            assert(s2[i] == s[i]);
            assert(has_addr(s, k));
            lemma_map_of_lookup(s, i);
            if k == a.address@ {
                assert(false);
            }
        } else {
            assert(s2[i] == a);
        }
    }
    assert forall|k: Seq<u8>| #[trigger] m2.dom().contains(k) implies m1.dom().contains(k) by {
        if k == a.address@ {
            assert(s2[s.len() as int].address@ == k);
        } else {
            let i = idx_of(s, k);
            assert(0 <= i < s.len() && s[i].address@ == k);
            assert(s2[i].address@ == k);
        }
    }
    assert(m1 =~= m2);
}

proof fn lemma_map_of_update(s: Seq<StoredAccount>, n: int, a: StoredAccount)
    requires
        distinct_addrs(s),
        0 <= n < s.len(),
        a.address@ == s[n].address@,
    ensures
        distinct_addrs(s.update(n, a)),
        map_of(s.update(n, a)) == map_of(s).insert(a.address@, a@),
{
    let s2 = s.update(n, a);
    assert forall|i: int, j: int| 0 <= i < j < s2.len() implies s2[i].address@ != s2[j].address@ by {
        assert(s2[i].address@ == s[i].address@);
        assert(s2[j].address@ == s[j].address@);
    }
    let m1 = map_of(s2);
    let m2 = map_of(s).insert(a.address@, a@);
    assert forall|k: Seq<u8>| #[trigger] m1.dom().contains(k) implies m2.dom().contains(k) && m1[k]
        == m2[k] by {
        let i = idx_of(s2, k);
        assert(0 <= i < s2.len() && s2[i].address@ == k);
        assert(s[i].address@ == k);
        lemma_map_of_lookup(s, i);
        lemma_map_of_lookup(s2, i);
        if i == n {
            assert(s2[i] == a);
        } else {
            if k == a.address@ {
                if i < n {
                    assert(s[i].address@ != s[n].address@);
                }
                if n < i {
                    assert(s[n].address@ != s[i].address@);
                }
                assert(false);
            }
            assert(s2[i] == s[i]);
        }
    }
    assert forall|k: Seq<u8>| #[trigger] m2.dom().contains(k) implies m1.dom().contains(k) by {
        if k == a.address@ {
            assert(s2[n].address@ == k);
        } else {
            let i = idx_of(s, k);
            assert(0 <= i < s.len() && s[i].address@ == k);
            assert(s2[i].address@ == k);
        }
    }
    assert(m1 =~= m2);
}

/// The step taken by [`Ledger::add_wallet`]: funds a fresh wallet account,
/// or refuses to touch an occupied address.
pub open spec fn spec_add_wallet(
    m: Map<Seq<u8>, AccountView>,
    key: Seq<u8>,
    lamports: u64,
) -> (Map<Seq<u8>, AccountView>, Result<(), CustomError>) {
    if m.dom().contains(key) {
        (m, Err(CustomError::AlreadyExists))
    } else {
        (m.insert(key, AccountView { lamports, jar: Option::None }), Ok(()))
    }
}

/// The step taken by [`Ledger::initialize_tip_jar`]: creates the owner's
/// record at its derived address with a zero lifetime counter and the given
/// creation time, or fails with `AlreadyExists` if that address is occupied.
pub open spec fn spec_initialize(
    m: Map<Seq<u8>, AccountView>,
    owner: Seq<u8>,
    now: i64,
) -> (Map<Seq<u8>, AccountView>, Result<(), CustomError>) {
    let addr = spec_tip_jar_address(owner);
    if m.dom().contains(addr) {
        (m, Err(CustomError::AlreadyExists))
    } else {
        (
            m.insert(
                addr,
                AccountView {
                    lamports: 0,
                    jar: Option::Some(JarView { owner, total_tips: 0, created_at: now }),
                },
            ),
            Ok(()),
        )
    }
}

/// The accounts a tip instruction names: a wallet for the tipper and a jar
/// account at the target address.
pub open spec fn send_tip_pre(
    m: Map<Seq<u8>, AccountView>,
    tipper: Seq<u8>,
    jar_addr: Seq<u8>,
) -> bool {
    &&& m.dom().contains(tipper)
    &&& m[tipper].jar is None
    &&& m.dom().contains(jar_addr)
    &&& m[jar_addr].jar is Some
}

/// The step taken by [`Ledger::send_tip`]: moves `amount` from the tipper's
/// wallet to the jar's backing balance and raises the jar's lifetime counter
/// by the same amount; fails with `InsufficientFunds` if the tipper's wallet
/// holds less than `amount`, and with `Overflow` if the backing balance or
/// the counter would leave the unsigned 64-bit range. On failure the store is
/// unchanged.
pub open spec fn spec_send_tip(
    m: Map<Seq<u8>, AccountView>,
    tipper: Seq<u8>,
    jar_addr: Seq<u8>,
    amount: u64,
) -> (Map<Seq<u8>, AccountView>, Result<(), CustomError>) {
    let w = m[tipper];
    let a = m[jar_addr];
    let j = a.jar->Some_0;
    if w.lamports < amount {
        (m, Err(CustomError::InsufficientFunds))
    } else if a.lamports + amount > u64::MAX || j.total_tips + amount > u64::MAX {
        (m, Err(CustomError::Overflow))
    } else {
        (
            m.insert(tipper, AccountView { lamports: (w.lamports - amount) as u64, jar: w.jar })
                .insert(
                jar_addr,
                AccountView {
                    lamports: (a.lamports + amount) as u64,
                    jar: Option::Some(
                        JarView { total_tips: (j.total_tips + amount) as u64, ..j },
                    ),
                },
            ),
            Ok(()),
        )
    }
}

/// The accounts a withdrawal names: a wallet for the signer and a jar account
/// at the target address.
pub open spec fn withdraw_pre(
    m: Map<Seq<u8>, AccountView>,
    caller: Seq<u8>,
    jar_addr: Seq<u8>,
) -> bool {
    &&& m.dom().contains(caller)
    &&& m[caller].jar is None
    &&& m.dom().contains(jar_addr)
    &&& m[jar_addr].jar is Some
}

/// The step taken by [`Ledger::withdraw_tips`]: moves `amount` from the jar's
/// backing balance to the recorded owner's wallet and leaves the lifetime
/// counter untouched. It fails with `Unauthorized` if the caller is not the
/// recorded owner, with `InsufficientFunds` if the backing balance holds less
/// than `amount`, and with `Overflow` if the owner's wallet would leave the
/// unsigned 64-bit range. On failure the store is unchanged.
pub open spec fn spec_withdraw(
    m: Map<Seq<u8>, AccountView>,
    caller: Seq<u8>,
    jar_addr: Seq<u8>,
    amount: u64,
) -> (Map<Seq<u8>, AccountView>, Result<(), CustomError>) {
    let w = m[caller];
    let a = m[jar_addr];
    let j = a.jar->Some_0;
    if j.owner != caller {
        (m, Err(CustomError::Unauthorized))
    } else if a.lamports < amount {
        (m, Err(CustomError::InsufficientFunds))
    } else if w.lamports + amount > u64::MAX {
        (m, Err(CustomError::Overflow))
    } else {
        (
            m.insert(jar_addr, AccountView { lamports: (a.lamports - amount) as u64, jar: a.jar })
                .insert(
                caller,
                AccountView { lamports: (w.lamports + amount) as u64, jar: w.jar },
            ),
            Ok(()),
        )
    }
}

/// The accounts named by one `initialize_tip_jar` instruction.
pub struct InitializeTipJar {
    /// The signer who will own the new jar and pays for its storage.
    pub owner: Pubkey,
}

/// The accounts named by one `send_tip` instruction.
pub struct SendTip {
    /// The signer whose wallet pays the tip.
    pub tipper: Pubkey,
    /// The address of the jar account receiving the tip.
    pub jar_address: Vec<u8>,
}

/// The accounts named by one `withdraw_tips` instruction.
pub struct WithdrawTips {
    /// The signer asking for the payout.
    pub owner: Pubkey,
    /// The address of the jar account paying out.
    pub jar_address: Vec<u8>,
}

/// The content-addressed account store, with one entry per address.
pub struct Ledger {
    store: Vec<StoredAccount>,
}

fn bytes_eq(a: &Vec<u8>, b: &Vec<u8>) -> (r: bool)
    ensures
        r == (a@ == b@),
{
    if a.len() != b.len() {
        return false;
    }
    let mut i: usize = 0;
    while i < a.len()
        invariant
            i <= a@.len(),
            a@.len() == b@.len(),
            forall|j: int| 0 <= j < i ==> a@[j] == b@[j],
        decreases a@.len() - i,
    {
        if a[i] != b[i] {
            return false;
        }
        i += 1;
    }
    proof {
        assert(a@ =~= b@);
    }
    true
}

impl Ledger {
    /// Everything the store holds, keyed by address.
    pub closed spec fn accounts(self) -> Map<Seq<u8>, AccountView> {
        map_of(self.store@)
    }

    /// The store's invariant: addresses are unique, and every jar record sits
    /// at the address derived from its owner.
    pub closed spec fn wf(self) -> bool {
        &&& distinct_addrs(self.store@)
        &&& forall|i: int| 0 <= i < self.store@.len() ==> wf_entry(#[trigger] self.store@[i])
    }

    /// An empty store.
    pub fn new() -> (l: Ledger)
        ensures
            l.wf(),
            l.accounts() == Map::<Seq<u8>, AccountView>::empty(),
    {
        let l = Ledger { store: Vec::new() };
        proof {
            assert(l.accounts() =~= Map::<Seq<u8>, AccountView>::empty());
        }
        l
    }

    /// In a well-formed store, every jar account sits at the address derived
    /// from its recorded owner: records are deterministically addressable.
    pub proof fn lemma_jar_addresses(self)
        requires
            self.wf(),
        ensures
            forall|k: Seq<u8>|
                #[trigger] self.accounts().dom().contains(k) && self.accounts()[k].jar is Some
                    ==> k == spec_tip_jar_address(self.accounts()[k].jar->Some_0.owner),
    {
        assert forall|k: Seq<u8>|
            #[trigger] self.accounts().dom().contains(k) && self.accounts()[k].jar is Some
            implies k == spec_tip_jar_address(self.accounts()[k].jar->Some_0.owner) by {
            let i = idx_of(self.store@, k);
            assert(0 <= i < self.store@.len() && self.store@[i].address@ == k);
            assert(wf_entry(self.store@[i]));
            lemma_map_of_lookup(self.store@, i);
        }
    }

    fn find_index(&self, addr: &Vec<u8>) -> (r: Option<usize>)
        ensures
            match r {
                Option::Some(i) => 0 <= i < self.store@.len() && self.store@[i as int].address@
                    == addr@,
                Option::None => !has_addr(self.store@, addr@),
            },
    {
        let mut i: usize = 0;
        while i < self.store.len()
            invariant
                i <= self.store@.len(),
                forall|j: int| 0 <= j < i ==> self.store@[j].address@ != addr@,
            decreases self.store@.len() - i,
        {
            if bytes_eq(&self.store[i].address, addr) {
                return Some(i);
            }
            i += 1;
        }
        None
    }

    /// Whether any account sits at `addr`.
    pub fn has_account(&self, addr: &Vec<u8>) -> (r: bool)
        requires
            self.wf(),
        ensures
            r == self.accounts().dom().contains(addr@),
    {
        match self.find_index(addr) {
            Some(i) => {
                proof {
                    lemma_map_of_lookup(self.store@, i as int);
                }
                true
            },
            None => false,
        }
    }

    /// The lamport balance of the account at `addr`, if one exists. For a jar
    /// account this is the backing balance, not the lifetime counter.
    pub fn lamports_of(&self, addr: &Vec<u8>) -> (r: Option<u64>)
        requires
            self.wf(),
        ensures
            match r {
                Option::Some(x) => self.accounts().dom().contains(addr@) && x
                    == self.accounts()[addr@].lamports,
                Option::None => !self.accounts().dom().contains(addr@),
            },
    {
        match self.find_index(addr) {
            Some(i) => {
                proof {
                    lemma_map_of_lookup(self.store@, i as int);
                }
                Some(self.store[i].lamports)
            },
            None => None,
        }
    }

    /// The tip jar record stored at `addr`, if that address holds one.
    pub fn jar_record(&self, addr: &Vec<u8>) -> (r: Option<TipJar>)
        requires
            self.wf(),
        ensures
            match r {
                Option::Some(j) => self.accounts().dom().contains(addr@)
                    && self.accounts()[addr@].jar == Option::Some(j@),
                Option::None => !self.accounts().dom().contains(addr@)
                    || self.accounts()[addr@].jar is None,
            },
    {
        match self.find_index(addr) {
            Some(i) => {
                proof {
                    lemma_map_of_lookup(self.store@, i as int);
                }
                match &self.store[i].jar {
                    Some(j) => Some(*j),
                    None => None,
                }
            },
            None => None,
        }
    }

    /// Funds a fresh wallet account at the signer's identity. This stands for
    /// the runtime crediting a system account; the library needs it so that
    /// tippers and owners have balances to move.
    pub fn add_wallet(&mut self, key: &Pubkey, lamports: u64) -> (r: Result<(), CustomError>)
        requires
            old(self).wf(),
        ensures
            final(self).wf(),
            final(self).accounts() == spec_add_wallet(old(self).accounts(), key@, lamports).0,
            r == spec_add_wallet(old(self).accounts(), key@, lamports).1,
    {
        let addr = key_bytes(key);
        match self.find_index(&addr) {
            Some(i) => {
                proof {
                    lemma_map_of_lookup(self.store@, i as int);
                }
                Err(CustomError::AlreadyExists)
            },
            None => {
                let entry = StoredAccount { address: addr, lamports, jar: None };
                let ghost e = entry;
                let ghost s0 = self.store@;
                self.store.push(entry);
                proof {
                    lemma_map_of_push(s0, e);
                }
                Ok(())
            },
        }
    }

    /// Creates the signer's tip jar at its derived address, with a zero
    /// lifetime counter and `now` as the creation time.
    pub fn initialize_tip_jar(&mut self, ctx: &InitializeTipJar, now: i64) -> (r: Result<
        (),
        CustomError,
    >)
        requires
            old(self).wf(),
        ensures
            final(self).wf(),
            final(self).accounts() == spec_initialize(old(self).accounts(), ctx.owner@, now).0,
            r == spec_initialize(old(self).accounts(), ctx.owner@, now).1,
    {
        let addr = tip_jar_address(&ctx.owner);
        match self.find_index(&addr) {
            Some(i) => {
                proof {
                    lemma_map_of_lookup(self.store@, i as int);
                }
                Err(CustomError::AlreadyExists)
            },
            None => {
                let record = TipJar { owner: ctx.owner, total_tips: 0, created_at: now };
                let entry = StoredAccount { address: addr, lamports: 0, jar: Some(record) };
                let ghost e = entry;
                let ghost s0 = self.store@;
                self.store.push(entry);
                proof {
                    lemma_map_of_push(s0, e);
                }
                Ok(())
            },
        }
    }

    /// Moves `amount` from the tipper's wallet into the jar's backing balance
    /// and raises the jar's lifetime counter by the same amount.
    pub fn send_tip(&mut self, ctx: &SendTip, amount: u64) -> (r: Result<(), CustomError>)
        requires
            old(self).wf(),
            send_tip_pre(old(self).accounts(), ctx.tipper@, ctx.jar_address@),
        ensures
            final(self).wf(),
            final(self).accounts() == spec_send_tip(
                old(self).accounts(),
                ctx.tipper@,
                ctx.jar_address@,
                amount,
            ).0,
            r == spec_send_tip(old(self).accounts(), ctx.tipper@, ctx.jar_address@, amount).1,
    {
        let taddr = key_bytes(&ctx.tipper);
        let ti = match self.find_index(&taddr) {
            Some(i) => i,
            None => unreached(),
        };
        let ji = match self.find_index(&ctx.jar_address) {
            Some(i) => i,
            None => unreached(),
        };
        proof {
            lemma_map_of_lookup(self.store@, ti as int);
            lemma_map_of_lookup(self.store@, ji as int);
        }
        let tip_bal = self.store[ti].lamports;
        let jar_lam = self.store[ji].lamports;
        let jar_rec = match &self.store[ji].jar {
            Some(j) => *j,
            None => unreached(),
        };
        if tip_bal < amount {
            return Err(CustomError::InsufficientFunds);
        }
        if amount > u64::MAX - jar_lam || amount > u64::MAX - jar_rec.total_tips {
            return Err(CustomError::Overflow);
        }
        assert(ti != ji);
        let ghost s0 = self.store@;
        self.store[ti].lamports = tip_bal - amount;
        let ghost s1 = self.store@;
        self.store[ji].lamports = jar_lam + amount;
        let ghost s2 = self.store@;
        self.store[ji].jar = Some(
            TipJar { total_tips: jar_rec.total_tips + amount, ..jar_rec },
        );
        proof {
            let s3 = self.store@;
            lemma_map_of_update(s0, ti as int, s1[ti as int]);
            lemma_map_of_update(s1, ji as int, s2[ji as int]);
            lemma_map_of_update(s2, ji as int, s3[ji as int]);
            assert(map_of(s3) =~= spec_send_tip(
                map_of(s0),
                ctx.tipper@,
                ctx.jar_address@,
                amount,
            ).0);
        }
        Ok(())
    }

    /// Pays `amount` out of the jar's backing balance into the recorded
    /// owner's wallet; the lifetime counter is untouched. Only the recorded
    /// owner may withdraw.
    pub fn withdraw_tips(&mut self, ctx: &WithdrawTips, amount: u64) -> (r: Result<
        (),
        CustomError,
    >)
        requires
            old(self).wf(),
            withdraw_pre(old(self).accounts(), ctx.owner@, ctx.jar_address@),
        ensures
            final(self).wf(),
            final(self).accounts() == spec_withdraw(
                old(self).accounts(),
                ctx.owner@,
                ctx.jar_address@,
                amount,
            ).0,
            r == spec_withdraw(old(self).accounts(), ctx.owner@, ctx.jar_address@, amount).1,
    {
        let waddr = key_bytes(&ctx.owner);
        let wi = match self.find_index(&waddr) {
            Some(i) => i,
            None => unreached(),
        };
        let ji = match self.find_index(&ctx.jar_address) {
            Some(i) => i,
            None => unreached(),
        };
        proof {
            lemma_map_of_lookup(self.store@, wi as int);
            lemma_map_of_lookup(self.store@, ji as int);
        }
        let wallet_bal = self.store[wi].lamports;
        let jar_lam = self.store[ji].lamports;
        let jar_rec = match &self.store[ji].jar {
            Some(j) => *j,
            None => unreached(),
        };
        if !key_eq(&ctx.owner, &jar_rec.owner) {
            return Err(CustomError::Unauthorized);
        }
        if jar_lam < amount {
            return Err(CustomError::InsufficientFunds);
        }
        if amount > u64::MAX - wallet_bal {
            return Err(CustomError::Overflow);
        }
        assert(wi != ji);
        let ghost s0 = self.store@;
        self.store[ji].lamports = jar_lam - amount;
        let ghost s1 = self.store@;
        self.store[wi].lamports = wallet_bal + amount;
        proof {
            let s2 = self.store@;
            lemma_map_of_update(s0, ji as int, s1[ji as int]);
            lemma_map_of_update(s1, wi as int, s2[wi as int]);
            assert(map_of(s2) =~= spec_withdraw(
                map_of(s0),
                ctx.owner@,
                ctx.jar_address@,
                amount,
            ).0);
        }
        Ok(())
    }
}

} // verus!
