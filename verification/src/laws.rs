//! What holds of every instruction sequence: the ledger's invariants and the
//! arithmetic of deposits and withdrawals, stated over the spec-level steps
//! that the executable instructions are proved to implement.

use vstd::prelude::*;

use crate::jar::CustomError;
use crate::ledger::AccountView;
use crate::ledger::send_tip_pre;
use crate::ledger::spec_add_wallet;
use crate::ledger::spec_initialize;
use crate::ledger::spec_send_tip;
use crate::ledger::spec_withdraw;
use crate::ledger::withdraw_pre;

verus! {

/// One instruction, at the spec level.
pub ghost enum Instruction {
    AddWallet { key: Seq<u8>, lamports: u64 },
    Initialize { owner: Seq<u8>, now: i64 },
    SendTip { tipper: Seq<u8>, jar_addr: Seq<u8>, amount: u64 },
    Withdraw { caller: Seq<u8>, jar_addr: Seq<u8>, amount: u64 },
}

/// The step any one instruction takes on the store.
pub open spec fn spec_step(m: Map<Seq<u8>, AccountView>, ins: Instruction) -> (
    Map<Seq<u8>, AccountView>,
    Result<(), CustomError>,
) {
    match ins {
        Instruction::AddWallet { key, lamports } => spec_add_wallet(m, key, lamports),
        Instruction::Initialize { owner, now } => spec_initialize(m, owner, now),
        Instruction::SendTip { tipper, jar_addr, amount } => spec_send_tip(
            m,
            tipper,
            jar_addr,
            amount,
        ),
        Instruction::Withdraw { caller, jar_addr, amount } => spec_withdraw(
            m,
            caller,
            jar_addr,
            amount,
        ),
    }
}

/// No instruction ever destroys a record, reassigns its owner, rewrites its
/// creation time, or lowers its lifetime counter.
pub proof fn lemma_step_preserves_records(
    m: Map<Seq<u8>, AccountView>,
    ins: Instruction,
    k: Seq<u8>,
)
    requires
        m.dom().contains(k),
        m[k].jar is Some,
    ensures
        ({
            let m2 = spec_step(m, ins).0;
            &&& m2.dom().contains(k)
            &&& m2[k].jar is Some
            &&& m2[k].jar->Some_0.owner == m[k].jar->Some_0.owner
            &&& m2[k].jar->Some_0.created_at == m[k].jar->Some_0.created_at
            &&& m2[k].jar->Some_0.total_tips >= m[k].jar->Some_0.total_tips
        }),
{
}

/// Instructions are atomic: one that fails, for any reason, leaves the store
/// exactly as it was. There are no partial commits.
pub proof fn lemma_failed_step_changes_nothing(m: Map<Seq<u8>, AccountView>, ins: Instruction)
    ensures
        spec_step(m, ins).1 is Err ==> spec_step(m, ins).0 == m,
{
}

/// Creating a jar for the same owner a second time fails with
/// `AlreadyExists`, whatever else the store holds and whether or not the
/// first attempt itself succeeded.
pub proof fn lemma_initialize_twice_fails(
    m: Map<Seq<u8>, AccountView>,
    owner: Seq<u8>,
    t0: i64,
    t1: i64,
)
    ensures
        ({
            let m1 = spec_initialize(m, owner, t0).0;
            spec_initialize(m1, owner, t1).1 == Err::<(), CustomError>(CustomError::AlreadyExists)
        }),
{
}

/// A tip the paying wallet can cover, and whose sums fit, succeeds and moves
/// exactly `amount`: the wallet drops by `amount`, the jar's backing balance
/// and lifetime counter rise by `amount`, its owner and creation time stand,
/// and no other account moves.
pub proof fn lemma_send_tip_deposits_exactly(
    m: Map<Seq<u8>, AccountView>,
    tipper: Seq<u8>,
    jar_addr: Seq<u8>,
    amount: u64,
)
    requires
        send_tip_pre(m, tipper, jar_addr),
        m[tipper].lamports >= amount,
        m[jar_addr].lamports + amount <= u64::MAX,
        m[jar_addr].jar->Some_0.total_tips + amount <= u64::MAX,
    ensures
        ({
            let (m2, r) = spec_send_tip(m, tipper, jar_addr, amount);
            &&& r == Ok::<(), CustomError>(())
            &&& m2[tipper].lamports == m[tipper].lamports - amount
            &&& m2[jar_addr].lamports == m[jar_addr].lamports + amount
            &&& m2[jar_addr].jar->Some_0.total_tips == m[jar_addr].jar->Some_0.total_tips + amount
            &&& m2[jar_addr].jar->Some_0.owner == m[jar_addr].jar->Some_0.owner
            &&& m2[jar_addr].jar->Some_0.created_at == m[jar_addr].jar->Some_0.created_at
            &&& m2.dom() == m.dom()
            &&& forall|k: Seq<u8>|
                m.dom().contains(k) && k != tipper && k != jar_addr ==> m2[k] == m[k]
        }),
{
    let (m2, r) = spec_send_tip(m, tipper, jar_addr, amount);
    assert(m2.dom() =~= m.dom());
}

/// A withdrawal by the recorded owner that the backing balance covers, and
/// that the owner's wallet can absorb, succeeds and moves exactly `amount`:
/// the backing balance drops by `amount`, the owner's wallet rises by
/// `amount`, the lifetime counter and every other account stand untouched.
pub proof fn lemma_withdraw_pays_exactly(
    m: Map<Seq<u8>, AccountView>,
    caller: Seq<u8>,
    jar_addr: Seq<u8>,
    amount: u64,
)
    requires
        withdraw_pre(m, caller, jar_addr),
        m[jar_addr].jar->Some_0.owner == caller,
        m[jar_addr].lamports >= amount,
        m[caller].lamports + amount <= u64::MAX,
    ensures
        ({
            let (m2, r) = spec_withdraw(m, caller, jar_addr, amount);
            &&& r == Ok::<(), CustomError>(())
            &&& m2[jar_addr].lamports == m[jar_addr].lamports - amount
            &&& m2[caller].lamports == m[caller].lamports + amount
            &&& m2[jar_addr].jar == m[jar_addr].jar
            &&& m2.dom() == m.dom()
            &&& forall|k: Seq<u8>|
                m.dom().contains(k) && k != caller && k != jar_addr ==> m2[k] == m[k]
        }),
{
    let (m2, r) = spec_withdraw(m, caller, jar_addr, amount);
    assert(m2.dom() =~= m.dom());
}

/// A withdrawal for more than the backing balance fails with
/// `InsufficientFunds` and leaves the store untouched.
pub proof fn lemma_withdraw_insufficient_funds(
    m: Map<Seq<u8>, AccountView>,
    caller: Seq<u8>,
    jar_addr: Seq<u8>,
    amount: u64,
)
    requires
        m[jar_addr].jar->Some_0.owner == caller,
        m[jar_addr].lamports < amount,
    ensures
        spec_withdraw(m, caller, jar_addr, amount) == (
            m,
            Err::<(), CustomError>(CustomError::InsufficientFunds),
        ),
{
}

/// A withdrawal signed by anyone but the recorded owner fails with
/// `Unauthorized` and leaves the store untouched.
pub proof fn lemma_withdraw_unauthorized(
    m: Map<Seq<u8>, AccountView>,
    caller: Seq<u8>,
    jar_addr: Seq<u8>,
    amount: u64,
)
    requires
        m[jar_addr].jar->Some_0.owner != caller,
    ensures
        spec_withdraw(m, caller, jar_addr, amount) == (
            m,
            Err::<(), CustomError>(CustomError::Unauthorized),
        ),
{
}

/// One tip, at the spec level: who pays, and how much.
pub ghost struct Tip {
    pub tipper: Seq<u8>,
    pub amount: u64,
}

/// The sum of a run of tip amounts.
pub open spec fn sum_amounts(tips: Seq<Tip>) -> int
    decreases tips.len(),
{
    if tips.len() == 0 {
        0
    } else {
        tips[0].amount + sum_amounts(tips.drop_first())
    }
}

/// Runs the tips in order against one jar. The flag says whether every tip
/// found its accounts and succeeded.
pub open spec fn apply_tips(
    m: Map<Seq<u8>, AccountView>,
    jar_addr: Seq<u8>,
    tips: Seq<Tip>,
) -> (Map<Seq<u8>, AccountView>, bool)
    decreases tips.len(),
{
    if tips.len() == 0 {
        (m, true)
    } else {
        let pre = send_tip_pre(m, tips[0].tipper, jar_addr);
        let step = spec_send_tip(m, tips[0].tipper, jar_addr, tips[0].amount);
        let rest = apply_tips(step.0, jar_addr, tips.drop_first());
        (rest.0, pre && step.1 == Ok::<(), CustomError>(()) && rest.1)
    }
}

/// Deposits accumulate additively: however many tippers pay in, and in
/// whatever order, a run of successful tips raises the jar's lifetime counter
/// and backing balance by exactly the sum of the amounts, and touches neither
/// its owner nor its creation time.
pub proof fn lemma_tips_accumulate(
    m: Map<Seq<u8>, AccountView>,
    jar_addr: Seq<u8>,
    tips: Seq<Tip>,
)
    requires
        apply_tips(m, jar_addr, tips).1,
        m.dom().contains(jar_addr),
        m[jar_addr].jar is Some,
    ensures
        ({
            let m2 = apply_tips(m, jar_addr, tips).0;
            &&& m2.dom().contains(jar_addr)
            &&& m2[jar_addr].jar is Some
            &&& m2[jar_addr].jar->Some_0.total_tips == m[jar_addr].jar->Some_0.total_tips
                + sum_amounts(tips)
            &&& m2[jar_addr].lamports == m[jar_addr].lamports + sum_amounts(tips)
            &&& m2[jar_addr].jar->Some_0.owner == m[jar_addr].jar->Some_0.owner
            &&& m2[jar_addr].jar->Some_0.created_at == m[jar_addr].jar->Some_0.created_at
        }),
    decreases tips.len(),
{
    if tips.len() > 0 {
        let step = spec_send_tip(m, tips[0].tipper, jar_addr, tips[0].amount);
        lemma_tips_accumulate(step.0, jar_addr, tips.drop_first());
    }
}

/// Deposits commute: two tips into one jar that succeed in either order leave
/// the whole store the same whichever of the two goes first, whoever pays.
pub proof fn lemma_send_tip_commutes(
    m: Map<Seq<u8>, AccountView>,
    jar_addr: Seq<u8>,
    t1: Tip,
    t2: Tip,
)
    requires
        apply_tips(m, jar_addr, seq![t1, t2]).1,
        apply_tips(m, jar_addr, seq![t2, t1]).1,
    ensures
        apply_tips(m, jar_addr, seq![t1, t2]).0 == apply_tips(m, jar_addr, seq![t2, t1]).0,
{
    let s12 = seq![t1, t2];
    let s21 = seq![t2, t1];
    assert(s12.drop_first() =~= seq![t2]);
    assert(s21.drop_first() =~= seq![t1]);
    assert(seq![t2].drop_first() =~= Seq::<Tip>::empty());
    assert(seq![t1].drop_first() =~= Seq::<Tip>::empty());
    let ma = spec_send_tip(m, t1.tipper, jar_addr, t1.amount).0;
    let mab = spec_send_tip(ma, t2.tipper, jar_addr, t2.amount).0;
    let mb = spec_send_tip(m, t2.tipper, jar_addr, t2.amount).0;
    let mba = spec_send_tip(mb, t1.tipper, jar_addr, t1.amount).0;
    assert(apply_tips(mab, jar_addr, Seq::<Tip>::empty()).0 == mab);
    assert(apply_tips(ma, jar_addr, seq![t2]).0 == mab);
    assert(apply_tips(m, jar_addr, s12).0 == mab);
    assert(apply_tips(mba, jar_addr, Seq::<Tip>::empty()).0 == mba);
    assert(apply_tips(mb, jar_addr, seq![t1]).0 == mba);
    assert(apply_tips(m, jar_addr, s21).0 == mba);
    assert(mab =~= mba);
}

} // verus!
