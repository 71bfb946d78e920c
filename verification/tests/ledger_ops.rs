use tipping_app::address::tip_jar_address;
use tipping_app::jar::CustomError;
use tipping_app::jar::Pubkey;
use tipping_app::ledger::InitializeTipJar;
use tipping_app::ledger::Ledger;
use tipping_app::ledger::SendTip;
use tipping_app::ledger::WithdrawTips;

fn key(tag: u8) -> Pubkey {
    Pubkey { bytes: [tag; 32] }
}

fn jar_with_wallets(owner: Pubkey, wallets: &[(Pubkey, u64)], created_at: i64) -> Ledger {
    let mut l = Ledger::new();
    for (k, bal) in wallets {
        assert_eq!(l.add_wallet(k, *bal), Ok(()));
    }
    let ctx = InitializeTipJar { owner };
    assert_eq!(l.initialize_tip_jar(&ctx, created_at), Ok(()));
    l
}

#[test]
fn scenario_initialize_tip_withdraw() {
    let x = key(1);
    let y = key(2);
    let mut l = jar_with_wallets(x, &[(x, 500), (y, 2000)], 77);
    let jaddr = tip_jar_address(&x);

    let jar = l.jar_record(&jaddr).unwrap();
    assert_eq!(jar.total_tips, 0);
    assert_eq!(jar.created_at, 77);
    assert_eq!(jar.owner.bytes, x.bytes);
    assert_eq!(l.lamports_of(&jaddr), Some(0));

    let tip_ctx = SendTip { tipper: y, jar_address: tip_jar_address(&x) };
    assert_eq!(l.send_tip(&tip_ctx, 1000), Ok(()));
    assert_eq!(l.lamports_of(&jaddr), Some(1000));
    assert_eq!(l.jar_record(&jaddr).unwrap().total_tips, 1000);
    assert_eq!(l.lamports_of(&tipping_app::jar::key_bytes(&y)), Some(1000));

    let w_ctx = WithdrawTips { owner: x, jar_address: tip_jar_address(&x) };
    assert_eq!(l.withdraw_tips(&w_ctx, 400), Ok(()));
    assert_eq!(l.lamports_of(&jaddr), Some(600));
    assert_eq!(l.jar_record(&jaddr).unwrap().total_tips, 1000);
    assert_eq!(l.lamports_of(&tipping_app::jar::key_bytes(&x)), Some(900));

    let w_ctx2 = WithdrawTips { owner: x, jar_address: tip_jar_address(&x) };
    assert_eq!(l.withdraw_tips(&w_ctx2, 10000), Err(CustomError::InsufficientFunds));
    assert_eq!(l.lamports_of(&jaddr), Some(600));
    assert_eq!(l.lamports_of(&tipping_app::jar::key_bytes(&x)), Some(900));
}

#[test]
fn initialize_twice_fails_with_already_exists() {
    let x = key(3);
    let mut l = jar_with_wallets(x, &[(x, 100)], 5);
    let ctx = InitializeTipJar { owner: x };
    assert_eq!(l.initialize_tip_jar(&ctx, 6), Err(CustomError::AlreadyExists));
    // The first record stands untouched.
    let jaddr = tip_jar_address(&x);
    assert_eq!(l.jar_record(&jaddr).unwrap().created_at, 5);
}

#[test]
fn deposit_moves_exactly_the_amount() {
    let x = key(4);
    let y = key(5);
    let mut l = jar_with_wallets(x, &[(y, 750)], 0);
    let jaddr = tip_jar_address(&x);
    let tip_ctx = SendTip { tipper: y, jar_address: tip_jar_address(&x) };
    assert_eq!(l.send_tip(&tip_ctx, 300), Ok(()));
    assert_eq!(l.lamports_of(&tipping_app::jar::key_bytes(&y)), Some(450));
    assert_eq!(l.lamports_of(&jaddr), Some(300));
    assert_eq!(l.jar_record(&jaddr).unwrap().total_tips, 300);
}

#[test]
fn deposit_beyond_wallet_balance_fails() {
    let x = key(6);
    let y = key(7);
    let mut l = jar_with_wallets(x, &[(y, 100)], 0);
    let tip_ctx = SendTip { tipper: y, jar_address: tip_jar_address(&x) };
    assert_eq!(l.send_tip(&tip_ctx, 101), Err(CustomError::InsufficientFunds));
    // Nothing moved.
    assert_eq!(l.lamports_of(&tipping_app::jar::key_bytes(&y)), Some(100));
    assert_eq!(l.lamports_of(&tip_jar_address(&x)), Some(0));
}

#[test]
fn deposit_overflowing_total_tips_fails() {
    let x = key(8);
    let y = key(9);
    let z = key(10);
    let mut l = jar_with_wallets(x, &[(y, u64::MAX), (z, 10)], 0);
    let tip_ctx = SendTip { tipper: y, jar_address: tip_jar_address(&x) };
    assert_eq!(l.send_tip(&tip_ctx, u64::MAX), Ok(()));
    assert_eq!(l.jar_record(&tip_jar_address(&x)).unwrap().total_tips, u64::MAX);
    let tip_ctx2 = SendTip { tipper: z, jar_address: tip_jar_address(&x) };
    assert_eq!(l.send_tip(&tip_ctx2, 1), Err(CustomError::Overflow));
    // The failed tip rolled back whole: nothing moved.
    assert_eq!(l.lamports_of(&tipping_app::jar::key_bytes(&z)), Some(10));
    assert_eq!(l.jar_record(&tip_jar_address(&x)).unwrap().total_tips, u64::MAX);
}

#[test]
fn withdraw_into_overfull_wallet_fails() {
    let x = key(11);
    let y = key(12);
    let mut l = jar_with_wallets(x, &[(x, u64::MAX - 100), (y, 1000)], 0);
    let tip_ctx = SendTip { tipper: y, jar_address: tip_jar_address(&x) };
    assert_eq!(l.send_tip(&tip_ctx, 1000), Ok(()));
    let w_ctx = WithdrawTips { owner: x, jar_address: tip_jar_address(&x) };
    assert_eq!(l.withdraw_tips(&w_ctx, 400), Err(CustomError::Overflow));
    // A withdrawal the wallet can absorb still goes through.
    let w_ctx2 = WithdrawTips { owner: x, jar_address: tip_jar_address(&x) };
    assert_eq!(l.withdraw_tips(&w_ctx2, 100), Ok(()));
    assert_eq!(l.lamports_of(&tipping_app::jar::key_bytes(&x)), Some(u64::MAX));
}

#[test]
fn withdraw_by_stranger_fails_unauthorized() {
    let x = key(13);
    let e = key(14);
    let mut l = jar_with_wallets(x, &[(x, 0), (e, 50)], 0);
    let y = key(15);
    let tip_wallet = l.add_wallet(&y, 600);
    assert_eq!(tip_wallet, Ok(()));
    let tip_ctx = SendTip { tipper: y, jar_address: tip_jar_address(&x) };
    assert_eq!(l.send_tip(&tip_ctx, 600), Ok(()));
    // An eavesdropper names the owner's jar but signs as themselves.
    let w_ctx = WithdrawTips { owner: e, jar_address: tip_jar_address(&x) };
    assert_eq!(l.withdraw_tips(&w_ctx, 10), Err(CustomError::Unauthorized));
    assert_eq!(l.lamports_of(&tip_jar_address(&x)), Some(600));
    assert_eq!(l.lamports_of(&tipping_app::jar::key_bytes(&e)), Some(50));
}

#[test]
fn repeated_deposits_accumulate_in_any_order() {
    let x = key(16);
    let y = key(17);
    let z = key(18);
    let amounts_one = [(y, 10u64), (z, 25), (y, 7), (z, 100)];
    let amounts_two = [(z, 100u64), (y, 7), (z, 25), (y, 10)];
    let mut totals = Vec::new();
    for run in [&amounts_one[..], &amounts_two[..]] {
        let mut l = jar_with_wallets(x, &[(y, 1000), (z, 1000)], 0);
        for (tipper, amount) in run {
            let ctx = SendTip { tipper: *tipper, jar_address: tip_jar_address(&x) };
            assert_eq!(l.send_tip(&ctx, *amount), Ok(()));
        }
        totals.push(l.jar_record(&tip_jar_address(&x)).unwrap().total_tips);
        assert_eq!(l.lamports_of(&tip_jar_address(&x)), Some(142));
    }
    assert_eq!(totals, vec![142, 142]);
}

#[test]
fn add_wallet_twice_fails() {
    let y = key(19);
    let mut l = Ledger::new();
    assert_eq!(l.add_wallet(&y, 10), Ok(()));
    assert_eq!(l.add_wallet(&y, 99), Err(CustomError::AlreadyExists));
    assert_eq!(l.lamports_of(&tipping_app::jar::key_bytes(&y)), Some(10));
}

#[test]
fn missing_accounts_read_as_absent() {
    let l = Ledger::new();
    let x = key(20);
    assert!(!l.has_account(&tipping_app::jar::key_bytes(&x)));
    assert_eq!(l.lamports_of(&tip_jar_address(&x)), None);
    assert!(l.jar_record(&tip_jar_address(&x)).is_none());
}
