use staking_pool::DepositRequest;
use staking_pool::StakeError;
use staking_pool::StakingPool;
use staking_pool::WithdrawRequest;
use staking_pool::ICP_FEE;

const START_BALANCE: u64 = 1_000_000_000_000;
const T: u64 = 1_700_000_000;

fn admin() -> Vec<u8> {
    vec![0xaa, 0xbb]
}

fn alice() -> Vec<u8> {
    vec![1, 2, 3, 4]
}

fn bob() -> Vec<u8> {
    vec![9, 9]
}

fn fresh_pool() -> StakingPool {
    StakingPool::init(admin(), START_BALANCE)
}

#[test]
fn deposit_and_withdraw_full_lifecycle() {
    let mut pool = fresh_pool();
    let r = pool
        .deposit(&alice(), T, DepositRequest { amount: 1_000_000, lock_period_days: 90 })
        .unwrap();
    assert_eq!(r.amount, 1_000_000);
    assert_eq!(r.lock_period_days, 90);
    assert_eq!(r.account_id.len(), "account_".len() + 64);
    assert!(r.account_id.starts_with("account_"));
    assert!(r.account_id["account_".len()..]
        .chars()
        .all(|c| c.is_ascii_hexdigit() && !c.is_ascii_uppercase()));

    let book = pool.get_user_stakes(&alice()).unwrap();
    assert_eq!(book.stakes.len(), 1);
    assert_eq!(book.stakes[0].unlock_time, T + 7_776_000);
    assert_eq!(book.stakes[0].stake_time, T);
    assert_eq!(book.total_staked, 1_000_000);
    assert_eq!(book.stakes[0].account_id, r.account_id);

    let locked = pool
        .withdraw(&alice(), T + 7_776_000 - 1, WithdrawRequest { stake_index: 0 })
        .unwrap_err();
    assert_eq!(locked, StakeError::StakeLocked { remaining_seconds: 1 });
    let still = pool.get_user_stakes(&alice()).unwrap();
    assert_eq!(still.stakes.len(), 1);
    assert_eq!(still.total_staked, 1_000_000);

    let paid = pool
        .withdraw(&alice(), T + 7_776_000, WithdrawRequest { stake_index: 0 })
        .unwrap();
    assert_eq!(paid.transferred, 990_000);
    assert_eq!(paid.fee, 10_000);

    let after = pool.get_user_stakes(&alice()).unwrap();
    assert_eq!(after.stakes.len(), 0);
    assert_eq!(after.total_staked, 0);
    assert_eq!(pool.get_pool_info(), (0, 1, 0));
    assert_eq!(pool.balance, START_BALANCE - 1_000_000 + 990_000);
}

#[test]
fn two_deposits_one_identity_aggregate() {
    let mut pool = fresh_pool();
    pool.deposit(&alice(), T, DepositRequest { amount: 500_000, lock_period_days: 180 })
        .unwrap();
    pool.deposit(&alice(), T + 5, DepositRequest { amount: 500_000, lock_period_days: 180 })
        .unwrap();
    let book = pool.get_user_stakes(&alice()).unwrap();
    assert_eq!(book.total_staked, 1_000_000);
    assert_eq!(book.stakes.len(), 2);
    assert_eq!(pool.get_pool_info(), (1_000_000, 1, 2));
}

#[test]
fn two_identical_deposits_get_distinct_subaccounts() {
    let mut pool = fresh_pool();
    let r1 = pool
        .deposit(&alice(), T, DepositRequest { amount: 500_000, lock_period_days: 90 })
        .unwrap();
    let r2 = pool
        .deposit(&alice(), T, DepositRequest { amount: 500_000, lock_period_days: 90 })
        .unwrap();
    assert_ne!(r1.account_id, r2.account_id);
    let book = pool.get_user_stakes(&alice()).unwrap();
    assert_ne!(book.stakes[0].subaccount, book.stakes[1].subaccount);
}

#[test]
fn invalid_lock_period_rejected_without_effect() {
    let mut pool = fresh_pool();
    for days in [0u32, 60, 91, 365] {
        let e = pool
            .deposit(&alice(), T, DepositRequest { amount: 1_000_000, lock_period_days: days })
            .unwrap_err();
        assert_eq!(e, StakeError::InvalidLockPeriod);
    }
    assert_eq!(pool.get_pool_info(), (0, 0, 0));
    assert_eq!(pool.balance, START_BALANCE);
    assert!(pool.get_user_stakes(&alice()).is_none());
}

#[test]
fn amount_below_fee_rejected_without_effect() {
    let mut pool = fresh_pool();
    let e = pool
        .deposit(&alice(), T, DepositRequest { amount: ICP_FEE - 1, lock_period_days: 90 })
        .unwrap_err();
    assert_eq!(e, StakeError::AmountTooSmall);
    assert_eq!(pool.get_pool_info(), (0, 0, 0));
    assert_eq!(pool.balance, START_BALANCE);
    assert!(pool.get_user_stakes(&alice()).is_none());
}

#[test]
fn amount_over_balance_rejected_without_effect() {
    let mut pool = StakingPool::init(admin(), 50_000);
    let e = pool
        .deposit(&alice(), T, DepositRequest { amount: 60_000, lock_period_days: 90 })
        .unwrap_err();
    assert_eq!(e, StakeError::InsufficientPoolBalance);
    assert_eq!(pool.get_pool_info(), (0, 0, 0));
    assert_eq!(pool.balance, 50_000);
    // An amount exactly equal to the balance is still accepted.
    pool.deposit(&alice(), T, DepositRequest { amount: 50_000, lock_period_days: 90 })
        .unwrap();
    assert_eq!(pool.balance, 0);
}

#[test]
fn withdraw_without_book_and_bad_index() {
    let mut pool = fresh_pool();
    let e = pool.withdraw(&bob(), T, WithdrawRequest { stake_index: 0 }).unwrap_err();
    assert_eq!(e, StakeError::NoStakesFound);

    pool.deposit(&alice(), T, DepositRequest { amount: 20_000, lock_period_days: 90 })
        .unwrap();
    let e = pool
        .withdraw(&alice(), T + 100_000_000, WithdrawRequest { stake_index: 1 })
        .unwrap_err();
    assert_eq!(e, StakeError::InvalidStakeIndex);
    assert_eq!(pool.get_pool_info(), (20_000, 1, 1));
}

#[test]
fn amount_equal_to_fee_is_never_paid_out() {
    let mut pool = fresh_pool();
    pool.deposit(&alice(), T, DepositRequest { amount: ICP_FEE, lock_period_days: 90 })
        .unwrap();
    let e = pool
        .withdraw(&alice(), T + 7_776_000, WithdrawRequest { stake_index: 0 })
        .unwrap_err();
    assert_eq!(e, StakeError::FeeExceedsAmount);
    // The rejected withdrawal left the record in place and the totals intact.
    let book = pool.get_user_stakes(&alice()).unwrap();
    assert_eq!(book.stakes.len(), 1);
    assert_eq!(book.total_staked, ICP_FEE);
    assert_eq!(pool.total_pool_amount, ICP_FEE);
    assert_eq!(pool.balance, START_BALANCE - ICP_FEE);
}

#[test]
fn withdraw_removes_exactly_one_and_shifts_indices() {
    let mut pool = fresh_pool();
    pool.deposit(&alice(), T, DepositRequest { amount: 20_000, lock_period_days: 90 })
        .unwrap();
    pool.deposit(&alice(), T, DepositRequest { amount: 30_000, lock_period_days: 180 })
        .unwrap();
    pool.deposit(&alice(), T, DepositRequest { amount: 50_000, lock_period_days: 360 })
        .unwrap();
    assert_eq!(pool.get_pool_info(), (100_000, 1, 3));

    let unlock_all = T + 360 * 86_400;
    let paid = pool.withdraw(&alice(), unlock_all, WithdrawRequest { stake_index: 1 }).unwrap();
    assert_eq!(paid.transferred, 20_000);
    assert_eq!(paid.fee, 10_000);

    let book = pool.get_user_stakes(&alice()).unwrap();
    assert_eq!(book.stakes.len(), 2);
    assert_eq!(book.stakes[0].amount, 20_000);
    assert_eq!(book.stakes[1].amount, 50_000);
    assert_eq!(book.total_staked, 70_000);
    assert_eq!(pool.total_pool_amount, 70_000);
    assert_eq!(pool.balance, START_BALANCE - 100_000 + 20_000);
}

#[test]
fn pool_info_counts_books_and_stakes() {
    let mut pool = fresh_pool();
    pool.deposit(&alice(), T, DepositRequest { amount: 15_000, lock_period_days: 90 })
        .unwrap();
    pool.deposit(&bob(), T, DepositRequest { amount: 25_000, lock_period_days: 180 })
        .unwrap();
    pool.deposit(&bob(), T, DepositRequest { amount: 35_000, lock_period_days: 360 })
        .unwrap();
    assert_eq!(pool.get_pool_info(), (75_000, 2, 3));
}

#[test]
fn only_the_initializer_is_authorized() {
    let pool = fresh_pool();
    assert!(pool.is_authorized(&admin()));
    assert!(!pool.is_authorized(&alice()));
}
