use sha2::Digest;
use sha2::Sha256;
use staking_pool::build_derivation_message;
use staking_pool::get_account_identifier;
use staking_pool::u64_to_be_bytes;
use staking_pool::DepositRequest;
use staking_pool::StakingPool;

#[test]
fn be_bytes_match_std_encoding() {
    let n: u64 = 0x0102_0304_0506_0708;
    assert_eq!(u64_to_be_bytes(n), n.to_be_bytes().to_vec());
    assert_eq!(u64_to_be_bytes(0), vec![0u8; 8]);
    assert_eq!(u64_to_be_bytes(u64::MAX), vec![0xffu8; 8]);
}

#[test]
fn derivation_message_layout() {
    let caller = vec![7u8, 8, 9];
    let m = build_derivation_message(&caller, 5);
    let mut expected = caller.clone();
    expected.extend_from_slice(&5u64.to_be_bytes());
    expected.extend_from_slice(b"staking_pool");
    assert_eq!(m, expected);
}

#[test]
fn first_stake_subaccount_is_the_documented_digest() {
    let caller = vec![1u8, 2, 3];
    let mut pool = StakingPool::init(vec![0], 1_000_000_000);
    pool.deposit(&caller, 1_000, DepositRequest { amount: 123_456, lock_period_days: 90 })
        .unwrap();
    let book = pool.get_user_stakes(&caller).unwrap();

    // The allocator starts at nonce 1, so the first stake hashes
    // caller bytes, the nonce 1 big-endian, and the domain tag.
    let mut h = Sha256::new();
    h.update(&caller);
    h.update(1u64.to_be_bytes());
    h.update(b"staking_pool");
    let expected: [u8; 32] = h.finalize().into();
    assert_eq!(book.stakes[0].subaccount, expected);
}

#[test]
fn account_id_is_prefixed_lowercase_hex() {
    let sub = [0xabu8; 32];
    assert_eq!(get_account_identifier(&sub), format!("account_{}", hex::encode(sub)));

    let mut mixed = [0u8; 32];
    for (i, b) in mixed.iter_mut().enumerate() {
        *b = (i as u8).wrapping_mul(37).wrapping_add(11);
    }
    assert_eq!(get_account_identifier(&mixed), format!("account_{}", hex::encode(mixed)));
}

#[test]
fn stake_account_id_matches_its_subaccount() {
    let caller = vec![42u8];
    let mut pool = StakingPool::init(vec![0], 1_000_000_000);
    let receipt = pool
        .deposit(&caller, 55, DepositRequest { amount: 77_000, lock_period_days: 360 })
        .unwrap();
    let book = pool.get_user_stakes(&caller).unwrap();
    assert_eq!(receipt.account_id, format!("account_{}", hex::encode(book.stakes[0].subaccount)));
}
