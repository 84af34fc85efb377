//! The stake ledger and pool accountant.
//!
//! A [`StakingPool`] owns every per-identity stake book, the pool-wide
//! aggregate, the sub-account allocator nonce, and the simulated external
//! ledger balance. Every mutating operation validates first and mutates only
//! on success, so a rejected request leaves the state exactly as it was.

use vstd::prelude::*;

use crate::errors::StakeError;
use crate::ident::get_account_identifier;
use crate::ident::account_id_spec;
use crate::ident::derivation_message;
use crate::ident::derive_subaccount;
use crate::ident::sha256_of;
use crate::ICP_FEE;

verus! {

/// One deposit instance: immutable once created, destroyed exactly once by a
/// successful withdrawal.
pub struct StakeInfo {
    /// Staked amount in e8s; at least [`ICP_FEE`] at creation.
    pub amount: u64,
    /// One of the supported lock periods: 90, 180 or 360 days.
    pub lock_period_days: u32,
    /// Seconds since epoch at which the stake was created.
    pub stake_time: u64,
    /// `stake_time + lock_period_days * 86400`.
    pub unlock_time: u64,
    /// Unique 32-byte identifier derived for this stake alone.
    pub subaccount: [u8; 32],
    /// Human-readable form of `subaccount`.
    pub account_id: String,
}

/// The stake book of one caller identity.
pub struct UserStakes {
    /// Stake records in insertion order; a record's position is its external
    /// reference index, so a removal shifts later indices down by one.
    pub stakes: Vec<StakeInfo>,
    /// Always equals the sum of `amount` over `stakes`.
    pub total_staked: u64,
}

/// A deposit request: the amount to stake and the lock period to apply.
pub struct DepositRequest {
    /// Amount in e8s; must be at least [`ICP_FEE`].
    pub amount: u64,
    /// Must be 90, 180 or 360.
    pub lock_period_days: u32,
}

/// A withdrawal request: the position of the stake in the caller's current
/// book. Positions shift on removal, so they must not be cached across
/// mutating calls.
pub struct WithdrawRequest {
    /// Index into the caller's current `stakes`.
    pub stake_index: usize,
}

/// Confirmation of a successful deposit.
#[derive(Debug)]
pub struct DepositReceipt {
    /// The staked amount.
    pub amount: u64,
    /// The applied lock period.
    pub lock_period_days: u32,
    /// The account identifier derived for the new stake.
    pub account_id: String,
}

/// Confirmation of a successful withdrawal.
#[derive(Debug)]
pub struct WithdrawReceipt {
    /// The amount paid out: the stake's amount less the fee.
    pub transferred: u64,
    /// The fee charged.
    pub fee: u64,
}

/// The whole pool state: stake books, aggregate, allocator and balance.
pub struct StakingPool {
    /// One entry per caller identity (its bytes) that ever deposited.
    pub books: Vec<(Vec<u8>, UserStakes)>,
    /// Sum of `total_staked` over all books.
    pub total_pool_amount: u64,
    /// Monotonic allocator nonce; starts at 1, reserved once per derivation,
    /// never reused.
    pub next_nonce: u64,
    /// Simulated external ledger balance the pool debits and credits.
    pub balance: u64,
    /// Identities allowed to administer the pool, seeded at initialization.
    pub authorized: Vec<Vec<u8>>,
}

/// The lock periods a deposit may ask for, in days.
pub open spec fn valid_lock_period(days: u32) -> bool {
    days == 90 || days == 180 || days == 360
}

/// Sum of `amount` over a sequence of stake records.
pub open spec fn sum_amounts(s: Seq<StakeInfo>) -> int
    decreases s.len(),
{
    if s.len() == 0 {
        0
    } else {
        sum_amounts(s.drop_last()) + s.last().amount
    }
}

/// Sum of `total_staked` over a sequence of book entries.
pub open spec fn sum_books(s: Seq<(Vec<u8>, UserStakes)>) -> int
    decreases s.len(),
{
    if s.len() == 0 {
        0
    } else {
        sum_books(s.drop_last()) + s.last().1.total_staked
    }
}

/// Sum of `stakes.len()` over a sequence of book entries.
pub open spec fn count_stakes(s: Seq<(Vec<u8>, UserStakes)>) -> int
    decreases s.len(),
{
    if s.len() == 0 {
        0
    } else {
        count_stakes(s.drop_last()) + s.last().1.stakes@.len()
    }
}

/// No two book entries share an identity.
pub open spec fn keys_unique(s: Seq<(Vec<u8>, UserStakes)>) -> bool {
    forall|i: int, j: int|
        0 <= i < s.len() && 0 <= j < s.len() && i != j ==> (#[trigger] s[i]).0@ != (
        #[trigger] s[j]).0@
}

/// Some book entry belongs to `key`.
pub open spec fn has_book(s: Seq<(Vec<u8>, UserStakes)>, key: Seq<u8>) -> bool {
    exists|i: int| 0 <= i < s.len() && (#[trigger] s[i]).0@ == key
}

/// The index of `key`'s book entry; meaningful when `has_book` holds and the
/// keys are unique.
pub open spec fn book_index(s: Seq<(Vec<u8>, UserStakes)>, key: Seq<u8>) -> int {
    choose|i: int| 0 <= i < s.len() && (#[trigger] s[i]).0@ == key
}

/// A stake record as deposits create them.
pub open spec fn record_wf(rec: StakeInfo) -> bool {
    &&& rec.amount >= ICP_FEE
    &&& valid_lock_period(rec.lock_period_days)
    &&& rec.unlock_time == rec.stake_time + rec.lock_period_days * 86400
    &&& rec.account_id@ == account_id_spec(rec.subaccount@)
}

/// A book whose stored total matches its records, all of them well formed.
pub open spec fn book_wf(b: UserStakes) -> bool {
    &&& b.total_staked == sum_amounts(b.stakes@)
    &&& forall|j: int| 0 <= j < b.stakes@.len() ==> record_wf(#[trigger] b.stakes@[j])
}

impl StakingPool {
    /// The pool invariant: unique identities, consistent books, a pool total
    /// that is exactly the sum of the book totals, and room in the ledger
    /// balance for every credit the pool may owe.
    pub open spec fn wf(self) -> bool {
        &&& keys_unique(self.books@)
        &&& forall|i: int| 0 <= i < self.books@.len() ==> book_wf((#[trigger] self.books@[i]).1)
        &&& self.total_pool_amount == sum_books(self.books@)
        &&& self.total_pool_amount + self.balance <= u64::MAX
        &&& self.next_nonce >= 1
    }
}

/// Every partial sum of amounts is nonnegative.
proof fn lemma_sum_amounts_nonneg(s: Seq<StakeInfo>)
    ensures
        sum_amounts(s) >= 0,
    decreases s.len(),
{
    if s.len() > 0 {
        lemma_sum_amounts_nonneg(s.drop_last());
    }
}

/// Appending a record adds exactly its amount to the sum.
proof fn lemma_sum_amounts_push(s: Seq<StakeInfo>, x: StakeInfo)
    ensures
        sum_amounts(s.push(x)) == sum_amounts(s) + x.amount,
{
    assert(s.push(x).drop_last() =~= s);
    assert(s.push(x).last() == x);
}

/// Removing the record at `i` subtracts exactly its amount from the sum.
proof fn lemma_sum_amounts_remove(s: Seq<StakeInfo>, i: int)
    requires
        0 <= i < s.len(),
    ensures
        sum_amounts(s.remove(i)) == sum_amounts(s) - s[i].amount,
    decreases s.len(),
{
    if i == s.len() - 1 {
        assert(s.remove(i) =~= s.drop_last());
    } else {
        assert(s.remove(i).drop_last() =~= s.drop_last().remove(i));
        assert(s.remove(i).last() == s.last());
        lemma_sum_amounts_remove(s.drop_last(), i);
    }
}

/// Each record's amount is at most the sum over its sequence.
proof fn lemma_sum_amounts_elem_bound(s: Seq<StakeInfo>, i: int)
    requires
        0 <= i < s.len(),
    ensures
        s[i].amount <= sum_amounts(s),
    decreases s.len(),
{
    lemma_sum_amounts_nonneg(s.drop_last());
    if i == s.len() - 1 {
    } else {
        lemma_sum_amounts_elem_bound(s.drop_last(), i);
    }
}

/// Every partial sum of book totals is nonnegative.
proof fn lemma_sum_books_nonneg(s: Seq<(Vec<u8>, UserStakes)>)
    ensures
        sum_books(s) >= 0,
    decreases s.len(),
{
    if s.len() > 0 {
        lemma_sum_books_nonneg(s.drop_last());
    }
}

/// Appending a book entry adds exactly its total to the sum.
proof fn lemma_sum_books_push(s: Seq<(Vec<u8>, UserStakes)>, e: (Vec<u8>, UserStakes))
    ensures
        sum_books(s.push(e)) == sum_books(s) + e.1.total_staked,
{
    assert(s.push(e).drop_last() =~= s);
    assert(s.push(e).last() == e);
}

/// Replacing the entry at `k` changes the sum by the difference of totals.
proof fn lemma_sum_books_update(s: Seq<(Vec<u8>, UserStakes)>, k: int, e: (Vec<u8>, UserStakes))
    requires
        0 <= k < s.len(),
    ensures
        sum_books(s.update(k, e)) == sum_books(s) - s[k].1.total_staked + e.1.total_staked,
    decreases s.len(),
{
    if k == s.len() - 1 {
        assert(s.update(k, e).drop_last() =~= s.drop_last());
        assert(s.update(k, e).last() == e);
    } else {
        assert(s.update(k, e).drop_last() =~= s.drop_last().update(k, e));
        assert(s.update(k, e).last() == s.last());
        lemma_sum_books_update(s.drop_last(), k, e);
    }
}

/// Each book's total is at most the sum over all books.
proof fn lemma_sum_books_elem_bound(s: Seq<(Vec<u8>, UserStakes)>, k: int)
    requires
        0 <= k < s.len(),
    ensures
        s[k].1.total_staked <= sum_books(s),
    decreases s.len(),
{
    lemma_sum_books_nonneg(s.drop_last());
    if k == s.len() - 1 {
    } else {
        lemma_sum_books_elem_bound(s.drop_last(), k);
    }
}

/// Every partial count of stakes is nonnegative.
proof fn lemma_count_stakes_nonneg(s: Seq<(Vec<u8>, UserStakes)>)
    ensures
        count_stakes(s) >= 0,
    decreases s.len(),
{
    if s.len() > 0 {
        lemma_count_stakes_nonneg(s.drop_last());
    }
}

/// A well-formed book holds at least one fee per stake, so its stake count is
/// at most its total.
proof fn lemma_len_le_sum_amounts(s: Seq<StakeInfo>)
    requires
        forall|j: int| 0 <= j < s.len() ==> record_wf(#[trigger] s[j]),
    ensures
        sum_amounts(s) >= s.len(),
    decreases s.len(),
{
    if s.len() > 0 {
        lemma_len_le_sum_amounts(s.drop_last());
    }
}

/// Under the book invariants, the total stake count is at most the pool total.
proof fn lemma_count_stakes_le_sum_books(s: Seq<(Vec<u8>, UserStakes)>)
    requires
        forall|i: int| 0 <= i < s.len() ==> book_wf((#[trigger] s[i]).1),
    ensures
        count_stakes(s) <= sum_books(s),
    decreases s.len(),
{
    if s.len() > 0 {
        assert(book_wf(s.last().1));
        lemma_len_le_sum_amounts(s.last().1.stakes@);
        assert forall|i: int| 0 <= i < s.drop_last().len() implies book_wf(
            (#[trigger] s.drop_last()[i]).1,
        ) by {
            assert(s.drop_last()[i] == s[i]);
        }
        lemma_count_stakes_le_sum_books(s.drop_last());
    }
}

/// Counting one more book adds exactly its stake count.
proof fn lemma_count_stakes_take_succ(s: Seq<(Vec<u8>, UserStakes)>, k: int)
    requires
        0 <= k < s.len(),
    ensures
        count_stakes(s.take(k + 1)) == count_stakes(s.take(k)) + s[k].1.stakes@.len(),
{
    assert(s.take(k + 1).drop_last() =~= s.take(k));
    assert(s.take(k + 1).last() == s[k]);
}

/// A prefix counts at most as many stakes as the whole sequence.
proof fn lemma_count_stakes_take_le(s: Seq<(Vec<u8>, UserStakes)>, k: int)
    requires
        0 <= k <= s.len(),
    ensures
        count_stakes(s.take(k)) <= count_stakes(s),
    decreases s.len() - k,
{
    if k == s.len() {
        assert(s.take(k) =~= s);
    } else {
        lemma_count_stakes_take_succ(s, k);
        lemma_count_stakes_take_le(s, k + 1);
    }
}

/// With unique keys, an entry holding `key` sits at `book_index`.
proof fn lemma_book_index_agrees(s: Seq<(Vec<u8>, UserStakes)>, key: Seq<u8>, k: int)
    requires
        keys_unique(s),
        0 <= k < s.len(),
        s[k].0@ == key,
    ensures
        has_book(s, key),
        book_index(s, key) == k,
{
    assert(has_book(s, key));
    let i = book_index(s, key);
    assert(0 <= i < s.len() && s[i].0@ == key);
    if i != k {
        assert(s[i].0@ != s[k].0@);
        assert(false);
    }
}

/// The stake record a successful deposit creates for `caller` under `nonce`
/// at time `now`.
pub open spec fn new_record_matches(
    rec: StakeInfo,
    caller: Seq<u8>,
    nonce: u64,
    now: u64,
    req: DepositRequest,
) -> bool {
    &&& rec.amount == req.amount
    &&& rec.lock_period_days == req.lock_period_days
    &&& rec.stake_time == now
    &&& rec.unlock_time == now + req.lock_period_days * 86400
    &&& rec.subaccount@ == sha256_of(derivation_message(caller, nonce))
    &&& rec.account_id@ == account_id_spec(rec.subaccount@)
}

/// Everything a successful deposit changes, and nothing else: the allocator
/// nonce advances by one, the balance is debited, the pool total is credited,
/// and exactly one record is appended to the caller's book (created fresh on
/// a first deposit).
pub open spec fn deposit_effect(
    pre: StakingPool,
    post: StakingPool,
    caller: Seq<u8>,
    now: u64,
    req: DepositRequest,
    receipt: DepositReceipt,
) -> bool {
    &&& post.next_nonce == pre.next_nonce + 1
    &&& post.balance == pre.balance - req.amount
    &&& post.total_pool_amount == pre.total_pool_amount + req.amount
    &&& post.authorized == pre.authorized
    &&& receipt.amount == req.amount
    &&& receipt.lock_period_days == req.lock_period_days
    &&& receipt.account_id@ == account_id_spec(sha256_of(derivation_message(caller, pre.next_nonce)))
    &&& if has_book(pre.books@, caller) {
        let k = book_index(pre.books@, caller);
        let oldb = pre.books@[k].1;
        let newb = post.books@[k].1;
        &&& post.books@.len() == pre.books@.len()
        &&& (forall|j: int|
            0 <= j < pre.books@.len() && j != k ==> post.books@[j] == pre.books@[j])
        &&& post.books@[k].0 == pre.books@[k].0
        &&& newb.stakes@.len() == oldb.stakes@.len() + 1
        &&& newb.stakes@.drop_last() == oldb.stakes@
        &&& new_record_matches(newb.stakes@.last(), caller, pre.next_nonce, now, req)
        &&& newb.total_staked == oldb.total_staked + req.amount
    } else {
        let newb = post.books@.last().1;
        &&& post.books@.len() == pre.books@.len() + 1
        &&& post.books@.drop_last() == pre.books@
        &&& post.books@.last().0@ == caller
        &&& newb.stakes@.len() == 1
        &&& new_record_matches(newb.stakes@[0], caller, pre.next_nonce, now, req)
        &&& newb.total_staked == req.amount
    }
}

/// Everything a successful withdrawal of the stake at `idx` changes, and
/// nothing else: exactly that record leaves the caller's book (later indices
/// shift down by one), the book and pool totals drop by its amount, and the
/// balance is credited with the amount less the fee.
pub open spec fn withdraw_effect(
    pre: StakingPool,
    post: StakingPool,
    caller: Seq<u8>,
    idx: int,
    receipt: WithdrawReceipt,
) -> bool {
    let k = book_index(pre.books@, caller);
    let oldb = pre.books@[k].1;
    let newb = post.books@[k].1;
    let rec = oldb.stakes@[idx];
    &&& post.next_nonce == pre.next_nonce
    &&& post.authorized == pre.authorized
    &&& post.balance == pre.balance + rec.amount - ICP_FEE
    &&& post.total_pool_amount == pre.total_pool_amount - rec.amount
    &&& post.books@.len() == pre.books@.len()
    &&& (forall|j: int| 0 <= j < pre.books@.len() && j != k ==> post.books@[j] == pre.books@[j])
    &&& post.books@[k].0 == pre.books@[k].0
    &&& newb.stakes@ == oldb.stakes@.remove(idx)
    &&& newb.total_staked == oldb.total_staked - rec.amount
    &&& receipt.transferred == rec.amount - ICP_FEE
    &&& receipt.fee == ICP_FEE
}

/// Whether two byte vectors hold the same bytes.
fn bytes_eq(a: &Vec<u8>, b: &Vec<u8>) -> (r: bool)
    ensures
        r == (a@ == b@),
{
    if a.len() != b.len() {
        proof {
            assert(a@ != b@);
        }
        return false;
    }
    let mut i: usize = 0;
    while i < a.len()
        invariant
            i <= a@.len(),
            a@.len() == b@.len(),
            forall|j: int| 0 <= j < i ==> a@[j] == b@[j],
        decreases a@.len() - i,
    {
        if a[i] != b[i] {
            return false;
        }
        i = i + 1;
    }
    proof {
        assert(a@ =~= b@);
    }
    true
}

/// A copy of a byte vector with the same bytes.
fn clone_bytes(a: &Vec<u8>) -> (r: Vec<u8>)
    ensures
        r@ == a@,
{
    let mut v: Vec<u8> = Vec::new();
    let mut i: usize = 0;
    while i < a.len()
        invariant
            i <= a@.len(),
            v@ =~= a@.take(i as int),
        decreases a@.len() - i,
    {
        v.push(a[i]);
        i = i + 1;
    }
    proof {
        assert(v@ =~= a@);
    }
    v
}

impl StakingPool {
    /// A fresh pool: no books, zero pool total, allocator nonce at 1, the
    /// given external balance, and the initializing identity alone on the
    /// allow-list.
    pub fn init(admin: Vec<u8>, initial_balance: u64) -> (p: StakingPool)
        ensures
            p.wf(),
            p.books@.len() == 0,
            p.total_pool_amount == 0,
            p.next_nonce == 1,
            p.balance == initial_balance,
            p.authorized@.len() == 1,
            p.authorized@[0]@ == admin@,
    {
        let mut authorized: Vec<Vec<u8>> = Vec::new();
        authorized.push(admin);
        StakingPool {
            books: Vec::new(),
            total_pool_amount: 0,
            next_nonce: 1,
            balance: initial_balance,
            authorized,
        }
    }

    /// Whether `caller` is on the allow-list seeded at initialization.
    pub fn is_authorized(&self, caller: &Vec<u8>) -> (r: bool)
        ensures
            r == exists|i: int|
                0 <= i < self.authorized@.len() && (#[trigger] self.authorized@[i])@ == caller@,
    {
        let mut i: usize = 0;
        while i < self.authorized.len()
            invariant
                i <= self.authorized@.len(),
                forall|j: int| 0 <= j < i ==> (#[trigger] self.authorized@[j])@ != caller@,
            decreases self.authorized@.len() - i,
        {
            if bytes_eq(&self.authorized[i], caller) {
                return true;
            }
            i = i + 1;
        }
        false
    }

    /// The index of `caller`'s book entry, if one exists.
    fn find_index(&self, caller: &Vec<u8>) -> (r: Option<usize>)
        requires
            keys_unique(self.books@),
        ensures
            match r {
                Some(k) => {
                    &&& k < self.books@.len()
                    &&& self.books@[k as int].0@ == caller@
                    &&& has_book(self.books@, caller@)
                    &&& book_index(self.books@, caller@) == k
                },
                None => !has_book(self.books@, caller@),
            },
    {
        let mut i: usize = 0;
        while i < self.books.len()
            invariant
                i <= self.books@.len(),
                keys_unique(self.books@),
                forall|j: int| 0 <= j < i ==> (#[trigger] self.books@[j]).0@ != caller@,
            decreases self.books@.len() - i,
        {
            if bytes_eq(&self.books[i].0, caller) {
                proof {
                    lemma_book_index_agrees(self.books@, caller@, i as int);
                }
                return Some(i);
            }
            i = i + 1;
        }
        proof {
            if has_book(self.books@, caller@) {
                let w = choose|w: int|
                    0 <= w < self.books@.len() && (#[trigger] self.books@[w]).0@ == caller@;
                assert(self.books@[w].0@ != caller@);
            }
        }
        None
    }

    /// Stakes `request.amount` for `caller` at time `now`, locked for
    /// `request.lock_period_days` days.
    ///
    /// Validation, in order and first failure winning: the lock period must be
    /// one of 90, 180 or 360 days; the amount must cover the fee; the amount
    /// must not exceed the available balance. A rejected request changes no
    /// state. A successful one debits the balance, reserves a fresh allocator
    /// nonce, appends exactly one record to the caller's book (creating the
    /// book on a first deposit), and credits the book and pool totals, all in
    /// one step.
    pub fn deposit(&mut self, caller: &Vec<u8>, now: u64, request: DepositRequest) -> (r: Result<
        DepositReceipt,
        StakeError,
    >)
        requires
            old(self).wf(),
            old(self).next_nonce < u64::MAX,
            now + 31_104_000 <= u64::MAX,
        ensures
            final(self).wf(),
            r is Err ==> *final(self) == *old(self),
            (r == Err::<DepositReceipt, StakeError>(StakeError::InvalidLockPeriod)) <==> !valid_lock_period(
                request.lock_period_days,
            ),
            (r == Err::<DepositReceipt, StakeError>(StakeError::AmountTooSmall)) <==> (
            valid_lock_period(request.lock_period_days) && request.amount < ICP_FEE),
            (r == Err::<DepositReceipt, StakeError>(StakeError::InsufficientPoolBalance)) <==> (
            valid_lock_period(request.lock_period_days) && request.amount >= ICP_FEE
                && request.amount > old(self).balance),
            r is Ok <==> (valid_lock_period(request.lock_period_days) && request.amount >= ICP_FEE
                && request.amount <= old(self).balance),
            (r matches Ok(receipt) ==> deposit_effect(
                *old(self),
                *final(self),
                caller@,
                now,
                request,
                receipt,
            )),
    {
        if !(request.lock_period_days == 90 || request.lock_period_days == 180
            || request.lock_period_days == 360) {
            return Err(StakeError::InvalidLockPeriod);
        }
        if request.amount < ICP_FEE {
            return Err(StakeError::AmountTooSmall);
        }
        if request.amount > self.balance {
            return Err(StakeError::InsufficientPoolBalance);
        }
        let found = self.find_index(caller);
        let nonce = self.next_nonce;
        self.next_nonce = nonce + 1;
        let sub = derive_subaccount(caller, nonce);
        let account_id = get_account_identifier(&sub);
        let receipt = DepositReceipt {
            amount: request.amount,
            lock_period_days: request.lock_period_days,
            account_id: account_id.clone(),
        };
        let rec = StakeInfo {
            amount: request.amount,
            lock_period_days: request.lock_period_days,
            stake_time: now,
            unlock_time: now + (request.lock_period_days as u64) * 86400,
            subaccount: sub,
            account_id,
        };
        self.balance = self.balance - request.amount;
        let ghost pre_books = self.books@;
        proof {
            lemma_sum_books_nonneg(pre_books);
        }
        match found {
            Some(k) => {
                proof {
                    lemma_sum_books_elem_bound(pre_books, k as int);
                }
                let mut entry = self.books.remove(k);
                proof {
                    lemma_sum_amounts_push(entry.1.stakes@, rec);
                }
                entry.1.stakes.push(rec);
                entry.1.total_staked = entry.1.total_staked + request.amount;
                self.books.insert(k, entry);
                proof {
                    let post_entry = self.books@[k as int];
                    assert(self.books@ =~= pre_books.update(k as int, post_entry));
                    lemma_sum_books_update(pre_books, k as int, post_entry);
                    assert(post_entry.1.stakes@.drop_last() =~= pre_books[k as int].1.stakes@);
                    assert(book_wf(pre_books[k as int].1));
                    assert forall|i: int| 0 <= i < self.books@.len() implies book_wf(
                        (#[trigger] self.books@[i]).1,
                    ) by {
                        if i != k as int {
                            assert(self.books@[i] == pre_books[i]);
                            assert(book_wf(pre_books[i].1));
                        } else {
                            assert(self.books@[i] == post_entry);
                            assert(post_entry.1.stakes@ == pre_books[k as int].1.stakes@.push(
                                post_entry.1.stakes@.last(),
                            ));
                        }
                    }
                }
                self.total_pool_amount = self.total_pool_amount + request.amount;
                Ok(receipt)
            },
            None => {
                let key = clone_bytes(caller);
                let mut stakes_vec: Vec<StakeInfo> = Vec::new();
                stakes_vec.push(rec);
                let book = UserStakes { stakes: stakes_vec, total_staked: request.amount };
                proof {
                    assert forall|i: int| 0 <= i < pre_books.len() implies (
                    #[trigger] pre_books[i]).0@ != caller@ by {
                        if pre_books[i].0@ == caller@ {
                            assert(has_book(pre_books, caller@));
                        }
                    }
                    assert(book.stakes@.drop_last() =~= Seq::<StakeInfo>::empty());
                    lemma_sum_books_push(pre_books, (key, book));
                }
                self.books.push((key, book));
                proof {
                    assert(self.books@.drop_last() =~= pre_books);
                    assert forall|i: int| 0 <= i < self.books@.len() implies book_wf(
                        (#[trigger] self.books@[i]).1,
                    ) by {
                        if i < pre_books.len() {
                            assert(self.books@[i] == pre_books[i]);
                            assert(book_wf(pre_books[i].1));
                        } else {
                            assert(self.books@[i].1.stakes@.drop_last() =~= Seq::<
                                StakeInfo,
                            >::empty());
                            assert(sum_amounts(Seq::<StakeInfo>::empty()) == 0);
                            assert(sum_amounts(self.books@[i].1.stakes@)
                                == self.books@[i].1.stakes@.last().amount);
                        }
                    }
                }
                self.total_pool_amount = self.total_pool_amount + request.amount;
                Ok(receipt)
            },
        }
    }

    /// Withdraws the stake at `request.stake_index` in `caller`'s book, at
    /// time `now`.
    ///
    /// Validation, in order: the caller must have a book; the index must be in
    /// bounds; the stake must be unlocked; the stake's amount must exceed the
    /// fee (a zero net transfer is rejected, never silently performed). A
    /// rejected request changes no state. A successful one removes exactly
    /// that record (later indices shift down by one), debits the book and pool
    /// totals by its amount, and credits the balance with the amount less the
    /// fee, all in one step.
    pub fn withdraw(&mut self, caller: &Vec<u8>, now: u64, request: WithdrawRequest) -> (r: Result<
        WithdrawReceipt,
        StakeError,
    >)
        requires
            old(self).wf(),
        ensures
            final(self).wf(),
            r is Err ==> *final(self) == *old(self),
            (r == Err::<WithdrawReceipt, StakeError>(StakeError::NoStakesFound)) <==> !has_book(
                old(self).books@,
                caller@,
            ),
            (has_book(old(self).books@, caller@) ==> ({
                let stakes = old(self).books@[book_index(old(self).books@, caller@)].1.stakes@;
                let idx = request.stake_index as int;
                &&& ((r == Err::<WithdrawReceipt, StakeError>(StakeError::InvalidStakeIndex))
                    <==> idx >= stakes.len())
                &&& (idx < stakes.len() ==> ({
                    let rec = stakes[idx];
                    &&& (now < rec.unlock_time ==> r == Err::<WithdrawReceipt, StakeError>(
                        StakeError::StakeLocked {
                            remaining_seconds: (rec.unlock_time - now) as u64,
                        },
                    ))
                    &&& ((now >= rec.unlock_time && rec.amount <= ICP_FEE) ==> r == Err::<
                        WithdrawReceipt,
                        StakeError,
                    >(StakeError::FeeExceedsAmount))
                    &&& ((now >= rec.unlock_time && rec.amount > ICP_FEE) <==> r is Ok)
                }))
            })),
            (r matches Ok(receipt) ==> withdraw_effect(
                *old(self),
                *final(self),
                caller@,
                request.stake_index as int,
                receipt,
            )),
    {
        let found = self.find_index(caller);
        match found {
            None => Err(StakeError::NoStakesFound),
            Some(k) => {
                let book_ref = &self.books[k].1;
                if request.stake_index >= book_ref.stakes.len() {
                    return Err(StakeError::InvalidStakeIndex);
                }
                let rec_ref = &book_ref.stakes[request.stake_index];
                let unlock_time = rec_ref.unlock_time;
                if now < unlock_time {
                    return Err(
                        StakeError::StakeLocked { remaining_seconds: unlock_time - now },
                    );
                }
                let amount = rec_ref.amount;
                if amount <= ICP_FEE {
                    return Err(StakeError::FeeExceedsAmount);
                }
                let ghost pre_books = self.books@;
                proof {
                    assert(book_wf(pre_books[k as int].1));
                    lemma_sum_books_elem_bound(pre_books, k as int);
                    lemma_sum_amounts_elem_bound(
                        pre_books[k as int].1.stakes@,
                        request.stake_index as int,
                    );
                    lemma_sum_books_nonneg(pre_books);
                    lemma_sum_amounts_nonneg(pre_books[k as int].1.stakes@);
                }
                let mut entry = self.books.remove(k);
                proof {
                    lemma_sum_amounts_remove(entry.1.stakes@, request.stake_index as int);
                }
                let removed = entry.1.stakes.remove(request.stake_index);
                entry.1.total_staked = entry.1.total_staked - removed.amount;
                self.books.insert(k, entry);
                proof {
                    let post_entry = self.books@[k as int];
                    assert(self.books@ =~= pre_books.update(k as int, post_entry));
                    lemma_sum_books_update(pre_books, k as int, post_entry);
                    assert forall|i: int| 0 <= i < self.books@.len() implies book_wf(
                        (#[trigger] self.books@[i]).1,
                    ) by {
                        if i != k as int {
                            assert(self.books@[i] == pre_books[i]);
                            assert(book_wf(pre_books[i].1));
                        } else {
                            let olds = pre_books[k as int].1.stakes@;
                            let idx = request.stake_index as int;
                            assert forall|j: int|
                                0 <= j < post_entry.1.stakes@.len() implies record_wf(
                                #[trigger] post_entry.1.stakes@[j],
                            ) by {
                                if j < idx {
                                    assert(post_entry.1.stakes@[j] == olds[j]);
                                } else {
                                    assert(post_entry.1.stakes@[j] == olds[j + 1]);
                                }
                            }
                        }
                    }
                }
                self.total_pool_amount = self.total_pool_amount - amount;
                self.balance = self.balance + (amount - ICP_FEE);
                Ok(WithdrawReceipt { transferred: amount - ICP_FEE, fee: ICP_FEE })
            },
        }
    }

    /// The full stake book of `user`, or `None` if that identity has never
    /// deposited. An empty-but-present book is returned as such, never made up.
    pub fn get_user_stakes(&self, user: &Vec<u8>) -> (r: Option<UserStakes>)
        requires
            self.wf(),
        ensures
            match r {
                None => !has_book(self.books@, user@),
                Some(b) => {
                    &&& has_book(self.books@, user@)
                    &&& b.stakes@ == self.books@[book_index(self.books@, user@)].1.stakes@
                    &&& b.total_staked == self.books@[book_index(
                        self.books@,
                        user@,
                    )].1.total_staked
                },
            },
    {
        match self.find_index(user) {
            None => None,
            Some(k) => Some(self.books[k].1.clone()),
        }
    }

    /// The pool-wide aggregate: total locked amount, number of identities with
    /// a book (empty books included), and total stake count over all books.
    pub fn get_pool_info(&self) -> (r: (u64, usize, u64))
        requires
            self.wf(),
        ensures
            r.0 == self.total_pool_amount,
            r.1 == self.books@.len(),
            r.2 == count_stakes(self.books@),
    {
        proof {
            lemma_count_stakes_le_sum_books(self.books@);
            lemma_sum_books_nonneg(self.books@);
        }
        let mut count: u64 = 0;
        let mut i: usize = 0;
        while i < self.books.len()
            invariant
                i <= self.books@.len(),
                self.wf(),
                count == count_stakes(self.books@.take(i as int)),
                count_stakes(self.books@) <= sum_books(self.books@),
            decreases self.books@.len() - i,
        {
            proof {
                lemma_count_stakes_take_succ(self.books@, i as int);
                lemma_count_stakes_take_le(self.books@, i as int + 1);
                lemma_count_stakes_nonneg(self.books@.take(i as int));
            }
            let b = &self.books[i];
            count = count + (b.1.stakes.len() as u64);
            i = i + 1;
        }
        proof {
            assert(self.books@.take(self.books@.len() as int) =~= self.books@);
        }
        (self.total_pool_amount, self.books.len(), count)
    }
}

impl Clone for StakeInfo {
    /// An identical copy of the record.
    fn clone(&self) -> (r: Self)
        ensures
            r == *self,
    {
        StakeInfo {
            amount: self.amount,
            lock_period_days: self.lock_period_days,
            stake_time: self.stake_time,
            unlock_time: self.unlock_time,
            subaccount: self.subaccount,
            account_id: self.account_id.clone(),
        }
    }
}

impl Clone for UserStakes {
    /// A copy holding the same records and the same total.
    fn clone(&self) -> (r: Self)
        ensures
            r.stakes@ == self.stakes@,
            r.total_staked == self.total_staked,
    {
        let mut stakes: Vec<StakeInfo> = Vec::new();
        let mut i: usize = 0;
        while i < self.stakes.len()
            invariant
                i <= self.stakes@.len(),
                stakes@ =~= self.stakes@.take(i as int),
            decreases self.stakes@.len() - i,
        {
            stakes.push(self.stakes[i].clone());
            i = i + 1;
        }
        proof {
            assert(stakes@ =~= self.stakes@);
        }
        UserStakes { stakes, total_staked: self.total_staked }
    }
}

/// Law: at every observation point, a book's stored total equals the sum of
/// `amount` over its stakes.
pub proof fn lemma_book_total_is_sum(p: StakingPool, i: int)
    requires
        p.wf(),
        0 <= i < p.books@.len(),
    ensures
        p.books@[i].1.total_staked == sum_amounts(p.books@[i].1.stakes@),
{
    assert(book_wf(p.books@[i].1));
}

/// Law: at every observation point, the pool-wide total equals the sum of
/// every book's stored total.
pub proof fn lemma_pool_total_is_sum(p: StakingPool)
    requires
        p.wf(),
    ensures
        p.total_pool_amount == sum_books(p.books@),
{
}

} // verus!
