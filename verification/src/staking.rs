//! The staking-reward ledger and its accrual engine.
//!
//! One record per staker holds the staked amount, the accrued-but-
//! unclaimed reward, and the timestamps of the last update and claim; a
//! single global checkpoint holds the timestamp through which rewards
//! have been distributed. Every ledger-mutating action first runs a full
//! accrual pass, so no staker gains or loses yield relative to the clock.
//!
//! Accrual over a window of `elapsed` seconds hands out
//! `total_available = daily_reward_amount / (elapsed * 1000)` units,
//! split by stake share with all divisions truncating toward zero; every
//! intermediate product is taken in 256 bits. Dividing the daily rate by
//! the window itself is an unusual bucketing, but it is the schedule's
//! fixed numeric contract, and every payout must reproduce it bit for
//! bit.

use vstd::prelude::*;
use vstd::pervasive::VecAdditionalExecFns;
use vstd::arithmetic::div_mod::*;
use vstd::arithmetic::mul::*;
use crate::math::mul_div_floor;
use crate::types::{Addr, Env, Error, LogAction, LogEntry, SendMsg, TokenType, addr_eq};

verus! {

/// Stake shares are expressed in hundredths: a share is
/// `floor(amount * PRECISION / total)`.
pub const PRECISION: u128 = 100;

/// Milliseconds per second: accrual windows are measured in seconds and
/// scaled to the per-millisecond reward bucketing.
pub const MILLIS_PER_SECOND: u128 = 1000;

/// The staking contract's immutable configuration.
pub struct Config {
    pub contract_owner: Addr,
    pub daily_reward_amount: u128,
    pub reward_token: TokenType,
    pub lp_token: TokenType,
}

/// Everything the ledger remembers about one staker: identity, staked
/// amount, accrued-but-unclaimed reward, the timestamps of the last
/// position update and the last claim, and whether the staker currently
/// belongs to the accrual set.
pub struct StakerRecord {
    pub staker: Addr,
    pub amount: u128,
    pub last_time_updated: u64,
    pub claim_amount: u128,
    pub last_time_claimed: u64,
    pub is_member: bool,
}

/// Mathematical image of one staker record.
pub ghost struct StakerRecordV {
    pub staker: Seq<u8>,
    pub amount: int,
    pub last_time_updated: int,
    pub claim_amount: int,
    pub last_time_claimed: int,
    pub is_member: bool,
}

impl StakerRecordV {
    /// Machine bounds of the stored fields.
    pub open spec fn bounded(self) -> bool {
        &&& 0 <= self.amount <= u128::MAX
        &&& 0 <= self.claim_amount <= u128::MAX
        &&& 0 <= self.last_time_updated <= u64::MAX
        &&& 0 <= self.last_time_claimed <= u64::MAX
    }
}

impl View for StakerRecord {
    type V = StakerRecordV;

    open spec fn view(&self) -> StakerRecordV {
        StakerRecordV {
            staker: self.staker@,
            amount: self.amount as int,
            last_time_updated: self.last_time_updated as int,
            claim_amount: self.claim_amount as int,
            last_time_claimed: self.last_time_claimed as int,
            is_member: self.is_member,
        }
    }
}

/// The ledger: configuration, one record per staker in first-stake
/// order, and the global accrual checkpoint.
pub struct StakingState {
    pub config: Config,
    pub records: Vec<StakerRecord>,
    pub last_accrual: u64,
}

/// Mathematical image of the ledger: the reward rate, the records, and
/// the checkpoint.
pub ghost struct StakingStateV {
    pub daily_reward_amount: int,
    pub records: Seq<StakerRecordV>,
    pub last_accrual: int,
}

impl View for StakingState {
    type V = StakingStateV;

    open spec fn view(&self) -> StakingStateV {
        StakingStateV {
            daily_reward_amount: self.config.daily_reward_amount as int,
            records: self.records@.map_values(|r: StakerRecord| r@),
            last_accrual: self.last_accrual as int,
        }
    }
}

/// Sum of all staked amounts. Records outside the accrual set hold
/// amount zero, so this is also the accrual set's total stake.
pub open spec fn total_staked(records: Seq<StakerRecordV>) -> int
    decreases records.len(),
{
    if records.len() == 0 {
        0
    } else {
        records[0].amount + total_staked(records.drop_first())
    }
}

impl StakingStateV {
    /// Well-formedness of the ledger: every field within machine bounds,
    /// one record per staker identity, membership exactly on positive
    /// stakes, departed stakers fully reset, and a total stake that fits
    /// the working width.
    pub open spec fn wf(self) -> bool {
        &&& 0 <= self.daily_reward_amount <= u128::MAX
        &&& 0 <= self.last_accrual <= u64::MAX
        &&& forall|i: int| 0 <= i < self.records.len() ==> (#[trigger] self.records[i]).bounded()
        &&& forall|i: int, j: int|
            0 <= i < j < self.records.len() ==> (#[trigger] self.records[i]).staker != (
            #[trigger] self.records[j]).staker
        &&& forall|i: int|
            0 <= i < self.records.len() ==> ((#[trigger] self.records[i]).is_member
                <==> self.records[i].amount > 0)
        &&& forall|i: int|
            0 <= i < self.records.len() && !(#[trigger] self.records[i]).is_member
                ==> self.records[i].claim_amount == 0
        &&& total_staked(self.records) <= u128::MAX
    }
}

/// Index of the record belonging to `staker`, or -1 when there is none.
pub open spec fn find_staker(records: Seq<StakerRecordV>, staker: Seq<u8>) -> int
    decreases records.len(),
{
    if records.len() == 0 {
        -1
    } else if records[0].staker == staker {
        0
    } else {
        let rest = find_staker(records.drop_first(), staker);
        if rest == -1 {
            -1
        } else {
            rest + 1
        }
    }
}

/// What `find_staker` returns: the first matching index, or -1 when no
/// record matches.
pub proof fn lemma_find_staker(records: Seq<StakerRecordV>, staker: Seq<u8>)
    ensures
        -1 <= find_staker(records, staker) < records.len(),
        find_staker(records, staker) >= 0 ==> {
            &&& records[find_staker(records, staker)].staker == staker
            &&& forall|j: int|
                0 <= j < find_staker(records, staker) ==> (#[trigger] records[j]).staker != staker
        },
        find_staker(records, staker) == -1 ==> forall|j: int|
            0 <= j < records.len() ==> (#[trigger] records[j]).staker != staker,
    decreases records.len(),
{
    if records.len() == 0 {
    } else if records[0].staker == staker {
    } else {
        lemma_find_staker(records.drop_first(), staker);
        let rest = find_staker(records.drop_first(), staker);
        assert(forall|j: int|
            1 <= j < records.len() ==> (#[trigger] records[j]) == records.drop_first()[j - 1]);
    }
}

/// Splitting a sequence splits its total stake.
pub proof fn lemma_total_staked_split(records: Seq<StakerRecordV>, i: int)
    requires
        0 <= i <= records.len(),
    ensures
        total_staked(records) == total_staked(records.take(i)) + total_staked(records.skip(i)),
    decreases i,
{
    if i == 0 {
        assert(records.take(0) =~= Seq::<StakerRecordV>::empty());
        assert(records.skip(0) =~= records);
    } else {
        lemma_total_staked_split(records, i - 1);
        assert(records.take(i) =~= records.take(i - 1).push(records[i - 1]));
        assert(records.skip(i - 1) =~= records.skip(i).insert(0, records[i - 1]));
        lemma_total_staked_push(records.take(i - 1), records[i - 1]);
        assert(total_staked(records.skip(i - 1)) == records[i - 1].amount + total_staked(
            records.skip(i),
        )) by {
            assert(records.skip(i - 1)[0] == records[i - 1]);
            assert(records.skip(i - 1).drop_first() =~= records.skip(i));
        }
    }
}

/// Appending one record adds its amount to the total stake.
pub proof fn lemma_total_staked_push(records: Seq<StakerRecordV>, r: StakerRecordV)
    ensures
        total_staked(records.push(r)) == total_staked(records) + r.amount,
    decreases records.len(),
{
    if records.len() == 0 {
        assert(records.push(r)[0] == r);
        assert(records.push(r).drop_first() =~= Seq::<StakerRecordV>::empty());
        assert(total_staked(Seq::<StakerRecordV>::empty()) == 0);
        assert(total_staked(records.push(r)) == r.amount + total_staked(
            Seq::<StakerRecordV>::empty(),
        ));
    } else {
        lemma_total_staked_push(records.drop_first(), r);
        assert(records.push(r)[0] == records[0]);
        assert(records.push(r).drop_first() =~= records.drop_first().push(r));
        assert(total_staked(records.push(r)) == records[0].amount + total_staked(
            records.drop_first().push(r),
        ));
    }
}

/// All amounts non-negative makes every total non-negative.
pub proof fn lemma_total_staked_nonneg(records: Seq<StakerRecordV>)
    requires
        forall|i: int| 0 <= i < records.len() ==> (#[trigger] records[i]).amount >= 0,
    ensures
        total_staked(records) >= 0,
    decreases records.len(),
{
    if records.len() > 0 {
        assert(forall|i: int|
            0 <= i < records.drop_first().len() ==> (#[trigger] records.drop_first()[i]).amount
                >= 0) by {
            assert(forall|i: int|
                0 <= i < records.drop_first().len() ==> records.drop_first()[i] == records[i + 1]);
        }
        lemma_total_staked_nonneg(records.drop_first());
    }
}

/// No single stake exceeds the total.
pub proof fn lemma_staked_le_total(records: Seq<StakerRecordV>, i: int)
    requires
        forall|j: int| 0 <= j < records.len() ==> (#[trigger] records[j]).amount >= 0,
        0 <= i < records.len(),
    ensures
        records[i].amount <= total_staked(records),
{
    lemma_total_staked_split(records, i);
    lemma_total_staked_split(records.skip(i), 1);
    assert(records.skip(i).take(1) =~= seq![records[i]]);
    assert(seq![records[i]].drop_first() =~= Seq::<StakerRecordV>::empty());
    assert(total_staked(seq![records[i]]) == records[i].amount);
    assert(forall|j: int|
        0 <= j < records.take(i).len() ==> (#[trigger] records.take(i)[j]).amount >= 0);
    lemma_total_staked_nonneg(records.take(i));
    assert(forall|j: int|
        0 <= j < records.skip(i).skip(1).len() ==> (#[trigger] records.skip(i).skip(1)[j]).amount
            >= 0) by {
        assert(forall|j: int|
            0 <= j < records.skip(i).skip(1).len() ==> #[trigger] records.skip(i).skip(1)[j]
                == records[i + 1 + j]);
    }
    lemma_total_staked_nonneg(records.skip(i).skip(1));
}

/// Replacing one record shifts the total by the difference of amounts.
pub proof fn lemma_total_staked_update(records: Seq<StakerRecordV>, i: int, r: StakerRecordV)
    requires
        0 <= i < records.len(),
    ensures
        total_staked(records.update(i, r)) == total_staked(records) - records[i].amount + r.amount,
    decreases i,
{
    if i == 0 {
        assert(records.update(0, r).drop_first() =~= records.drop_first());
        assert(records.update(0, r)[0] == r);
    } else {
        assert(records.update(i, r).drop_first() =~= records.drop_first().update(i - 1, r));
        lemma_total_staked_update(records.drop_first(), i - 1, r);
        assert(records.drop_first()[i - 1] == records[i]);
        assert(records.update(i, r)[0] == records[0]);
    }
}

/// Looks up the record index of `staker`.
pub fn find_staker_index(records: &Vec<StakerRecord>, staker: &Addr) -> (r: Option<usize>)
    ensures
        ({
            let f = find_staker(records@.map_values(|rec: StakerRecord| rec@), staker@);
            match r {
                Some(i) => f == i && i < records@.len(),
                None => f == -1,
            }
        }),
{
    let ghost rv = records@.map_values(|rec: StakerRecord| rec@);
    proof {
        lemma_find_staker(rv, staker@);
    }
    let n: usize = records.len();
    let mut i: usize = 0;
    while i < n
        invariant
            n == records@.len(),
            rv == records@.map_values(|rec: StakerRecord| rec@),
            i <= n,
            forall|j: int| 0 <= j < i ==> (#[trigger] rv[j]).staker != staker@,
            -1 <= find_staker(rv, staker@) < rv.len(),
            find_staker(rv, staker@) >= 0 ==> {
                &&& rv[find_staker(rv, staker@)].staker == staker@
                &&& forall|j: int|
                    0 <= j < find_staker(rv, staker@) ==> (#[trigger] rv[j]).staker != staker@
            },
            find_staker(rv, staker@) == -1 ==> forall|j: int|
                0 <= j < rv.len() ==> (#[trigger] rv[j]).staker != staker@,
        decreases n - i,
    {
        if addr_eq(&records[i].staker, staker) {
            proof {
                let f = find_staker(rv, staker@);
                assert(rv[i as int].staker == staker@);
                if f == -1 {
                    assert(false);
                }
                if f < i {
                    assert(rv[f].staker != staker@);
                    assert(false);
                }
                if f > i {
                    assert(rv[i as int].staker != staker@);
                    assert(false);
                }
            }
            return Some(i);
        }
        i += 1;
    }
    proof {
        let f = find_staker(rv, staker@);
        if f >= 0 {
            assert(rv[f].staker != staker@);
            assert(false);
        }
    }
    None
}

/// Adds up the staked amounts.
pub fn get_total_staking_amount(state: &StakingState) -> (r: u128)
    requires
        state@.wf(),
    ensures
        r == total_staked(state@.records),
{
    let ghost rv = state@.records;
    let n: usize = state.records.len();
    let mut sum: u128 = 0;
    let mut i: usize = 0;
    proof {
        assert(rv.take(0) =~= Seq::<StakerRecordV>::empty());
    }
    while i < n
        invariant
            state@.wf(),
            rv == state@.records,
            n == rv.len(),
            i <= n,
            sum == total_staked(rv.take(i as int)),
        decreases n - i,
    {
        proof {
            assert(rv.take(i + 1) =~= rv.take(i as int).push(rv[i as int]));
            lemma_total_staked_push(rv.take(i as int), rv[i as int]);
            lemma_total_staked_split(rv, i + 1);
            assert(forall|j: int|
                0 <= j < rv.skip(i + 1).len() ==> (#[trigger] rv.skip(i + 1)[j]).amount >= 0) by {
                assert(forall|j: int|
                    0 <= j < rv.skip(i + 1).len() ==> #[trigger] rv.skip(i + 1)[j] == rv[i + 1
                        + j]);
            }
            lemma_total_staked_nonneg(rv.skip(i + 1));
            assert(total_staked(rv.take(i + 1)) <= total_staked(rv) <= u128::MAX);
            assert(rv[i as int].amount == state.records@[i as int].amount);
        }
        sum = sum + state.records[i].amount;
        i += 1;
    }
    proof {
        assert(rv.take(n as int) =~= rv);
    }
    sum
}

/// Totals staked under pointwise equal amounts are equal.
pub proof fn lemma_total_staked_pointwise(a: Seq<StakerRecordV>, b: Seq<StakerRecordV>)
    requires
        a.len() == b.len(),
        forall|i: int| 0 <= i < a.len() ==> (#[trigger] a[i]).amount == (#[trigger] b[i]).amount,
    ensures
        total_staked(a) == total_staked(b),
    decreases a.len(),
{
    if a.len() > 0 {
        assert(forall|i: int|
            0 <= i < a.drop_first().len() ==> #[trigger] a.drop_first()[i] == a[i + 1]
                && #[trigger] b.drop_first()[i] == b[i + 1]);
        lemma_total_staked_pointwise(a.drop_first(), b.drop_first());
    }
}

/// Units handed out over a window of `elapsed` seconds: the daily rate
/// divided by the window in milliseconds, truncating; an empty window
/// hands out nothing.
pub open spec fn spec_total_available(daily: int, elapsed: int) -> int {
    if elapsed <= 0 {
        0
    } else {
        daily / (elapsed * (MILLIS_PER_SECOND as int))
    }
}

/// A staker's share of the total stake, in hundredths, truncating.
pub open spec fn spec_share(amount: int, total: int) -> int {
    amount * (PRECISION as int) / total
}

/// One staker's reward increment for one accrual window: the available
/// units times the stake share, truncating; zero when the window or the
/// total stake is empty.
pub open spec fn spec_increment(daily: int, elapsed: int, amount: int, total: int) -> int {
    if elapsed <= 0 || total <= 0 {
        0
    } else {
        spec_total_available(daily, elapsed) * spec_share(amount, total) / (PRECISION as int)
    }
}

/// One accrual pass over the records: every accrual-set member receives
/// its increment and the claim timestamp; everyone else is untouched.
pub open spec fn spec_accrue_records(
    records: Seq<StakerRecordV>,
    daily: int,
    elapsed: int,
    now: int,
) -> Seq<StakerRecordV> {
    let total = total_staked(records);
    records.map_values(
        |r: StakerRecordV|
            if r.is_member {
                StakerRecordV {
                    claim_amount: r.claim_amount + spec_increment(daily, elapsed, r.amount, total),
                    last_time_claimed: now,
                    ..r
                }
            } else {
                r
            },
    )
}

/// The whole accrual transition: at or before the checkpoint nothing
/// happens; past it, every member accrues and the checkpoint advances to
/// `now`.
pub open spec fn spec_accrue(s: StakingStateV, now: int) -> StakingStateV {
    if now <= s.last_accrual {
        s
    } else {
        StakingStateV {
            daily_reward_amount: s.daily_reward_amount,
            records: spec_accrue_records(
                s.records,
                s.daily_reward_amount,
                now - s.last_accrual,
                now,
            ),
            last_accrual: now,
        }
    }
}

/// An accrual pass at `now` would push some member's accumulated claim
/// past the working width; the whole action must then abort unchanged.
pub open spec fn accrue_overflows(s: StakingStateV, now: int) -> bool {
    now > s.last_accrual && exists|i: int|
        {
            &&& 0 <= i < s.records.len()
            &&& (#[trigger] s.records[i]).is_member
            &&& s.records[i].claim_amount + spec_increment(
                s.daily_reward_amount,
                now - s.last_accrual,
                s.records[i].amount,
                total_staked(s.records),
            ) > u128::MAX
        }
}

/// Calling the accrual transition twice at the same instant changes
/// nothing the second time: the pass is idempotent.
pub proof fn lemma_accrual_idempotent(s: StakingStateV, now: int)
    ensures
        spec_accrue(spec_accrue(s, now), now) == spec_accrue(s, now),
{
    if now <= s.last_accrual {
    } else {
        assert(spec_accrue(s, now).last_accrual == now);
    }
}

/// A member's share is at most the whole, and the resulting increment at
/// most the available units.
proof fn lemma_share_and_increment_bounds(daily: int, elapsed: int, amount: int, total: int)
    requires
        0 <= daily <= u128::MAX,
        elapsed > 0,
        0 <= amount <= total,
        total > 0,
    ensures
        0 <= spec_share(amount, total) <= PRECISION,
        0 <= spec_total_available(daily, elapsed) <= u128::MAX,
        0 <= spec_increment(daily, elapsed, amount, total) <= spec_total_available(daily, elapsed),
{
    let p = PRECISION as int;
    let tav = spec_total_available(daily, elapsed);
    let share = spec_share(amount, total);
    lemma_mul_nonnegative(amount, p);
    lemma_div_pos_is_pos(amount * p, total);
    lemma_mul_inequality(amount, total, p);
    lemma_div_is_ordered(amount * p, total * p, total);
    lemma_div_multiples_vanish(p, total);
    assert(total * p / total == p);
    lemma_mul_nonnegative(elapsed, MILLIS_PER_SECOND as int);
    assert(elapsed * (MILLIS_PER_SECOND as int) >= 1000) by (nonlinear_arith)
        requires
            elapsed >= 1,
    ;
    lemma_div_pos_is_pos(daily, elapsed * (MILLIS_PER_SECOND as int));
    lemma_div_is_ordered_by_denominator(daily, 1, elapsed * (MILLIS_PER_SECOND as int));
    assert(daily / 1 == daily);
    lemma_mul_nonnegative(tav, share);
    lemma_div_pos_is_pos(tav * share, p);
    lemma_mul_inequality(share, p, tav);
    assert(share * tav == tav * share) by (nonlinear_arith);
    assert(p * tav == tav * p) by (nonlinear_arith);
    lemma_div_is_ordered(tav * share, tav * p, p);
    lemma_div_multiples_vanish(tav, p);
    assert(p * tav / p == tav);
}

/// Runs one full accrual pass at `current_timestamp`: every accrual-set
/// member's claim grows by its increment against the stake distribution
/// of this pass, and the global checkpoint advances. At or before the
/// checkpoint the pass is a no-op; a claim that would outgrow the
/// working width aborts the pass with `Overflow` and no change at all.
pub fn claim_rewards_for_all_stakers(state: &mut StakingState, current_timestamp: u64) -> (r:
    Result<(), Error>)
    requires
        old(state)@.wf(),
    ensures
        final(state).config == old(state).config,
        final(state)@.wf(),
        !accrue_overflows(old(state)@, current_timestamp as int) ==> r == Ok::<(), Error>(())
            && final(state)@ == spec_accrue(old(state)@, current_timestamp as int),
        accrue_overflows(old(state)@, current_timestamp as int) ==> r == Err::<(), Error>(
            Error::Overflow,
        ) && *final(state) == *old(state),
{
    let ghost pre = state@;
    if current_timestamp <= state.last_accrual {
        return Ok(());
    }
    let total: u128 = get_total_staking_amount(state);
    let elapsed: u64 = current_timestamp - state.last_accrual;
    let elapsed_ms: u128 = (elapsed as u128) * MILLIS_PER_SECOND;
    let total_available: u128 = state.config.daily_reward_amount / elapsed_ms;
    proof {
        assert(total_available == spec_total_available(pre.daily_reward_amount, elapsed as int));
    }
    let ghost daily = pre.daily_reward_amount;
    let n: usize = state.records.len();
    let mut incs: Vec<u128> = Vec::new();
    let mut i: usize = 0;
    while i < n
        invariant
            state@ == pre,
            pre.wf(),
            n == state.records@.len(),
            total == total_staked(pre.records),
            daily == pre.daily_reward_amount,
            elapsed >= 1,
            elapsed == current_timestamp as int - pre.last_accrual,
            total_available == spec_total_available(daily, elapsed as int),
            i <= n,
            incs@.len() == i,
            forall|j: int|
                0 <= j < i ==> #[trigger] incs@[j] == spec_increment(
                    daily,
                    elapsed as int,
                    pre.records[j].amount,
                    total as int,
                ),
            forall|j: int|
                0 <= j < i ==> pre.records[j].claim_amount + #[trigger] incs@[j] <= u128::MAX,
        decreases n - i,
    {
        proof {
            assert(state.records@[i as int]@ == pre.records[i as int]);
            assert(pre.records[i as int].bounded());
        }
        let rec_is_member = state.records[i].is_member;
        let rec_amount = state.records[i].amount;
        let ghost spec_inc = spec_increment(
            daily,
            elapsed as int,
            pre.records[i as int].amount,
            total as int,
        );
        let inc: u128;
        if rec_is_member && total > 0 {
            proof {
                assert(forall|k: int|
                    0 <= k < pre.records.len() ==> (#[trigger] pre.records[k]).amount >= 0);
                lemma_staked_le_total(pre.records, i as int);
                lemma_share_and_increment_bounds(
                    daily,
                    elapsed as int,
                    rec_amount as int,
                    total as int,
                );
            }
            let share = mul_div_floor(rec_amount, PRECISION, total);
            proof {
                assert(share == spec_share(rec_amount as int, total as int));
            }
            inc = mul_div_floor(total_available, share, PRECISION);
            proof {
                assert(inc == spec_total_available(daily, elapsed as int) * (share as int) / (
                PRECISION as int));
                assert(inc == spec_inc);
            }
        } else {
            proof {
                if total > 0 {
                    // A non-member's stake is zero, so its increment is zero.
                    assert(pre.records[i as int].amount == 0);
                    lemma_div_of0(total as int);
                    assert(spec_share(0, total as int) == 0);
                    lemma_div_of0(PRECISION as int);
                    assert(spec_inc == 0);
                } else {
                    assert(spec_inc == 0);
                }
            }
            inc = 0;
        }
        proof {
            assert(inc == spec_inc);
        }
        let claim = state.records[i].claim_amount;
        if claim > u128::MAX - inc {
            proof {
                assert(pre.records[i as int].is_member) by {
                    if !pre.records[i as int].is_member {
                        assert(pre.records[i as int].claim_amount == 0);
                    }
                }
                assert(pre.records[i as int].claim_amount + spec_increment(
                    pre.daily_reward_amount,
                    current_timestamp as int - pre.last_accrual,
                    pre.records[i as int].amount,
                    total_staked(pre.records),
                ) > u128::MAX);
                assert(accrue_overflows(pre, current_timestamp as int));
            }
            return Err(Error::Overflow);
        }
        incs.push(inc);
        i += 1;
    }
    let ghost target = spec_accrue_records(
        pre.records,
        daily,
        elapsed as int,
        current_timestamp as int,
    );
    let mut i: usize = 0;
    while i < n
        invariant
            pre.wf(),
            n == state.records@.len(),
            n == pre.records.len(),
            incs@.len() == n,
            state.config == old(state).config,
            state.last_accrual == old(state).last_accrual,
            pre == old(state)@,
            daily == pre.daily_reward_amount,
            target == spec_accrue_records(
                pre.records,
                daily,
                elapsed as int,
                current_timestamp as int,
            ),
            forall|j: int|
                0 <= j < n ==> #[trigger] incs@[j] == spec_increment(
                    daily,
                    elapsed as int,
                    pre.records[j].amount,
                    total_staked(pre.records),
                ),
            forall|j: int|
                0 <= j < n ==> pre.records[j].claim_amount + #[trigger] incs@[j] <= u128::MAX,
            i <= n,
            forall|j: int| 0 <= j < i ==> #[trigger] state.records@[j]@ == target[j],
            forall|j: int| i <= j < n ==> #[trigger] state.records@[j] == old(state).records@[j],
        decreases n - i,
    {
        proof {
            assert(state.records@[i as int] == old(state).records@[i as int]);
            assert(state.records@[i as int]@ == pre.records[i as int]);
        }
        if state.records[i].is_member {
            let rec = &state.records[i];
            let updated = StakerRecord {
                staker: rec.staker.clone_addr(),
                amount: rec.amount,
                last_time_updated: rec.last_time_updated,
                claim_amount: rec.claim_amount + incs[i],
                last_time_claimed: current_timestamp,
                is_member: true,
            };
            state.records.set(i, updated);
        }
        i += 1;
        proof {
            assert(state.records@[i - 1]@ == target[i - 1]);
        }
    }
    state.last_accrual = current_timestamp;
    proof {
        assert(state@.records =~= target);
        let post = spec_accrue(pre, current_timestamp as int);
        assert(state@.records == post.records);
        assert(state@ == post);
        assert(!accrue_overflows(pre, current_timestamp as int)) by {
            if accrue_overflows(pre, current_timestamp as int) {
                let i = choose|i: int|
                    {
                        &&& 0 <= i < pre.records.len()
                        &&& (#[trigger] pre.records[i]).is_member
                        &&& pre.records[i].claim_amount + spec_increment(
                            daily,
                            elapsed as int,
                            pre.records[i].amount,
                            total_staked(pre.records),
                        ) > u128::MAX
                    };
                assert(pre.records[i].claim_amount + incs@[i] <= u128::MAX);
            }
        }
        assert(state@.wf()) by {
            lemma_total_staked_pointwise(state@.records, pre.records);
            assert(forall|k: int|
                0 <= k < n ==> (#[trigger] state@.records[k]).staker == pre.records[k].staker
                    && state@.records[k].amount == pre.records[k].amount
                    && state@.records[k].is_member == pre.records[k].is_member);
            assert(forall|k: int| 0 <= k < n ==> (#[trigger] state@.records[k]).bounded());
        }
    }
    Ok(())
}

/// Finding a staker depends only on the staker identities.
pub proof fn lemma_find_staker_pointwise(a: Seq<StakerRecordV>, b: Seq<StakerRecordV>, staker: Seq<
    u8,
>)
    requires
        a.len() == b.len(),
        forall|i: int| 0 <= i < a.len() ==> (#[trigger] a[i]).staker == (#[trigger] b[i]).staker,
    ensures
        find_staker(a, staker) == find_staker(b, staker),
    decreases a.len(),
{
    if a.len() > 0 {
        assert(forall|i: int|
            0 <= i < a.drop_first().len() ==> #[trigger] a.drop_first()[i] == a[i + 1]
                && #[trigger] b.drop_first()[i] == b[i + 1]);
        lemma_find_staker_pointwise(a.drop_first(), b.drop_first(), staker);
    }
}

/// An accrual pass keeps identities, stakes, membership, the ledger
/// length and the total stake; only claims and claim timestamps move.
pub proof fn lemma_accrue_preserves_shape(s: StakingStateV, now: int)
    ensures
        spec_accrue(s, now).records.len() == s.records.len(),
        forall|i: int|
            0 <= i < s.records.len() ==> {
                &&& (#[trigger] spec_accrue(s, now).records[i]).staker == s.records[i].staker
                &&& spec_accrue(s, now).records[i].amount == s.records[i].amount
                &&& spec_accrue(s, now).records[i].is_member == s.records[i].is_member
            },
        total_staked(spec_accrue(s, now).records) == total_staked(s.records),
        spec_accrue(s, now).daily_reward_amount == s.daily_reward_amount,
{
    lemma_total_staked_pointwise(spec_accrue(s, now).records, s.records);
}

/// In one accrual pass past the checkpoint, every accrual-set member's
/// claim grows by exactly its increment against this pass's stake
/// distribution, and everyone else's records are untouched.
pub proof fn lemma_accrue_claim_deltas(s: StakingStateV, now: int)
    requires
        now > s.last_accrual,
    ensures
        forall|i: int|
            0 <= i < s.records.len() && (#[trigger] s.records[i]).is_member ==> spec_accrue(
                s,
                now,
            ).records[i].claim_amount == s.records[i].claim_amount + spec_increment(
                s.daily_reward_amount,
                now - s.last_accrual,
                s.records[i].amount,
                total_staked(s.records),
            ),
        forall|i: int|
            0 <= i < s.records.len() && !(#[trigger] s.records[i]).is_member ==> spec_accrue(
                s,
                now,
            ).records[i] == s.records[i],
{
}

/// The staking transition at spec level, applied to an already-accrued
/// ledger: a known staker's position grows by `amount` and rejoins the
/// accrual set with its claim reset; an unknown staker is appended.
pub open spec fn spec_stake(s: StakingStateV, staker: Seq<u8>, amount: int, now: int) -> StakingStateV {
    let f = find_staker(s.records, staker);
    let records = if f >= 0 {
        s.records.update(
            f,
            StakerRecordV {
                staker: staker,
                amount: s.records[f].amount + amount,
                last_time_updated: now,
                claim_amount: 0,
                last_time_claimed: now,
                is_member: true,
            },
        )
    } else {
        s.records.push(
            StakerRecordV {
                staker: staker,
                amount: amount,
                last_time_updated: now,
                claim_amount: 0,
                last_time_claimed: now,
                is_member: true,
            },
        )
    };
    StakingStateV { records, ..s }
}

/// The claim transition at spec level: the staker's accrued reward is
/// zeroed and the claim timestamp set to `now`.
pub open spec fn spec_claim(s: StakingStateV, staker: Seq<u8>, now: int) -> StakingStateV {
    let f = find_staker(s.records, staker);
    StakingStateV {
        records: s.records.update(
            f,
            StakerRecordV { claim_amount: 0, last_time_claimed: now, ..s.records[f] },
        ),
        ..s
    }
}

/// The unstake transition at spec level: the staker leaves the accrual
/// set with position and claim fully reset.
pub open spec fn spec_unstake(s: StakingStateV, staker: Seq<u8>, now: int) -> StakingStateV {
    let f = find_staker(s.records, staker);
    StakingStateV {
        records: s.records.update(
            f,
            StakerRecordV {
                staker: s.records[f].staker,
                amount: 0,
                last_time_updated: now,
                claim_amount: 0,
                last_time_claimed: 0,
                is_member: false,
            },
        ),
        ..s
    }
}

/// Staking and immediately unstaking round-trips exactly: with no time
/// elapsed (the checkpoint already at `now`), both accrual passes are
/// no-ops, so the unstake pays back the freshly staked amount on top of
/// any earlier position as principal, and zero reward — the stake reset
/// the claim and nothing accrued since.
pub proof fn lemma_stake_unstake_round_trip(
    s: StakingStateV,
    staker: Seq<u8>,
    amount: int,
    now: int,
)
    requires
        s.wf(),
        0 < amount,
        total_staked(s.records) + amount <= u128::MAX,
        s.last_accrual == now,
    ensures
        ({
            let staked = spec_stake(spec_accrue(s, now), staker, amount, now);
            let settled = spec_accrue(staked, now);
            let f = find_staker(settled.records, staker);
            let prior = if find_staker(s.records, staker) >= 0 {
                s.records[find_staker(s.records, staker)].amount
            } else {
                0
            };
            &&& 0 <= f < settled.records.len()
            &&& settled.records[f].is_member
            &&& settled.records[f].amount == prior + amount
            &&& settled.records[f].claim_amount == 0
        }),
{
    assert(spec_accrue(s, now) == s);
    let staked = spec_stake(s, staker, amount, now);
    assert(staked.last_accrual == now);
    assert(spec_accrue(staked, now) == staked);
    let f0 = find_staker(s.records, staker);
    lemma_find_staker(s.records, staker);
    if f0 >= 0 {
        let updated = StakerRecordV {
            staker: staker,
            amount: s.records[f0].amount + amount,
            last_time_updated: now,
            claim_amount: 0,
            last_time_claimed: now,
            is_member: true,
        };
        assert(staked.records == s.records.update(f0, updated));
        assert(forall|i: int|
            0 <= i < s.records.len() ==> (#[trigger] staked.records[i]).staker == (
            #[trigger] s.records[i]).staker);
        lemma_find_staker_pointwise(staked.records, s.records, staker);
        assert(find_staker(staked.records, staker) == f0);
    } else {
        let fresh = StakerRecordV {
            staker: staker,
            amount: amount,
            last_time_updated: now,
            claim_amount: 0,
            last_time_claimed: now,
            is_member: true,
        };
        assert(staked.records == s.records.push(fresh));
        let n = s.records.len() as int;
        lemma_find_staker(staked.records, staker);
        let f = find_staker(staked.records, staker);
        assert(staked.records[n].staker == staker);
        if f == -1 {
            assert(staked.records[n].staker != staker);
            assert(false);
        }
        if f < n {
            assert(staked.records[f] == s.records[f]);
            assert(s.records[f].staker != staker);
            assert(false);
        }
        assert(f == n);
    }
}

/// Sum of the reward increments one accrual pass hands out, one term
/// per record. A record outside the accrual set holds stake zero, so its
/// term is zero.
pub open spec fn sum_increments(
    records: Seq<StakerRecordV>,
    daily: int,
    elapsed: int,
    total: int,
) -> int
    decreases records.len(),
{
    if records.len() == 0 {
        0
    } else {
        spec_increment(daily, elapsed, records[0].amount, total) + sum_increments(
            records.drop_first(),
            daily,
            elapsed,
            total,
        )
    }
}

/// Number of records currently in the accrual set.
pub open spec fn member_count(records: Seq<StakerRecordV>) -> int
    decreases records.len(),
{
    if records.len() == 0 {
        0
    } else {
        (if records[0].is_member {
            1int
        } else {
            0int
        }) + member_count(records.drop_first())
    }
}

/// Sum of the stake shares, one term per record.
spec fn sum_shares(records: Seq<StakerRecordV>, total: int) -> int
    decreases records.len(),
{
    if records.len() == 0 {
        0
    } else {
        spec_share(records[0].amount, total) + sum_shares(records.drop_first(), total)
    }
}

/// Floored division distributes over a sum with at most a gain:
/// `x/t + y/t <= (x+y)/t` for non-negative operands.
proof fn lemma_div_sum_le(x: int, y: int, t: int)
    requires
        x >= 0,
        y >= 0,
        t > 0,
    ensures
        x / t + y / t <= (x + y) / t,
{
    lemma_fundamental_div_mod(x, t);
    lemma_fundamental_div_mod(y, t);
    lemma_mod_division_less_than_divisor(x, t);
    lemma_mod_division_less_than_divisor(y, t);
    assert(t * (x / t + y / t) <= x + y) by (nonlinear_arith)
        requires
            x == t * (x / t) + x % t,
            y == t * (y / t) + y % t,
            x % t >= 0,
            y % t >= 0,
    ;
    lemma_div_is_ordered(t * (x / t + y / t), x + y, t);
    lemma_div_multiples_vanish(x / t + y / t, t);
}

/// The record-wise facts the conservation proof runs on: all at once,
/// by induction over the records. `tav` abbreviates the available units
/// `spec_total_available(daily, elapsed)`.
proof fn lemma_conservation_helper(records: Seq<StakerRecordV>, daily: int, elapsed: int, t: int)
    requires
        t > 0,
        elapsed > 0,
        daily >= 0,
        forall|i: int|
            0 <= i < records.len() ==> {
                &&& (#[trigger] records[i]).amount >= 0
                &&& (records[i].is_member <==> records[i].amount > 0)
                &&& (records[i].amount * 100) % t == 0
            },
    ensures
        sum_shares(records, t) * t == total_staked(records) * 100,
        sum_shares(records, t) >= 0,
        member_count(records) >= 0,
        100 * sum_increments(records, daily, elapsed, t) <= spec_total_available(daily, elapsed)
            * sum_shares(records, t),
        100 * sum_increments(records, daily, elapsed, t) >= spec_total_available(daily, elapsed)
            * sum_shares(records, t) - 99 * member_count(records),
        member_count(records) == 0 ==> total_staked(records) == 0,
    decreases records.len(),
{
    let tav = spec_total_available(daily, elapsed);
    assert(elapsed * (MILLIS_PER_SECOND as int) >= 1000);
    lemma_div_pos_is_pos(daily, elapsed * (MILLIS_PER_SECOND as int));
    assert(tav >= 0);
    if records.len() == 0 {
    } else {
        let rest = records.drop_first();
        assert(forall|i: int| 0 <= i < rest.len() ==> #[trigger] rest[i] == records[i + 1]);
        lemma_conservation_helper(rest, daily, elapsed, t);
        let a0 = records[0].amount;
        let s0 = spec_share(a0, t);
        let inc0 = spec_increment(daily, elapsed, a0, t);
        lemma_fundamental_div_mod(a0 * 100, t);
        lemma_mul_nonnegative(a0, 100);
        lemma_div_pos_is_pos(a0 * 100, t);
        // Exact share: a0 * 100 == s0 * t.
        assert(s0 * t == a0 * 100) by (nonlinear_arith)
            requires
                a0 * 100 == t * s0 + (a0 * 100) % t,
                (a0 * 100) % t == 0,
        ;
        assert(sum_shares(records, t) * t == total_staked(records) * 100) by (nonlinear_arith)
            requires
                s0 * t == a0 * 100,
                sum_shares(rest, t) * t == total_staked(rest) * 100,
                sum_shares(records, t) == s0 + sum_shares(rest, t),
                total_staked(records) == a0 + total_staked(rest),
        ;
        assert(s0 >= 0) by (nonlinear_arith)
            requires
                s0 * t == a0 * 100,
                a0 >= 0,
                t > 0,
        ;
        // The increment of this record, bracketed by its exact value.
        assert(inc0 == tav * s0 / 100);
        lemma_fundamental_div_mod(tav * s0, 100);
        lemma_mod_division_less_than_divisor(tav * s0, 100);
        lemma_mul_nonnegative(tav, s0);
        lemma_div_pos_is_pos(tav * s0, 100);
        assert(100 * inc0 <= tav * s0 && 100 * inc0 >= tav * s0 - 99);
        if records[0].is_member {
            assert(100 * sum_increments(records, daily, elapsed, t) >= tav * sum_shares(records, t)
                - 99 * member_count(records)) by (nonlinear_arith)
                requires
                    100 * inc0 >= tav * s0 - 99,
                    100 * sum_increments(rest, daily, elapsed, t) >= tav * sum_shares(rest, t) - 99
                        * member_count(rest),
                    sum_increments(records, daily, elapsed, t) == inc0 + sum_increments(
                        rest,
                        daily,
                        elapsed,
                        t,
                    ),
                    sum_shares(records, t) == s0 + sum_shares(rest, t),
                    member_count(records) == 1 + member_count(rest),
            ;
        } else {
            assert(a0 == 0);
            lemma_div_of0(t);
            assert(s0 == 0);
            lemma_div_of0(100);
            assert(tav * s0 == 0) by (nonlinear_arith)
                requires
                    s0 == 0,
            ;
            assert(inc0 == 0);
            assert(100 * sum_increments(records, daily, elapsed, t) >= tav * sum_shares(records, t)
                - 99 * member_count(records)) by (nonlinear_arith)
                requires
                    inc0 == 0,
                    s0 == 0,
                    100 * sum_increments(rest, daily, elapsed, t) >= tav * sum_shares(rest, t) - 99
                        * member_count(rest),
                    sum_increments(records, daily, elapsed, t) == inc0 + sum_increments(
                        rest,
                        daily,
                        elapsed,
                        t,
                    ),
                    sum_shares(records, t) == s0 + sum_shares(rest, t),
                    member_count(records) == member_count(rest),
            ;
        }
        assert(100 * sum_increments(records, daily, elapsed, t) <= tav * sum_shares(records, t))
            by (nonlinear_arith)
            requires
                100 * inc0 <= tav * s0,
                100 * sum_increments(rest, daily, elapsed, t) <= tav * sum_shares(rest, t),
                sum_increments(records, daily, elapsed, t) == inc0 + sum_increments(
                    rest,
                    daily,
                    elapsed,
                    t,
                ),
                sum_shares(records, t) == s0 + sum_shares(rest, t),
        ;
    }
}

/// Accrual conservation, upper half, for every ledger: one pass never
/// hands out more than the window's available units.
pub proof fn lemma_accrual_conservation_upper(records: Seq<StakerRecordV>, daily: int, elapsed: int)
    requires
        forall|i: int|
            0 <= i < records.len() ==> {
                &&& (#[trigger] records[i]).amount >= 0
                &&& (records[i].is_member <==> records[i].amount > 0)
            },
        total_staked(records) > 0,
        elapsed > 0,
        daily >= 0,
    ensures
        sum_increments(records, daily, elapsed, total_staked(records)) <= spec_total_available(
            daily,
            elapsed,
        ),
{
    let t = total_staked(records);
    let tav = spec_total_available(daily, elapsed);
    assert(elapsed * (MILLIS_PER_SECOND as int) >= 1000);
    lemma_div_pos_is_pos(daily, elapsed * (MILLIS_PER_SECOND as int));
    lemma_upper_helper(records, daily, elapsed, t);
    lemma_shares_le_total_share(records, t);
    lemma_div_multiples_vanish(100, t);
    assert(t * 100 / t == 100);
    assert(sum_shares(records, t) <= 100);
    assert(100 * sum_increments(records, daily, elapsed, t) <= tav * 100) by (nonlinear_arith)
        requires
            100 * sum_increments(records, daily, elapsed, t) <= tav * sum_shares(records, t),
            sum_shares(records, t) <= 100,
            tav >= 0,
    ;
}

/// Shares never overstate the stake: the sum of floored shares is at
/// most the floored share of the sum.
proof fn lemma_shares_le_total_share(records: Seq<StakerRecordV>, t: int)
    requires
        t > 0,
        forall|i: int| 0 <= i < records.len() ==> (#[trigger] records[i]).amount >= 0,
    ensures
        sum_shares(records, t) >= 0,
        sum_shares(records, t) <= total_staked(records) * 100 / t,
    decreases records.len(),
{
    if records.len() == 0 {
        lemma_div_of0(t);
    } else {
        let rest = records.drop_first();
        assert(forall|i: int| 0 <= i < rest.len() ==> #[trigger] rest[i] == records[i + 1]);
        lemma_shares_le_total_share(rest, t);
        let a0 = records[0].amount;
        lemma_mul_nonnegative(a0, 100);
        lemma_div_pos_is_pos(a0 * 100, t);
        lemma_total_staked_nonneg(rest);
        lemma_mul_nonnegative(total_staked(rest), 100);
        lemma_div_sum_le(a0 * 100, total_staked(rest) * 100, t);
        assert(a0 * 100 + total_staked(rest) * 100 == total_staked(records) * 100)
            by (nonlinear_arith)
            requires
                total_staked(records) == a0 + total_staked(rest),
        ;
    }
}

/// Increments never overstate the shares.
proof fn lemma_upper_helper(records: Seq<StakerRecordV>, daily: int, elapsed: int, t: int)
    requires
        t > 0,
        elapsed > 0,
        daily >= 0,
        forall|i: int| 0 <= i < records.len() ==> (#[trigger] records[i]).amount >= 0,
    ensures
        100 * sum_increments(records, daily, elapsed, t) <= spec_total_available(daily, elapsed)
            * sum_shares(records, t),
    decreases records.len(),
{
    let tav = spec_total_available(daily, elapsed);
    assert(elapsed * (MILLIS_PER_SECOND as int) >= 1000);
    lemma_div_pos_is_pos(daily, elapsed * (MILLIS_PER_SECOND as int));
    if records.len() > 0 {
        let rest = records.drop_first();
        assert(forall|i: int| 0 <= i < rest.len() ==> #[trigger] rest[i] == records[i + 1]);
        lemma_upper_helper(rest, daily, elapsed, t);
        let a0 = records[0].amount;
        let s0 = spec_share(a0, t);
        let inc0 = spec_increment(daily, elapsed, a0, t);
        lemma_mul_nonnegative(a0, 100);
        lemma_div_pos_is_pos(a0 * 100, t);
        lemma_fundamental_div_mod(tav * s0, 100);
        lemma_mod_division_less_than_divisor(tav * s0, 100);
        assert(100 * inc0 <= tav * s0);
        assert(100 * sum_increments(records, daily, elapsed, t) <= tav * sum_shares(records, t))
            by (nonlinear_arith)
            requires
                100 * inc0 <= tav * s0,
                100 * sum_increments(rest, daily, elapsed, t) <= tav * sum_shares(rest, t),
                sum_increments(records, daily, elapsed, t) == inc0 + sum_increments(
                    rest,
                    daily,
                    elapsed,
                    t,
                ),
                sum_shares(records, t) == s0 + sum_shares(rest, t),
        ;
    }
}

/// Accrual conservation: when every stake divides the total evenly (each
/// share is exact), one pass hands out all of the window's available
/// units up to a cumulative floor-rounding loss of at most one unit per
/// member beyond the first — and never more than the available units.
pub proof fn lemma_accrual_conservation_exact(records: Seq<StakerRecordV>, daily: int, elapsed: int)
    requires
        forall|i: int|
            0 <= i < records.len() ==> {
                &&& (#[trigger] records[i]).amount >= 0
                &&& (records[i].is_member <==> records[i].amount > 0)
                &&& (records[i].amount * 100) % total_staked(records) == 0
            },
        total_staked(records) > 0,
        elapsed > 0,
        daily >= 0,
    ensures
        sum_increments(records, daily, elapsed, total_staked(records)) <= spec_total_available(
            daily,
            elapsed,
        ),
        sum_increments(records, daily, elapsed, total_staked(records)) >= spec_total_available(
            daily,
            elapsed,
        ) - (member_count(records) - 1),
{
    let t = total_staked(records);
    let tav = spec_total_available(daily, elapsed);
    let k = member_count(records);
    let s = sum_increments(records, daily, elapsed, t);
    lemma_conservation_helper(records, daily, elapsed, t);
    assert(elapsed * (MILLIS_PER_SECOND as int) >= 1000);
    lemma_div_pos_is_pos(daily, elapsed * (MILLIS_PER_SECOND as int));
    assert(k >= 1) by {
        if member_count(records) == 0 {
            assert(total_staked(records) == 0);
        }
    }
    assert(sum_shares(records, t) == 100) by (nonlinear_arith)
        requires
            sum_shares(records, t) * t == total_staked(records) * 100,
            t == total_staked(records),
            t > 0,
    ;
    assert(100 * s <= tav * 100);
    assert(s <= tav) by (nonlinear_arith)
        requires
            100 * s <= tav * 100,
    ;
    assert(100 * s >= tav * 100 - 99 * k);
    assert(s >= tav - (k - 1)) by (nonlinear_arith)
        requires
            100 * s >= tav * 100 - 99 * k,
            k >= 1,
    ;
}

/// What the staking contract is told at instantiation.
pub struct InitMsg {
    pub staking_amount: u128,
    pub reward_token: TokenType,
    pub lp_token: TokenType,
}

/// The message a token contract embeds in a receive callback.
pub enum InvokeMsg {
    Stake { from: Addr, amount: u128 },
}

/// An inbound action on the staking contract.
pub enum HandleMsg {
    Receive { from: Addr, msg: Option<InvokeMsg>, amount: u128 },
    ClaimRewards {},
    Unstake {},
}

/// The structured result of a successful staking action: outbound token
/// transfers and log entries.
#[derive(Debug)]
pub struct Response {
    pub messages: Vec<SendMsg>,
    pub log: Vec<LogEntry>,
}

/// Sets up an empty ledger owned by the instantiating caller, with the
/// accrual checkpoint at the current block time.
pub fn init(msg: InitMsg, env: &Env) -> (r: StakingState)
    ensures
        r.config.contract_owner@ == env.sender@,
        r.config.daily_reward_amount == msg.staking_amount,
        r.config.reward_token == msg.reward_token,
        r.config.lp_token == msg.lp_token,
        r@.records.len() == 0,
        r@.last_accrual == env.block_time,
        r@.wf(),
{
    let state = StakingState {
        config: Config {
            contract_owner: env.sender.clone_addr(),
            daily_reward_amount: msg.staking_amount,
            reward_token: msg.reward_token,
            lp_token: msg.lp_token,
        },
        records: Vec::new(),
        last_accrual: env.block_time,
    };
    proof {
        assert(state@.records =~= Seq::<StakerRecordV>::empty());
    }
    state
}

/// Credits a stake of `amount` to `from`, as handed over by the token
/// contract's receive callback: a full accrual pass runs first, then the
/// position grows (or is created), rejoins the accrual set, and the
/// staker's claim record resets to zero at the current block time. A
/// zero amount is refused; growth past the working width aborts
/// unchanged.
pub fn stake(state: &mut StakingState, env: &Env, amount: u128, from: Addr) -> (r: Result<
    Response,
    Error,
>)
    requires
        old(state)@.wf(),
    ensures
        final(state).config == old(state).config,
        final(state)@.wf(),
        amount == 0 ==> r == Err::<Response, Error>(Error::InvalidAmount) && *final(state) == *old(
            state,
        ),
        amount > 0 && total_staked(old(state)@.records) + amount > u128::MAX ==> r == Err::<
            Response,
            Error,
        >(Error::Overflow) && *final(state) == *old(state),
        amount > 0 && total_staked(old(state)@.records) + amount <= u128::MAX && accrue_overflows(
            old(state)@,
            env.block_time as int,
        ) ==> r == Err::<Response, Error>(Error::Overflow) && *final(state) == *old(state),
        amount > 0 && total_staked(old(state)@.records) + amount <= u128::MAX && !accrue_overflows(
            old(state)@,
            env.block_time as int,
        ) ==> (r matches Ok(resp) && {
            &&& final(state)@ == spec_stake(
                spec_accrue(old(state)@, env.block_time as int),
                from@,
                amount as int,
                env.block_time as int,
            )
            &&& resp.messages@.len() == 0
            &&& resp.log@.len() == 1
            &&& resp.log@[0].action == LogAction::Stake
            &&& resp.log@[0].actor@ == from@
            &&& resp.log@[0].amount == Some(amount)
        }),
{
    let ghost pre = state@;
    let ghost now = env.block_time as int;
    if amount == 0 {
        return Err(Error::InvalidAmount);
    }
    let total: u128 = get_total_staking_amount(state);
    if total > u128::MAX - amount {
        return Err(Error::Overflow);
    }
    match claim_rewards_for_all_stakers(state, env.block_time) {
        Ok(()) => {},
        Err(e) => {
            return Err(e);
        },
    }
    let ghost accrued = spec_accrue(pre, now);
    proof {
        lemma_accrue_preserves_shape(pre, now);
        lemma_find_staker_pointwise(accrued.records, pre.records, from@);
        lemma_find_staker(accrued.records, from@);
        assert(forall|k: int|
            0 <= k < accrued.records.len() ==> (#[trigger] accrued.records[k]).amount >= 0);
    }
    let actor = from.clone_addr();
    match find_staker_index(&state.records, &from) {
        Some(i) => {
            proof {
                lemma_staked_le_total(accrued.records, i as int);
                lemma_total_staked_update(
                    accrued.records,
                    i as int,
                    StakerRecordV {
                        staker: from@,
                        amount: accrued.records[i as int].amount + amount,
                        last_time_updated: now,
                        claim_amount: 0,
                        last_time_claimed: now,
                        is_member: true,
                    },
                );
            }
            let rec_amount = state.records[i].amount;
            let updated = StakerRecord {
                staker: from,
                amount: rec_amount + amount,
                last_time_updated: env.block_time,
                claim_amount: 0,
                last_time_claimed: env.block_time,
                is_member: true,
            };
            state.records.set(i, updated);
            proof {
                assert(state@.records =~= spec_stake(accrued, from@, amount as int, now).records);
                assert(state@ == spec_stake(accrued, from@, amount as int, now));
            }
        },
        None => {
            proof {
                lemma_total_staked_push(
                    accrued.records,
                    StakerRecordV {
                        staker: from@,
                        amount: amount as int,
                        last_time_updated: now,
                        claim_amount: 0,
                        last_time_claimed: now,
                        is_member: true,
                    },
                );
            }
            let fresh = StakerRecord {
                staker: from,
                amount: amount,
                last_time_updated: env.block_time,
                claim_amount: 0,
                last_time_claimed: env.block_time,
                is_member: true,
            };
            state.records.push(fresh);
            proof {
                assert(state@.records =~= spec_stake(accrued, from@, amount as int, now).records);
                assert(state@ == spec_stake(accrued, from@, amount as int, now));
            }
        },
    }
    Ok(
        Response {
            messages: Vec::new(),
            log: vec![
                LogEntry { action: LogAction::Stake, actor: actor, amount: Some(amount) },
            ],
        },
    )
}

/// Pays out the caller's accrued reward: a full accrual pass runs first,
/// then the claim is zeroed, stamped at the current block time, and the
/// whole amount is scheduled as one outbound reward-token transfer. A
/// caller outside the accrual set is refused.
pub fn claim_rewards(state: &mut StakingState, env: &Env) -> (r: Result<Response, Error>)
    requires
        old(state)@.wf(),
    ensures
        final(state).config == old(state).config,
        final(state)@.wf(),
        ({
            let f = find_staker(old(state)@.records, env.sender@);
            &&& (f == -1 || !old(state)@.records[f].is_member) ==> r == Err::<Response, Error>(
                Error::NotAStaker,
            ) && *final(state) == *old(state)
            &&& (f >= 0 && old(state)@.records[f].is_member && accrue_overflows(
                old(state)@,
                env.block_time as int,
            )) ==> r == Err::<Response, Error>(Error::Overflow) && *final(state) == *old(state)
            &&& (f >= 0 && old(state)@.records[f].is_member && !accrue_overflows(
                old(state)@,
                env.block_time as int,
            )) ==> (r matches Ok(resp) && {
                let accrued = spec_accrue(old(state)@, env.block_time as int);
                &&& final(state)@ == spec_claim(accrued, env.sender@, env.block_time as int)
                &&& resp.messages@.len() == 1
                &&& crate::types::token_type_matches(
                    resp.messages@[0].token,
                    old(state).config.reward_token,
                )
                &&& resp.messages@[0].sender@ == env.contract_address@
                &&& resp.messages@[0].recipient@ == env.sender@
                &&& resp.messages@[0].amount == accrued.records[f].claim_amount
                &&& resp.log@.len() == 1
                &&& resp.log@[0].action == LogAction::ClaimRewards
                &&& resp.log@[0].actor@ == env.sender@
                &&& resp.log@[0].amount == Some(resp.messages@[0].amount)
            })
        }),
{
    let ghost pre = state@;
    let ghost now = env.block_time as int;
    let receiver = &env.sender;
    let found = find_staker_index(&state.records, receiver);
    let i: usize;
    match found {
        Some(idx) => {
            if !state.records[idx].is_member {
                return Err(Error::NotAStaker);
            }
            i = idx;
        },
        None => {
            return Err(Error::NotAStaker);
        },
    }
    match claim_rewards_for_all_stakers(state, env.block_time) {
        Ok(()) => {},
        Err(e) => {
            return Err(e);
        },
    }
    let ghost accrued = spec_accrue(pre, now);
    proof {
        lemma_accrue_preserves_shape(pre, now);
        lemma_find_staker_pointwise(accrued.records, pre.records, env.sender@);
        lemma_find_staker(accrued.records, env.sender@);
    }
    let claim_amount = state.records[i].claim_amount;
    let rec = &state.records[i];
    let updated = StakerRecord {
        staker: rec.staker.clone_addr(),
        amount: rec.amount,
        last_time_updated: rec.last_time_updated,
        claim_amount: 0,
        last_time_claimed: env.block_time,
        is_member: rec.is_member,
    };
    state.records.set(i, updated);
    proof {
        lemma_total_staked_update(accrued.records, i as int, state@.records[i as int]);
        assert(state@.records =~= spec_claim(accrued, env.sender@, now).records);
        assert(state@ == spec_claim(accrued, env.sender@, now));
    }
    let message = SendMsg {
        token: crate::types::clone_token_type(&state.config.reward_token),
        sender: env.contract_address.clone_addr(),
        recipient: env.sender.clone_addr(),
        amount: claim_amount,
    };
    Ok(
        Response {
            messages: vec![message],
            log: vec![
                LogEntry {
                    action: LogAction::ClaimRewards,
                    actor: env.sender.clone_addr(),
                    amount: Some(claim_amount),
                },
            ],
        },
    )
}

/// Withdraws the caller entirely: a full accrual pass runs first, then
/// the staker leaves the accrual set with position and claim reset, and
/// two outbound transfers are scheduled — the whole principal in the
/// liquidity-pool token and the whole accrued reward in the reward
/// token. A caller outside the accrual set is refused.
pub fn unstake(state: &mut StakingState, env: &Env) -> (r: Result<Response, Error>)
    requires
        old(state)@.wf(),
    ensures
        final(state).config == old(state).config,
        final(state)@.wf(),
        ({
            let f = find_staker(old(state)@.records, env.sender@);
            &&& (f == -1 || !old(state)@.records[f].is_member) ==> r == Err::<Response, Error>(
                Error::NotAStaker,
            ) && *final(state) == *old(state)
            &&& (f >= 0 && old(state)@.records[f].is_member && accrue_overflows(
                old(state)@,
                env.block_time as int,
            )) ==> r == Err::<Response, Error>(Error::Overflow) && *final(state) == *old(state)
            &&& (f >= 0 && old(state)@.records[f].is_member && !accrue_overflows(
                old(state)@,
                env.block_time as int,
            )) ==> (r matches Ok(resp) && {
                let accrued = spec_accrue(old(state)@, env.block_time as int);
                &&& final(state)@ == spec_unstake(accrued, env.sender@, env.block_time as int)
                &&& resp.messages@.len() == 2
                &&& crate::types::token_type_matches(
                    resp.messages@[0].token,
                    old(state).config.lp_token,
                )
                &&& resp.messages@[0].sender@ == env.contract_address@
                &&& resp.messages@[0].recipient@ == env.sender@
                &&& resp.messages@[0].amount == accrued.records[f].amount
                &&& crate::types::token_type_matches(
                    resp.messages@[1].token,
                    old(state).config.reward_token,
                )
                &&& resp.messages@[1].sender@ == env.contract_address@
                &&& resp.messages@[1].recipient@ == env.sender@
                &&& resp.messages@[1].amount == accrued.records[f].claim_amount
                &&& resp.log@.len() == 1
                &&& resp.log@[0].action == LogAction::Unstake
                &&& resp.log@[0].actor@ == env.sender@
                &&& resp.log@[0].amount is None
            })
        }),
{
    let ghost pre = state@;
    let ghost now = env.block_time as int;
    let caller = &env.sender;
    let found = find_staker_index(&state.records, caller);
    let i: usize;
    match found {
        Some(idx) => {
            if !state.records[idx].is_member {
                return Err(Error::NotAStaker);
            }
            i = idx;
        },
        None => {
            return Err(Error::NotAStaker);
        },
    }
    match claim_rewards_for_all_stakers(state, env.block_time) {
        Ok(()) => {},
        Err(e) => {
            return Err(e);
        },
    }
    let ghost accrued = spec_accrue(pre, now);
    proof {
        lemma_accrue_preserves_shape(pre, now);
        lemma_find_staker_pointwise(accrued.records, pre.records, env.sender@);
        lemma_find_staker(accrued.records, env.sender@);
        assert(forall|k: int|
            0 <= k < accrued.records.len() ==> (#[trigger] accrued.records[k]).amount >= 0);
        lemma_staked_le_total(accrued.records, i as int);
    }
    let staked_amount = state.records[i].amount;
    let claim_amount = state.records[i].claim_amount;
    let rec = &state.records[i];
    let updated = StakerRecord {
        staker: rec.staker.clone_addr(),
        amount: 0,
        last_time_updated: env.block_time,
        claim_amount: 0,
        last_time_claimed: 0,
        is_member: false,
    };
    state.records.set(i, updated);
    proof {
        lemma_total_staked_update(accrued.records, i as int, state@.records[i as int]);
        assert(state@.records =~= spec_unstake(accrued, env.sender@, now).records);
        assert(state@ == spec_unstake(accrued, env.sender@, now));
    }
    let principal_message = SendMsg {
        token: crate::types::clone_token_type(&state.config.lp_token),
        sender: env.contract_address.clone_addr(),
        recipient: env.sender.clone_addr(),
        amount: staked_amount,
    };
    let reward_message = SendMsg {
        token: crate::types::clone_token_type(&state.config.reward_token),
        sender: env.contract_address.clone_addr(),
        recipient: env.sender.clone_addr(),
        amount: claim_amount,
    };
    Ok(
        Response {
            messages: vec![principal_message, reward_message],
            log: vec![
                LogEntry { action: LogAction::Unstake, actor: env.sender.clone_addr(), amount: None },
            ],
        },
    )
}

/// A staker's share of the total stake, scaled by `cons` and truncating:
/// `floor(amount * cons / total)`. Per the division-by-zero guard of the
/// error design, callers must not invoke share math with an empty total.
pub fn get_staking_percentage(state: &StakingState, staker: &Addr, cons: u128) -> (r: Result<
    u128,
    Error,
>)
    requires
        state@.wf(),
        total_staked(state@.records) > 0,
    ensures
        ({
            let f = find_staker(state@.records, staker@);
            &&& f == -1 ==> r == Err::<u128, Error>(Error::NotAStaker)
            &&& f >= 0 ==> (r matches Ok(p) && p == state@.records[f].amount * cons / total_staked(
                state@.records,
            ))
        }),
{
    let total: u128 = get_total_staking_amount(state);
    match find_staker_index(&state.records, staker) {
        None => Err(Error::NotAStaker),
        Some(i) => {
            proof {
                assert(forall|k: int|
                    0 <= k < state@.records.len() ==> (#[trigger] state@.records[k]).amount >= 0);
                lemma_staked_le_total(state@.records, i as int);
                let amount = state@.records[i as int].amount;
                lemma_mul_nonnegative(amount, cons as int);
                lemma_div_pos_is_pos(amount * cons, total as int);
                lemma_mul_inequality(amount, total as int, cons as int);
                lemma_div_is_ordered(amount * cons, total as int * cons, total as int);
                lemma_div_multiples_vanish(cons as int, total as int);
                assert(total as int * (cons as int) / (total as int) == cons);
            }
            let amount = state.records[i].amount;
            Ok(mul_div_floor(amount, cons, total))
        },
    }
}

/// One staker's reward increment for the window from `last_timestamp` to
/// `current_timestamp`, without touching the ledger: the available units
/// of the window times the staker's stake share, truncating. A window
/// that runs backwards is refused as `Underflow`; an unknown identity as
/// `NotAStaker`; an empty window or empty total yields zero.
pub fn calculate_staking_reward(
    state: &StakingState,
    staker: &Addr,
    last_timestamp: u64,
    current_timestamp: u64,
) -> (r: Result<u128, Error>)
    requires
        state@.wf(),
    ensures
        ({
            let f = find_staker(state@.records, staker@);
            &&& f == -1 ==> r == Err::<u128, Error>(Error::NotAStaker)
            &&& f >= 0 && current_timestamp < last_timestamp ==> r == Err::<u128, Error>(
                Error::Underflow,
            )
            &&& f >= 0 && current_timestamp >= last_timestamp ==> (r matches Ok(v) && v
                == spec_increment(
                state@.daily_reward_amount,
                current_timestamp - last_timestamp,
                state@.records[f].amount,
                total_staked(state@.records),
            ))
        }),
{
    let found = find_staker_index(&state.records, staker);
    let i: usize;
    match found {
        Some(idx) => {
            i = idx;
        },
        None => {
            return Err(Error::NotAStaker);
        },
    }
    if current_timestamp < last_timestamp {
        return Err(Error::Underflow);
    }
    let elapsed: u64 = current_timestamp - last_timestamp;
    let total: u128 = get_total_staking_amount(state);
    if elapsed == 0 || total == 0 {
        return Ok(0);
    }
    let elapsed_ms: u128 = (elapsed as u128) * MILLIS_PER_SECOND;
    let total_available: u128 = state.config.daily_reward_amount / elapsed_ms;
    let amount = state.records[i].amount;
    proof {
        assert(forall|k: int|
            0 <= k < state@.records.len() ==> (#[trigger] state@.records[k]).amount >= 0);
        lemma_staked_le_total(state@.records, i as int);
        lemma_share_and_increment_bounds(
            state@.daily_reward_amount,
            elapsed as int,
            amount as int,
            total as int,
        );
    }
    let share = mul_div_floor(amount, PRECISION, total);
    let reward = mul_div_floor(total_available, share, PRECISION);
    proof {
        assert(total_available == spec_total_available(state@.daily_reward_amount, elapsed as int));
        assert(share == spec_share(amount as int, total as int));
        assert(reward == spec_increment(
            state@.daily_reward_amount,
            elapsed as int,
            state@.records[i as int].amount,
            total as int,
        ));
    }
    Ok(reward)
}

/// Unwraps the embedded message of a token-receive callback and credits
/// the stake it carries; a callback without a message is refused.
pub fn receiver_callback(state: &mut StakingState, env: &Env, msg: Option<InvokeMsg>) -> (r: Result<
    Response,
    Error,
>)
    requires
        old(state)@.wf(),
    ensures
        final(state).config == old(state).config,
        final(state)@.wf(),
        msg is None ==> r == Err::<Response, Error>(Error::MissingCallbackMessage) && *final(state)
            == *old(state),
        msg matches Some(InvokeMsg::Stake { from, amount }) ==> {
            &&& amount == 0 ==> r == Err::<Response, Error>(Error::InvalidAmount) && *final(state)
                == *old(state)
            &&& amount > 0 && total_staked(old(state)@.records) + amount > u128::MAX ==> r == Err::<
                Response,
                Error,
            >(Error::Overflow) && *final(state) == *old(state)
            &&& amount > 0 && total_staked(old(state)@.records) + amount <= u128::MAX
                && accrue_overflows(old(state)@, env.block_time as int) ==> r == Err::<
                Response,
                Error,
            >(Error::Overflow) && *final(state) == *old(state)
            &&& amount > 0 && total_staked(old(state)@.records) + amount <= u128::MAX
                && !accrue_overflows(old(state)@, env.block_time as int) ==> (r matches Ok(resp)
                && final(state)@ == spec_stake(
                spec_accrue(old(state)@, env.block_time as int),
                from@,
                amount as int,
                env.block_time as int,
            ) && resp.log@.len() == 1 && resp.log@[0].actor@ == from@)
        },
{
    match msg {
        None => Err(Error::MissingCallbackMessage),
        Some(InvokeMsg::Stake { from, amount }) => stake(state, env, amount, from),
    }
}

/// Dispatches one inbound staking action to its handler. By design, the
/// outer `from` and `amount` of a receive callback are not consulted:
/// the embedded message alone names the staker and the amount.
pub fn handle(state: &mut StakingState, env: &Env, msg: HandleMsg) -> (r: Result<Response, Error>)
    requires
        old(state)@.wf(),
    ensures
        final(state).config == old(state).config,
        final(state)@.wf(),
        msg matches HandleMsg::Receive { msg: inner, .. } && inner is None ==> r == Err::<
            Response,
            Error,
        >(Error::MissingCallbackMessage) && *final(state) == *old(state),
        msg matches HandleMsg::Receive {
            msg: Some(InvokeMsg::Stake { from: inner_from, amount: inner_amount }),
            ..
        } ==> ((inner_amount > 0 && total_staked(old(state)@.records) + inner_amount <= u128::MAX
            && !accrue_overflows(old(state)@, env.block_time as int)) ==> (r is Ok
            && final(state)@ == spec_stake(
            spec_accrue(old(state)@, env.block_time as int),
            inner_from@,
            inner_amount as int,
            env.block_time as int,
        ))),
        msg matches HandleMsg::ClaimRewards {  } && ({
            let f = find_staker(old(state)@.records, env.sender@);
            f >= 0 && old(state)@.records[f].is_member && !accrue_overflows(
                old(state)@,
                env.block_time as int,
            )
        }) ==> r is Ok && final(state)@ == spec_claim(
            spec_accrue(old(state)@, env.block_time as int),
            env.sender@,
            env.block_time as int,
        ),
        msg matches HandleMsg::Unstake {  } && ({
            let f = find_staker(old(state)@.records, env.sender@);
            f >= 0 && old(state)@.records[f].is_member && !accrue_overflows(
                old(state)@,
                env.block_time as int,
            )
        }) ==> r is Ok && final(state)@ == spec_unstake(
            spec_accrue(old(state)@, env.block_time as int),
            env.sender@,
            env.block_time as int,
        ),
        (msg matches HandleMsg::ClaimRewards {  } || msg matches HandleMsg::Unstake {  }) && ({
            let f = find_staker(old(state)@.records, env.sender@);
            f == -1 || !old(state)@.records[f].is_member
        }) ==> r == Err::<Response, Error>(Error::NotAStaker) && *final(state) == *old(state),
{
    match msg {
        HandleMsg::Receive { from: _, msg: inner, amount: _ } => receiver_callback(
            state,
            env,
            inner,
        ),
        HandleMsg::ClaimRewards {  } => claim_rewards(state, env),
        HandleMsg::Unstake {  } => unstake(state, env),
    }
}

} // verus!
