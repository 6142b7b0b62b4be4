//! The words in which the laws of single instructions are put: plain relations between amounts,
//! moments and steps.
use crate::event::{Action, Event};
use crate::laws::rewards::lemma_accrued_bounds;
use crate::pubkey::Pubkey;
use crate::rewards::{accrued, rewards};
use crate::stakes::total_staked;
use crate::state::{StakeInfo, StakingPool, UnbondingRequest, UserState};
use vstd::prelude::*;

verus! {

// ---------------------------------------------------------------------------
// Rewards
// ---------------------------------------------------------------------------

/// `reward` is what `balance` earns while the index goes from `from` to `to`: the product of
/// balance and way, in units of 10^18, rounded down, and never more than 64 bits hold.
pub open spec fn is_share(reward: int, balance: int, to: int, from: int) -> bool {
    if to <= from {
        reward == 0
    } else {
        &&& 0 <= reward <= u64::MAX
        &&& reward * 1_000_000_000_000_000_000 <= balance * (to - from)
        &&& reward < u64::MAX ==> balance * (to - from) < (reward + 1)
            * 1_000_000_000_000_000_000
    }
}

/// The computed reward is the share.
pub proof fn lemma_rewards_are_the_share(balance: u64, to: u128, from: u128)
    ensures
        is_share(rewards(balance, to, from) as int, balance as int, to as int, from as int),
{
    lemma_accrued_bounds(balance, to, from);
    if to > from {
        let a = accrued(balance, to, from);
        let r = rewards(balance, to, from) as int;
        if a > u64::MAX {
            assert(r * 1_000_000_000_000_000_000 <= a * 1_000_000_000_000_000_000)
                by (nonlinear_arith)
                requires
                    r <= a,
            ;
        }
    }
}

/// There is only one share.
pub proof fn lemma_share_is_unique(a: int, b: int, balance: int, to: int, from: int)
    requires
        is_share(a, balance, to, from),
        is_share(b, balance, to, from),
    ensures
        a == b,
{
    if to > from {
        if a < b {
            assert(a + 1 <= b);
            assert((a + 1) * 1_000_000_000_000_000_000 <= b * 1_000_000_000_000_000_000)
                by (nonlinear_arith)
                requires
                    a + 1 <= b,
            ;
        } else if b < a {
            assert((b + 1) * 1_000_000_000_000_000_000 <= a * 1_000_000_000_000_000_000)
                by (nonlinear_arith)
                requires
                    b + 1 <= a,
            ;
        }
    }
}

// ---------------------------------------------------------------------------
// Steps
// ---------------------------------------------------------------------------

/// What the transfers among the steps take out of `vault` together.
pub open spec fn paid_from(actions: Seq<Action>, vault: Pubkey) -> int
    decreases actions.len(),
{
    if actions.len() == 0 {
        0
    } else {
        paid_from(actions.drop_last(), vault) + match actions.last() {
            Action::Transfer(transfer) => if transfer.from == vault {
                transfer.amount as int
            } else {
                0
            },
            Action::Emit(_) => 0,
        }
    }
}

/// Steps that only write to the log take nothing out of a vault.
pub proof fn lemma_log_pays_nothing(first: Seq<Action>, log: Seq<Action>, vault: Pubkey)
    requires
        forall|k: int| 0 <= k < log.len() ==> #[trigger] log[k] is Emit,
    ensures
        paid_from(first + log, vault) == paid_from(first, vault),
    decreases log.len(),
{
    if log.len() == 0 {
        assert(first + log =~= first);
    } else {
        assert((first + log).drop_last() =~= first + log.drop_last());
        assert((first + log).last() == log[log.len() - 1]);
        lemma_log_pays_nothing(first, log.drop_last(), vault);
    }
}

/// `steps` pay `amount` reward tokens from `vault` to `to`, signed for by the pool, and tell the
/// log so; where the amount is nothing there is no step.
pub open spec fn pays(
    steps: Seq<Action>,
    amount: int,
    vault: Pubkey,
    to: Pubkey,
    pool_key: Pubkey,
    bump: u8,
    user: Pubkey,
) -> bool {
    if amount == 0 {
        steps.len() == 0
    } else {
        &&& steps.len() == 2
        &&& steps[0] matches Action::Transfer(transfer)
        &&& transfer.from == vault
        &&& transfer.to == to
        &&& transfer.authority == pool_key
        &&& transfer.amount == amount
        &&& transfer.pool_bump == Some(bump)
        &&& steps[1] matches Action::Emit(Event::RewardsClaimed(entry))
        &&& entry.user == user
        &&& entry.amount == amount
    }
}

/// What a payment takes out of the vault is its amount.
pub proof fn lemma_payment_total(
    steps: Seq<Action>,
    amount: int,
    vault: Pubkey,
    to: Pubkey,
    pool_key: Pubkey,
    bump: u8,
    user: Pubkey,
)
    requires
        pays(steps, amount, vault, to, pool_key, bump, user),
    ensures
        paid_from(steps, vault) == amount,
{
    reveal_with_fuel(paid_from, 3);
    if amount != 0 {
        assert(steps.drop_last().last() == steps[0]);
        assert(steps.drop_last().drop_last() =~= Seq::empty());
    }
}

/// The steps that an instruction added to a list.
pub open spec fn added(before: Seq<Action>, after: Seq<Action>) -> Seq<Action> {
    after.skip(before.len() as int)
}

/// What was listed before stays, in front.
pub open spec fn extends(before: Seq<Action>, after: Seq<Action>) -> bool {
    before.len() <= after.len() && after.take(before.len() as int) == before
}

/// A list that grew at its end kept its front, and the rest is what was added.
pub proof fn lemma_added(before: Seq<Action>, more: Seq<Action>)
    ensures
        extends(before, before + more),
        added(before, before + more) == more,
{
    assert((before + more).take(before.len() as int) =~= before);
    assert((before + more).skip(before.len() as int) =~= more);
}

// ---------------------------------------------------------------------------
// Records
// ---------------------------------------------------------------------------

/// The pool has the given supply and index and is otherwise as before.
pub open spec fn pool_moved(
    before: StakingPool,
    after: StakingPool,
    supply: int,
    index: int,
) -> bool {
    &&& after.staking_mint == before.staking_mint
    &&& after.reward_mint == before.reward_mint
    &&& after.staking_vault == before.staking_vault
    &&& after.reward_vault == before.reward_vault
    &&& after.authority == before.authority
    &&& after.bump == before.bump
    &&& after.total_supply == supply
    &&& after.reward_index == index
}

/// The pool is as before.
pub open spec fn pool_kept(before: StakingPool, after: StakingPool) -> bool {
    pool_moved(before, after, before.total_supply as int, before.reward_index as int)
}

/// The user's record is as before, field by field.
pub open spec fn record_kept(before: UserState, after: UserState) -> bool {
    &&& after.owner == before.owner
    &&& after.balance == before.balance
    &&& after.reward_index_of == before.reward_index_of
    &&& after.earned == before.earned
    &&& after.stakes@ == before.stakes@
    &&& after.unbonding_requests@ == before.unbonding_requests@
}

/// The record was settled up to `index`: what it earned since it was last settled was added to
/// what it had earned.
pub open spec fn record_settled(before: UserState, after: UserState, index: u128) -> bool {
    &&& is_share(
        after.earned - before.earned,
        before.balance as int,
        index as int,
        before.reward_index_of as int,
    )
    &&& after.reward_index_of == index
}

// ---------------------------------------------------------------------------
// Stakes and requests
// ---------------------------------------------------------------------------

/// How many seconds lie between two moments.
pub open spec fn gap(a: int, b: int) -> int {
    if a >= b {
        a - b
    } else {
        b - a
    }
}

/// How many stakes hold something.
pub open spec fn held(stakes: Seq<StakeInfo>) -> nat {
    stakes.filter(|stake: StakeInfo| stake.amount > 0).len()
}

/// No stake before the place `i` that holds something is at most `window` seconds from `now`.
pub open spec fn none_near_before(
    stakes: Seq<StakeInfo>,
    window: int,
    now: i64,
    i: int,
) -> bool {
    forall|j: int|
        0 <= j < i && (#[trigger] stakes[j]).amount > 0 ==> gap(
            now as int,
            stakes[j].timestamp as int,
        ) > window
}

/// The stake at `i` is the one that a deposit made at `now` joins: the first that holds something
/// and is at most `window` seconds away; where there is none such, the latest that holds
/// something, and of several the last in the list.
pub open spec fn joins(stakes: Seq<StakeInfo>, window: int, now: i64, i: int) -> bool {
    &&& 0 <= i < stakes.len()
    &&& stakes[i].amount > 0
    &&& if gap(now as int, stakes[i].timestamp as int) <= window {
        none_near_before(stakes, window, now, i)
    } else {
        forall|j: int|
            0 <= j < stakes.len() && (#[trigger] stakes[j]).amount > 0 ==> {
                &&& gap(now as int, stakes[j].timestamp as int) > window
                &&& stakes[j].timestamp <= stakes[i].timestamp
                &&& j > i ==> stakes[j].timestamp < stakes[i].timestamp
            }
    }
}

/// The first stake goes through the others in their order, `window` being how far it reaches.
/// `heads[k]` are amount and moment that it has once it has passed the place `k`, and `rest` are
/// the others after that. One that is in reach of the moment that the first stake then has is
/// added to it and left empty, and the earlier moment of the two counts from there on. One that is
/// out of reach stays as it is.
pub open spec fn is_sweep(
    stakes: Seq<StakeInfo>,
    window: int,
    heads: Seq<(int, int)>,
    rest: Seq<StakeInfo>,
) -> bool {
    &&& 0 < stakes.len() == heads.len() == rest.len() + 1
    &&& heads[0].0 == stakes[0].amount
    &&& heads[0].1 == stakes[0].timestamp
    &&& forall|k: int|
        1 <= k < stakes.len() ==> {
            let other = #[trigger] stakes[k];
            let amount = heads[k - 1].0;
            let moment = heads[k - 1].1;
            &&& rest[k - 1].timestamp == other.timestamp
            &&& if gap(moment, other.timestamp as int) <= window {
                &&& heads[k].0 == amount + other.amount
                &&& heads[k].1 <= moment
                &&& heads[k].1 <= other.timestamp
                &&& heads[k].1 == moment || heads[k].1 == other.timestamp
                &&& rest[k - 1].amount == 0
            } else {
                &&& heads[k].0 == amount
                &&& heads[k].1 == moment
                &&& rest[k - 1].amount == other.amount
            }
        }
}

/// Every distance that the first stake looks at on its way, and every sum that it takes, can be
/// held in 64 bits.
pub open spec fn sweep_fits(
    stakes: Seq<StakeInfo>,
    window: int,
    heads: Seq<(int, int)>,
) -> bool {
    forall|k: int|
        1 <= k < stakes.len() ==> {
            let distance = gap(heads[k - 1].1, (#[trigger] stakes[k]).timestamp as int);
            &&& distance <= i64::MAX
            &&& distance <= window ==> heads[k - 1].0 + stakes[k].amount <= u64::MAX
        }
}

/// A stake that was made 300 seconds ago or more.
pub open spec fn is_ripe(stake: StakeInfo, now: i64) -> bool {
    now - stake.timestamp >= 300
}

/// What the ripe stakes from `start` up to `end` hold together.
pub open spec fn ripe_sum(stakes: Seq<StakeInfo>, start: int, end: int, now: i64) -> int
    decreases end - start,
{
    if start >= end {
        0
    } else {
        ripe_sum(stakes, start, end - 1, now) + if is_ripe(stakes[end - 1], now) {
            stakes[end - 1].amount as int
        } else {
            0
        }
    }
}

/// `after` is what is left of the stakes once `processed` of the wanted amount was taken, from
/// ripe stakes between `start` and `end` only, and from each only once those before it are empty.
/// Less than the amount is taken only where nothing ripe is left.
pub open spec fn taken_in_order(
    stakes: Seq<StakeInfo>,
    after: Seq<StakeInfo>,
    start: int,
    end: int,
    now: i64,
    amount: int,
    processed: int,
) -> bool {
    &&& after.len() == stakes.len()
    &&& forall|i: int|
        0 <= i < stakes.len() ==> {
            &&& (#[trigger] after[i]).timestamp == stakes[i].timestamp
            &&& after[i].amount <= stakes[i].amount
            &&& after[i].amount < stakes[i].amount ==> start <= i < end && is_ripe(stakes[i], now)
        }
    &&& 0 <= processed <= amount
    &&& total_staked(stakes) - total_staked(after) == processed
    &&& forall|i: int|
        start <= i < end && is_ripe(stakes[i], now) && processed < amount ==> (
        #[trigger] after[i]).amount == 0
    &&& forall|i: int, j: int|
        #![trigger after[i], after[j]]
        start <= i < j < end && is_ripe(stakes[i], now) && after[j].amount < stakes[j].amount
            ==> after[i].amount == 0
}

/// The requests for what the stakes lost at the moment `now`: one for each stake that lost
/// something, in the order of the list, due 120 seconds later.
pub open spec fn requests_for(
    stakes: Seq<StakeInfo>,
    after: Seq<StakeInfo>,
    now: i64,
) -> Seq<UnbondingRequest> {
    Seq::new(
        stakes.len(),
        |i: int|
            UnbondingRequest {
                amount: (stakes[i].amount - after[i].amount) as u64,
                unbonding_end_time: (now + 120) as i64,
                withdrawn: false,
            },
    ).filter(|request: UnbondingRequest| request.amount > 0)
}

/// A request that is due at the moment `now`.
pub open spec fn is_due(request: UnbondingRequest, now: i64) -> bool {
    !request.withdrawn && request.unbonding_end_time <= now
}

/// How many requests are due.
pub open spec fn due_count(requests: Seq<UnbondingRequest>, now: i64) -> nat {
    requests.filter(|request: UnbondingRequest| is_due(request, now)).len()
}

/// A request that is due and has fewer than `max` due ones before it.
pub open spec fn is_served(requests: Seq<UnbondingRequest>, i: int, now: i64, max: int) -> bool {
    is_due(requests[i], now) && due_count(requests.take(i), now) < max
}

/// The requests that are due, in their order, but no more than the first `max`.
pub open spec fn first_due(
    requests: Seq<UnbondingRequest>,
    now: i64,
    max: int,
) -> Seq<UnbondingRequest> {
    let due = requests.filter(|request: UnbondingRequest| is_due(request, now));
    if due.len() <= max {
        due
    } else {
        due.take(max)
    }
}

/// What the requests are for together.
pub open spec fn sum_of(requests: Seq<UnbondingRequest>) -> int
    decreases requests.len(),
{
    if requests.len() == 0 {
        0
    } else {
        sum_of(requests.drop_last()) + requests.last().amount
    }
}

/// The requests with those marked as withdrawn that are served.
pub open spec fn with_served_marked(
    requests: Seq<UnbondingRequest>,
    now: i64,
    max: int,
) -> Seq<UnbondingRequest> {
    Seq::new(
        requests.len(),
        |i: int|
            UnbondingRequest {
                amount: requests[i].amount,
                unbonding_end_time: requests[i].unbonding_end_time,
                withdrawn: requests[i].withdrawn || is_served(requests, i, now, max),
            },
    )
}

/// The number that the caller gave, or `default`.
pub open spec fn number_or(given: Option<u64>, default: int) -> int {
    match given {
        Some(number) => number as int,
        None => default,
    }
}

} // verus!
