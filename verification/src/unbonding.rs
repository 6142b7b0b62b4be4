//! The way out of the pool: releasing unlocked stakes and paying out requests that have run their
//! time.
use crate::event::{Action, Event, UnbondingStartedEvent};
use crate::pubkey::Pubkey;
use crate::stakes::unlocked;
use crate::state::{StakeInfo, UnbondingRequest, LOCK_PERIOD, UNBONDING_PERIOD};
use vstd::prelude::*;

verus! {

// ---------------------------------------------------------------------------
// Releasing stakes
// ---------------------------------------------------------------------------

/// What the unlocked stakes from `start` up to `end` hold together.
pub open spec fn releasable(stakes: Seq<StakeInfo>, start: int, end: int, now: i64) -> int
    decreases end - start,
{
    if end <= start {
        0
    } else {
        releasable(stakes, start, end - 1, now) + if unlocked(stakes[end - 1], now) {
            stakes[end - 1].amount as int
        } else {
            0
        }
    }
}

/// How much of `amount` the unlocked stakes from `start` up to `end` cover.
pub open spec fn released(
    stakes: Seq<StakeInfo>,
    start: int,
    end: int,
    now: i64,
    amount: u64,
) -> int {
    let available = releasable(stakes, start, end, now);
    if available < amount {
        available
    } else {
        amount as int
    }
}

/// How much of `amount` the stake at `i` covers, those from `start` on being used first.
pub open spec fn taken(stakes: Seq<StakeInfo>, start: int, i: int, now: i64, amount: u64) -> int {
    released(stakes, start, i + 1, now, amount) - released(stakes, start, i, now, amount)
}

/// The stakes after `amount` was taken from those between `start` and `end`.
pub open spec fn stakes_after(
    stakes: Seq<StakeInfo>,
    start: int,
    end: int,
    now: i64,
    amount: u64,
) -> Seq<StakeInfo> {
    Seq::new(
        stakes.len(),
        |i: int|
            if start <= i < end {
                StakeInfo {
                    amount: (stakes[i].amount - taken(stakes, start, i, now, amount)) as u64,
                    timestamp: stakes[i].timestamp,
                }
            } else {
                stakes[i]
            },
    )
}

/// The requests that the release opens: one for each stake that something is taken from.
pub open spec fn new_requests(
    stakes: Seq<StakeInfo>,
    start: int,
    end: int,
    now: i64,
    amount: u64,
) -> Seq<UnbondingRequest> {
    Seq::new(
        (end - start) as nat,
        |k: int|
            UnbondingRequest {
                amount: taken(stakes, start, start + k, now, amount) as u64,
                unbonding_end_time: (now + UNBONDING_PERIOD) as i64,
                withdrawn: false,
            },
    ).filter(|request: UnbondingRequest| request.amount > 0)
}

/// The log entries that go with new requests.
pub open spec fn started_events(user: Pubkey, requests: Seq<UnbondingRequest>) -> Seq<Action> {
    requests.map_values(
        |request: UnbondingRequest|
            Action::Emit(
                Event::UnbondingStarted(
                    UnbondingStartedEvent {
                        user,
                        amount: request.amount,
                        unbonding_end_time: request.unbonding_end_time,
                    },
                ),
            ),
    )
}

/// Whether no moment that the release computes exceeds 64 bits: the end of the lock of each stake
/// that is looked at, and the end of the unbonding where something is released.
pub open spec fn release_fits(
    stakes: Seq<StakeInfo>,
    start: int,
    end: int,
    now: i64,
    amount: u64,
) -> bool {
    &&& forall|i: int|
        start <= i < end && (#[trigger] stakes[i]).amount > 0 && released(
            stakes,
            start,
            i,
            now,
            amount,
        ) < amount ==> stakes[i].timestamp + LOCK_PERIOD <= i64::MAX
    &&& released(stakes, start, end, now, amount) > 0 ==> now + UNBONDING_PERIOD <= i64::MAX
}

/// Releasing more stakes never releases less, and a stake gives at most what it holds.
pub proof fn lemma_released_grows(
    stakes: Seq<StakeInfo>,
    start: int,
    mid: int,
    end: int,
    now: i64,
    amount: u64,
)
    requires
        0 <= start <= mid <= end <= stakes.len(),
    ensures
        0 <= releasable(stakes, start, mid, now) <= releasable(stakes, start, end, now),
        0 <= released(stakes, start, mid, now, amount) <= released(stakes, start, end, now, amount)
            <= amount,
        mid < end ==> 0 <= taken(stakes, start, mid, now, amount) <= stakes[mid].amount,
    decreases end - start,
{
    if mid < end {
        lemma_released_grows(stakes, start, mid, end - 1, now, amount);
    } else if start < mid {
        lemma_released_grows(stakes, start, mid - 1, mid - 1, now, amount);
    }
}

/// Where nothing is released, the stakes stay as they are and no request is opened.
pub proof fn lemma_nothing_released(
    stakes: Seq<StakeInfo>,
    start: int,
    end: int,
    now: i64,
    amount: u64,
)
    requires
        0 <= start <= end <= stakes.len(),
        released(stakes, start, end, now, amount) == 0,
    ensures
        stakes_after(stakes, start, end, now, amount) == stakes,
        new_requests(stakes, start, end, now, amount) == Seq::<UnbondingRequest>::empty(),
{
    assert forall|i: int| start <= i < end implies #[trigger] taken(stakes, start, i, now, amount)
        == 0 by {
        lemma_released_grows(stakes, start, i, end, now, amount);
        lemma_released_grows(stakes, start, i + 1, end, now, amount);
    }
    assert(stakes_after(stakes, start, end, now, amount) =~= stakes);
    let portions = Seq::new(
        (end - start) as nat,
        |k: int|
            UnbondingRequest {
                amount: taken(stakes, start, start + k, now, amount) as u64,
                unbonding_end_time: (now + UNBONDING_PERIOD) as i64,
                withdrawn: false,
            },
    );
    let positive = |request: UnbondingRequest| request.amount > 0;
    assert forall|k: int| 0 <= k < portions.len() implies !positive(#[trigger] portions[k]) by {
        assert(taken(stakes, start, start + k, now, amount) == 0);
    }
    lemma_filter_of_none(portions, positive);
}

/// A filter that lets nothing through leaves nothing.
pub proof fn lemma_filter_of_none<A>(items: Seq<A>, keep: spec_fn(A) -> bool)
    requires
        forall|i: int| 0 <= i < items.len() ==> !keep(#[trigger] items[i]),
    ensures
        items.filter(keep) == Seq::<A>::empty(),
    decreases items.len(),
{
    reveal(Seq::filter);
    if items.len() > 0 {
        assert forall|i: int| 0 <= i < items.drop_last().len() implies !keep(
            #[trigger] items.drop_last()[i],
        ) by {
            assert(items.drop_last()[i] == items[i]);
        }
        lemma_filter_of_none(items.drop_last(), keep);
        assert(!keep(items[items.len() - 1]));
    }
}

/// Tells how much `release` takes, or `None` where it cannot be called.
pub fn preview_release(
    stakes: &Vec<StakeInfo>,
    start: usize,
    end: usize,
    now: i64,
    amount: u64,
) -> (sum: Option<u64>)
    requires
        start <= end <= stakes@.len(),
    ensures
        sum is Some <==> release_fits(stakes@, start as int, end as int, now, amount),
        sum matches Some(taken) ==> taken == released(
            stakes@,
            start as int,
            end as int,
            now,
            amount,
        ),
{
    let mut remaining: u64 = amount;
    let mut i: usize = start;
    while i < end
        invariant
            start <= i <= end <= stakes@.len(),
            remaining == amount - released(stakes@, start as int, i as int, now, amount),
            forall|k: int|
                start <= k < i && (#[trigger] stakes@[k]).amount > 0 && released(
                    stakes@,
                    start as int,
                    k,
                    now,
                    amount,
                ) < amount ==> stakes@[k].timestamp + LOCK_PERIOD <= i64::MAX,
        decreases end - i,
    {
        let stake = stakes[i];
        proof {
            lemma_released_grows(stakes@, start as int, i as int, i + 1, now, amount);
        }
        if stake.amount > 0 && remaining > 0 {
            match stake.timestamp.checked_add(LOCK_PERIOD) {
                None => {
                    return None;
                },
                Some(lock_end) => {
                    if now >= lock_end {
                        remaining = remaining - if remaining < stake.amount {
                            remaining
                        } else {
                            stake.amount
                        };
                    }
                },
            }
        }
        i = i + 1;
    }
    proof {
        lemma_released_grows(stakes@, start as int, end as int, end as int, now, amount);
    }
    if remaining == amount || now.checked_add(UNBONDING_PERIOD).is_some() {
        Some(amount - remaining)
    } else {
        None
    }
}

/// Takes up to `amount` from the unlocked stakes between `start` and `end`, the first ones first,
/// and opens a request for each part. Returns how much was taken.
pub fn release(
    stakes: &mut Vec<StakeInfo>,
    start: usize,
    end: usize,
    now: i64,
    amount: u64,
    user: Pubkey,
    requests: &mut Vec<UnbondingRequest>,
    actions: &mut Vec<Action>,
) -> (processed: u64)
    requires
        start <= end <= old(stakes)@.len(),
        release_fits(old(stakes)@, start as int, end as int, now, amount),
    ensures
        processed == released(old(stakes)@, start as int, end as int, now, amount),
        final(stakes)@ == stakes_after(old(stakes)@, start as int, end as int, now, amount),
        final(requests)@ == old(requests)@ + new_requests(
            old(stakes)@,
            start as int,
            end as int,
            now,
            amount,
        ),
        final(actions)@ == old(actions)@ + started_events(
            user,
            new_requests(old(stakes)@, start as int, end as int, now, amount),
        ),
{
    let ghost before = stakes@;
    let ghost s = start as int;
    let ghost positive = |request: UnbondingRequest| request.amount > 0;
    let ghost portions = Seq::new(
        (end - start) as nat,
        |k: int|
            UnbondingRequest {
                amount: taken(before, s, s + k, now, amount) as u64,
                unbonding_end_time: (now + UNBONDING_PERIOD) as i64,
                withdrawn: false,
            },
    );
    let mut remaining: u64 = amount;
    let mut i: usize = start;
    proof {
        reveal(Seq::filter);
        assert(portions.take(0).filter(positive) =~= Seq::empty());
        assert(requests@ =~= old(requests)@ + portions.take(0).filter(positive));
        assert(actions@ =~= old(actions)@ + started_events(
            user,
            portions.take(0).filter(positive),
        ));
    }
    while i < end
        invariant
            s == start,
            start <= i <= end <= before.len(),
            stakes@.len() == before.len(),
            release_fits(before, s, end as int, now, amount),
            positive == (|request: UnbondingRequest| request.amount > 0),
            portions == Seq::new(
                (end - start) as nat,
                |k: int|
                    UnbondingRequest {
                        amount: taken(before, s, s + k, now, amount) as u64,
                        unbonding_end_time: (now + UNBONDING_PERIOD) as i64,
                        withdrawn: false,
                    },
            ),
            remaining == amount - released(before, s, i as int, now, amount),
            forall|k: int|
                start <= k < i ==> #[trigger] stakes@[k] == stakes_after(
                    before,
                    s,
                    end as int,
                    now,
                    amount,
                )[k],
            forall|k: int| 0 <= k < start ==> stakes@[k] == before[k],
            forall|k: int| i <= k < before.len() ==> stakes@[k] == before[k],
            requests@ == old(requests)@ + portions.take(i - start).filter(positive),
            actions@ == old(actions)@ + started_events(
                user,
                portions.take(i - start).filter(positive),
            ),
        decreases end - i,
    {
        let ghost k = i - start;
        let ghost so_far = portions.take(k).filter(positive);
        proof {
            lemma_released_grows(before, s, i as int, i + 1, now, amount);
            lemma_released_grows(before, s, i + 1, end as int, now, amount);
            assert(before[i as int] == stakes@[i as int]);
            assert(portions[k].amount == taken(before, s, i as int, now, amount));
            reveal(Seq::filter);
            assert(portions.take(k + 1).drop_last() =~= portions.take(k));
            assert(portions.take(k + 1).last() == portions[k]);
        }
        let held: u64 = stakes[i].amount;
        if held == 0 || remaining == 0 {
            i = i + 1;
            continue;
        }
        if now >= stakes[i].timestamp + LOCK_PERIOD {
            let part: u64 = if remaining < held {
                remaining
            } else {
                held
            };
            stakes[i].amount = held - part;
            remaining = remaining - part;
            let unbonding_end_time: i64 = now + UNBONDING_PERIOD;
            requests.push(UnbondingRequest { amount: part, unbonding_end_time, withdrawn: false });
            actions.push(
                Action::Emit(
                    Event::UnbondingStarted(
                        UnbondingStartedEvent { user, amount: part, unbonding_end_time },
                    ),
                ),
            );
            proof {
                assert(portions.take(k + 1).filter(positive) =~= so_far.push(portions[k]));
                assert(requests@ =~= old(requests)@ + portions.take(k + 1).filter(positive));
                assert(started_events(user, so_far.push(portions[k])) =~= started_events(
                    user,
                    so_far,
                ).push(actions@.last()));
                assert(actions@ =~= old(actions)@ + started_events(
                    user,
                    portions.take(k + 1).filter(positive),
                ));
            }
        }
        i = i + 1;
    }
    proof {
        lemma_released_grows(before, s, end as int, end as int, now, amount);
        assert(portions.take(i - start) =~= portions);
        assert(stakes@ =~= stakes_after(before, s, end as int, now, amount));
    }
    amount - remaining
}

// ---------------------------------------------------------------------------
// Paying out requests
// ---------------------------------------------------------------------------

/// A request that has run its time and was not paid yet.
pub open spec fn matured(request: UnbondingRequest, now: i64) -> bool {
    !request.withdrawn && now >= request.unbonding_end_time
}

/// How many of the requests can be paid at the moment `now`.
pub open spec fn matured_count(requests: Seq<UnbondingRequest>, now: i64) -> nat {
    requests.filter(|request: UnbondingRequest| matured(request, now)).len()
}

/// Whether the request at `i` is among the first `max` that can be paid.
pub open spec fn is_paid(requests: Seq<UnbondingRequest>, i: int, now: i64, max: u64) -> bool {
    matured(requests[i], now) && matured_count(requests.take(i), now) < max
}

/// What the first `n` requests pay out together when at most `max` are paid.
pub open spec fn payout(requests: Seq<UnbondingRequest>, n: int, now: i64, max: u64) -> int
    decreases n,
{
    if n <= 0 {
        0
    } else {
        payout(requests, n - 1, now, max) + if is_paid(requests, n - 1, now, max) {
            requests[n - 1].amount as int
        } else {
            0
        }
    }
}

/// The requests after the first `max` that can be paid were marked as withdrawn.
pub open spec fn marked(
    requests: Seq<UnbondingRequest>,
    now: i64,
    max: u64,
) -> Seq<UnbondingRequest> {
    Seq::new(
        requests.len(),
        |i: int|
            if is_paid(requests, i, now, max) {
                UnbondingRequest { withdrawn: true, ..requests[i] }
            } else {
                requests[i]
            },
    )
}

/// The requests that were not paid yet.
pub open spec fn outstanding(requests: Seq<UnbondingRequest>) -> Seq<UnbondingRequest> {
    requests.filter(|request: UnbondingRequest| !request.withdrawn)
}

/// Whether the payout can be held in 64 bits.
pub open spec fn payout_fits(requests: Seq<UnbondingRequest>, now: i64, max: u64) -> bool {
    payout(requests, requests.len() as int, now, max) <= u64::MAX
}

/// One more request adds one to the count if it can be paid.
pub proof fn lemma_matured_count_step(requests: Seq<UnbondingRequest>, n: int, now: i64)
    requires
        0 <= n < requests.len(),
    ensures
        matured_count(requests.take(n + 1), now) == matured_count(requests.take(n), now) + if matured(
            requests[n],
            now,
        ) {
            1nat
        } else {
            0nat
        },
        matured_count(requests.take(n), now) <= n,
    decreases n,
{
    reveal(Seq::filter);
    assert(requests.take(n + 1).drop_last() =~= requests.take(n));
    if n > 0 {
        lemma_matured_count_step(requests, n - 1, now);
    } else {
        assert(requests.take(0) =~= Seq::empty());
    }
}

/// The counts and payouts of longer prefixes are no smaller.
pub proof fn lemma_payout_grows(
    requests: Seq<UnbondingRequest>,
    mid: int,
    end: int,
    now: i64,
    max: u64,
)
    requires
        0 <= mid <= end <= requests.len(),
    ensures
        matured_count(requests.take(mid), now) <= matured_count(requests.take(end), now),
        0 <= payout(requests, mid, now, max) <= payout(requests, end, now, max),
    decreases end,
{
    if mid < end {
        lemma_matured_count_step(requests, end - 1, now);
        lemma_payout_grows(requests, mid, end - 1, now, max);
    } else if end > 0 {
        lemma_payout_grows(requests, end - 1, end - 1, now, max);
    }
}

/// Once `max` requests are paid, no later one is.
proof fn lemma_payout_stops(
    requests: Seq<UnbondingRequest>,
    mid: int,
    end: int,
    now: i64,
    max: u64,
)
    requires
        0 <= mid <= end <= requests.len(),
        matured_count(requests.take(mid), now) >= max,
    ensures
        payout(requests, end, now, max) == payout(requests, mid, now, max),
        forall|i: int| mid <= i < end ==> !#[trigger] is_paid(requests, i, now, max),
    decreases end - mid,
{
    if mid < end {
        lemma_payout_grows(requests, mid, end - 1, now, max);
        lemma_payout_stops(requests, mid, end - 1, now, max);
    }
}

/// Counts the requests that can be paid at the moment `now`.
pub fn count_matured(requests: &[UnbondingRequest], now: i64) -> (count: usize)
    ensures
        count == matured_count(requests@, now),
{
    let mut count: usize = 0;
    let mut i: usize = 0;
    proof {
        reveal(Seq::filter);
        assert(matured_count(requests@.take(0), now) == 0);
    }
    while i < requests.len()
        invariant
            i <= requests@.len(),
            count <= i,
            count == matured_count(requests@.take(i as int), now),
        decreases requests@.len() - i,
    {
        proof {
            lemma_matured_count_step(requests@, i as int, now);
        }
        if !requests[i].withdrawn && now >= requests[i].unbonding_end_time {
            count = count + 1;
        }
        i = i + 1;
    }
    assert(requests@.take(i as int) =~= requests@);
    count
}

/// Tells whether `pay_matured` can be called.
pub fn check_payout_fits(requests: &[UnbondingRequest], now: i64, max: u64) -> (fits: bool)
    ensures
        fits == payout_fits(requests@, now, max),
{
    let mut sum: u64 = 0;
    let mut count: u64 = 0;
    let mut i: usize = 0;
    proof {
        reveal(Seq::filter);
        assert(matured_count(requests@.take(0), now) == 0);
    }
    while i < requests.len()
        invariant
            i <= requests@.len(),
            count == matured_count(requests@.take(i as int), now),
            count <= i,
            sum == payout(requests@, i as int, now, max),
        decreases requests@.len() - i,
    {
        proof {
            lemma_matured_count_step(requests@, i as int, now);
            lemma_payout_grows(requests@, i + 1, requests@.len() as int, now, max);
        }
        if !requests[i].withdrawn && now >= requests[i].unbonding_end_time {
            if count < max {
                match sum.checked_add(requests[i].amount) {
                    None => {
                        return false;
                    },
                    Some(more) => {
                        sum = more;
                    },
                }
            }
            count = count + 1;
        }
        i = i + 1;
    }
    true
}

/// Marks the first `max` requests that can be paid. Returns what they pay out together, and how
/// many they are.
pub fn pay_matured(requests: &mut Vec<UnbondingRequest>, now: i64, max: u64) -> (paid: (u64, u64))
    requires
        payout_fits(old(requests)@, now, max),
    ensures
        paid.0 == payout(old(requests)@, old(requests)@.len() as int, now, max),
        paid.1 == (if matured_count(old(requests)@, now) < max {
            matured_count(old(requests)@, now) as int
        } else {
            max as int
        }),
        final(requests)@ == marked(old(requests)@, now, max),
{
    let ghost before = requests@;
    let mut sum: u64 = 0;
    let mut count: u64 = 0;
    let mut i: usize = 0;
    proof {
        reveal(Seq::filter);
        assert(matured_count(before.take(0), now) == 0);
    }
    while i < requests.len() && count < max
        invariant
            i <= before.len(),
            requests@.len() == before.len(),
            payout_fits(before, now, max),
            count == matured_count(before.take(i as int), now),
            count <= i,
            count <= max,
            sum == payout(before, i as int, now, max),
            forall|k: int|
                0 <= k < i ==> #[trigger] requests@[k] == marked(before, now, max)[k],
            forall|k: int| i <= k < before.len() ==> requests@[k] == before[k],
        decreases before.len() - i,
    {
        proof {
            lemma_matured_count_step(before, i as int, now);
            lemma_payout_grows(before, i + 1, before.len() as int, now, max);
            assert(requests@[i as int] == before[i as int]);
        }
        if !requests[i].withdrawn && now >= requests[i].unbonding_end_time {
            sum = sum + requests[i].amount;
            requests[i].withdrawn = true;
            count = count + 1;
        }
        i = i + 1;
    }
    proof {
        assert(before.take(before.len() as int) =~= before);
        if i < before.len() {
            lemma_payout_stops(before, i as int, before.len() as int, now, max);
            lemma_payout_grows(before, i as int, before.len() as int, now, max);
        }
        assert(requests@ =~= marked(before, now, max)) by {
            assert forall|k: int| 0 <= k < before.len() implies requests@[k] == #[trigger] marked(
                before,
                now,
                max,
            )[k] by {
                if k >= i {
                    assert(!is_paid(before, k, now, max));
                }
            }
        }
    }
    (sum, count)
}

/// Drops the requests that were paid.
pub fn drop_withdrawn(requests: &mut Vec<UnbondingRequest>)
    ensures
        final(requests)@ == outstanding(old(requests)@),
{
    let ghost unpaid = |request: UnbondingRequest| !request.withdrawn;
    let mut kept: Vec<UnbondingRequest> = Vec::new();
    let mut i: usize = 0;
    proof {
        reveal(Seq::filter);
        assert(requests@.take(0).filter(unpaid) =~= Seq::empty());
    }
    while i < requests.len()
        invariant
            requests@ == old(requests)@,
            i <= requests@.len(),
            unpaid == (|request: UnbondingRequest| !request.withdrawn),
            kept@ == requests@.take(i as int).filter(unpaid),
        decreases requests@.len() - i,
    {
        proof {
            reveal(Seq::filter);
            assert(requests@.take(i + 1).drop_last() =~= requests@.take(i as int));
        }
        if !requests[i].withdrawn {
            kept.push(requests[i]);
        }
        i = i + 1;
    }
    assert(requests@.take(i as int) =~= requests@);
    *requests = kept;
}

} // verus!
