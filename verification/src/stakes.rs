//! A user's list of stakes: counting, searching and joining its entries.
use crate::state::{StakeInfo, LOCK_PERIOD};
use anchor_lang::prelude::ProgramError;
use vstd::prelude::*;

verus! {

/// A stake that still holds something.
pub open spec fn is_active(stake: StakeInfo) -> bool {
    stake.amount > 0
}

/// How many of the stakes still hold something.
pub open spec fn active_count(stakes: Seq<StakeInfo>) -> nat {
    stakes.filter(|stake: StakeInfo| is_active(stake)).len()
}

/// What the stakes hold together.
pub open spec fn total_staked(stakes: Seq<StakeInfo>) -> int
    decreases stakes.len(),
{
    if stakes.len() == 0 {
        0
    } else {
        total_staked(stakes.drop_last()) + stakes.last().amount
    }
}

/// Whether the lock on a stake has run out at the moment `now`.
pub open spec fn unlocked(stake: StakeInfo, now: i64) -> bool {
    now >= stake.timestamp + LOCK_PERIOD
}

/// What the stakes whose lock has run out hold together.
pub open spec fn total_unlocked(stakes: Seq<StakeInfo>, now: i64) -> int
    decreases stakes.len(),
{
    if stakes.len() == 0 {
        0
    } else {
        total_unlocked(stakes.drop_last(), now) + if unlocked(stakes.last(), now) {
            stakes.last().amount as int
        } else {
            0
        }
    }
}

/// The total of two lists is the sum of their totals.
pub proof fn lemma_totals_of_concatenation(a: Seq<StakeInfo>, b: Seq<StakeInfo>, now: i64)
    ensures
        total_staked(a + b) == total_staked(a) + total_staked(b),
        total_unlocked(a + b, now) == total_unlocked(a, now) + total_unlocked(b, now),
    decreases b.len(),
{
    if b.len() == 0 {
        assert(a + b =~= a);
    } else {
        assert((a + b).drop_last() =~= a + b.drop_last());
        assert((a + b).last() == b.last());
        lemma_totals_of_concatenation(a, b.drop_last(), now);
    }
}

/// No total is negative, and what is unlocked is part of what is staked.
pub proof fn lemma_totals_are_ordered(stakes: Seq<StakeInfo>, now: i64)
    ensures
        0 <= total_unlocked(stakes, now) <= total_staked(stakes),
    decreases stakes.len(),
{
    if stakes.len() > 0 {
        lemma_totals_are_ordered(stakes.drop_last(), now);
    }
}

/// A change to one stake changes the total by as much.
pub proof fn lemma_total_of_update(stakes: Seq<StakeInfo>, i: int, stake: StakeInfo)
    requires
        0 <= i < stakes.len(),
    ensures
        total_staked(stakes.update(i, stake)) == total_staked(stakes) - stakes[i].amount
            + stake.amount,
    decreases stakes.len(),
{
    let last = stakes.len() - 1;
    if i == last {
        assert(stakes.update(i, stake).drop_last() =~= stakes.drop_last());
    } else {
        assert(stakes.update(i, stake).drop_last() =~= stakes.drop_last().update(i, stake));
        lemma_total_of_update(stakes.drop_last(), i, stake);
    }
}

/// Whether two moments are at most `window` seconds apart.
pub open spec fn near(a: i64, b: i64, window: i64) -> bool {
    -window <= a - b <= window
}

/// Whether the distance between two moments can be held in 64 bits.
pub open spec fn distance_fits(a: i64, b: i64) -> bool {
    -i64::MAX <= a - b <= i64::MAX
}

/// How many seconds lie between two moments, or `None` where that exceeds 64 bits.
pub(crate) fn distance(a: i64, b: i64) -> (seconds: Option<i64>)
    ensures
        seconds is Some <==> distance_fits(a, b),
        seconds matches Some(d) ==> d == (if a >= b {
            a - b
        } else {
            b - a
        }),
{
    match a.checked_sub(b) {
        None => None,
        Some(difference) => if difference >= 0 {
            Some(difference)
        } else if difference == i64::MIN {
            None
        } else {
            Some(-difference)
        },
    }
}

// ---------------------------------------------------------------------------
// Counting
// ---------------------------------------------------------------------------

/// Counts the stakes that still hold something.
pub fn count_active(stakes: &[StakeInfo]) -> (count: usize)
    ensures
        count == active_count(stakes@),
{
    let ghost active = |stake: StakeInfo| is_active(stake);
    let mut count: usize = 0;
    let mut i: usize = 0;
    assert(stakes@.take(0).filter(active).len() == 0) by {
        reveal(Seq::filter);
    }
    while i < stakes.len()
        invariant
            i <= stakes.len(),
            count <= i,
            active == (|stake: StakeInfo| is_active(stake)),
            count == stakes@.take(i as int).filter(active).len(),
        decreases stakes.len() - i,
    {
        proof {
            reveal(Seq::filter);
            assert(stakes@.take(i + 1).drop_last() =~= stakes@.take(i as int));
        }
        if stakes[i].amount > 0 {
            count = count + 1;
        }
        i = i + 1;
    }
    assert(stakes@.take(i as int) =~= stakes@);
    count
}

// ---------------------------------------------------------------------------
// Searching
// ---------------------------------------------------------------------------

/// An index as a mathematical number.
pub open spec fn as_place(index: Option<usize>) -> Option<int> {
    match index {
        Some(i) => Some(i as int),
        None => None,
    }
}

/// The first active stake made at most `window` seconds away from `now`.
pub open spec fn first_near(stakes: Seq<StakeInfo>, window: i64, now: i64) -> Option<int>
    decreases stakes.len(),
{
    if stakes.len() == 0 {
        None
    } else {
        match first_near(stakes.drop_last(), window, now) {
            Some(i) => Some(i),
            None => if is_active(stakes.last()) && near(now, stakes.last().timestamp, window) {
                Some(stakes.len() - 1)
            } else {
                None
            },
        }
    }
}

/// The active stake with the latest timestamp; of several, the last in the list.
pub open spec fn latest_active(stakes: Seq<StakeInfo>) -> Option<int>
    decreases stakes.len(),
{
    if stakes.len() == 0 {
        None
    } else {
        match latest_active(stakes.drop_last()) {
            Some(i) => if is_active(stakes.last()) && stakes[i].timestamp
                <= stakes.last().timestamp {
                Some(stakes.len() - 1)
            } else {
                Some(i)
            },
            None => if is_active(stakes.last()) {
                Some(stakes.len() - 1)
            } else {
                None
            },
        }
    }
}

/// The stake that a new deposit joins: the first active one near the present, else the latest
/// active one. Without a clock there is none.
pub open spec fn similar_stake(
    stakes: Seq<StakeInfo>,
    window: i64,
    clock: Result<i64, ProgramError>,
) -> Option<int> {
    match clock {
        Err(_) => None,
        Ok(now) => match first_near(stakes, window, now) {
            Some(i) => Some(i),
            None => latest_active(stakes),
        },
    }
}

/// Whether every distance that the search for a near stake looks at can be held in 64 bits.
pub open spec fn search_fits(
    stakes: Seq<StakeInfo>,
    window: i64,
    clock: Result<i64, ProgramError>,
) -> bool {
    clock matches Ok(now) ==> forall|i: int|
        0 <= i < stakes.len() && is_active(#[trigger] stakes[i]) && first_near(
            stakes.take(i),
            window,
            now,
        ) is None ==> distance_fits(now, stakes[i].timestamp)
}

/// What a search result says of the list, without recursion.
pub proof fn lemma_first_near(stakes: Seq<StakeInfo>, window: i64, now: i64)
    ensures
        match first_near(stakes, window, now) {
            Some(i) => {
                &&& 0 <= i < stakes.len()
                &&& is_active(stakes[i])
                &&& near(now, stakes[i].timestamp, window)
                &&& forall|j: int|
                    0 <= j < i && is_active(#[trigger] stakes[j]) ==> !near(
                        now,
                        stakes[j].timestamp,
                        window,
                    )
            },
            None => forall|j: int|
                0 <= j < stakes.len() && is_active(#[trigger] stakes[j]) ==> !near(
                    now,
                    stakes[j].timestamp,
                    window,
                ),
        },
    decreases stakes.len(),
{
    if stakes.len() > 0 {
        let front = stakes.drop_last();
        lemma_first_near(front, window, now);
        assert forall|j: int| 0 <= j < front.len() implies front[j] == #[trigger] stakes[j] by {}
    }
}

/// What the latest active stake is, without recursion.
pub proof fn lemma_latest_active(stakes: Seq<StakeInfo>)
    ensures
        match latest_active(stakes) {
            Some(i) => {
                &&& 0 <= i < stakes.len()
                &&& is_active(stakes[i])
                &&& forall|j: int|
                    0 <= j < stakes.len() && is_active(#[trigger] stakes[j]) ==> {
                        &&& stakes[j].timestamp <= stakes[i].timestamp
                        &&& j > i ==> stakes[j].timestamp < stakes[i].timestamp
                    }
            },
            None => forall|j: int| 0 <= j < stakes.len() ==> !is_active(#[trigger] stakes[j]),
        },
    decreases stakes.len(),
{
    if stakes.len() > 0 {
        let front = stakes.drop_last();
        lemma_latest_active(front);
        assert forall|j: int| 0 <= j < front.len() implies front[j] == #[trigger] stakes[j] by {}
    }
}

/// A search that has found something in a prefix of the list finds the same in the whole list.
proof fn lemma_first_near_prefix(stakes: Seq<StakeInfo>, n: int, window: i64, now: i64)
    requires
        0 <= n <= stakes.len(),
        first_near(stakes.take(n), window, now) is Some,
    ensures
        first_near(stakes, window, now) == first_near(stakes.take(n), window, now),
    decreases stakes.len() - n,
{
    if n < stakes.len() {
        assert(stakes.take(n + 1).drop_last() =~= stakes.take(n));
        lemma_first_near_prefix(stakes, n + 1, window, now);
    } else {
        assert(stakes.take(n) =~= stakes);
    }
}

/// Looks for the first active stake near `now`. The outer `None` says that a distance on the
/// way exceeds 64 bits.
fn search_near(stakes: &[StakeInfo], window: i64, now: i64) -> (found: Option<Option<usize>>)
    ensures
        found is Some <==> search_fits(stakes@, window, Ok(now)),
        found matches Some(place) ==> first_near(stakes@, window, now) == as_place(place),
{
    let mut i: usize = 0;
    while i < stakes.len()
        invariant
            i <= stakes.len(),
            first_near(stakes@.take(i as int), window, now) is None,
            forall|j: int|
                0 <= j < i && is_active(#[trigger] stakes@[j]) ==> distance_fits(
                    now,
                    stakes@[j].timestamp,
                ),
        decreases stakes.len() - i,
    {
        proof {
            assert(stakes@.take(i + 1).drop_last() =~= stakes@.take(i as int));
            assert(stakes@.take(i + 1).last() == stakes@[i as int]);
        }
        if stakes[i].amount > 0 {
            match distance(now, stakes[i].timestamp) {
                None => {
                    return None;
                },
                Some(seconds) => {
                    if seconds <= window {
                        proof {
                            lemma_first_near_prefix(stakes@, i + 1, window, now);
                            assert forall|j: int|
                                i < j < stakes@.len() implies first_near(
                                #[trigger] stakes@.take(j),
                                window,
                                now,
                            ) is Some by {
                                assert(stakes@.take(j).take(i + 1) =~= stakes@.take(i + 1));
                                lemma_first_near_prefix(stakes@.take(j), i + 1, window, now);
                            }
                        }
                        return Some(Some(i));
                    }
                },
            }
        }
        i = i + 1;
    }
    assert(stakes@.take(i as int) =~= stakes@);
    Some(None)
}

/// Tells whether `find_similar_stake` can be called.
pub fn check_search_fits(
    stakes: &[StakeInfo],
    window: i64,
    clock: &Result<i64, ProgramError>,
) -> (fits: bool)
    ensures
        fits == search_fits(stakes@, window, *clock),
{
    match clock {
        Err(_) => true,
        Ok(now) => search_near(stakes, window, *now).is_some(),
    }
}

/// Finds the stake that a new deposit joins.
pub fn find_similar_stake(
    stakes: &[StakeInfo],
    time_window: i64,
    clock: &Result<i64, ProgramError>,
) -> (found: Option<usize>)
    requires
        search_fits(stakes@, time_window, *clock),
    ensures
        similar_stake(stakes@, time_window, *clock) == as_place(found),
        found matches Some(i) ==> i < stakes@.len(),
{
    let now: i64 = match clock {
        Err(_) => {
            return None;
        },
        Ok(now) => *now,
    };
    proof {
        lemma_first_near(stakes@, time_window, now);
    }
    if let Some(Some(i)) = search_near(stakes, time_window, now) {
        return Some(i);
    }
    let mut latest: Option<usize> = None;
    let mut i: usize = 0;
    while i < stakes.len()
        invariant
            i <= stakes.len(),
            latest_active(stakes@.take(i as int)) == as_place(latest),
            latest matches Some(j) ==> j < i,
        decreases stakes.len() - i,
    {
        proof {
            assert(stakes@.take(i + 1).drop_last() =~= stakes@.take(i as int));
            assert(stakes@.take(i + 1).last() == stakes@[i as int]);
            lemma_latest_active(stakes@.take(i as int));
        }
        if stakes[i].amount > 0 {
            match latest {
                None => {
                    latest = Some(i);
                },
                Some(j) => {
                    if stakes[j].timestamp <= stakes[i].timestamp {
                        latest = Some(i);
                    }
                },
            }
        }
        i = i + 1;
    }
    assert(stakes@.take(i as int) =~= stakes@);
    latest
}

} // verus!
