//! Joining stakes that were made close together.
use crate::stakes::{
    distance, distance_fits, is_active, lemma_totals_are_ordered, lemma_totals_of_concatenation,
    near, total_staked, total_unlocked, unlocked,
};
use crate::state::StakeInfo;
use vstd::prelude::*;

verus! {

/// Two stakes in one: the sum of the amounts, at the earlier of the two moments.
pub open spec fn joined(a: StakeInfo, b: StakeInfo) -> StakeInfo {
    StakeInfo {
        amount: (a.amount + b.amount) as u64,
        timestamp: if a.timestamp <= b.timestamp {
            a.timestamp
        } else {
            b.timestamp
        },
    }
}

/// What becomes of `head` when it goes through `others` in order and takes in each that is near
/// to the moment that `head` then has.
pub open spec fn head_after(head: StakeInfo, others: Seq<StakeInfo>, window: i64) -> StakeInfo
    decreases others.len(),
{
    if others.len() == 0 {
        head
    } else {
        let before = head_after(head, others.drop_last(), window);
        if near(before.timestamp, others.last().timestamp, window) {
            joined(before, others.last())
        } else {
            before
        }
    }
}

/// Whether `head` takes in the `k`-th of `others` on its way.
pub open spec fn takes_in(head: StakeInfo, others: Seq<StakeInfo>, window: i64, k: int) -> bool {
    near(head_after(head, others.take(k), window).timestamp, others[k].timestamp, window)
}

/// What becomes of `others`: those that were taken in are left empty, at their old moment.
pub open spec fn others_after(
    head: StakeInfo,
    others: Seq<StakeInfo>,
    window: i64,
) -> Seq<StakeInfo> {
    Seq::new(
        others.len(),
        |k: int|
            if takes_in(head, others, window, k) {
                StakeInfo { amount: 0, timestamp: others[k].timestamp }
            } else {
                others[k]
            },
    )
}

/// Whether the distance and the sum for the `k`-th of `others` can be held in 64 bits.
pub open spec fn step_fits(head: StakeInfo, others: Seq<StakeInfo>, window: i64, k: int) -> bool {
    let before = head_after(head, others.take(k), window);
    &&& distance_fits(before.timestamp, others[k].timestamp)
    &&& takes_in(head, others, window, k) ==> before.amount + others[k].amount <= u64::MAX
}

/// Whether no distance and no sum on the way of `head` through `others` exceeds 64 bits.
pub open spec fn pass_fits(head: StakeInfo, others: Seq<StakeInfo>, window: i64) -> bool {
    forall|k: int| 0 <= k < others.len() ==> #[trigger] step_fits(head, others, window, k)
}

/// The list after consolidation: an empty stake is dropped; any other goes through the rest of
/// the list, then the rest is consolidated in turn. A stake that was taken in and not yet dropped
/// still lends its moment to a later one that passes it.
pub open spec fn consolidated(stakes: Seq<StakeInfo>, window: i64) -> Seq<StakeInfo>
    decreases stakes.len(),
{
    if stakes.len() == 0 {
        Seq::empty()
    } else {
        let rest = stakes.drop_first();
        if !is_active(stakes[0]) {
            consolidated(rest, window)
        } else {
            seq![head_after(stakes[0], rest, window)] + consolidated(
                others_after(stakes[0], rest, window),
                window,
            )
        }
    }
}

/// Whether no distance and no sum that consolidation computes exceeds 64 bits.
pub open spec fn consolidation_fits(stakes: Seq<StakeInfo>, window: i64) -> bool
    decreases stakes.len(),
{
    if stakes.len() == 0 {
        true
    } else {
        let rest = stakes.drop_first();
        if !is_active(stakes[0]) {
            consolidation_fits(rest, window)
        } else {
            &&& pass_fits(stakes[0], rest, window)
            &&& consolidation_fits(others_after(stakes[0], rest, window), window)
        }
    }
}

/// Takes the stakes near to `stakes[i]` that come after it into `stakes[i]`. Says whether all
/// numbers on the way could be held; where not, the list is left as it is at that point.
fn pass(stakes: &mut Vec<StakeInfo>, i: usize, window: i64) -> (fits: bool)
    requires
        i < old(stakes)@.len(),
    ensures
        fits == pass_fits(old(stakes)@[i as int], old(stakes)@.skip(i + 1), window),
        fits ==> final(stakes)@ == old(stakes)@.take(i as int) + seq![
            head_after(old(stakes)@[i as int], old(stakes)@.skip(i + 1), window),
        ] + others_after(old(stakes)@[i as int], old(stakes)@.skip(i + 1), window),
{
    let ghost before = stakes@;
    let ghost head = before[i as int];
    let ghost others = before.skip(i + 1);
    assert(i < stakes.len());
    let mut j: usize = i + 1;
    assert(others.take(0).len() == 0);
    while j < stakes.len()
        invariant
            before == old(stakes)@,
            i < before.len(),
            i + 1 <= j <= stakes@.len(),
            stakes@.len() == before.len(),
            head == before[i as int],
            others == before.skip(i + 1),
            stakes@[i as int] == head_after(head, others.take(j - i - 1), window),
            forall|k: int| 0 <= k < i ==> stakes@[k] == before[k],
            forall|k: int| j <= k < before.len() ==> stakes@[k] == before[k],
            forall|k: int|
                i + 1 <= k < j ==> #[trigger] stakes@[k] == others_after(head, others, window)[k - i
                    - 1],
            forall|k: int|
                0 <= k < j - i - 1 ==> #[trigger] step_fits(head, others, window, k),
        decreases stakes@.len() - j,
    {
        let ghost k = j - i - 1;
        proof {
            assert(others[k] == before[j as int]);
            assert(others.take(k + 1).drop_last() =~= others.take(k));
            assert(others.take(k + 1).last() == others[k]);
        }
        match distance(stakes[i].timestamp, stakes[j].timestamp) {
            None => {
                assert(!step_fits(head, others, window, k));
                return false;
            },
            Some(seconds) => {
                if seconds <= window {
                    match stakes[i].amount.checked_add(stakes[j].amount) {
                        None => {
                            assert(!step_fits(head, others, window, k));
                            return false;
                        },
                        Some(sum) => {
                            let earlier: i64 = if stakes[i].timestamp <= stakes[j].timestamp {
                                stakes[i].timestamp
                            } else {
                                stakes[j].timestamp
                            };
                            stakes[i].amount = sum;
                            stakes[i].timestamp = earlier;
                            stakes[j].amount = 0;
                        },
                    }
                }
            },
        }
        j = j + 1;
    }
    proof {
        assert(others.take(j - i - 1) =~= others);
        assert(stakes@ =~= before.take(i as int) + seq![head_after(head, others, window)]
            + others_after(head, others, window));
    }
    true
}

/// Consolidates the list in place. Says whether all numbers on the way could be held; where not,
/// the list is left half done.
fn merge_in_place(stakes: &mut Vec<StakeInfo>, window: i64) -> (fits: bool)
    ensures
        fits == consolidation_fits(old(stakes)@, window),
        fits ==> final(stakes)@ == consolidated(old(stakes)@, window),
{
    let mut i: usize = 0;
    proof {
        assert(stakes@.skip(0) =~= stakes@);
        assert(stakes@.take(0) + consolidated(stakes@, window) =~= consolidated(stakes@, window));
    }
    while i < stakes.len()
        invariant
            i <= stakes@.len(),
            consolidation_fits(old(stakes)@, window) == consolidation_fits(
                stakes@.skip(i as int),
                window,
            ),
            consolidated(old(stakes)@, window) == stakes@.take(i as int) + consolidated(
                stakes@.skip(i as int),
                window,
            ),
        decreases stakes@.len() - i,
    {
        let ghost before = stakes@;
        let ghost tail = before.skip(i as int);
        assert(tail[0] == before[i as int]);
        assert(tail.drop_first() =~= before.skip(i + 1));
        if stakes[i].amount == 0 {
            let _ = stakes.remove(i);
            proof {
                assert(stakes@.skip(i as int) =~= tail.drop_first());
                assert(stakes@.take(i as int) =~= before.take(i as int));
            }
            continue;
        }
        if !pass(stakes, i, window) {
            return false;
        }
        proof {
            let head = head_after(before[i as int], before.skip(i + 1), window);
            let others = others_after(before[i as int], before.skip(i + 1), window);
            assert(stakes@.skip(i + 1) =~= others);
            assert(stakes@.take(i + 1) =~= before.take(i as int).push(head));
            assert(before.take(i as int) + (seq![head] + consolidated(others, window))
                =~= before.take(i as int).push(head) + consolidated(others, window));
        }
        i = i + 1;
    }
    proof {
        assert(stakes@.skip(i as int).len() == 0);
        assert(stakes@.take(i as int) + consolidated(stakes@.skip(i as int), window) =~= stakes@);
    }
    true
}

/// Tells whether `merge_stakes` can be called.
pub fn check_consolidation_fits(stakes: &Vec<StakeInfo>, window: i64) -> (fits: bool)
    ensures
        fits == consolidation_fits(stakes@, window),
{
    let mut copy: Vec<StakeInfo> = stakes.clone();
    assert(copy@ =~= stakes@);
    merge_in_place(&mut copy, window)
}

/// Joins the stakes that were made close together and drops the empty ones.
pub fn merge_stakes(stakes: &mut Vec<StakeInfo>, window: i64)
    requires
        consolidation_fits(old(stakes)@, window),
    ensures
        final(stakes)@ == consolidated(old(stakes)@, window),
{
    let _ = merge_in_place(stakes, window);
}

// ---------------------------------------------------------------------------
// What consolidation keeps
// ---------------------------------------------------------------------------

/// One pass moves amounts, and only to an earlier moment.
proof fn lemma_pass_totals(head: StakeInfo, others: Seq<StakeInfo>, window: i64, now: i64)
    requires
        pass_fits(head, others, window),
    ensures
        head_after(head, others, window).amount >= head.amount,
        head_after(head, others, window).amount + total_staked(others_after(head, others, window))
            == head.amount + total_staked(others),
        total_unlocked(seq![head_after(head, others, window)], now) + total_unlocked(
            others_after(head, others, window),
            now,
        ) >= total_unlocked(seq![head], now) + total_unlocked(others, now),
    decreases others.len(),
{
    lemma_total_of_one(head_after(head, others, window), now);
    lemma_total_of_one(head, now);
    if others.len() > 0 {
        let front = others.drop_last();
        let k = others.len() - 1;
        let before = head_after(head, front, window);
        assert(front =~= others.take(k));
        assert forall|m: int| 0 <= m < front.len() implies #[trigger] step_fits(
            head,
            front,
            window,
            m,
        ) by {
            assert(front.take(m) =~= others.take(m));
            assert(step_fits(head, others, window, m));
        }
        lemma_pass_totals(head, front, window, now);
        lemma_total_of_one(before, now);
        assert(step_fits(head, others, window, k));
        assert(others_after(head, others, window).drop_last() =~= others_after(
            head,
            front,
            window,
        )) by {
            assert forall|m: int| 0 <= m < front.len() implies others_after(
                head,
                others,
                window,
            )[m] == #[trigger] others_after(head, front, window)[m] by {
                assert(front.take(m) =~= others.take(m));
            }
        }
    } else {
        assert(others_after(head, others, window) =~= others);
    }
}

proof fn lemma_total_of_one(stake: StakeInfo, now: i64)
    ensures
        total_staked(seq![stake]) == stake.amount,
        total_unlocked(seq![stake], now) == (if unlocked(stake, now) {
            stake.amount as int
        } else {
            0
        }),
{
    assert(seq![stake].drop_last() =~= Seq::<StakeInfo>::empty());
    assert(total_staked(Seq::<StakeInfo>::empty()) == 0);
    assert(total_unlocked(Seq::<StakeInfo>::empty(), now) == 0);
}

/// Consolidation moves no money in or out: the stakes hold as much together as before, and no
/// fewer seconds have run on any of it. So what a user could unstake before, the user can unstake
/// after.
pub proof fn law_consolidation_conserves(stakes: Seq<StakeInfo>, window: i64, now: i64)
    requires
        consolidation_fits(stakes, window),
    ensures
        total_staked(consolidated(stakes, window)) == total_staked(stakes),
        total_unlocked(consolidated(stakes, window), now) >= total_unlocked(stakes, now),
    decreases stakes.len(),
{
    if stakes.len() > 0 {
        let rest = stakes.drop_first();
        assert(stakes =~= seq![stakes[0]] + rest);
        lemma_totals_of_concatenation(seq![stakes[0]], rest, now);
        lemma_total_of_one(stakes[0], now);
        if !is_active(stakes[0]) {
            law_consolidation_conserves(rest, window, now);
        } else {
            let head = head_after(stakes[0], rest, window);
            let others = others_after(stakes[0], rest, window);
            lemma_pass_totals(stakes[0], rest, window, now);
            law_consolidation_conserves(others, window, now);
            lemma_total_of_one(head, now);
            lemma_totals_of_concatenation(seq![head], consolidated(others, window), now);
        }
    }
}

/// Consolidation leaves no empty stake and never lengthens the list.
pub proof fn law_consolidation_drops_empty_stakes(stakes: Seq<StakeInfo>, window: i64)
    requires
        consolidation_fits(stakes, window),
    ensures
        consolidated(stakes, window).len() <= stakes.len(),
        forall|i: int|
            0 <= i < consolidated(stakes, window).len() ==> is_active(
                #[trigger] consolidated(stakes, window)[i],
            ),
    decreases stakes.len(),
{
    if stakes.len() > 0 {
        let rest = stakes.drop_first();
        if !is_active(stakes[0]) {
            law_consolidation_drops_empty_stakes(rest, window);
        } else {
            lemma_pass_totals(stakes[0], rest, window, 0);
            let head = head_after(stakes[0], rest, window);
            let others = others_after(stakes[0], rest, window);
            law_consolidation_drops_empty_stakes(others, window);
            let result = consolidated(stakes, window);
            assert forall|i: int| 0 <= i < result.len() implies is_active(#[trigger] result[i]) by {
                if i > 0 {
                    assert(result[i] == consolidated(others, window)[i - 1]);
                }
            }
        }
    }
}

/// Stakes that all hold something and lie pairwise farther apart than the window are left as they
/// are.
pub proof fn law_consolidation_keeps_distant_stakes(stakes: Seq<StakeInfo>, window: i64)
    requires
        forall|i: int| 0 <= i < stakes.len() ==> is_active(#[trigger] stakes[i]),
        forall|i: int, j: int|
            0 <= i < j < stakes.len() ==> !near(
                #[trigger] stakes[i].timestamp,
                #[trigger] stakes[j].timestamp,
                window,
            ),
    ensures
        consolidated(stakes, window) == stakes,
    decreases stakes.len(),
{
    if stakes.len() > 0 {
        let rest = stakes.drop_first();
        assert forall|n: int| 0 <= n <= rest.len() implies #[trigger] head_after(
            stakes[0],
            rest.take(n),
            window,
        ) == stakes[0] by {
            lemma_head_alone(stakes[0], rest.take(n), window);
        }
        assert(rest.take(rest.len() as int) =~= rest);
        assert(others_after(stakes[0], rest, window) =~= rest) by {
            assert forall|k: int| 0 <= k < rest.len() implies !#[trigger] takes_in(
                stakes[0],
                rest,
                window,
                k,
            ) by {
                assert(rest[k] == stakes[k + 1]);
            }
        }
        law_consolidation_keeps_distant_stakes(rest, window);
        assert(seq![stakes[0]] + rest =~= stakes);
    }
}

proof fn lemma_head_alone(head: StakeInfo, others: Seq<StakeInfo>, window: i64)
    requires
        forall|k: int|
            0 <= k < others.len() ==> !near(
                head.timestamp,
                #[trigger] others[k].timestamp,
                window,
            ),
    ensures
        head_after(head, others, window) == head,
    decreases others.len(),
{
    if others.len() > 0 {
        lemma_head_alone(head, others.drop_last(), window);
    }
}

/// Where every pair of moments is within 64 bits of each other and the stakes hold together no
/// more than 64 bits, consolidation computes nothing that exceeds 64 bits.
pub proof fn law_consolidation_fits_ordinary_stakes(stakes: Seq<StakeInfo>, window: i64)
    requires
        total_staked(stakes) <= u64::MAX,
        forall|i: int, j: int|
            0 <= i < stakes.len() && 0 <= j < stakes.len() ==> distance_fits(
                #[trigger] stakes[i].timestamp,
                #[trigger] stakes[j].timestamp,
            ),
    ensures
        consolidation_fits(stakes, window),
    decreases stakes.len(),
{
    if stakes.len() > 0 {
        let rest = stakes.drop_first();
        assert(stakes =~= seq![stakes[0]] + rest);
        lemma_totals_of_concatenation(seq![stakes[0]], rest, 0);
        lemma_total_of_one(stakes[0], 0);
        assert forall|i: int| 0 <= i < rest.len() implies rest[i] == #[trigger] stakes[i + 1] by {}
        if !is_active(stakes[0]) {
            law_consolidation_fits_ordinary_stakes(rest, window);
        } else {
            lemma_pass_fits(stakes[0], rest, window);
            lemma_pass_totals(stakes[0], rest, window, 0);
            law_consolidation_fits_ordinary_stakes(
                others_after(stakes[0], rest, window),
                window,
            );
        }
    }
}

/// A pass over ordinary stakes fits, and the head keeps a moment out of the list.
proof fn lemma_pass_fits(head: StakeInfo, others: Seq<StakeInfo>, window: i64)
    requires
        head.amount + total_staked(others) <= u64::MAX,
        forall|i: int| 0 <= i < others.len() ==> distance_fits(
            head.timestamp,
            #[trigger] others[i].timestamp,
        ),
        forall|i: int, j: int|
            0 <= i < others.len() && 0 <= j < others.len() ==> distance_fits(
                #[trigger] others[i].timestamp,
                #[trigger] others[j].timestamp,
            ),
    ensures
        pass_fits(head, others, window),
        head_after(head, others, window).amount <= head.amount + total_staked(others),
        head_after(head, others, window).timestamp == head.timestamp || exists|i: int|
            0 <= i < others.len() && head_after(head, others, window).timestamp
                == #[trigger] others[i].timestamp,
    decreases others.len(),
{
    if others.len() > 0 {
        let front = others.drop_last();
        let k = others.len() - 1;
        assert(front =~= others.take(k));
        assert forall|i: int| 0 <= i < front.len() implies front[i] == #[trigger] others[i] by {}
        lemma_totals_are_ordered(front, 0);
        lemma_pass_fits(head, front, window);
        assert forall|m: int| 0 <= m < others.len() implies #[trigger] step_fits(
            head,
            others,
            window,
            m,
        ) by {
            if m < k {
                assert(front.take(m) =~= others.take(m));
                assert(step_fits(head, front, window, m));
            }
        }
        let after = head_after(head, others, window);
        if after.timestamp == others[k].timestamp {
        } else if after.timestamp != head.timestamp {
            let i = choose|i: int|
                0 <= i < front.len() && head_after(head, front, window).timestamp
                    == #[trigger] front[i].timestamp;
            assert(others[i].timestamp == after.timestamp);
        }
    }
}

} // verus!
