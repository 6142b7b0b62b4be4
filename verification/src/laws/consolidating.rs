//! What consolidating stakes comes to.
use crate::accounts::ConsolidateStakes;
use crate::consolidation::{
    consolidated, consolidation_fits, head_after, law_consolidation_conserves,
    law_consolidation_drops_empty_stakes, law_consolidation_keeps_distant_stakes, others_after,
    pass_fits, step_fits,
};
use crate::error::{Rejection, StakingError};
use crate::event::{Action, Event};
use crate::instructions::user::{consolidate_fits, consolidate_step};
use crate::laws::claiming::law_settling_adds_the_share;
use crate::laws::terms::{
    added, extends, gap, is_share, is_sweep, lemma_added, lemma_rewards_are_the_share, pool_kept,
    record_kept, record_settled, sweep_fits,
};
use crate::stakes::{is_active, near, total_staked};
use crate::state::StakeInfo;
use vstd::prelude::*;

verus! {

/// Whether a run of `consolidate_stakes` with the window `time_window` ended in the given way.
pub open spec fn consolidate_ran(
    before: ConsolidateStakes,
    time_window: i64,
    actions: Seq<Action>,
    after: ConsolidateStakes,
    actions_after: Seq<Action>,
    result: Result<(), Rejection>,
) -> bool {
    let step = consolidate_step(before, time_window);
    &&& result == step.result
    &&& before.becomes(after, step.pool, step.user)
    &&& actions_after == actions + step.actions
}

// ---------------------------------------------------------------------------
// The list
// ---------------------------------------------------------------------------

/// Amount and moment of the first stake once it has passed the place `k`.
spec fn head_at(stakes: Seq<StakeInfo>, window: int, k: int) -> (int, int)
    decreases k,
{
    if k <= 0 {
        (stakes[0].amount as int, stakes[0].timestamp as int)
    } else {
        let (amount, moment) = head_at(stakes, window, k - 1);
        if gap(moment, stakes[k].timestamp as int) <= window {
            (
                amount + stakes[k].amount,
                if moment <= stakes[k].timestamp {
                    moment
                } else {
                    stakes[k].timestamp as int
                },
            )
        } else {
            (amount, moment)
        }
    }
}

/// The first stake of every list has a way through the others.
pub proof fn law_every_list_has_a_sweep(stakes: Seq<StakeInfo>, window: int)
    requires
        stakes.len() > 0,
    ensures
        exists|heads: Seq<(int, int)>, rest: Seq<StakeInfo>|
            #[trigger] is_sweep(stakes, window, heads, rest),
{
    let heads = Seq::new(stakes.len(), |k: int| head_at(stakes, window, k));
    let rest = Seq::new(
        (stakes.len() - 1) as nat,
        |k: int|
            if gap(heads[k].1, stakes[k + 1].timestamp as int) <= window {
                StakeInfo { amount: 0, timestamp: stakes[k + 1].timestamp }
            } else {
                stakes[k + 1]
            },
    );
    assert forall|k: int| 1 <= k < stakes.len() implies heads[k] == head_at(
        stakes,
        window,
        k,
    ) && heads[k - 1] == head_at(stakes, window, k - 1) && (#[trigger] stakes[k]).timestamp
        == rest[k - 1].timestamp by {}
    assert(is_sweep(stakes, window, heads, rest));
}

/// On the way of the first stake, moments agree with the sweep, and amounts do as long as they can
/// be held.
proof fn lemma_sweep(
    stakes: Seq<StakeInfo>,
    window: i64,
    heads: Seq<(int, int)>,
    rest: Seq<StakeInfo>,
    k: int,
)
    requires
        is_sweep(stakes, window as int, heads, rest),
        0 <= k < stakes.len(),
    ensures
        ({
            let others = stakes.drop_first();
            let head = head_after(stakes[0], others.take(k), window);
            &&& head.timestamp == heads[k].1
            &&& (forall|m: int|
                0 <= m < k ==> #[trigger] step_fits(stakes[0], others, window, m)) ==> head.amount
                == heads[k].0
        }),
    decreases k,
{
    let others = stakes.drop_first();
    if k > 0 {
        lemma_sweep(stakes, window, heads, rest, k - 1);
        assert(others.take(k).drop_last() =~= others.take(k - 1));
        assert(others.take(k).last() == stakes[k]);
        assert(others[k - 1] == stakes[k]);
        if forall|m: int| 0 <= m < k ==> #[trigger] step_fits(stakes[0], others, window, m) {
            assert(step_fits(stakes[0], others, window, k - 1));
        }
    } else {
        assert(others.take(0).len() == 0);
    }
}

/// An empty stake in front does not count.
pub proof fn law_consolidation_passes_over_an_empty_first(stakes: Seq<StakeInfo>, window: i64)
    requires
        stakes.len() > 0,
        stakes[0].amount == 0,
    ensures
        consolidated(stakes, window) == consolidated(stakes.drop_first(), window),
        consolidation_fits(stakes, window) <==> consolidation_fits(stakes.drop_first(), window),
{
}

/// Where the first stake holds something, the list becomes what the first stake is at the end of
/// its way through the others, followed by what the others, as that way left them, become.
pub proof fn law_consolidation_goes_by_the_first(
    stakes: Seq<StakeInfo>,
    window: i64,
    heads: Seq<(int, int)>,
    rest: Seq<StakeInfo>,
)
    requires
        is_sweep(stakes, window as int, heads, rest),
        stakes[0].amount > 0,
    ensures
        consolidation_fits(stakes, window) <==> sweep_fits(stakes, window as int, heads)
            && consolidation_fits(rest, window),
        consolidation_fits(stakes, window) ==> {
            let result = consolidated(stakes, window);
            &&& result.len() > 0
            &&& result[0].amount == heads.last().0
            &&& result[0].timestamp == heads.last().1
            &&& result.drop_first() == consolidated(rest, window)
        },
{
    let others = stakes.drop_first();
    let last = others.len() as int;
    assert forall|k: int| 0 <= k < others.len() implies rest[k] == #[trigger] others_after(
        stakes[0],
        others,
        window,
    )[k] by {
        lemma_sweep(stakes, window, heads, rest, k);
        assert(others[k] == stakes[k + 1]);
    }
    assert(rest =~= others_after(stakes[0], others, window));
    if pass_fits(stakes[0], others, window) {
        assert forall|k: int| 1 <= k < stakes.len() implies {
            let distance = gap(heads[k - 1].1, (#[trigger] stakes[k]).timestamp as int);
            &&& distance <= i64::MAX
            &&& distance <= window ==> heads[k - 1].0 + stakes[k].amount <= u64::MAX
        } by {
            lemma_sweep(stakes, window, heads, rest, k - 1);
            assert(others[k - 1] == stakes[k]);
            assert(step_fits(stakes[0], others, window, k - 1));
        }
    }
    if sweep_fits(stakes, window as int, heads) {
        assert forall|k: int| 0 <= k < others.len() implies #[trigger] step_fits(
            stakes[0],
            others,
            window,
            k,
        ) by {
            lemma_steps_fit(stakes, window, heads, rest, k);
        }
    }
    lemma_sweep(stakes, window, heads, rest, last);
    assert(others.take(last) =~= others);
    if consolidation_fits(stakes, window) {
        assert((seq![head_after(stakes[0], others, window)] + consolidated(
            others_after(stakes[0], others, window),
            window,
        )).drop_first() =~= consolidated(rest, window));
    }
}

/// Where the numbers of a sweep can be held, so can those of the pass.
proof fn lemma_steps_fit(
    stakes: Seq<StakeInfo>,
    window: i64,
    heads: Seq<(int, int)>,
    rest: Seq<StakeInfo>,
    k: int,
)
    requires
        is_sweep(stakes, window as int, heads, rest),
        sweep_fits(stakes, window as int, heads),
        0 <= k < stakes.len() - 1,
    ensures
        forall|m: int|
            0 <= m <= k ==> #[trigger] step_fits(stakes[0], stakes.drop_first(), window, m),
    decreases k,
{
    let others = stakes.drop_first();
    if k > 0 {
        lemma_steps_fit(stakes, window, heads, rest, k - 1);
    }
    lemma_sweep(stakes, window, heads, rest, k);
    assert(others[k] == stakes[k + 1]);
    assert(step_fits(stakes[0], others, window, k));
}

/// A list of empty stakes leaves nothing.
proof fn lemma_all_empty(stakes: Seq<StakeInfo>, window: i64)
    requires
        forall|i: int| 0 <= i < stakes.len() ==> (#[trigger] stakes[i]).amount == 0,
    ensures
        consolidated(stakes, window) == Seq::<StakeInfo>::empty(),
    decreases stakes.len(),
{
    if stakes.len() > 0 {
        lemma_all_empty(stakes.drop_first(), window);
    }
}

/// On its way through stakes that are all in reach of each other, the first stake takes in every
/// one, and its moment is the earliest so far.
proof fn lemma_sweep_of_near(
    stakes: Seq<StakeInfo>,
    window: i64,
    heads: Seq<(int, int)>,
    rest: Seq<StakeInfo>,
    k: int,
)
    requires
        is_sweep(stakes, window as int, heads, rest),
        forall|i: int, j: int|
            0 <= i < stakes.len() && 0 <= j < stakes.len() ==> gap(
                (#[trigger] stakes[i]).timestamp as int,
                (#[trigger] stakes[j]).timestamp as int,
            ) <= window,
        0 <= k < stakes.len(),
    ensures
        heads[k].0 == total_staked(stakes.take(k + 1)),
        forall|i: int| 0 <= i <= k ==> heads[k].1 <= (#[trigger] stakes[i]).timestamp,
        exists|i: int| 0 <= i <= k && heads[k].1 == (#[trigger] stakes[i]).timestamp,
        forall|i: int| 0 <= i < k ==> (#[trigger] rest[i]).amount == 0,
    decreases k,
{
    assert(stakes.take(k + 1).drop_last() =~= stakes.take(k));
    assert(stakes.take(k + 1).last() == stakes[k]);
    if k > 0 {
        lemma_sweep_of_near(stakes, window, heads, rest, k - 1);
        let i = choose|i: int|
            0 <= i <= k - 1 && heads[k - 1].1 == (#[trigger] stakes[i]).timestamp;
        assert(gap(stakes[i].timestamp as int, stakes[k].timestamp as int) <= window);
    } else {
        assert(stakes.take(0).len() == 0);
        assert(total_staked(stakes.take(0)) == 0);
    }
}

/// Stakes that all hold something and are all at most `window` seconds apart become one: it holds
/// what they held together and has the earliest of their moments.
pub proof fn law_consolidation_joins_near_stakes(stakes: Seq<StakeInfo>, window: i64)
    requires
        stakes.len() > 0,
        consolidation_fits(stakes, window),
        forall|i: int| 0 <= i < stakes.len() ==> (#[trigger] stakes[i]).amount > 0,
        forall|i: int, j: int|
            0 <= i < stakes.len() && 0 <= j < stakes.len() ==> gap(
                (#[trigger] stakes[i]).timestamp as int,
                (#[trigger] stakes[j]).timestamp as int,
            ) <= window,
    ensures
        ({
            let result = consolidated(stakes, window);
            &&& result.len() == 1
            &&& result[0].amount == total_staked(stakes)
            &&& forall|i: int|
                0 <= i < stakes.len() ==> result[0].timestamp <= (#[trigger] stakes[i]).timestamp
            &&& exists|i: int|
                0 <= i < stakes.len() && result[0].timestamp == (#[trigger] stakes[i]).timestamp
        }),
{
    law_every_list_has_a_sweep(stakes, window as int);
    let (heads, rest) = choose|heads: Seq<(int, int)>, rest: Seq<StakeInfo>| #[trigger]
        is_sweep(stakes, window as int, heads, rest);
    law_consolidation_goes_by_the_first(stakes, window, heads, rest);
    let last = stakes.len() - 1;
    lemma_sweep_of_near(stakes, window, heads, rest, last);
    assert(stakes.take(last + 1) =~= stakes);
    lemma_all_empty(rest, window);
    assert(consolidated(stakes, window).len() == 1);
}

/// Every moment in the list is one that the list had before.
pub proof fn law_consolidation_keeps_to_known_moments(stakes: Seq<StakeInfo>, window: i64, k: int)
    requires
        0 <= k < consolidated(stakes, window).len(),
    ensures
        exists|i: int|
            0 <= i < stakes.len() && (#[trigger] stakes[i]).timestamp == consolidated(
                stakes,
                window,
            )[k].timestamp,
    decreases stakes.len(),
{
    let rest = stakes.drop_first();
    if !is_active(stakes[0]) {
        law_consolidation_keeps_to_known_moments(rest, window, k);
        let i = choose|i: int|
            0 <= i < rest.len() && (#[trigger] rest[i]).timestamp == consolidated(
                rest,
                window,
            )[k].timestamp;
        assert(stakes[i + 1] == rest[i]);
    } else if k > 0 {
        let others = others_after(stakes[0], rest, window);
        law_consolidation_keeps_to_known_moments(others, window, k - 1);
        let i = choose|i: int|
            0 <= i < others.len() && (#[trigger] others[i]).timestamp == consolidated(
                others,
                window,
            )[k - 1].timestamp;
        assert(stakes[i + 1].timestamp == others[i].timestamp);
    } else {
        lemma_head_moment(stakes, window, rest.len() as int);
        assert(rest.take(rest.len() as int) =~= rest);
    }
}

/// The moment of the first stake on its way is one of the list's.
proof fn lemma_head_moment(stakes: Seq<StakeInfo>, window: i64, n: int)
    requires
        0 <= n < stakes.len(),
    ensures
        exists|i: int|
            0 <= i <= n && (#[trigger] stakes[i]).timestamp == head_after(
                stakes[0],
                stakes.drop_first().take(n),
                window,
            ).timestamp,
    decreases n,
{
    let rest = stakes.drop_first();
    if n > 0 {
        lemma_head_moment(stakes, window, n - 1);
        assert(rest.take(n).drop_last() =~= rest.take(n - 1));
        assert(rest.take(n).last() == stakes[n]);
    } else {
        assert(rest.take(0).len() == 0);
        assert(stakes[0].timestamp == head_after(stakes[0], rest.take(0), window).timestamp);
    }
}

// ---------------------------------------------------------------------------
// The instruction
// ---------------------------------------------------------------------------

/// Consolidating can be done with every window that is not positive, which is refused; with any
/// other exactly where the rewards can be settled and the numbers on the way can be held.
pub proof fn law_consolidate_is_open(accounts: ConsolidateStakes, time_window: i64, reward: int)
    requires
        is_share(
            reward,
            accounts.user_state.data.balance as int,
            accounts.staking_pool.data.reward_index as int,
            accounts.user_state.data.reward_index_of as int,
        ),
    ensures
        ({
            let user = accounts.user_state.data;
            let index = accounts.staking_pool.data.reward_index;
            consolidate_fits(accounts, time_window) <==> {
                ||| time_window <= 0
                ||| {
                    &&& index <= user.reward_index_of || user.balance * (index
                        - user.reward_index_of) <= u128::MAX
                    &&& user.earned + reward <= u64::MAX
                    &&& consolidation_fits(user.stakes@, time_window)
                }
            }
        }),
{
    law_settling_adds_the_share(
        accounts.user_state.data@,
        accounts.staking_pool.data.reward_index,
        reward,
    );
}

/// Consolidating succeeds exactly with a positive window. Then the record is settled, and but for
/// its stakes nothing else on it changes; the log tells how many stakes are left. With any other
/// window it is refused and nothing changes.
pub proof fn law_consolidate_answer(
    before: ConsolidateStakes,
    time_window: i64,
    actions: Seq<Action>,
    after: ConsolidateStakes,
    actions_after: Seq<Action>,
    result: Result<(), Rejection>,
)
    requires
        consolidate_fits(before, time_window),
        consolidate_ran(before, time_window, actions, after, actions_after, result),
    ensures
        result is Ok <==> time_window > 0,
        time_window <= 0 ==> {
            &&& result == Err::<(), Rejection>(Rejection::Staking(StakingError::InvalidTimeWindow))
            &&& actions_after == actions
            &&& record_kept(before.user_state.data, after.user_state.data)
        },
        time_window > 0 ==> {
            let steps = added(actions, actions_after);
            &&& record_settled(
                before.user_state.data,
                after.user_state.data,
                before.staking_pool.data.reward_index,
            )
            &&& extends(actions, actions_after)
            &&& steps.len() == 1
            &&& steps[0] matches Action::Emit(Event::StakesConsolidated(entry))
            &&& entry.user == before.user
            &&& entry.resulting_stake_count == after.user_state.data.stakes@.len()
        },
        after.user_state.data.owner == before.user_state.data.owner,
        after.user_state.data.balance == before.user_state.data.balance,
        after.user_state.data.unbonding_requests@ == before.user_state.data.unbonding_requests@,
        after.user_state.key == before.user_state.key,
        pool_kept(before.staking_pool.data, after.staking_pool.data),
        after.staking_pool.key == before.staking_pool.key,
        after.user == before.user,
{
    let user = before.user_state.data@;
    assert(after.user_state.data.stakes.len() == after.user_state.data.stakes@.len());
    assert(actions + Seq::<Action>::empty() =~= actions);
    lemma_added(actions, consolidate_step(before, time_window).actions);
    lemma_rewards_are_the_share(
        user.balance,
        before.staking_pool.data.reward_index,
        user.reward_index_of,
    );
}

/// Consolidating keeps what the stakes hold together, leaves no empty stake, and invents no
/// moment.
pub proof fn law_consolidate_keeps_the_total(
    before: ConsolidateStakes,
    time_window: i64,
    actions: Seq<Action>,
    after: ConsolidateStakes,
    actions_after: Seq<Action>,
    result: Result<(), Rejection>,
)
    requires
        time_window > 0,
        consolidate_fits(before, time_window),
        consolidate_ran(before, time_window, actions, after, actions_after, result),
    ensures
        ({
            let stakes = before.user_state.data.stakes@;
            let left = after.user_state.data.stakes@;
            &&& total_staked(left) == total_staked(stakes)
            &&& forall|k: int|
                0 <= k < left.len() ==> (#[trigger] left[k]).amount > 0 && exists|i: int|
                    0 <= i < stakes.len() && (#[trigger] stakes[i]).timestamp == left[k].timestamp
        }),
{
    let stakes = before.user_state.data.stakes@;
    let left = after.user_state.data.stakes@;
    law_consolidation_conserves(stakes, time_window, 0);
    law_consolidation_drops_empty_stakes(stakes, time_window);
    assert forall|k: int| 0 <= k < left.len() implies (#[trigger] left[k]).amount > 0 && exists|
        i: int,
    | 0 <= i < stakes.len() && (#[trigger] stakes[i]).timestamp == left[k].timestamp by {
        assert(is_active(left[k]));
        law_consolidation_keeps_to_known_moments(stakes, time_window, k);
    }
}

/// Of stakes that all hold something and are all at most `time_window` seconds apart, consolidating
/// leaves a single one. It holds what they held together and has the earliest of their moments.
pub proof fn law_consolidate_joins_near_stakes(
    before: ConsolidateStakes,
    time_window: i64,
    actions: Seq<Action>,
    after: ConsolidateStakes,
    actions_after: Seq<Action>,
    result: Result<(), Rejection>,
)
    requires
        time_window > 0,
        consolidate_fits(before, time_window),
        consolidate_ran(before, time_window, actions, after, actions_after, result),
        before.user_state.data.stakes@.len() > 0,
        forall|i: int|
            0 <= i < before.user_state.data.stakes@.len() ==> (
            #[trigger] before.user_state.data.stakes@[i]).amount > 0,
        forall|i: int, j: int|
            0 <= i < before.user_state.data.stakes@.len() && 0 <= j
                < before.user_state.data.stakes@.len() ==> gap(
                (#[trigger] before.user_state.data.stakes@[i]).timestamp as int,
                (#[trigger] before.user_state.data.stakes@[j]).timestamp as int,
            ) <= time_window,
    ensures
        ({
            let stakes = before.user_state.data.stakes@;
            let left = after.user_state.data.stakes@;
            &&& left.len() == 1
            &&& left[0].amount == total_staked(stakes)
            &&& forall|i: int|
                0 <= i < stakes.len() ==> left[0].timestamp <= (#[trigger] stakes[i]).timestamp
            &&& exists|i: int|
                0 <= i < stakes.len() && left[0].timestamp == (#[trigger] stakes[i]).timestamp
        }),
{
    law_consolidation_joins_near_stakes(before.user_state.data.stakes@, time_window);
}

/// Two stakes that hold something become one with the sum and the earlier moment where they are at
/// most `time_window` seconds apart, and stay as they are where they are farther apart.
pub proof fn law_consolidate_of_two_stakes(
    before: ConsolidateStakes,
    time_window: i64,
    actions: Seq<Action>,
    after: ConsolidateStakes,
    actions_after: Seq<Action>,
    result: Result<(), Rejection>,
)
    requires
        time_window > 0,
        consolidate_fits(before, time_window),
        consolidate_ran(before, time_window, actions, after, actions_after, result),
        before.user_state.data.stakes@.len() == 2,
        before.user_state.data.stakes@[0].amount > 0,
        before.user_state.data.stakes@[1].amount > 0,
    ensures
        ({
            let a = before.user_state.data.stakes@[0];
            let b = before.user_state.data.stakes@[1];
            let left = after.user_state.data.stakes@;
            if gap(a.timestamp as int, b.timestamp as int) <= time_window {
                &&& left.len() == 1
                &&& left[0].amount == a.amount + b.amount
                &&& left[0].timestamp == if a.timestamp <= b.timestamp {
                    a.timestamp
                } else {
                    b.timestamp
                }
            } else {
                left == before.user_state.data.stakes@
            }
        }),
{
    let stakes = before.user_state.data.stakes@;
    if gap(stakes[0].timestamp as int, stakes[1].timestamp as int) <= time_window {
        law_consolidate_joins_near_stakes(
            before,
            time_window,
            actions,
            after,
            actions_after,
            result,
        );
        reveal_with_fuel(total_staked, 3);
        assert(stakes.drop_last().last() == stakes[0]);
    } else {
        law_consolidate_keeps_distant_stakes(
            before,
            time_window,
            actions,
            after,
            actions_after,
            result,
        );
    }
}

/// A record whose stakes all hold something and are pairwise more than `time_window` seconds apart
/// keeps its stakes.
pub proof fn law_consolidate_keeps_distant_stakes(
    before: ConsolidateStakes,
    time_window: i64,
    actions: Seq<Action>,
    after: ConsolidateStakes,
    actions_after: Seq<Action>,
    result: Result<(), Rejection>,
)
    requires
        time_window > 0,
        consolidate_ran(before, time_window, actions, after, actions_after, result),
        forall|i: int|
            0 <= i < before.user_state.data.stakes@.len() ==> (
            #[trigger] before.user_state.data.stakes@[i]).amount > 0,
        forall|i: int, j: int|
            0 <= i < j < before.user_state.data.stakes@.len() ==> gap(
                (#[trigger] before.user_state.data.stakes@[i]).timestamp as int,
                (#[trigger] before.user_state.data.stakes@[j]).timestamp as int,
            ) > time_window,
    ensures
        after.user_state.data.stakes@ == before.user_state.data.stakes@,
{
    let stakes = before.user_state.data.stakes@;
    assert forall|i: int, j: int| 0 <= i < j < stakes.len() implies !near(
        #[trigger] stakes[i].timestamp,
        #[trigger] stakes[j].timestamp,
        time_window,
    ) by {
        assert(gap(stakes[i].timestamp as int, stakes[j].timestamp as int) > time_window);
    }
    law_consolidation_keeps_distant_stakes(stakes, time_window);
}

/// Consolidating goes by the first stake. One that is empty does not count: the list becomes what
/// the list without it becomes. Any other goes through the others once, with the window that the
/// caller gave, and stands first; behind it stands what the others, as that way left them, become.
/// `second` is a run on the list without the first stake.
pub proof fn law_consolidate_goes_by_the_first(
    before: ConsolidateStakes,
    time_window: i64,
    actions: Seq<Action>,
    after: ConsolidateStakes,
    actions_after: Seq<Action>,
    result: Result<(), Rejection>,
    heads: Seq<(int, int)>,
    rest: Seq<StakeInfo>,
    second: ConsolidateStakes,
    second_actions: Seq<Action>,
    second_after: ConsolidateStakes,
    second_actions_after: Seq<Action>,
    second_result: Result<(), Rejection>,
)
    requires
        time_window > 0,
        consolidate_fits(before, time_window),
        consolidate_ran(before, time_window, actions, after, actions_after, result),
        consolidate_ran(
            second,
            time_window,
            second_actions,
            second_after,
            second_actions_after,
            second_result,
        ),
        is_sweep(before.user_state.data.stakes@, time_window as int, heads, rest),
        second.user_state.data.stakes@ == if before.user_state.data.stakes@[0].amount == 0 {
            before.user_state.data.stakes@.drop_first()
        } else {
            rest
        },
    ensures
        ({
            let left = after.user_state.data.stakes@;
            let left_of_rest = second_after.user_state.data.stakes@;
            if before.user_state.data.stakes@[0].amount == 0 {
                left == left_of_rest
            } else {
                &&& left.len() == left_of_rest.len() + 1
                &&& left[0].amount == heads.last().0
                &&& left[0].timestamp == heads.last().1
                &&& left.drop_first() == left_of_rest
            }
        }),
{
    let stakes = before.user_state.data.stakes@;
    if stakes[0].amount > 0 {
        law_consolidation_goes_by_the_first(stakes, time_window, heads, rest);
    }
}

/// A record without stakes has none after consolidating either.
pub proof fn law_consolidate_of_no_stakes(
    before: ConsolidateStakes,
    time_window: i64,
    actions: Seq<Action>,
    after: ConsolidateStakes,
    actions_after: Seq<Action>,
    result: Result<(), Rejection>,
)
    requires
        consolidate_ran(before, time_window, actions, after, actions_after, result),
        before.user_state.data.stakes@.len() == 0,
    ensures
        after.user_state.data.stakes@.len() == 0,
        consolidation_fits(before.user_state.data.stakes@, time_window),
{
}

} // verus!
