use vstd::prelude::*;

use crate::envs::Environment;
use crate::fixed::Fixed;
use crate::policies::DeterministicPolicy;
use crate::qtable::QTable;
use crate::random::RandomSource;

verus! {

/// Position, among the first `k` of `actions`, of the one with the largest
/// `Q(state, .)`: the first of them where several are equally good.
pub open spec fn greedy_index(q: &QTable, state: usize, actions: Seq<usize>, k: int) -> int
    decreases k,
{
    if k <= 1 {
        0
    } else {
        let best = greedy_index(q, state, actions, k - 1);
        if q.value(state, actions[k - 1]).raw > q.value(state, actions[best]).raw {
            k - 1
        } else {
            best
        }
    }
}

/// The greedy action: `argmax over a in actions of Q(state, a)`, a pair that
/// was never written counting as zero and ties going to the action that
/// comes first in `actions`.
pub open spec fn greedy_choice(q: &QTable, state: usize, actions: Seq<usize>) -> usize {
    actions[greedy_index(q, state, actions, actions.len() as int)]
}

/// The action that epsilon-greedy selection takes, given its two draws:
/// `actions[pick]` where the draw from the unit interval falls below
/// `epsilon`, the greedy action otherwise.
pub open spec fn selected(
    q: &QTable,
    state: usize,
    actions: Seq<usize>,
    epsilon: Fixed,
    explore_draw: Fixed,
    pick: int,
) -> usize {
    if explore_draw.raw < epsilon.raw {
        actions[pick]
    } else {
        greedy_choice(q, state, actions)
    }
}

/// The policy that is greedy in each of `states` states.
pub open spec fn greedy_table(q: &QTable, states: nat, actions: Seq<usize>) -> Seq<usize> {
    Seq::new(states, |s: int| greedy_choice(q, s as usize, actions))
}

/// The greedy position is a position, and nothing before it or after it is
/// better.
pub proof fn lemma_greedy_index(q: &QTable, state: usize, actions: Seq<usize>, k: int)
    requires
        1 <= k <= actions.len(),
    ensures
        0 <= greedy_index(q, state, actions, k) < k,
        forall|j: int|
            0 <= j < k ==> q.value(state, #[trigger] actions[j]).raw <= q.value(
                state,
                actions[greedy_index(q, state, actions, k)],
            ).raw,
        forall|j: int|
            0 <= j < greedy_index(q, state, actions, k) ==> q.value(
                state,
                #[trigger] actions[j],
            ).raw < q.value(state, actions[greedy_index(q, state, actions, k)]).raw,
    decreases k,
{
    if k > 1 {
        lemma_greedy_index(q, state, actions, k - 1);
    }
}

/// The greedy action among `actions` in `state`.
pub fn greedy_action(q: &QTable, state: usize, actions: &Vec<usize>) -> (action: usize)
    requires
        actions.len() > 0,
    ensures
        action == greedy_choice(q, state, actions@),
        exists|i: int| 0 <= i < actions.len() && actions[i] == action,
        forall|j: int|
            0 <= j < actions.len() ==> q.value(state, #[trigger] actions[j]).raw <= q.value(
                state,
                action,
            ).raw,
{
    proof {
        lemma_greedy_index(q, state, actions@, actions.len() as int);
    }
    let mut best: usize = 0;
    let mut best_value: Fixed = q.get(state, actions[0]);
    let mut k: usize = 1;
    while k < actions.len()
        invariant
            1 <= k <= actions.len(),
            best < k,
            best == greedy_index(q, state, actions@, k as int),
            best_value == q.value(state, actions[best as int]),
        decreases actions.len() - k,
    {
        let value: Fixed = q.get(state, actions[k]);
        if value.raw > best_value.raw {
            best = k;
            best_value = value;
        }
        k = k + 1;
    }
    actions[best]
}

/// Epsilon-greedy selection with its two draws given: `actions[pick]` where
/// `explore_draw` falls below `epsilon`, the greedy action otherwise.
pub fn select_action(
    q: &QTable,
    state: usize,
    actions: &Vec<usize>,
    epsilon: Fixed,
    explore_draw: Fixed,
    pick: usize,
) -> (action: usize)
    requires
        pick < actions.len(),
    ensures
        action == selected(q, state, actions@, epsilon, explore_draw, pick as int),
        exists|i: int| 0 <= i < actions.len() && actions[i] == action,
{
    if explore_draw.raw < epsilon.raw {
        actions[pick]
    } else {
        greedy_action(q, state, actions)
    }
}

/// Epsilon-greedy selection: with probability `epsilon` an action drawn
/// uniformly from `actions`, otherwise the greedy one.
///
/// Whatever is drawn, the action is one of `actions`; it is the greedy one
/// when `epsilon` is not positive.
pub fn choose_action(
    q: &QTable,
    s: usize,
    actions: &Vec<usize>,
    epsilon: Fixed,
    rng: &mut RandomSource,
) -> (action: usize)
    requires
        actions.len() > 0,
    ensures
        exists|i: int| 0 <= i < actions.len() && actions[i] == action,
        epsilon.raw <= 0 ==> action == greedy_choice(q, s, actions@),
{
    let explore_draw: Fixed = rng.unit();
    let pick: usize = rng.below(actions.len());
    select_action(q, s, actions, epsilon, explore_draw, pick)
}

/// The greedy policy of a table: in every state of `env`, including those
/// that were never visited, the greedy action among `actions`. A state of
/// which nothing is known thus gets the first of `actions`.
pub fn build_policy<E: Environment>(q: &QTable, actions: &Vec<usize>, env: &E) -> (policy:
    DeterministicPolicy)
    requires
        actions.len() > 0,
        forall|i: int| 0 <= i < actions.len() ==> (#[trigger] actions[i]) < env.actions(),
    ensures
        policy.wf(),
        policy.state_count() == env.states(),
        policy.action_count() == env.actions(),
        policy@ == greedy_table(q, env.states(), actions@),
{
    let n: usize = env.num_states();
    let mut table: Vec<usize> = Vec::new();
    let mut s: usize = 0;
    while s < n
        invariant
            actions.len() > 0,
            forall|i: int| 0 <= i < actions.len() ==> (#[trigger] actions[i]) < env.actions(),
            n == env.states(),
            s <= n,
            table.len() == s,
            forall|t: int|
                0 <= t < s ==> (#[trigger] table[t]) == greedy_choice(q, t as usize, actions@)
                    && table[t] < env.actions(),
        decreases n - s,
    {
        let action: usize = greedy_action(q, s, actions);
        table.push(action);
        s = s + 1;
    }
    proof {
        assert(table@ =~= greedy_table(q, env.states(), actions@));
    }
    DeterministicPolicy::from_table(n, env.num_actions(), table)
}

/// The actions `0 .. count`, in order.
pub fn all_actions(count: usize) -> (actions: Vec<usize>)
    ensures
        actions.len() == count,
        forall|i: int| 0 <= i < count ==> (#[trigger] actions[i]) == i,
{
    let mut actions: Vec<usize> = Vec::new();
    let mut i: usize = 0;
    while i < count
        invariant
            i <= count,
            actions.len() == i,
            forall|k: int| 0 <= k < i ==> (#[trigger] actions[k]) == k,
        decreases count - i,
    {
        actions.push(i);
        i = i + 1;
    }
    actions
}

} // verus!
