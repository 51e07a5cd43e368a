use vstd::prelude::*;

use crate::envs::MonteCarloEnvironment;
use crate::fixed::Fixed;
use crate::policies::DeterministicPolicy;

verus! {

/// One step of an episode: the state, the action taken in it and the reward
/// earned.
#[derive(Clone, Copy, Debug)]
pub struct Visit {
    pub state: usize,
    pub action: usize,
    pub reward: Fixed,
}

/// The rows of a dense table.
pub open spec fn rows<T>(table: Seq<Vec<T>>) -> Seq<Seq<T>> {
    Seq::new(table.len(), |s: int| table[s]@)
}

/// Whether a dense table has `states` rows of `actions` entries.
pub open spec fn shaped<T>(table: Seq<Seq<T>>, states: nat, actions: nat) -> bool {
    &&& table.len() == states
    &&& forall|s: int| 0 <= s < states ==> (#[trigger] table[s]).len() == actions
}

/// Whether every step of the episode is a step in a state and by an action
/// that exist.
pub open spec fn within(episode: Seq<Visit>, states: nat, actions: nat) -> bool {
    forall|i: int|
        0 <= i < episode.len() ==> (#[trigger] episode[i]).state < states && episode[i].action
            < actions
}

/// The return that follows step `i` of the episode:
/// `G(i) = reward(i) + gamma * G(i + 1)`, nothing after the last step.
pub open spec fn return_from(episode: Seq<Visit>, gamma: Fixed, i: int) -> Fixed
    decreases episode.len() - i,
{
    if i >= episode.len() || i < 0 {
        Fixed { raw: 0 }
    } else {
        gamma.spec_mul(return_from(episode, gamma, i + 1)).spec_add(episode[i].reward)
    }
}

/// The sum of the rewards of the first `k` steps of an episode.
pub open spec fn reward_sum(episode: Seq<Visit>, k: int) -> Fixed
    decreases k,
{
    if k <= 0 {
        Fixed { raw: 0 }
    } else {
        reward_sum(episode, k - 1).spec_add(episode[k - 1].reward)
    }
}

/// A further step leaves the sum of the rewards before it as it is.
pub proof fn lemma_reward_sum_push(episode: Seq<Visit>, visit: Visit, k: int)
    requires
        k <= episode.len(),
    ensures
        reward_sum(episode.push(visit), k) == reward_sum(episode, k),
    decreases k,
{
    if k > 0 {
        lemma_reward_sum_push(episode, visit, k - 1);
    }
}

/// Whether step `i` is the first of the episode in its state by its action.
pub open spec fn first_visit(episode: Seq<Visit>, i: int) -> bool {
    forall|j: int|
        0 <= j < i ==> !((#[trigger] episode[j]).state == episode[i].state && episode[j].action
            == episode[i].action)
}

/// Position of the largest of the first `k` entries of a row, the first of
/// them where several are equal.
pub open spec fn row_best(row: Seq<Fixed>, k: int) -> int
    decreases k,
{
    if k <= 1 {
        0
    } else {
        let best = row_best(row, k - 1);
        if row[k - 1].raw > row[best].raw {
            k - 1
        } else {
            best
        }
    }
}

/// The greedy action of a row: `argmax over a of Q(s, a)`, ties going to the
/// action that comes first.
pub open spec fn row_argmax(row: Seq<Fixed>) -> int {
    row_best(row, row.len() as int)
}

/// The greedy action of a row is one of its actions, no entry of the row is
/// larger than its entry, and every entry before it is smaller.
pub proof fn lemma_row_best(row: Seq<Fixed>, k: int)
    requires
        1 <= k <= row.len(),
    ensures
        0 <= row_best(row, k) < k,
        forall|j: int| 0 <= j < k ==> (#[trigger] row[j]).raw <= row[row_best(row, k)].raw,
        forall|j: int| 0 <= j < row_best(row, k) ==> (#[trigger] row[j]).raw < row[row_best(row, k)].raw,
    decreases k,
{
    if k > 1 {
        lemma_row_best(row, k - 1);
    }
}

/// Whether every entry of a row is zero.
pub open spec fn row_is_zero(row: Seq<Fixed>) -> bool {
    forall|a: int| 0 <= a < row.len() ==> (#[trigger] row[a]).raw == 0
}

/// Whether the policy is greedy wherever anything has been learned: in every
/// state it takes the greedy action of the row, unless the row is still
/// zero.
pub open spec fn greedy_where_learned(q: Seq<Seq<Fixed>>, policy: Seq<usize>) -> bool {
    forall|s: int|
        0 <= s < q.len() ==> policy[s] == row_argmax(#[trigger] q[s]) || row_is_zero(q[s])
}

/// The estimates that Monte Carlo control keeps: the action values, how
/// often each pair was averaged into them, and the policy.
pub struct Estimates {
    pub q: Seq<Seq<Fixed>>,
    pub counts: Seq<Seq<u64>>,
    pub policy: Seq<usize>,
}

/// A count one higher; the largest count stays what it is.
pub open spec fn counted(n: u64) -> u64 {
    if n < u64::MAX {
        (n + 1) as u64
    } else {
        n
    }
}

/// The estimates after the return `g` has been averaged into the pair of
/// `s` and `a`: `N += 1`, `Q += (g - Q) / N`, and the policy greedy in `s`.
pub open spec fn averaged(e: Estimates, s: int, a: int, g: Fixed) -> Estimates {
    let n = counted(e.counts[s][a]);
    let value = e.q[s][a].spec_add(g.spec_sub(e.q[s][a]).spec_div_count(n as int));
    let row = e.q[s].update(a, value);
    Estimates {
        q: e.q.update(s, row),
        counts: e.counts.update(s, e.counts[s].update(a, n)),
        policy: e.policy.update(s, row_argmax(row) as usize),
    }
}

/// The estimates after the steps `i ..` of the episode have been worked
/// through from the last one back: the return of every step that is the
/// first visit of its pair is averaged into that pair.
pub open spec fn first_visit_pass(e: Estimates, episode: Seq<Visit>, gamma: Fixed, i: int) -> Estimates
    decreases episode.len() - i,
{
    if i >= episode.len() || i < 0 {
        e
    } else {
        let later = first_visit_pass(e, episode, gamma, i + 1);
        if first_visit(episode, i) {
            averaged(
                later,
                episode[i].state as int,
                episode[i].action as int,
                return_from(episode, gamma, i),
            )
        } else {
            later
        }
    }
}

/// Whether step `i` of the episode is a step of the simulation from
/// `walk[i]` to `walk[i + 1]`: the episode was not over, the action was one
/// that the simulation allows, and the simulation may answer it with the
/// reward that the step records.
pub open spec fn visit_link<E: MonteCarloEnvironment>(
    walk: Seq<E>,
    episode: Seq<Visit>,
    i: int,
) -> bool {
    &&& !walk[i].game_over()
    &&& episode[i].state == walk[i].state()
    &&& episode[i].action < walk[i].actions()
    &&& !walk[i].forbidden(episode[i].action)
    &&& walk[i].leads(episode[i].action, &walk[i + 1], episode[i].reward)
}

/// Whether step `i` of the episode follows `policy` where the behaviour
/// leaves no choice: with `epsilon` not positive and the action of the
/// policy allowed, the action taken is that of the policy.
pub open spec fn follows<E: MonteCarloEnvironment>(
    walk: Seq<E>,
    episode: Seq<Visit>,
    policy: Seq<usize>,
    epsilon: Fixed,
    i: int,
) -> bool {
    epsilon.raw <= 0 && !walk[i].forbidden(policy[episode[i].state as int]) ==> episode[i].action
        == policy[episode[i].state as int]
}

/// Whether `walk` holds the simulation before each step of the episode and
/// after the last: the first comes from `start` by a reset, or by a start
/// from a state drawn at random where `anywhere` is set; every step is a
/// step of the simulation; the last is `last`; and the episode is no longer
/// than `cap` and over unless it is that long.
pub open spec fn visits_walked<E: MonteCarloEnvironment>(
    start: E,
    last: E,
    walk: Seq<E>,
    episode: Seq<Visit>,
    anywhere: bool,
    cap: nat,
) -> bool {
    &&& walk.len() == episode.len() + 1
    &&& if anywhere {
        start.begins_anywhere(&walk[0])
    } else {
        start.begins(&walk[0])
    }
    &&& walk[episode.len() as int] == last
    &&& episode.len() <= cap
    &&& episode.len() < cap ==> last.game_over()
    &&& forall|i: int| 0 <= i < episode.len() ==> #[trigger] visit_link(walk, episode, i)
}

/// Whether the episode is one that the simulation ran from `start` to
/// `last`: from a state drawn at random and with any allowed actions where
/// there is no `behaviour`; from a reset and under the behaviour that is
/// epsilon-greedy for `policy`, with the epsilon of `behaviour`, where
/// there is one.
pub open spec fn episode_ran<E: MonteCarloEnvironment>(
    start: E,
    last: E,
    episode: Seq<Visit>,
    policy: Seq<usize>,
    behaviour: Option<Fixed>,
    cap: nat,
) -> bool {
    exists|walk: Seq<E>| #[trigger]
        visits_walked(start, last, walk, episode, behaviour is None, cap) && match behaviour {
            Some(epsilon) => forall|i: int|
                0 <= i < episode.len() ==> #[trigger] follows(walk, episode, policy, epsilon, i),
            None => true,
        }
}

/// Whether the estimates are those that control starts from: every value
/// and every count zero, and a policy that takes one and the same action in
/// every state.
pub open spec fn untouched(e: Estimates, states: nat, actions: nat) -> bool {
    &&& shaped(e.q, states, actions)
    &&& shaped(e.counts, states, actions)
    &&& e.policy.len() == states
    &&& forall|s: int, a: int|
        0 <= s < states && 0 <= a < actions ==> (#[trigger] e.q[s][a]).raw == 0
    &&& forall|s: int, a: int| 0 <= s < states && 0 <= a < actions ==> (#[trigger] e.counts[s][a]) == 0
    &&& forall|s: int| 0 <= s < states ==> (#[trigger] e.policy[s]) < actions
    &&& forall|s: int, t: int| 0 <= s < states && 0 <= t < states ==> e.policy[s] == e.policy[t]
}

/// Whether `worlds` and `estimates` are the simulations and the estimates
/// between the episodes of a run of first-visit control: the first
/// estimates are untouched, every episode is one that the simulation ran
/// under the policy before it, is within the bounds and no longer than
/// `cap`, and leads from one to the next by a first-visit pass.
pub open spec fn first_visit_chain<E: MonteCarloEnvironment>(
    worlds: Seq<E>,
    estimates: Seq<Estimates>,
    episodes: Seq<Seq<Visit>>,
    states: nat,
    actions: nat,
    cap: nat,
    behaviour: Option<Fixed>,
    gamma: Fixed,
) -> bool {
    &&& worlds.len() == episodes.len() + 1
    &&& estimates.len() == episodes.len() + 1
    &&& untouched(estimates[0], states, actions)
    &&& forall|k: int|
        0 <= k < episodes.len() ==> within(#[trigger] episodes[k], states, actions)
            && episodes[k].len() <= cap && episode_ran(
            worlds[k],
            worlds[k + 1],
            episodes[k],
            estimates[k].policy,
            behaviour,
            cap,
        ) && estimates[k + 1] == first_visit_pass(estimates[k], episodes[k], gamma, 0)
}

/// Whether the values `q` and the policy `policy` are what a run of
/// first-visit control over `count` episodes ends with, from the simulation
/// `first` and with the simulation left as `last`.
pub open spec fn first_visit_trained<E: MonteCarloEnvironment>(
    first: E,
    last: E,
    q: Seq<Seq<Fixed>>,
    policy: Seq<usize>,
    count: nat,
    states: nat,
    actions: nat,
    cap: nat,
    behaviour: Option<Fixed>,
    gamma: Fixed,
) -> bool {
    exists|worlds: Seq<E>, estimates: Seq<Estimates>, episodes: Seq<Seq<Visit>>| #[trigger]
        first_visit_chain(worlds, estimates, episodes, states, actions, cap, behaviour, gamma)
            && episodes.len() == count && worlds[0] == first && worlds[count as int] == last
            && estimates[count as int].q == q && estimates[count as int].policy == policy
}

/// Whether the values `q` and the policy `policy` are what a run of
/// first-visit control ends with whose episodes earned `totals`, each the
/// sum of the rewards of its episode.
pub open spec fn first_visit_earned<E: MonteCarloEnvironment>(
    first: E,
    last: E,
    q: Seq<Seq<Fixed>>,
    policy: Seq<usize>,
    totals: Seq<Fixed>,
    states: nat,
    actions: nat,
    cap: nat,
    behaviour: Option<Fixed>,
    gamma: Fixed,
) -> bool {
    exists|worlds: Seq<E>, estimates: Seq<Estimates>, episodes: Seq<Seq<Visit>>| #[trigger]
        first_visit_chain(worlds, estimates, episodes, states, actions, cap, behaviour, gamma)
            && episodes.len() == totals.len() && worlds[0] == first
            && worlds[totals.len() as int] == last && estimates[totals.len() as int].q == q
            && estimates[totals.len() as int].policy == policy && earned(episodes, totals)
}

/// Whether each of `totals` is the sum of the rewards of the episode of
/// its number.
pub open spec fn earned(episodes: Seq<Seq<Visit>>, totals: Seq<Fixed>) -> bool {
    &&& episodes.len() == totals.len()
    &&& forall|k: int|
        0 <= k < totals.len() ==> (#[trigger] totals[k]) == reward_sum(
            episodes[k],
            episodes[k].len() as int,
        )
}

/// The greedy action of a row.
pub fn argmax_row(row: &Vec<Fixed>) -> (best: usize)
    requires
        row.len() > 0,
    ensures
        best == row_argmax(row@),
        best < row.len(),
        forall|j: int| 0 <= j < row.len() ==> (#[trigger] row[j]).raw <= row[best as int].raw,
        forall|j: int| 0 <= j < best ==> (#[trigger] row[j]).raw < row[best as int].raw,
{
    proof {
        lemma_row_best(row@, row.len() as int);
    }
    let mut best: usize = 0;
    let mut k: usize = 1;
    while k < row.len()
        invariant
            1 <= k <= row.len(),
            best < k,
            best == row_best(row@, k as int),
        decreases row.len() - k,
    {
        if row[k].raw > row[best].raw {
            best = k;
        }
        k = k + 1;
    }
    best
}

/// A table of `states` rows of `actions` entries, each of them `value`.
pub fn dense<T: Copy>(states: usize, actions: usize, value: T) -> (table: Vec<Vec<T>>)
    ensures
        shaped(rows(table@), states as nat, actions as nat),
        forall|s: int, a: int|
            0 <= s < states && 0 <= a < actions ==> (#[trigger] rows(table@)[s][a]) == value,
{
    let mut table: Vec<Vec<T>> = Vec::new();
    let mut s: usize = 0;
    while s < states
        invariant
            s <= states,
            table.len() == s,
            forall|t: int| 0 <= t < s ==> (#[trigger] table[t]).len() == actions,
            forall|t: int, a: int| 0 <= t < s && 0 <= a < actions ==> (#[trigger] table[t][a]) == value,
        decreases states - s,
    {
        let mut row: Vec<T> = Vec::new();
        let mut a: usize = 0;
        while a < actions
            invariant
                a <= actions,
                row.len() == a,
                forall|b: int| 0 <= b < a ==> (#[trigger] row[b]) == value,
            decreases actions - a,
        {
            row.push(value);
            a = a + 1;
        }
        table.push(row);
        s = s + 1;
    }
    proof {
        assert forall|s: int| 0 <= s < states implies (#[trigger] rows(table@)[s]).len()
            == actions by {
            assert(table[s].len() == actions);
        }
        assert forall|s: int, a: int| 0 <= s < states && 0 <= a < actions implies (
        #[trigger] rows(table@)[s][a]) == value by {
            assert(table[s][a] == value);
        }
    }
    table
}

/// Whether step `i` is the first of the episode in its state by its action.
pub fn is_first_visit(episode: &Vec<Visit>, i: usize) -> (first: bool)
    requires
        i < episode.len(),
    ensures
        first == first_visit(episode@, i as int),
{
    let mut j: usize = 0;
    while j < i
        invariant
            j <= i,
            i < episode.len(),
            forall|k: int|
                0 <= k < j ==> !((#[trigger] episode[k]).state == episode[i as int].state
                    && episode[k].action == episode[i as int].action),
        decreases i - j,
    {
        if episode[j].state == episode[i].state && episode[j].action == episode[i].action {
            return false;
        }
        j = j + 1;
    }
    true
}

/// The estimates that the three tables hold.
pub open spec fn held(
    q: &Vec<Vec<Fixed>>,
    returns_count: &Vec<Vec<u64>>,
    policy: &DeterministicPolicy,
) -> Estimates {
    Estimates { q: rows(q@), counts: rows(returns_count@), policy: policy@ }
}

/// Averages the return `g` into the pair of `s` and `a` and makes the policy
/// greedy in `s`.
pub fn average_in(
    q: &mut Vec<Vec<Fixed>>,
    returns_count: &mut Vec<Vec<u64>>,
    policy: &mut DeterministicPolicy,
    s: usize,
    a: usize,
    g: Fixed,
)
    requires
        old(policy).wf(),
        shaped(rows(old(q)@), old(policy).state_count(), old(policy).action_count()),
        shaped(rows(old(returns_count)@), old(policy).state_count(), old(policy).action_count()),
        s < old(policy).state_count(),
        a < old(policy).action_count(),
    ensures
        final(policy).wf(),
        final(policy).state_count() == old(policy).state_count(),
        final(policy).action_count() == old(policy).action_count(),
        shaped(rows(final(q)@), old(policy).state_count(), old(policy).action_count()),
        shaped(rows(final(returns_count)@), old(policy).state_count(), old(policy).action_count()),
        held(final(q), final(returns_count), final(policy)) == averaged(
            held(old(q), old(returns_count), old(policy)),
            s as int,
            a as int,
            g,
        ),
        greedy_where_learned(rows(old(q)@), old(policy)@) ==> greedy_where_learned(
            rows(final(q)@),
            final(policy)@,
        ),
{
    let ghost before = held(q, returns_count, policy);
    assert(rows(q@)[s as int].len() == policy.action_count());
    assert(rows(returns_count@)[s as int].len() == policy.action_count());
    let n: u64 = if returns_count[s][a] < u64::MAX {
        returns_count[s][a] + 1
    } else {
        u64::MAX
    };
    returns_count[s][a] = n;
    let value: Fixed = q[s][a].sat_add(g.sat_sub(q[s][a]).div_count(n));
    q[s][a] = value;
    let best: usize = argmax_row(&q[s]);
    policy.assign(s, best);
    proof {
        let after = averaged(before, s as int, a as int, g);
        assert(rows(q@) =~~= after.q);
        assert(rows(returns_count@) =~~= after.counts);
        assert(policy@ =~= after.policy);
        if greedy_where_learned(rows(old(q)@), old(policy)@) {
            assert forall|t: int| 0 <= t < rows(q@).len() implies policy@[t] == row_argmax(
                #[trigger] rows(q@)[t],
            ) || row_is_zero(rows(q@)[t]) by {
                if t != s {
                    assert(rows(q@)[t] == rows(old(q)@)[t]);
                }
            }
        }
    }
}

/// Works through an episode from its last step back: the return that
/// follows every step which is the first visit of its pair is averaged into
/// that pair, and the policy made greedy in its state.
pub fn first_visit_update(
    q: &mut Vec<Vec<Fixed>>,
    returns_count: &mut Vec<Vec<u64>>,
    policy: &mut DeterministicPolicy,
    episode: &Vec<Visit>,
    gamma: Fixed,
)
    requires
        old(policy).wf(),
        shaped(rows(old(q)@), old(policy).state_count(), old(policy).action_count()),
        shaped(rows(old(returns_count)@), old(policy).state_count(), old(policy).action_count()),
        within(episode@, old(policy).state_count(), old(policy).action_count()),
    ensures
        final(policy).wf(),
        final(policy).state_count() == old(policy).state_count(),
        final(policy).action_count() == old(policy).action_count(),
        shaped(rows(final(q)@), old(policy).state_count(), old(policy).action_count()),
        shaped(rows(final(returns_count)@), old(policy).state_count(), old(policy).action_count()),
        held(final(q), final(returns_count), final(policy)) == first_visit_pass(
            held(old(q), old(returns_count), old(policy)),
            episode@,
            gamma,
            0,
        ),
        greedy_where_learned(rows(old(q)@), old(policy)@) ==> greedy_where_learned(
            rows(final(q)@),
            final(policy)@,
        ),
{
    let ghost start = held(q, returns_count, policy);
    let mut g: Fixed = Fixed { raw: 0 };
    let mut i: usize = episode.len();
    while i > 0
        invariant
            i <= episode.len(),
            policy.wf(),
            policy.state_count() == old(policy).state_count(),
            policy.action_count() == old(policy).action_count(),
            shaped(rows(q@), old(policy).state_count(), old(policy).action_count()),
            shaped(rows(returns_count@), old(policy).state_count(), old(policy).action_count()),
            within(episode@, old(policy).state_count(), old(policy).action_count()),
            greedy_where_learned(rows(old(q)@), old(policy)@) ==> greedy_where_learned(
                rows(q@),
                policy@,
            ),
            g == return_from(episode@, gamma, i as int),
            held(q, returns_count, policy) == first_visit_pass(start, episode@, gamma, i as int),
        decreases i,
    {
        i = i - 1;
        let visit: Visit = episode[i];
        g = gamma.sat_mul(g).sat_add(visit.reward);
        if is_first_visit(episode, i) {
            average_in(q, returns_count, policy, visit.state, visit.action, g);
        }
    }
}

} // verus!
