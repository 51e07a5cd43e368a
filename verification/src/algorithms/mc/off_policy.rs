use vstd::prelude::*;

use crate::algorithms::mc::episode::argmax_row;
use crate::algorithms::mc::episode::dense;
use crate::algorithms::mc::episode::follows;
use crate::algorithms::mc::episode::visit_link;
use crate::algorithms::mc::episode::visits_walked;
use crate::algorithms::mc::episode::greedy_where_learned;
use crate::algorithms::mc::episode::return_from;
use crate::algorithms::mc::episode::row_argmax;
use crate::algorithms::mc::episode::row_is_zero;
use crate::algorithms::mc::episode::rows;
use crate::algorithms::mc::episode::shaped;
use crate::algorithms::mc::episode::within;
use crate::algorithms::mc::episode::Visit;
use crate::algorithms::mc::on_policy_first_visit::behaviour_action;
use crate::algorithms::td::q_learning::admissible;
use crate::envs::MonteCarloEnvironment;
use crate::error::RlError;
use crate::fixed::lemma_div_by_fraction;
use crate::fixed::lemma_quotient_bounds;
use crate::fixed::Fixed;
use crate::fixed::SCALE;
use crate::policies::DeterministicPolicy;
use crate::random::RandomSource;

verus! {

/// The probability with which the behaviour policy takes `action` where
/// `count` actions are available: the epsilon-greedy behaviour gives the
/// action of the target policy `1 - epsilon + epsilon / count` and every
/// other action `epsilon / count`; where the action of the target policy is
/// forbidden, every available action gets `1 / count`.
pub open spec fn behaviour_share(
    policy_action: usize,
    forbidden: bool,
    count: int,
    epsilon: Fixed,
    action: usize,
) -> Fixed {
    if forbidden {
        (Fixed { raw: SCALE }).spec_div_count(count)
    } else if action == policy_action {
        (Fixed { raw: SCALE }).spec_sub(epsilon).spec_add(epsilon.spec_div_count(count))
    } else {
        epsilon.spec_div_count(count)
    }
}

/// Whether `p` is the probability with which the behaviour policy takes
/// `action` in some state in which the target policy would take
/// `policy_action`.
pub open spec fn is_behaviour_share(
    p: Fixed,
    policy_action: usize,
    epsilon: Fixed,
    action: usize,
) -> bool {
    exists|forbidden: bool, count: int|
        count > 0 && p == #[trigger] behaviour_share(
            policy_action,
            forbidden,
            count,
            epsilon,
            action,
        )
}

/// The probability with which the behaviour policy takes `action`.
pub fn behaviour_probability(
    policy_action: usize,
    forbidden: bool,
    count: usize,
    epsilon: Fixed,
    action: usize,
) -> (p: Fixed)
    requires
        count > 0,
        epsilon.is_unit(),
    ensures
        p == behaviour_share(policy_action, forbidden, count as int, epsilon, action),
        p.is_unit(),
{
    proof {
        lemma_quotient_bounds(SCALE as int, count as int);
        lemma_quotient_bounds(epsilon.raw as int, count as int);
    }
    if forbidden {
        Fixed::one().div_count(count as u64)
    } else if action == policy_action {
        Fixed::one().sat_sub(epsilon).sat_add(epsilon.div_count(count as u64))
    } else {
        epsilon.div_count(count as u64)
    }
}

/// What the backward pass of off-policy control keeps: the action values,
/// the cumulative weights, the target policy, the importance weight, and
/// whether the pass has ended.
pub struct Weighted {
    pub q: Seq<Seq<Fixed>>,
    pub c: Seq<Seq<Fixed>>,
    pub policy: Seq<usize>,
    pub w: Fixed,
    pub stopped: bool,
}

/// The state of the pass after a step in `s` by `a`, followed by the return
/// `g` and taken by the behaviour policy with probability `behaviour`:
/// `C += w`, `Q += (w / C) * (g - Q)`, and the target policy greedy in `s`.
/// The pass ends where `a` is not that greedy action, since the target
/// policy would not have taken the step; it also ends where `behaviour` is
/// zero. Otherwise the weight is divided by `behaviour`.
pub open spec fn weighed_in(e: Weighted, s: int, a: int, g: Fixed, behaviour: Fixed) -> Weighted {
    let c = e.c[s][a].spec_add(e.w);
    let ratio = if c.raw == 0 {
        Fixed { raw: 0 }
    } else {
        e.w.spec_div(c)
    };
    let value = e.q[s][a].spec_add(ratio.spec_mul(g.spec_sub(e.q[s][a])));
    let row = e.q[s].update(a, value);
    let best = row_argmax(row);
    Weighted {
        q: e.q.update(s, row),
        c: e.c.update(s, e.c[s].update(a, c)),
        policy: e.policy.update(s, best as usize),
        w: if a == best && behaviour.raw != 0 {
            e.w.spec_div(behaviour)
        } else {
            e.w
        },
        stopped: a != best || behaviour.raw == 0,
    }
}

/// The state of the pass after the steps `i ..` of the episode have been
/// worked through from the last one back, as far as the pass went.
pub open spec fn weighted_pass(
    e: Weighted,
    episode: Seq<Visit>,
    behaviour: Seq<Fixed>,
    gamma: Fixed,
    i: int,
) -> Weighted
    decreases episode.len() - i,
{
    if i >= episode.len() || i < 0 {
        e
    } else {
        let later = weighted_pass(e, episode, behaviour, gamma, i + 1);
        if later.stopped {
            later
        } else {
            weighed_in(
                later,
                episode[i].state as int,
                episode[i].action as int,
                return_from(episode, gamma, i),
                behaviour[i],
            )
        }
    }
}

/// A pass that has ended stays as it is.
pub proof fn lemma_stopped_stays(
    e: Weighted,
    episode: Seq<Visit>,
    behaviour: Seq<Fixed>,
    gamma: Fixed,
    i: int,
    j: int,
)
    requires
        0 <= j <= i,
        weighted_pass(e, episode, behaviour, gamma, i).stopped,
    ensures
        weighted_pass(e, episode, behaviour, gamma, j) == weighted_pass(e, episode, behaviour, gamma, i),
    decreases i - j,
{
    if j < i {
        lemma_stopped_stays(e, episode, behaviour, gamma, i, j + 1);
        if j >= episode.len() {
        }
    }
}

/// Whether the pair of `s` and `a` is visited at or after step `i` of the
/// episode.
pub open spec fn occurs_from(episode: Seq<Visit>, i: int, s: int, a: int) -> bool {
    exists|j: int|
        i <= j < episode.len() && (#[trigger] episode[j]).state == s && episode[j].action == a
}

/// Whether the pair of `s` and `a` is visited in one of the episodes.
pub open spec fn visited(episodes: Seq<Seq<Visit>>, s: int, a: int) -> bool {
    exists|k: int| 0 <= k < episodes.len() && occurs_from(#[trigger] episodes[k], 0, s, a)
}

/// The backward pass keeps the shape of the tables, and leaves the value
/// and the weight of a pair that the episode does not visit as they are.
pub proof fn lemma_pass_keeps_unvisited(
    e: Weighted,
    episode: Seq<Visit>,
    behaviour: Seq<Fixed>,
    gamma: Fixed,
    i: int,
    states: nat,
    actions: nat,
    s: int,
    a: int,
)
    requires
        shaped(e.q, states, actions),
        shaped(e.c, states, actions),
        within(episode, states, actions),
        0 <= i,
        0 <= s < states,
        0 <= a < actions,
        !occurs_from(episode, i, s, a),
    ensures
        shaped(weighted_pass(e, episode, behaviour, gamma, i).q, states, actions),
        shaped(weighted_pass(e, episode, behaviour, gamma, i).c, states, actions),
        weighted_pass(e, episode, behaviour, gamma, i).q[s][a] == e.q[s][a],
        weighted_pass(e, episode, behaviour, gamma, i).c[s][a] == e.c[s][a],
    decreases episode.len() - i,
{
    if i < episode.len() {
        assert(!occurs_from(episode, i + 1, s, a)) by {
            if occurs_from(episode, i + 1, s, a) {
                let j = choose|j: int|
                    i + 1 <= j < episode.len() && (#[trigger] episode[j]).state == s
                        && episode[j].action == a;
                assert(occurs_from(episode, i, s, a));
            }
        }
        lemma_pass_keeps_unvisited(e, episode, behaviour, gamma, i + 1, states, actions, s, a);
        let later = weighted_pass(e, episode, behaviour, gamma, i + 1);
        if !later.stopped {
            let si = episode[i].state as int;
            let ai = episode[i].action as int;
            assert(!(si == s && ai == a)) by {
                if si == s && ai == a {
                    assert(occurs_from(episode, i, s, a));
                }
            }
            let now = weighed_in(later, si, ai, return_from(episode, gamma, i), behaviour[i]);
            assert(0 <= si < states && 0 <= ai < actions);
            assert(later.q[si].len() == actions);
            assert(later.c[si].len() == actions);
            assert forall|t: int| 0 <= t < states implies (#[trigger] now.q[t]).len() == actions by {
                if t != si {
                    assert(now.q[t] == later.q[t]);
                }
            }
            assert forall|t: int| 0 <= t < states implies (#[trigger] now.c[t]).len() == actions by {
                if t != si {
                    assert(now.c[t] == later.c[t]);
                }
            }
            if s != si {
                assert(now.q[s] == later.q[s]);
                assert(now.c[s] == later.c[s]);
            }
        }
    }
}

/// The state in which a backward pass starts from the tables of `e`: the
/// weight one, and the pass not ended.
pub open spec fn restarted(e: Weighted) -> Weighted {
    Weighted { q: e.q, c: e.c, policy: e.policy, w: Fixed { raw: SCALE }, stopped: false }
}

/// Whether two states of the pass hold the same tables and the same policy.
pub open spec fn same_tables(x: Weighted, y: Weighted) -> bool {
    x.q == y.q && x.c == y.c && x.policy == y.policy
}

/// Whether the tables are those that control starts from: every value and
/// every weight zero, and a policy that takes one and the same action in
/// every state.
pub open spec fn untouched_weights(e: Weighted, states: nat, actions: nat) -> bool {
    &&& shaped(e.q, states, actions)
    &&& shaped(e.c, states, actions)
    &&& e.policy.len() == states
    &&& forall|s: int, a: int|
        0 <= s < states && 0 <= a < actions ==> (#[trigger] e.q[s][a]).raw == 0
    &&& forall|s: int, a: int|
        0 <= s < states && 0 <= a < actions ==> (#[trigger] e.c[s][a]).raw == 0
    &&& forall|s: int| 0 <= s < states ==> (#[trigger] e.policy[s]) < actions
    &&& forall|s: int, t: int| 0 <= s < states && 0 <= t < states ==> e.policy[s] == e.policy[t]
}

/// Whether `shares` holds, for each step of the episode, the probability
/// with which the behaviour that is epsilon-greedy for `policy` took its
/// action.
pub open spec fn recorded_shares(
    shares: Seq<Fixed>,
    episode: Seq<Visit>,
    policy: Seq<usize>,
    epsilon: Fixed,
) -> bool {
    &&& shares.len() == episode.len()
    &&& forall|i: int|
        0 <= i < shares.len() ==> (#[trigger] shares[i]).is_unit() && is_behaviour_share(
            shares[i],
            policy[episode[i].state as int],
            epsilon,
            episode[i].action,
        )
}

/// Whether the share recorded for step `i` of the episode is the
/// probability with which the behaviour that is epsilon-greedy for `policy`
/// took the action of the step in the simulation `walk[i]`.
pub open spec fn share_link<E: MonteCarloEnvironment>(
    walk: Seq<E>,
    episode: Seq<Visit>,
    shares: Seq<Fixed>,
    policy: Seq<usize>,
    epsilon: Fixed,
    i: int,
) -> bool {
    shares[i] == behaviour_share(
        policy[episode[i].state as int],
        walk[i].forbidden(policy[episode[i].state as int]),
        walk[i].available().len() as int,
        epsilon,
        episode[i].action,
    )
}

/// Whether the episode is one that the simulation ran from `start` to
/// `last`, from a reset and under the behaviour that is epsilon-greedy for
/// `policy`, and `shares` holds the probability with which that behaviour
/// took the action of each step.
pub open spec fn weighted_episode_ran<E: MonteCarloEnvironment>(
    start: E,
    last: E,
    episode: Seq<Visit>,
    shares: Seq<Fixed>,
    policy: Seq<usize>,
    epsilon: Fixed,
    cap: nat,
) -> bool {
    exists|walk: Seq<E>| #[trigger]
        visits_walked(start, last, walk, episode, false, cap) && shares.len() == episode.len() && (
        forall|i: int|
            0 <= i < episode.len() ==> #[trigger] follows(walk, episode, policy, epsilon, i)) && (
        forall|i: int|
            0 <= i < episode.len() ==> #[trigger] share_link(
                walk,
                episode,
                shares,
                policy,
                epsilon,
                i,
            ))
}

/// Whether `estimates` are the tables between the episodes of a run of
/// off-policy control: the first are untouched, every episode is within the
/// bounds and no longer than `cap`, its shares are those of the behaviour
/// for the policy before it, and each leads from one to the next by a
/// backward pass.
pub open spec fn weighted_chain<E: MonteCarloEnvironment>(
    worlds: Seq<E>,
    estimates: Seq<Weighted>,
    episodes: Seq<Seq<Visit>>,
    shares: Seq<Seq<Fixed>>,
    states: nat,
    actions: nat,
    cap: nat,
    gamma: Fixed,
    epsilon: Fixed,
) -> bool {
    &&& worlds.len() == episodes.len() + 1
    &&& estimates.len() == episodes.len() + 1
    &&& shares.len() == episodes.len()
    &&& untouched_weights(estimates[0], states, actions)
    &&& forall|k: int|
        0 <= k < episodes.len() ==> within(#[trigger] episodes[k], states, actions)
            && episodes[k].len() <= cap && recorded_shares(
            shares[k],
            episodes[k],
            estimates[k].policy,
            epsilon,
        ) && weighted_episode_ran(
            worlds[k],
            worlds[k + 1],
            episodes[k],
            shares[k],
            estimates[k].policy,
            epsilon,
            cap,
        ) && same_tables(
            estimates[k + 1],
            weighted_pass(restarted(estimates[k]), episodes[k], shares[k], gamma, 0),
        )
}

/// Whether a pair that none of the episodes visits has the value zero and
/// the weight zero.
pub open spec fn unvisited_zero(
    episodes: Seq<Seq<Visit>>,
    q: Seq<Seq<Fixed>>,
    c: Seq<Seq<Fixed>>,
    states: nat,
    actions: nat,
) -> bool {
    forall|s: int, a: int|
        0 <= s < states && 0 <= a < actions && !visited(episodes, s, a) ==> (#[trigger] q[s][a]).raw
            == 0 && c[s][a].raw == 0
}

/// Whether the values `q`, the weights `c` and the policy `policy` are what
/// a run of off-policy control over `count` episodes ends with; a pair that
/// none of these episodes visits has kept the value zero.
pub open spec fn weighted_trained<E: MonteCarloEnvironment>(
    first: E,
    last: E,
    q: Seq<Seq<Fixed>>,
    c: Seq<Seq<Fixed>>,
    policy: Seq<usize>,
    count: nat,
    states: nat,
    actions: nat,
    cap: nat,
    gamma: Fixed,
    epsilon: Fixed,
) -> bool {
    exists|
        worlds: Seq<E>,
        estimates: Seq<Weighted>,
        episodes: Seq<Seq<Visit>>,
        shares: Seq<Seq<Fixed>>,
    | #[trigger]
        weighted_chain(worlds, estimates, episodes, shares, states, actions, cap, gamma, epsilon)
            && episodes.len() == count && worlds[0] == first && worlds[count as int] == last
            && estimates[count as int].q == q
            && estimates[count as int].c == c && estimates[count as int].policy == policy
            && unvisited_zero(episodes, q, c, states, actions)
}

/// Whether the cumulative weights tell which values were learned: no weight
/// is negative, and a pair whose weight is zero has the value zero.
pub open spec fn weights_sound(q: Seq<Seq<Fixed>>, c: Seq<Seq<Fixed>>) -> bool {
    forall|s: int, a: int|
        0 <= s < c.len() && 0 <= a < c[s].len() ==> (#[trigger] c[s][a]).raw >= 0 && (c[s][a].raw
            == 0 ==> q[s][a].raw == 0)
}

/// The state of the pass that the tables and the weight hold.
pub open spec fn kept(
    q: &Vec<Vec<Fixed>>,
    c: &Vec<Vec<Fixed>>,
    policy: &DeterministicPolicy,
    w: Fixed,
    stopped: bool,
) -> Weighted {
    Weighted { q: rows(q@), c: rows(c@), policy: policy@, w, stopped }
}

/// One step of the backward pass. Returns the weight for the step before,
/// and whether the pass ends here.
pub fn weigh_in(
    q: &mut Vec<Vec<Fixed>>,
    c: &mut Vec<Vec<Fixed>>,
    policy: &mut DeterministicPolicy,
    w: Fixed,
    s: usize,
    a: usize,
    g: Fixed,
    behaviour: Fixed,
) -> (out: (Fixed, bool))
    requires
        old(policy).wf(),
        shaped(rows(old(q)@), old(policy).state_count(), old(policy).action_count()),
        shaped(rows(old(c)@), old(policy).state_count(), old(policy).action_count()),
        s < old(policy).state_count(),
        a < old(policy).action_count(),
    ensures
        final(policy).wf(),
        final(policy).state_count() == old(policy).state_count(),
        final(policy).action_count() == old(policy).action_count(),
        shaped(rows(final(q)@), old(policy).state_count(), old(policy).action_count()),
        shaped(rows(final(c)@), old(policy).state_count(), old(policy).action_count()),
        kept(final(q), final(c), final(policy), out.0, out.1) == weighed_in(
            kept(old(q), old(c), old(policy), w, false),
            s as int,
            a as int,
            g,
            behaviour,
        ),
        greedy_where_learned(rows(old(q)@), old(policy)@) ==> greedy_where_learned(
            rows(final(q)@),
            final(policy)@,
        ),
        weights_sound(rows(old(q)@), rows(old(c)@)) && w.raw >= SCALE && behaviour.is_unit()
            ==> weights_sound(rows(final(q)@), rows(final(c)@)) && out.0.raw >= SCALE,
{
    let ghost before = kept(q, c, policy, w, false);
    assert(rows(q@)[s as int].len() == policy.action_count());
    assert(rows(c@)[s as int].len() == policy.action_count());
    let total: Fixed = c[s][a].sat_add(w);
    c[s][a] = total;
    let ratio: Fixed = match w.checked_div(total) {
        Some(ratio) => ratio,
        None => Fixed { raw: 0 },
    };
    let value: Fixed = q[s][a].sat_add(ratio.sat_mul(g.sat_sub(q[s][a])));
    q[s][a] = value;
    let best: usize = argmax_row(&q[s]);
    policy.assign(s, best);
    let stopped: bool = a != best || behaviour.raw == 0;
    let next: Fixed = if stopped {
        w
    } else {
        proof {
            if w.raw >= SCALE && behaviour.is_unit() {
                lemma_div_by_fraction(w, behaviour);
            }
        }
        match w.checked_div(behaviour) {
            Some(next) => next,
            None => w,
        }
    };
    proof {
        let after = weighed_in(before, s as int, a as int, g, behaviour);
        assert(rows(q@) =~~= after.q);
        assert(rows(c@) =~~= after.c);
        assert(policy@ =~= after.policy);
        if greedy_where_learned(rows(old(q)@), old(policy)@) {
            assert forall|t: int| 0 <= t < rows(q@).len() implies policy@[t] == row_argmax(
                #[trigger] rows(q@)[t],
            ) || row_is_zero(rows(q@)[t]) by {
                if t != s {
                    assert(rows(q@)[t] == rows(old(q)@)[t]);
                }
            }
        }
        if weights_sound(rows(old(q)@), rows(old(c)@)) && w.raw >= SCALE && behaviour.is_unit() {
            assert(rows(old(c)@)[s as int][a as int].raw >= 0);
            assert forall|t: int, b: int|
                0 <= t < rows(c@).len() && 0 <= b < rows(c@)[t].len() implies (#[trigger] rows(
                c@,
            )[t][b]).raw >= 0 && (rows(c@)[t][b].raw == 0 ==> rows(q@)[t][b].raw == 0) by {
                if t == s && b == a {
                } else {
                    assert(rows(old(c)@)[t][b].raw >= 0);
                    assert(rows(c@)[t][b] == rows(old(c)@)[t][b]);
                    assert(rows(q@)[t][b] == rows(old(q)@)[t][b]);
                }
            }
        }
    }
    (next, stopped)
}

/// The backward pass of off-policy control over one episode, from its last
/// step back, until a step that the target policy would not have taken.
/// `behaviour` holds, for each step, the probability with which the
/// behaviour policy took its action.
pub fn weighted_update(
    q: &mut Vec<Vec<Fixed>>,
    c: &mut Vec<Vec<Fixed>>,
    policy: &mut DeterministicPolicy,
    episode: &Vec<Visit>,
    behaviour: &Vec<Fixed>,
    gamma: Fixed,
)
    requires
        old(policy).wf(),
        shaped(rows(old(q)@), old(policy).state_count(), old(policy).action_count()),
        shaped(rows(old(c)@), old(policy).state_count(), old(policy).action_count()),
        within(episode@, old(policy).state_count(), old(policy).action_count()),
        behaviour.len() == episode.len(),
    ensures
        final(policy).wf(),
        final(policy).state_count() == old(policy).state_count(),
        final(policy).action_count() == old(policy).action_count(),
        shaped(rows(final(q)@), old(policy).state_count(), old(policy).action_count()),
        shaped(rows(final(c)@), old(policy).state_count(), old(policy).action_count()),
        ({
            let end = weighted_pass(
                kept(old(q), old(c), old(policy), Fixed { raw: SCALE }, false),
                episode@,
                behaviour@,
                gamma,
                0,
            );
            rows(final(q)@) == end.q && rows(final(c)@) == end.c && final(policy)@ == end.policy
        }),
        greedy_where_learned(rows(old(q)@), old(policy)@) ==> greedy_where_learned(
            rows(final(q)@),
            final(policy)@,
        ),
        weights_sound(rows(old(q)@), rows(old(c)@)) && (forall|i: int|
            0 <= i < behaviour.len() ==> (#[trigger] behaviour[i]).is_unit()) ==> weights_sound(
            rows(final(q)@),
            rows(final(c)@),
        ),
{
    let ghost start = kept(q, c, policy, Fixed { raw: SCALE }, false);
    let mut g: Fixed = Fixed { raw: 0 };
    let mut w: Fixed = Fixed { raw: SCALE };
    let mut stopped: bool = false;
    let mut i: usize = episode.len();
    while i > 0 && !stopped
        invariant
            i <= episode.len(),
            behaviour.len() == episode.len(),
            policy.wf(),
            policy.state_count() == old(policy).state_count(),
            policy.action_count() == old(policy).action_count(),
            shaped(rows(q@), old(policy).state_count(), old(policy).action_count()),
            shaped(rows(c@), old(policy).state_count(), old(policy).action_count()),
            within(episode@, old(policy).state_count(), old(policy).action_count()),
            greedy_where_learned(rows(old(q)@), old(policy)@) ==> greedy_where_learned(
                rows(q@),
                policy@,
            ),
            weights_sound(rows(old(q)@), rows(old(c)@)) && (forall|k: int|
                0 <= k < behaviour.len() ==> (#[trigger] behaviour[k]).is_unit()) ==> weights_sound(
                rows(q@),
                rows(c@),
            ) && w.raw >= SCALE,
            !stopped ==> g == return_from(episode@, gamma, i as int),
            kept(q, c, policy, w, stopped) == weighted_pass(
                start,
                episode@,
                behaviour@,
                gamma,
                i as int,
            ),
        decreases i,
    {
        i = i - 1;
        let visit: Visit = episode[i];
        g = gamma.sat_mul(g).sat_add(visit.reward);
        let out = weigh_in(q, c, policy, w, visit.state, visit.action, g, behaviour[i]);
        w = out.0;
        stopped = out.1;
    }
    proof {
        if stopped {
            lemma_stopped_stays(start, episode@, behaviour@, gamma, i as int, 0);
        }
    }
}

/// One episode under the epsilon-greedy behaviour of `policy`, cut off after
/// `max_steps` steps: the steps, and for each the probability with which the
/// behaviour took its action. The episode runs until the environment says
/// that it is over, unless it is cut off.
pub fn generate_episode<E: MonteCarloEnvironment>(
    env: &mut E,
    policy: &DeterministicPolicy,
    epsilon: Fixed,
    max_steps: usize,
    rng: &mut RandomSource,
) -> (out: (Vec<Visit>, Vec<Fixed>))
    requires
        old(env).well_formed(),
        policy.wf(),
        policy.state_count() == old(env).states(),
        policy.action_count() == old(env).actions(),
        epsilon.is_unit(),
    ensures
        final(env).well_formed(),
        final(env).states() == old(env).states(),
        final(env).actions() == old(env).actions(),
        final(env).rewards() == old(env).rewards(),
        within(out.0@, old(env).states(), old(env).actions()),
        out.0.len() <= max_steps,
        out.0.len() < max_steps ==> final(env).game_over(),
        out.1.len() == out.0.len(),
        forall|i: int| 0 <= i < out.1.len() ==> (#[trigger] out.1[i]).is_unit(),
        forall|i: int|
            0 <= i < out.1.len() ==> is_behaviour_share(
                #[trigger] out.1[i],
                policy@[out.0[i].state as int],
                epsilon,
                out.0[i].action,
            ),
        weighted_episode_ran(
            *old(env),
            *final(env),
            out.0@,
            out.1@,
            policy@,
            epsilon,
            max_steps as nat,
        ),
{
    env.reset(rng);
    let mut episode: Vec<Visit> = Vec::new();
    let mut behaviour: Vec<Fixed> = Vec::new();
    let mut steps: usize = 0;
    let ghost mut walk: Seq<E> = seq![*env];
    while steps < max_steps && !env.is_game_over()
        invariant
            walk.len() == steps + 1,
            old(env).begins(&walk[0]),
            walk[steps as int] == *env,
            forall|i: int| 0 <= i < steps ==> #[trigger] visit_link(walk, episode@, i),
            forall|i: int|
                0 <= i < steps ==> #[trigger] follows(walk, episode@, policy@, epsilon, i),
            forall|i: int|
                0 <= i < steps ==> #[trigger] share_link(
                    walk,
                    episode@,
                    behaviour@,
                    policy@,
                    epsilon,
                    i,
                ),
            env.well_formed(),
            env.states() == old(env).states(),
            env.actions() == old(env).actions(),
            env.rewards() == old(env).rewards(),
            policy.wf(),
            policy.state_count() == old(env).states(),
            policy.action_count() == old(env).actions(),
            epsilon.is_unit(),
            steps <= max_steps,
            episode.len() == steps,
            behaviour.len() == steps,
            within(episode@, old(env).states(), old(env).actions()),
            forall|i: int| 0 <= i < behaviour.len() ==> (#[trigger] behaviour[i]).is_unit(),
            forall|i: int|
                0 <= i < behaviour.len() ==> is_behaviour_share(
                    #[trigger] behaviour[i],
                    policy@[episode[i].state as int],
                    epsilon,
                    episode[i].action,
                ),
        decreases max_steps - steps,
    {
        let s: usize = env.state_id();
        let actions: Vec<usize> = env.available_actions();
        let stored: usize = policy.action_at(s);
        let forbidden: bool = env.is_forbidden(stored);
        let explore_draw: Fixed = rng.unit();
        let pick: usize = rng.below(actions.len());
        let a: usize = behaviour_action(stored, forbidden, &actions, epsilon, explore_draw, pick);
        let p: Fixed = behaviour_probability(stored, forbidden, actions.len(), epsilon, a);
        let ghost before = episode@;
        let ghost recorded = behaviour@;
        let outcome = env.step(a, rng);
        episode.push(Visit { state: s, action: a, reward: outcome.1 });
        behaviour.push(p);
        proof {
            let walk2 = walk.push(*env);
            assert forall|i: int| 0 <= i < steps + 1 implies #[trigger] visit_link(
                walk2,
                episode@,
                i,
            ) by {
                if i < steps {
                    assert(visit_link(walk, before, i));
                    assert(walk2[i] == walk[i]);
                    assert(walk2[i + 1] == walk[i + 1]);
                    assert(episode@[i] == before[i]);
                }
            }
            assert forall|i: int| 0 <= i < steps + 1 implies #[trigger] follows(
                walk2,
                episode@,
                policy@,
                epsilon,
                i,
            ) by {
                if i < steps {
                    assert(follows(walk, before, policy@, epsilon, i));
                    assert(walk2[i] == walk[i]);
                    assert(episode@[i] == before[i]);
                }
            }
            assert forall|i: int| 0 <= i < steps + 1 implies #[trigger] share_link(
                walk2,
                episode@,
                behaviour@,
                policy@,
                epsilon,
                i,
            ) by {
                if i < steps {
                    assert(share_link(walk, before, recorded, policy@, epsilon, i));
                    assert(walk2[i] == walk[i]);
                    assert(episode@[i] == before[i]);
                    assert(behaviour@[i] == recorded[i]);
                }
            }
            walk = walk2;
        }
        steps = steps + 1;
    }
    proof {
        assert(visits_walked(*old(env), *env, walk, episode@, false, max_steps as nat));
        assert(weighted_episode_ran(
            *old(env),
            *env,
            episode@,
            behaviour@,
            policy@,
            epsilon,
            max_steps as nat,
        ));
    }
    (episode, behaviour)
}

/// Off-policy Monte Carlo control with importance sampling: `episodes`
/// episodes under a behaviour that is epsilon-greedy for the target policy,
/// each worked through from its last step back by [`weighted_update`].
///
/// Returns the target policy, the action values and the cumulative weights.
/// Whatever was drawn, the policy is greedy for the values in every state of
/// which anything was learned, and a pair that was never weighed in has the
/// weight zero and the value zero. Fails with `InvalidParameter`, before
/// anything is drawn or stepped, when `gamma` or `epsilon_behavior` lies
/// outside the unit interval or the environment has no action.
pub fn off_policy_mc_control<E: MonteCarloEnvironment>(
    env: &mut E,
    episodes: usize,
    gamma: Fixed,
    epsilon_behavior: Fixed,
    max_steps: usize,
    rng: &mut RandomSource,
) -> (res: Result<(DeterministicPolicy, Vec<Vec<Fixed>>, Vec<Vec<Fixed>>), RlError>)
    requires
        old(env).well_formed(),
    ensures
        final(env).well_formed(),
        final(env).states() == old(env).states(),
        final(env).actions() == old(env).actions(),
        final(env).rewards() == old(env).rewards(),
        match res {
            Ok(out) => {
                &&& admissible(gamma, epsilon_behavior, old(env).actions())
                &&& out.0.wf()
                &&& out.0.state_count() == old(env).states()
                &&& out.0.action_count() == old(env).actions()
                &&& shaped(rows(out.1@), old(env).states(), old(env).actions())
                &&& shaped(rows(out.2@), old(env).states(), old(env).actions())
                &&& greedy_where_learned(rows(out.1@), out.0@)
                &&& weights_sound(rows(out.1@), rows(out.2@))
                &&& weighted_trained(
                    *old(env),
                    *final(env),
                    rows(out.1@),
                    rows(out.2@),
                    out.0@,
                    episodes as nat,
                    old(env).states(),
                    old(env).actions(),
                    max_steps as nat,
                    gamma,
                    epsilon_behavior,
                )
            },
            Err(e) => {
                &&& e == RlError::InvalidParameter
                &&& !admissible(gamma, epsilon_behavior, old(env).actions())
                &&& *final(env) == *old(env)
            },
        },
{
    if !gamma.in_unit_interval() || !epsilon_behavior.in_unit_interval() || env.num_actions()
        == 0 {
        return Err(RlError::InvalidParameter);
    }
    let num_states: usize = env.num_states();
    let num_actions: usize = env.num_actions();
    let mut q: Vec<Vec<Fixed>> = dense(num_states, num_actions, Fixed { raw: 0 });
    let mut c: Vec<Vec<Fixed>> = dense(num_states, num_actions, Fixed { raw: 0 });
    let mut policy: DeterministicPolicy = DeterministicPolicy::new_det_pol(env, rng);
    let mut ep: usize = 0;
    let ghost one = Fixed { raw: SCALE };
    let ghost mut estimates: Seq<Weighted> = seq![kept(&q, &c, &policy, one, false)];
    let ghost mut runs: Seq<Seq<Visit>> = Seq::empty();
    let ghost mut shares: Seq<Seq<Fixed>> = Seq::empty();
    let ghost mut worlds: Seq<E> = seq![*env];
    while ep < episodes
        invariant
            env.well_formed(),
            env.states() == old(env).states(),
            env.actions() == old(env).actions(),
            env.rewards() == old(env).rewards(),
            epsilon_behavior.is_unit(),
            policy.wf(),
            policy.state_count() == old(env).states(),
            policy.action_count() == old(env).actions(),
            shaped(rows(q@), old(env).states(), old(env).actions()),
            shaped(rows(c@), old(env).states(), old(env).actions()),
            greedy_where_learned(rows(q@), policy@),
            weights_sound(rows(q@), rows(c@)),
            ep <= episodes,
            one.raw == SCALE,
            estimates.len() == ep + 1,
            runs.len() == ep,
            shares.len() == ep,
            estimates[ep as int] == kept(&q, &c, &policy, one, false),
            worlds.len() == ep + 1,
            worlds[0] == *old(env),
            worlds[ep as int] == *env,
            weighted_chain(
                worlds,
                estimates,
                runs,
                shares,
                old(env).states(),
                old(env).actions(),
                max_steps as nat,
                gamma,
                epsilon_behavior,
            ),
            unvisited_zero(runs, rows(q@), rows(c@), old(env).states(), old(env).actions()),
        decreases episodes - ep,
    {
        let generated = generate_episode(env, &policy, epsilon_behavior, max_steps, rng);
        let ghost before = kept(&q, &c, &policy, one, false);
        weighted_update(&mut q, &mut c, &mut policy, &generated.0, &generated.1, gamma);
        proof {
            let longer = estimates.push(kept(&q, &c, &policy, one, false));
            let more = runs.push(generated.0@);
            let wider = shares.push(generated.1@);
            let further = worlds.push(*env);
            assert(recorded_shares(generated.1@, generated.0@, before.policy, epsilon_behavior));
            assert forall|k: int| 0 <= k < more.len() implies within(
                #[trigger] more[k],
                old(env).states(),
                old(env).actions(),
            ) && more[k].len() <= max_steps && recorded_shares(
                wider[k],
                more[k],
                longer[k].policy,
                epsilon_behavior,
            ) && weighted_episode_ran(
                further[k],
                further[k + 1],
                more[k],
                wider[k],
                longer[k].policy,
                epsilon_behavior,
                max_steps as nat,
            ) && same_tables(
                longer[k + 1],
                weighted_pass(restarted(longer[k]), more[k], wider[k], gamma, 0),
            ) by {
                if k < ep {
                    assert(more[k] == runs[k]);
                    assert(wider[k] == shares[k]);
                    assert(further[k] == worlds[k]);
                    assert(further[k + 1] == worlds[k + 1]);
                    assert(longer[k] == estimates[k]);
                    assert(longer[k + 1] == estimates[k + 1]);
                } else {
                    assert(longer[k] == before);
                    assert(restarted(before) == before);
                }
            }
            assert forall|s: int, a: int|
                0 <= s < old(env).states() && 0 <= a < old(env).actions() && !visited(
                    more,
                    s,
                    a,
                ) implies (#[trigger] rows(q@)[s][a]).raw == 0 && rows(c@)[s][a].raw == 0 by {
                if visited(runs, s, a) {
                    let k = choose|k: int|
                        0 <= k < runs.len() && occurs_from(#[trigger] runs[k], 0, s, a);
                    assert(more[k] == runs[k]);
                    assert(visited(more, s, a));
                }
                if occurs_from(generated.0@, 0, s, a) {
                    assert(more[ep as int] == generated.0@);
                    assert(visited(more, s, a));
                }
                lemma_pass_keeps_unvisited(
                    before,
                    generated.0@,
                    generated.1@,
                    gamma,
                    0,
                    old(env).states(),
                    old(env).actions(),
                    s,
                    a,
                );
                assert(before.q[s][a].raw == 0);
            }
            estimates = longer;
            runs = more;
            shares = wider;
            worlds = further;
        }
        ep = ep + 1;
    }
    proof {
        assert(weighted_trained(
            *old(env),
            *env,
            rows(q@),
            rows(c@),
            policy@,
            episodes as nat,
            old(env).states(),
            old(env).actions(),
            max_steps as nat,
            gamma,
            epsilon_behavior,
        ));
    }
    Ok((policy, q, c))
}

} // verus!
