use vstd::prelude::*;

use crate::algorithms::planning::helpers::greedy_choice;
use crate::envs::Environment;
use crate::envs::MonteCarloEnvironment;
use crate::environments::line_world::line_score;
use crate::environments::line_world::LineWorld;
use crate::fixed::Fixed;
use crate::qtable::QTable;
use crate::random::RandomSource;

verus! {

/// The cell the agent stands on.
pub fn current_state(env: &LineWorld) -> (pos: usize)
    ensures
        pos == env.agent_pos,
{
    env.agent_pos
}

/// Takes `action` in the corridor and reports the reward and the cell
/// reached.
pub fn environment_step(env: &mut LineWorld, action: usize, rng: &mut RandomSource) -> (out: (
    Fixed,
    usize,
))
    requires
        old(env).well_formed(),
        !old(env).game_over(),
        action < 2,
    ensures
        final(env).well_formed(),
        action == 0 ==> final(env).agent_pos == old(env).agent_pos - 1,
        action == 1 ==> final(env).agent_pos == old(env).agent_pos + 1,
        out.0 == line_score(final(env).agent_pos as int),
        out.1 == final(env).agent_pos,
{
    let outcome = env.step(action, rng);
    (outcome.1, outcome.0)
}

/// Epsilon-greedy selection, as
/// [`choose_action`](crate::algorithms::planning::helpers::choose_action)
/// makes it: with probability `epsilon` an action drawn uniformly from
/// `actions`, otherwise the greedy one, the first of them where several are
/// equally good.
pub fn choose_action(
    q: &QTable,
    s: usize,
    actions: &Vec<usize>,
    epsilon: Fixed,
    rng: &mut RandomSource,
) -> (action: usize)
    requires
        actions.len() > 0,
    ensures
        exists|i: int| 0 <= i < actions.len() && actions[i] == action,
        epsilon.raw <= 0 ==> action == greedy_choice(q, s, actions@),
{
    crate::algorithms::planning::helpers::choose_action(q, s, actions, epsilon, rng)
}

} // verus!
