use vstd::prelude::*;

use crate::envs::addresses;
use crate::envs::DPEnvironment;
use crate::envs::DynamicProgramingEnvironment;
use crate::envs::Environment;
use crate::envs::MonteCarloEnvironment;
use crate::fixed::whole;
use crate::fixed::Fixed;
use crate::fixed::SCALE;
use crate::random::RandomSource;

verus! {

/// A corridor of five cells. The agent starts in the middle, moves one cell
/// left (action 0) or right (action 1), loses one at the left end and wins
/// one at the right end.
#[derive(Debug)]
pub struct LineWorld {
    pub agent_pos: usize,
}

/// What standing on cell `pos` is worth.
pub open spec fn line_score(pos: int) -> Fixed {
    if pos == 0 {
        whole(-1)
    } else if pos == 4 {
        whole(1)
    } else {
        whole(0)
    }
}

/// The picture of the corridor with the agent on cell `pos`.
pub open spec fn line_picture(pos: int) -> Seq<char> {
    Seq::new(
        5,
        |i: int|
            if i == pos {
                'A'
            } else {
                '-'
            },
    )
}

impl LineWorld {
    /// A corridor with the agent in the middle.
    pub fn new() -> (env: LineWorld)
        ensures
            env.well_formed(),
            env.agent_pos == 2,
    {
        LineWorld { agent_pos: 2 }
    }
}

impl Environment for LineWorld {
    open spec fn well_formed(&self) -> bool {
        self.agent_pos < 5
    }

    open spec fn states(&self) -> nat {
        5
    }

    open spec fn actions(&self) -> nat {
        2
    }

    open spec fn rewards(&self) -> nat {
        3
    }

    fn num_states(&self) -> usize {
        5
    }

    fn num_actions(&self) -> usize {
        2
    }

    fn num_rewards(&self) -> usize {
        3
    }
}

impl MonteCarloEnvironment for LineWorld {
    open spec fn state(&self) -> nat {
        self.agent_pos as nat
    }

    open spec fn game_over(&self) -> bool {
        self.agent_pos == 0 || self.agent_pos == 4
    }

    open spec fn forbidden(&self, action: usize) -> bool {
        action >= 2
    }

    open spec fn total(&self) -> Fixed {
        line_score(self.agent_pos as int)
    }

    open spec fn available(&self) -> Seq<usize> {
        seq![0usize, 1usize]
    }

    open spec fn begins(&self, first: &Self) -> bool {
        first.agent_pos == 2
    }

    open spec fn begins_anywhere(&self, first: &Self) -> bool {
        first.agent_pos < 5
    }

    open spec fn leads(&self, action: usize, next: &Self, reward: Fixed) -> bool {
        &&& action == 0 ==> next.agent_pos == self.agent_pos - 1
        &&& action == 1 ==> next.agent_pos == self.agent_pos + 1
        &&& reward == line_score(next.agent_pos as int)
    }

    fn reset(&mut self, rng: &mut RandomSource)
        ensures
            final(self).agent_pos == 2,
    {
        self.agent_pos = 2;
    }

    fn step(&mut self, action: usize, rng: &mut RandomSource) -> (outcome: (usize, Fixed))
        ensures
            action == 0 ==> final(self).agent_pos == old(self).agent_pos - 1,
            action == 1 ==> final(self).agent_pos == old(self).agent_pos + 1,
            outcome.1 == line_score(final(self).agent_pos as int),
    {
        if action == 0 {
            self.agent_pos = self.agent_pos - 1;
        } else {
            self.agent_pos = self.agent_pos + 1;
        }
        (self.agent_pos, self.score())
    }

    fn score(&self) -> (total: Fixed) {
        if self.agent_pos == 0 {
            Fixed::from_int(-1)
        } else if self.agent_pos == 4 {
            Fixed::from_int(1)
        } else {
            Fixed::from_int(0)
        }
    }

    fn is_game_over(&self) -> (over: bool) {
        self.agent_pos == 0 || self.agent_pos == 4
    }

    fn available_actions(&self) -> (list: Vec<usize>)
        ensures
            list@ == seq![0usize, 1usize],
    {
        vec![0, 1]
    }

    fn display(&self) -> (picture: String)
        ensures
            picture@ == line_picture(self.agent_pos as int),
    {
        let mut picture: String = String::new();
        let mut i: usize = 0;
        while i < 5
            invariant
                i <= 5,
                picture@.len() == i,
                forall|k: int| 0 <= k < i ==> picture@[k] == line_picture(self.agent_pos as int)[k],
            decreases 5 - i,
        {
            proof {
                reveal_strlit("A");
                reveal_strlit("-");
            }
            if i == self.agent_pos {
                picture.append("A");
            } else {
                picture.append("-");
            }
            i = i + 1;
        }
        proof {
            assert(picture@ =~= line_picture(self.agent_pos as int));
        }
        picture
    }

    fn start_from_random_state(&mut self, rng: &mut RandomSource) {
        self.reset(rng);
        self.agent_pos = rng.below(5);
    }

    fn state_id(&self) -> (s: usize) {
        self.agent_pos
    }

    fn is_forbidden(&self, action: usize) -> (b: bool) {
        action >= 2
    }

    fn action_name(&self, action: usize) -> (label: String)
        ensures
            label@.len() == 0,
    {
        String::new()
    }
}

/// Whether, in the corridor, taking `action` in `state` leads to
/// `state_prime` with the reward of index `reward_index`.
pub open spec fn line_moves(state: int, action: int, state_prime: int, reward_index: int) -> bool {
    &&& 1 <= state <= 3
    &&& state_prime == if action == 0 {
        state - 1
    } else {
        state + 1
    }
    &&& reward_index == if state_prime == 0 {
        0int
    } else if state_prime == 4 {
        2int
    } else {
        1int
    }
}

/// The transition model of the corridor: rewards -1, 0 and 1, the two ends
/// terminal, and every move certain.
pub fn line_world_dp() -> (env: DPEnvironment)
    ensures
        env.well_formed(),
        env.states() == 5,
        env.actions() == 2,
        env.rewards() == 3,
        env.terminals() == seq![0usize, 4usize],
        env.reward(0) == whole(-1),
        env.reward(1) == whole(0),
        env.reward(2) == whole(1),
        forall|s: int, a: int, p: int, r: int|
            addresses(&env, s, a, p, r) ==> (#[trigger] env.transition(s, a, p, r)).raw
                == if line_moves(s, a, p, r) {
                SCALE as int
            } else {
                0
            },
{
    let loss: Fixed = Fixed::from_int(-1);
    let nothing: Fixed = Fixed::from_int(0);
    let gain: Fixed = Fixed::from_int(1);
    let rewards: Vec<Fixed> = vec![loss, nothing, gain];
    let terminal_states: Vec<usize> = vec![0, 4];
    let mut env: DPEnvironment = match DPEnvironment::new(5, 2, 3, rewards, terminal_states) {
        Ok(env) => env,
        Err(_) => vstd::pervasive::unreached(),
    };
    let one: Fixed = Fixed { raw: SCALE };
    env.put_transition(3, 0, 2, 1, one);
    env.put_transition(2, 0, 1, 1, one);
    env.put_transition(1, 0, 0, 0, one);
    env.put_transition(3, 1, 4, 2, one);
    env.put_transition(2, 1, 3, 1, one);
    env.put_transition(1, 1, 2, 1, one);
    env
}

} // verus!
