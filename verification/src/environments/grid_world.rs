use vstd::prelude::*;

use crate::envs::addresses;
use crate::envs::DPEnvironment;
use crate::envs::DynamicProgramingEnvironment;
use crate::envs::Environment;
use crate::envs::MonteCarloEnvironment;
use crate::fixed::whole;
use crate::fixed::Fixed;
use crate::fixed::SCALE;
use crate::random::RandomSource;

verus! {

/// The cell reached from `pos` on the five by five grid by moving up
/// (action 0), down (1), left (2) or right (3); a move into a wall leaves the
/// agent where it is.
pub open spec fn grid_target(pos: int, action: int) -> int {
    let row = pos / 5;
    let col = pos % 5;
    if action == 0 && row > 0 {
        pos - 5
    } else if action == 1 && row < 4 {
        pos + 5
    } else if action == 2 && col > 0 {
        pos - 1
    } else if action == 3 && col < 4 {
        pos + 1
    } else {
        pos
    }
}

/// What standing on cell `pos` is worth: minus three in the top right
/// corner, one in the bottom right corner, nothing elsewhere.
pub open spec fn grid_score(pos: int) -> Fixed {
    if pos == 4 {
        whole(-3)
    } else if pos == 24 {
        whole(1)
    } else {
        whole(0)
    }
}

/// Index of the reward of cell `pos` among the values -3, 0 and 1.
pub open spec fn grid_reward_index(pos: int) -> int {
    if pos == 4 {
        0
    } else if pos == 24 {
        2
    } else {
        1
    }
}

/// The picture of the grid with the agent on cell `pos`: five lines of five
/// cells, each line ended by a line feed.
pub open spec fn grid_picture(pos: int) -> Seq<char> {
    Seq::new(
        30,
        |i: int|
            if i % 6 == 5 {
                '\n'
            } else if (i / 6) * 5 + i % 6 == pos {
                'A'
            } else {
                '.'
            },
    )
}

/// The cell reached from `pos` by `action`.
fn move_from(pos: usize, action: usize) -> (next: usize)
    requires
        pos < 25,
    ensures
        next == grid_target(pos as int, action as int),
        next < 25,
{
    let row: usize = pos / 5;
    let col: usize = pos % 5;
    if action == 0 && row > 0 {
        pos - 5
    } else if action == 1 && row < 4 {
        pos + 5
    } else if action == 2 && col > 0 {
        pos - 1
    } else if action == 3 && col < 4 {
        pos + 1
    } else {
        pos
    }
}

/// A five by five grid. The agent starts in the top left corner; the top
/// right corner ends the episode with a loss of three, the bottom right
/// corner with a gain of one.
#[derive(Debug)]
pub struct GridWorld {
    pub agent_pos: usize,
}

impl GridWorld {
    /// A grid with the agent in the top left corner.
    pub fn new() -> (env: Self)
        ensures
            env.well_formed(),
            env.agent_pos == 0,
    {
        Self { agent_pos: 0 }
    }
}

impl Environment for GridWorld {
    open spec fn well_formed(&self) -> bool {
        self.agent_pos < 25
    }

    open spec fn states(&self) -> nat {
        25
    }

    open spec fn actions(&self) -> nat {
        4
    }

    open spec fn rewards(&self) -> nat {
        3
    }

    fn num_states(&self) -> usize {
        25
    }

    fn num_actions(&self) -> usize {
        4
    }

    fn num_rewards(&self) -> usize {
        3
    }
}

impl MonteCarloEnvironment for GridWorld {
    open spec fn state(&self) -> nat {
        self.agent_pos as nat
    }

    open spec fn game_over(&self) -> bool {
        self.agent_pos == 4 || self.agent_pos == 24
    }

    open spec fn forbidden(&self, action: usize) -> bool {
        action >= 4
    }

    open spec fn total(&self) -> Fixed {
        grid_score(self.agent_pos as int)
    }

    open spec fn available(&self) -> Seq<usize> {
        seq![0usize, 1usize, 2usize, 3usize]
    }

    open spec fn begins(&self, first: &Self) -> bool {
        first.agent_pos == 0
    }

    open spec fn begins_anywhere(&self, first: &Self) -> bool {
        first.agent_pos < 25
    }

    open spec fn leads(&self, action: usize, next: &Self, reward: Fixed) -> bool {
        &&& next.agent_pos == grid_target(self.agent_pos as int, action as int)
        &&& reward == grid_score(next.agent_pos as int)
    }

    fn reset(&mut self, rng: &mut RandomSource)
        ensures
            final(self).agent_pos == 0,
    {
        self.agent_pos = 0;
    }

    fn step(&mut self, action: usize, rng: &mut RandomSource) -> (outcome: (usize, Fixed))
        ensures
            final(self).agent_pos == grid_target(old(self).agent_pos as int, action as int),
            outcome.1 == grid_score(final(self).agent_pos as int),
    {
        self.agent_pos = move_from(self.agent_pos, action);
        (self.agent_pos, self.score())
    }

    fn score(&self) -> (total: Fixed) {
        if self.agent_pos == 4 {
            Fixed::from_int(-3)
        } else if self.agent_pos == 24 {
            Fixed::from_int(1)
        } else {
            Fixed::from_int(0)
        }
    }

    fn is_game_over(&self) -> (over: bool) {
        self.agent_pos == 4 || self.agent_pos == 24
    }

    fn available_actions(&self) -> (list: Vec<usize>)
        ensures
            list@ == seq![0usize, 1usize, 2usize, 3usize],
    {
        vec![0, 1, 2, 3]
    }

    fn display(&self) -> (picture: String)
        ensures
            picture@ == grid_picture(self.agent_pos as int),
    {
        let mut picture: String = String::new();
        let mut row: usize = 0;
        while row < 5
            invariant
                row <= 5,
                picture@.len() == row * 6,
                forall|k: int|
                    0 <= k < row * 6 ==> picture@[k] == grid_picture(self.agent_pos as int)[k],
            decreases 5 - row,
        {
            let mut col: usize = 0;
            while col < 5
                invariant
                    row < 5,
                    col <= 5,
                    picture@.len() == row * 6 + col,
                    forall|k: int|
                        0 <= k < row * 6 + col ==> picture@[k] == grid_picture(
                            self.agent_pos as int,
                        )[k],
                decreases 5 - col,
            {
                proof {
                    reveal_strlit("A");
                    reveal_strlit(".");
                    assert((row * 6 + col) / 6 == row && (row * 6 + col) % 6 == col);
                }
                if row * 5 + col == self.agent_pos {
                    picture.append("A");
                } else {
                    picture.append(".");
                }
                col = col + 1;
            }
            proof {
                reveal_strlit("\n");
                assert((row * 6 + 5) % 6 == 5);
            }
            picture.append("\n");
            row = row + 1;
        }
        proof {
            assert(picture@ =~= grid_picture(self.agent_pos as int));
        }
        picture
    }

    fn start_from_random_state(&mut self, rng: &mut RandomSource) {
        self.agent_pos = rng.below(25);
    }

    fn state_id(&self) -> (s: usize) {
        self.agent_pos
    }

    fn is_forbidden(&self, action: usize) -> (b: bool) {
        action >= 4
    }

    fn action_name(&self, action: usize) -> (label: String)
        ensures
            action == 0 ==> label@ == "Haut"@,
            action == 1 ==> label@ == "Bas"@,
            action == 2 ==> label@ == "Gauche"@,
            action == 3 ==> label@ == "Droite"@,
            action >= 4 ==> label@.len() == 0,
    {
        if action == 0 {
            String::from_str("Haut")
        } else if action == 1 {
            String::from_str("Bas")
        } else if action == 2 {
            String::from_str("Gauche")
        } else if action == 3 {
            String::from_str("Droite")
        } else {
            String::new()
        }
    }
}

/// Whether, on the grid, taking `action` in `state` leads to `state_prime`
/// with the reward of index `reward_index`.
pub open spec fn grid_moves(state: int, action: int, state_prime: int, reward_index: int) -> bool {
    &&& state != 4
    &&& state != 24
    &&& state_prime == grid_target(state, action)
    &&& reward_index == grid_reward_index(state_prime)
}

/// The transition model of the grid: rewards -3, 0 and 1, the two right
/// corners terminal, and every move certain.
pub fn grid_world() -> (env: DPEnvironment)
    ensures
        env.well_formed(),
        env.states() == 25,
        env.actions() == 4,
        env.rewards() == 3,
        env.terminals() == seq![4usize, 24usize],
        env.reward(0) == whole(-3),
        env.reward(1) == whole(0),
        env.reward(2) == whole(1),
        forall|s: int, a: int, p: int, r: int|
            addresses(&env, s, a, p, r) ==> (#[trigger] env.transition(s, a, p, r)).raw
                == if grid_moves(s, a, p, r) {
                SCALE as int
            } else {
                0
            },
{
    let loss: Fixed = Fixed::from_int(-3);
    let nothing: Fixed = Fixed::from_int(0);
    let gain: Fixed = Fixed::from_int(1);
    let rewards: Vec<Fixed> = vec![loss, nothing, gain];
    let terminal_states: Vec<usize> = vec![4, 24];
    let mut env: DPEnvironment = match DPEnvironment::new(25, 4, 3, rewards, terminal_states) {
        Ok(env) => env,
        Err(_) => vstd::pervasive::unreached(),
    };
    let one: Fixed = Fixed { raw: SCALE };
    let mut s: usize = 0;
    while s < 25
        invariant
            s <= 25,
            one.raw == SCALE,
            env.well_formed(),
            env.states() == 25,
            env.actions() == 4,
            env.rewards() == 3,
            env.terminals() == seq![4usize, 24usize],
            env.reward(0) == whole(-3),
            env.reward(1) == whole(0),
            env.reward(2) == whole(1),
            forall|t: int, a: int, p: int, r: int|
                addresses(&env, t, a, p, r) ==> (#[trigger] env.transition(t, a, p, r)).raw == if t
                    < s && grid_moves(t, a, p, r) {
                    SCALE as int
                } else {
                    0
                },
        decreases 25 - s,
    {
        if s != 4 && s != 24 {
            let mut a: usize = 0;
            while a < 4
                invariant
                    s < 25,
                    s != 4 && s != 24,
                    a <= 4,
                    one.raw == SCALE,
                    env.well_formed(),
                    env.states() == 25,
                    env.actions() == 4,
                    env.rewards() == 3,
                    env.terminals() == seq![4usize, 24usize],
                    env.reward(0) == whole(-3),
                    env.reward(1) == whole(0),
                    env.reward(2) == whole(1),
                    forall|t: int, b: int, p: int, r: int|
                        addresses(&env, t, b, p, r) ==> (#[trigger] env.transition(t, b, p, r)).raw
                            == if (t < s || (t == s && b < a)) && grid_moves(t, b, p, r) {
                            SCALE as int
                        } else {
                            0
                        },
                decreases 4 - a,
            {
                let next: usize = move_from(s, a);
                let index: usize = if next == 4 {
                    0
                } else if next == 24 {
                    2
                } else {
                    1
                };
                env.put_transition(s, a, next, index, one);
                a = a + 1;
            }
        }
        s = s + 1;
    }
    env
}

} // verus!
