use vstd::prelude::*;

use crate::envs::addresses;
use crate::envs::DPEnvironment;
use crate::envs::DynamicProgramingEnvironment;
use crate::envs::Environment;
use crate::envs::MonteCarloEnvironment;
use crate::fixed::whole;
use crate::fixed::Fixed;
use crate::fixed::SCALE;
use crate::random::RandomSource;

verus! {

/// What the agent's hand earns against the adversary's, the hands being
/// rock (0), paper (1) and scissors (2): nothing for a draw, minus one where
/// the adversary's hand beats the agent's, one otherwise.
pub open spec fn hand_result(hand: int, adversary: int) -> int {
    if hand == adversary {
        0
    } else if adversary == (hand + 1) % 3 {
        -1
    } else {
        1
    }
}

/// What the agent's hand earns against the adversary's.
fn play(hand: usize, adversary: usize) -> (result: i64)
    requires
        hand < 3,
        adversary < 3,
    ensures
        result == hand_result(hand as int, adversary as int),
{
    if hand == adversary {
        0
    } else if adversary == (hand + 1) % 3 {
        -1
    } else {
        1
    }
}

/// Whether, in the model of the game, taking `action` in `state` has an
/// outcome in `state_prime` with the reward of index `reward_index` in the
/// first round, against an adversary who plays at random: each of the three
/// rewards is as likely as the others, up to one raw unit.
pub open spec fn first_round(state: int, action: int, state_prime: int) -> bool {
    state == 0 && state_prime == 1 + action
}

/// Whether that transition is the one of the second round, in which the
/// adversary plays the hand that names the state.
pub open spec fn second_round(state: int, action: int, state_prime: int, reward_index: int) -> bool {
    1 <= state <= 3 && state_prime == 4 && reward_index == 1 + hand_result(action, state - 1)
}

/// The probability of the `reward_index`-th of three equally likely rewards:
/// the thirds of one, the first of them one raw unit larger so that they sum
/// to exactly one.
pub open spec fn third(reward_index: int) -> int {
    if reward_index == 0 {
        SCALE / 3 + 1
    } else {
        SCALE / 3
    }
}

/// The transition model of two rounds of rock, paper, scissors: 13 states, a
/// hand per action, rewards -1, 0 and 1, and the states from 4 on terminal.
pub fn pierre_feuille_ciseaux_dp() -> (env: DPEnvironment)
    ensures
        env.well_formed(),
        env.states() == 13,
        env.actions() == 3,
        env.rewards() == 3,
        env.terminals() == seq![4usize, 5usize, 6usize, 7usize, 8usize, 9usize, 10usize, 11usize, 12usize],
        env.reward(0) == whole(-1),
        env.reward(1) == whole(0),
        env.reward(2) == whole(1),
        forall|s: int, a: int, p: int, r: int|
            addresses(&env, s, a, p, r) ==> (#[trigger] env.transition(s, a, p, r)).raw
                == if first_round(s, a, p) {
                third(r)
            } else if second_round(s, a, p, r) {
                SCALE as int
            } else {
                0
            },
{
    let loss: Fixed = Fixed::from_int(-1);
    let nothing: Fixed = Fixed::from_int(0);
    let gain: Fixed = Fixed::from_int(1);
    let rewards: Vec<Fixed> = vec![loss, nothing, gain];
    let terminal_states: Vec<usize> = vec![4, 5, 6, 7, 8, 9, 10, 11, 12];
    let mut env: DPEnvironment = match DPEnvironment::new(13, 3, 3, rewards, terminal_states) {
        Ok(env) => env,
        Err(_) => vstd::pervasive::unreached(),
    };
    let one: Fixed = Fixed { raw: SCALE };
    let mut a: usize = 0;
    while a < 3
        invariant
            a <= 3,
            env.well_formed(),
            env.states() == 13,
            env.actions() == 3,
            env.rewards() == 3,
            env.terminals() == seq![4usize, 5usize, 6usize, 7usize, 8usize, 9usize, 10usize, 11usize, 12usize],
            env.reward(0) == whole(-1),
            env.reward(1) == whole(0),
            env.reward(2) == whole(1),
            forall|s: int, b: int, p: int, r: int|
                addresses(&env, s, b, p, r) ==> (#[trigger] env.transition(s, b, p, r)).raw == if b
                    < a && first_round(s, b, p) {
                    third(r)
                } else {
                    0
                },
        decreases 3 - a,
    {
        env.put_transition(0, a, 1 + a, 0, Fixed { raw: SCALE / 3 + 1 });
        env.put_transition(0, a, 1 + a, 1, Fixed { raw: SCALE / 3 });
        env.put_transition(0, a, 1 + a, 2, Fixed { raw: SCALE / 3 });
        a = a + 1;
    }
    let mut s: usize = 1;
    while s < 4
        invariant
            1 <= s <= 4,
            one.raw == SCALE,
            env.well_formed(),
            env.states() == 13,
            env.actions() == 3,
            env.rewards() == 3,
            env.terminals() == seq![4usize, 5usize, 6usize, 7usize, 8usize, 9usize, 10usize, 11usize, 12usize],
            env.reward(0) == whole(-1),
            env.reward(1) == whole(0),
            env.reward(2) == whole(1),
            forall|t: int, b: int, p: int, r: int|
                addresses(&env, t, b, p, r) ==> (#[trigger] env.transition(t, b, p, r)).raw
                    == if first_round(t, b, p) {
                    third(r)
                } else if t < s && second_round(t, b, p, r) {
                    SCALE as int
                } else {
                    0
                },
        decreases 4 - s,
    {
        let mut a: usize = 0;
        while a < 3
            invariant
                1 <= s < 4,
                a <= 3,
                one.raw == SCALE,
                env.well_formed(),
                env.states() == 13,
                env.actions() == 3,
                env.rewards() == 3,
                env.terminals() == seq![4usize, 5usize, 6usize, 7usize, 8usize, 9usize, 10usize, 11usize, 12usize],
                env.reward(0) == whole(-1),
                env.reward(1) == whole(0),
                env.reward(2) == whole(1),
                forall|t: int, b: int, p: int, r: int|
                    addresses(&env, t, b, p, r) ==> (#[trigger] env.transition(t, b, p, r)).raw
                        == if first_round(t, b, p) {
                        third(r)
                    } else if (t < s || (t == s && b < a)) && second_round(t, b, p, r) {
                        SCALE as int
                    } else {
                        0
                    },
            decreases 3 - a,
        {
            let result: i64 = play(a, s - 1);
            let reward_index: usize = if result < 0 {
                0
            } else if result == 0 {
                1
            } else {
                2
            };
            env.put_transition(s, a, 4, reward_index, one);
            a = a + 1;
        }
        s = s + 1;
    }
    env
}

/// Two rounds of rock, paper, scissors. In the first round the adversary
/// plays at random, in the second the hand the agent played in the first.
#[derive(Debug)]
pub struct PierreFeuilleCiseaux {
    pub round_number: usize,
    pub last_action: usize,
    pub adv_action: usize,
    pub score: Fixed,
}

/// The state of the game: 0 before the first round; after it, 1 and the
/// adversary's hand; after the second, 4 and both last hands.
pub open spec fn game_state(round_number: int, last_action: int, adv_action: int) -> int {
    if round_number == 0 {
        0
    } else if round_number == 1 {
        1 + adv_action
    } else {
        4 + last_action * 3 + adv_action
    }
}

impl PierreFeuilleCiseaux {
    /// A game before its first round.
    pub fn new() -> (env: Self)
        ensures
            env.well_formed(),
            env.round_number == 0,
            env.score.raw == 0,
    {
        PierreFeuilleCiseaux {
            round_number: 0,
            last_action: 0,
            adv_action: 0,
            score: Fixed { raw: 0 },
        }
    }
}

impl Environment for PierreFeuilleCiseaux {
    open spec fn well_formed(&self) -> bool {
        self.round_number <= 2 && self.last_action < 3 && self.adv_action < 3
    }

    open spec fn states(&self) -> nat {
        13
    }

    open spec fn actions(&self) -> nat {
        3
    }

    open spec fn rewards(&self) -> nat {
        3
    }

    fn num_states(&self) -> usize {
        13
    }

    fn num_actions(&self) -> usize {
        3
    }

    fn num_rewards(&self) -> usize {
        3
    }
}

impl MonteCarloEnvironment for PierreFeuilleCiseaux {
    open spec fn state(&self) -> nat {
        game_state(self.round_number as int, self.last_action as int, self.adv_action as int) as nat
    }

    open spec fn game_over(&self) -> bool {
        self.round_number >= 2
    }

    open spec fn forbidden(&self, action: usize) -> bool {
        action >= 3
    }

    open spec fn total(&self) -> Fixed {
        self.score
    }

    open spec fn available(&self) -> Seq<usize> {
        seq![0usize, 1usize, 2usize]
    }

    open spec fn begins(&self, first: &Self) -> bool {
        first.round_number == 0 && first.score.raw == 0
    }

    open spec fn begins_anywhere(&self, first: &Self) -> bool {
        -first.round_number * SCALE <= first.score.raw <= first.round_number * SCALE
    }

    open spec fn leads(&self, action: usize, next: &Self, reward: Fixed) -> bool {
        &&& next.round_number == self.round_number + 1
        &&& next.last_action == action
        &&& self.round_number == 1 ==> next.adv_action == self.last_action
        &&& reward == whole(hand_result(action as int, next.adv_action as int))
        &&& next.score == self.score.spec_add(reward)
    }

    fn reset(&mut self, rng: &mut RandomSource)
        ensures
            final(self).round_number == 0,
            final(self).score.raw == 0,
    {
        self.round_number = 0;
        self.last_action = 0;
        self.adv_action = 0;
        self.score = Fixed { raw: 0 };
    }

    /// Plays the hand `action`. The reward is that of the round alone; the
    /// score adds the rounds up.
    fn step(&mut self, action: usize, rng: &mut RandomSource) -> (outcome: (usize, Fixed))
        ensures
            final(self).round_number == old(self).round_number + 1,
            final(self).last_action == action,
            old(self).round_number == 1 ==> final(self).adv_action == old(self).last_action,
            outcome.1 == whole(hand_result(action as int, final(self).adv_action as int)),
            final(self).score == old(self).score.spec_add(outcome.1),
    {
        if self.round_number == 0 {
            self.adv_action = rng.below(3);
        } else {
            self.adv_action = self.last_action;
        }
        self.round_number = self.round_number + 1;
        self.last_action = action;
        let reward: Fixed = Fixed::from_int(play(self.last_action, self.adv_action));
        self.score = self.score.sat_add(reward);
        (self.state_id(), reward)
    }

    fn score(&self) -> (total: Fixed) {
        self.score
    }

    fn is_game_over(&self) -> (over: bool) {
        self.round_number >= 2
    }

    fn available_actions(&self) -> (list: Vec<usize>)
        ensures
            list@ == seq![0usize, 1usize, 2usize],
    {
        vec![0, 1, 2]
    }

    /// One character for the round and, once a round has been played, one
    /// for each of the two last hands, the agent's first: `R`, `P` or `S`.
    fn display(&self) -> (picture: String)
        ensures
            picture@ == game_picture(
                self.round_number as int,
                self.last_action as int,
                self.adv_action as int,
            ),
    {
        proof {
            reveal_strlit("0");
        }
        if self.round_number == 0 {
            return String::from_str("0");
        }
        proof {
            reveal_strlit("1");
            reveal_strlit("2");
            reveal_strlit("R");
            reveal_strlit("P");
            reveal_strlit("S");
        }
        let mut picture: String = if self.round_number == 1 {
            String::from_str("1")
        } else {
            String::from_str("2")
        };
        picture.append(hand_name(self.last_action));
        picture.append(hand_name(self.adv_action));
        proof {
            assert(picture@ =~= game_picture(
                self.round_number as int,
                self.last_action as int,
                self.adv_action as int,
            ));
        }
        picture
    }

    /// Starts a new game and plays up to two rounds of it with hands drawn
    /// at random: the score is that of the rounds played, at most one a
    /// round either way.
    fn start_from_random_state(&mut self, rng: &mut RandomSource)
        ensures
            -final(self).round_number * SCALE <= final(self).score.raw <= final(self).round_number
                * SCALE,
    {
        self.reset(rng);
        let nb_round: usize = rng.below(3);
        let mut played: usize = 0;
        while played < nb_round
            invariant
                self.well_formed(),
                played <= nb_round < 3,
                self.round_number == played,
                -played * SCALE <= self.score.raw <= played * SCALE,
            decreases nb_round - played,
        {
            let hand: usize = rng.below(3);
            self.step(hand, rng);
            played = played + 1;
        }
    }

    fn state_id(&self) -> (s: usize) {
        if self.round_number == 0 {
            0
        } else if self.round_number == 1 {
            1 + self.adv_action
        } else {
            4 + self.last_action * 3 + self.adv_action
        }
    }

    fn is_forbidden(&self, action: usize) -> (b: bool) {
        action >= 3
    }

    fn action_name(&self, action: usize) -> (label: String)
        ensures
            action == 0 ==> label@ == "Pierre"@,
            action == 1 ==> label@ == "Feuille"@,
            action == 2 ==> label@ == "Ciseaux"@,
            action >= 3 ==> label@.len() == 0,
    {
        if action == 0 {
            String::from_str("Pierre")
        } else if action == 1 {
            String::from_str("Feuille")
        } else if action == 2 {
            String::from_str("Ciseaux")
        } else {
            String::new()
        }
    }
}

/// The letter of a hand.
pub open spec fn hand_letter(hand: int) -> char {
    if hand == 0 {
        'R'
    } else if hand == 1 {
        'P'
    } else {
        'S'
    }
}

/// The picture of the game: the number of rounds played and, once a round
/// has been played, the letters of the two last hands, the agent's first.
pub open spec fn game_picture(round_number: int, last_action: int, adv_action: int) -> Seq<char> {
    if round_number == 0 {
        seq!['0']
    } else {
        seq![
            if round_number == 1 {
                '1'
            } else {
                '2'
            },
            hand_letter(last_action),
            hand_letter(adv_action),
        ]
    }
}

/// The letter of a hand.
fn hand_name(hand: usize) -> (name: &'static str)
    ensures
        name@ == seq![hand_letter(hand as int)],
{
    proof {
        reveal_strlit("R");
        reveal_strlit("P");
        reveal_strlit("S");
    }
    if hand == 0 {
        "R"
    } else if hand == 1 {
        "P"
    } else {
        "S"
    }
}

} // verus!
