use vstd::prelude::*;

use crate::envs::addresses;
use crate::envs::DPEnvironment;
use crate::envs::DynamicProgramingEnvironment;
use crate::envs::Environment;
use crate::envs::MonteCarloEnvironment;
use crate::fixed::whole;
use crate::fixed::Fixed;
use crate::fixed::SCALE;
use crate::random::RandomSource;

verus! {

/// Whether, in the model of the three-door game, taking `action` in `state`
/// leads to `state_prime` with the reward of index `reward_index` with
/// certainty: the first choice of a door.
pub open spec fn monty_first(state: int, action: int, state_prime: int, reward_index: int) -> bool {
    state == 0 && state_prime == 1 + action && reward_index == 0
}

/// Whether that transition has probability one half: the second choice,
/// between the two doors that are left, which wins or loses.
pub open spec fn monty_second(state: int, action: int, state_prime: int) -> bool {
    1 <= state <= 3 && action < 2 && state_prime == 4 + state * 3 + action
}

/// The transition model of the three-door game: 36 states, a door per
/// action, rewards 0 and 1, and state 4 terminal. Actions that the game does
/// not offer in a state have no outcome at all, so a solver that asks for a
/// distribution in every state refuses this model.
pub fn monty_hall_lvl1_dp() -> (env: DPEnvironment)
    ensures
        env.well_formed(),
        env.states() == 36,
        env.actions() == 3,
        env.rewards() == 2,
        env.terminals() == seq![4usize],
        env.reward(0) == whole(0),
        env.reward(1) == whole(1),
        forall|s: int, a: int, p: int, r: int|
            addresses(&env, s, a, p, r) ==> (#[trigger] env.transition(s, a, p, r)).raw
                == if monty_first(s, a, p, r) {
                SCALE as int
            } else if monty_second(s, a, p) {
                SCALE / 2
            } else {
                0
            },
{
    let nothing: Fixed = Fixed::from_int(0);
    let gain: Fixed = Fixed::from_int(1);
    let rewards: Vec<Fixed> = vec![nothing, gain];
    let terminal_states: Vec<usize> = vec![4];
    let mut env: DPEnvironment = match DPEnvironment::new(36, 3, 2, rewards, terminal_states) {
        Ok(env) => env,
        Err(_) => vstd::pervasive::unreached(),
    };
    let one: Fixed = Fixed { raw: SCALE };
    let half: Fixed = Fixed { raw: SCALE / 2 };
    let mut a: usize = 0;
    while a < 3
        invariant
            a <= 3,
            one.raw == SCALE,
            env.well_formed(),
            env.states() == 36,
            env.actions() == 3,
            env.rewards() == 2,
            env.terminals() == seq![4usize],
            env.reward(0) == whole(0),
            env.reward(1) == whole(1),
            forall|s: int, b: int, p: int, r: int|
                addresses(&env, s, b, p, r) ==> (#[trigger] env.transition(s, b, p, r)).raw == if b
                    < a && monty_first(s, b, p, r) {
                    SCALE as int
                } else {
                    0
                },
        decreases 3 - a,
    {
        env.put_transition(0, a, 1 + a, 0, one);
        a = a + 1;
    }
    let mut a: usize = 0;
    while a < 2
        invariant
            a <= 2,
            half.raw == SCALE / 2,
            env.well_formed(),
            env.states() == 36,
            env.actions() == 3,
            env.rewards() == 2,
            env.terminals() == seq![4usize],
            env.reward(0) == whole(0),
            env.reward(1) == whole(1),
            forall|s: int, b: int, p: int, r: int|
                addresses(&env, s, b, p, r) ==> (#[trigger] env.transition(s, b, p, r)).raw
                    == if monty_first(s, b, p, r) {
                    SCALE as int
                } else if b < a && monty_second(s, b, p) {
                    SCALE / 2
                } else {
                    0
                },
        decreases 2 - a,
    {
        let mut s: usize = 1;
        while s < 4
            invariant
                a < 2,
                1 <= s <= 4,
                half.raw == SCALE / 2,
                env.well_formed(),
                env.states() == 36,
                env.actions() == 3,
                env.rewards() == 2,
                env.terminals() == seq![4usize],
                env.reward(0) == whole(0),
                env.reward(1) == whole(1),
                forall|t: int, b: int, p: int, r: int|
                    addresses(&env, t, b, p, r) ==> (#[trigger] env.transition(t, b, p, r)).raw
                        == if monty_first(t, b, p, r) {
                        SCALE as int
                    } else if (b < a || (b == a && t < s)) && monty_second(t, b, p) {
                        SCALE / 2
                    } else {
                        0
                    },
            decreases 4 - s,
        {
            let s_prime: usize = 4 + s * 3 + a;
            env.put_transition(s, a, s_prime, 0, half);
            env.put_transition(s, a, s_prime, 1, half);
            s = s + 1;
        }
        a = a + 1;
    }
    env
}

/// The game of the doors, played against a simulated host: the agent picks a
/// door, the host removes a door that is neither the pick nor the winning
/// one, and so on until two doors are left; the last pick wins one if it is
/// the winning door. Level 1 has three doors, level 2 five.
#[derive(Debug)]
pub struct MontyHallEnv {
    pub nb_porte: usize,
    pub porte_choisie: Option<usize>,
    pub porte_gagnante: usize,
    pub round: usize,
    pub portes_disponibles: Vec<usize>,
    pub lvl: usize,
    pub state_id: usize,
    pub nb_porte_initial: usize,
}

/// Number of doors at the start of a game of level `lvl`.
pub open spec fn doors_of_level(lvl: int) -> int {
    if lvl == 1 {
        3
    } else {
        5
    }
}

/// The number below which the state identifier lies while `doors` doors are
/// left in a game that began with `initial` of them. The identifier of a
/// state is that of the state before, times the number of doors there were,
/// plus the position of the door picked among them.
pub open spec fn id_bound(initial: int, doors: int) -> int {
    if initial == 3 {
        if doors == 3 {
            3
        } else {
            9
        }
    } else {
        if doors == 5 {
            5
        } else if doors == 4 {
            25
        } else if doors == 3 {
            100
        } else {
            300
        }
    }
}

/// Whether `door` is among `doors`.
pub open spec fn has_door(doors: Seq<usize>, door: usize) -> bool {
    exists|i: int| 0 <= i < doors.len() && #[trigger] doors[i] == door
}

impl MontyHallEnv {
    /// The position of `door` among the doors that are left, if it is one of
    /// them.
    pub fn position(&self, door: usize) -> (found: Option<usize>)
        ensures
            match found {
                Some(i) => i < self.portes_disponibles.len() && self.portes_disponibles[i as int]
                    == door,
                None => !has_door(self.portes_disponibles@, door),
            },
    {
        let mut i: usize = 0;
        while i < self.portes_disponibles.len()
            invariant
                i <= self.portes_disponibles.len(),
                forall|k: int| 0 <= k < i ==> self.portes_disponibles[k] != door,
            decreases self.portes_disponibles.len() - i,
        {
            if self.portes_disponibles[i] == door {
                return Some(i);
            }
            i = i + 1;
        }
        None
    }

    /// The positions of the doors that the host may remove: those that are
    /// neither the agent's pick nor the winning door.
    fn removable(&self, picked: usize) -> (list: Vec<usize>)
        requires
            self.well_formed(),
            self.nb_porte > 2,
        ensures
            list.len() > 0,
            forall|k: int|
                0 <= k < list.len() ==> (#[trigger] list[k]) < self.portes_disponibles.len()
                    && self.portes_disponibles[list[k] as int] != picked
                    && self.portes_disponibles[list[k] as int] != self.porte_gagnante,
    {
        let mut list: Vec<usize> = Vec::new();
        let mut i: usize = 0;
        while i < self.portes_disponibles.len()
            invariant
                i <= self.portes_disponibles.len(),
                forall|k: int|
                    0 <= k < list.len() ==> (#[trigger] list[k]) < self.portes_disponibles.len()
                        && self.portes_disponibles[list[k] as int] != picked
                        && self.portes_disponibles[list[k] as int] != self.porte_gagnante,
                list.len() == 0 ==> forall|k: int|
                    0 <= k < i ==> (#[trigger] self.portes_disponibles[k]) == picked
                        || self.portes_disponibles[k] == self.porte_gagnante,
            decreases self.portes_disponibles.len() - i,
        {
            let door: usize = self.portes_disponibles[i];
            if door != picked && door != self.porte_gagnante {
                list.push(i);
            }
            i = i + 1;
        }
        proof {
            if list.len() == 0 {
                let a = self.portes_disponibles[0];
                let b = self.portes_disponibles[1];
                let c = self.portes_disponibles[2];
                assert(a != b && a != c && b != c);
                assert(false);
            }
        }
        list
    }
}

impl Environment for MontyHallEnv {
    open spec fn well_formed(&self) -> bool {
        &&& self.lvl == 1 || self.lvl == 2
        &&& self.nb_porte_initial == doors_of_level(self.lvl as int)
        &&& 2 <= self.nb_porte <= self.nb_porte_initial
        &&& self.round + self.nb_porte == self.nb_porte_initial
        &&& self.portes_disponibles.len() == self.nb_porte
        &&& forall|i: int|
            0 <= i < self.portes_disponibles.len() ==> (#[trigger] self.portes_disponibles[i])
                < self.nb_porte_initial
        &&& forall|i: int, j: int|
            0 <= i < j < self.portes_disponibles.len() ==> self.portes_disponibles[i]
                != self.portes_disponibles[j]
        &&& has_door(self.portes_disponibles@, self.porte_gagnante)
        &&& match self.porte_choisie {
            Some(door) => has_door(self.portes_disponibles@, door),
            None => self.nb_porte == self.nb_porte_initial,
        }
        &&& self.state_id < id_bound(self.nb_porte_initial as int, self.nb_porte as int)
    }

    open spec fn states(&self) -> nat {
        if self.lvl == 1 {
            9
        } else {
            300
        }
    }

    open spec fn actions(&self) -> nat {
        if self.lvl == 1 {
            3
        } else {
            5
        }
    }

    open spec fn rewards(&self) -> nat {
        2
    }

    fn num_states(&self) -> usize {
        if self.lvl == 1 {
            9
        } else {
            300
        }
    }

    fn num_actions(&self) -> usize {
        if self.lvl == 1 {
            3
        } else {
            5
        }
    }

    fn num_rewards(&self) -> usize {
        2
    }
}

/// The doors `0 .. count`, in order.
fn all_doors(count: usize) -> (doors: Vec<usize>)
    ensures
        doors.len() == count,
        forall|i: int| 0 <= i < count ==> (#[trigger] doors[i]) == i,
{
    let mut doors: Vec<usize> = Vec::new();
    let mut i: usize = 0;
    while i < count
        invariant
            i <= count,
            doors.len() == i,
            forall|k: int| 0 <= k < i ==> (#[trigger] doors[k]) == k,
        decreases count - i,
    {
        doors.push(i);
        i = i + 1;
    }
    doors
}

impl MonteCarloEnvironment for MontyHallEnv {
    open spec fn state(&self) -> nat {
        self.state_id as nat
    }

    open spec fn game_over(&self) -> bool {
        self.nb_porte == 2
    }

    open spec fn forbidden(&self, action: usize) -> bool {
        !has_door(self.portes_disponibles@, action)
    }

    open spec fn total(&self) -> Fixed {
        if self.nb_porte == 2 && self.porte_choisie == Some(self.porte_gagnante) {
            whole(1)
        } else {
            whole(0)
        }
    }

    open spec fn available(&self) -> Seq<usize> {
        self.portes_disponibles@
    }

    open spec fn begins(&self, first: &Self) -> bool {
        &&& first.lvl == self.lvl
        &&& first.round == 0
        &&& first.nb_porte == first.nb_porte_initial
        &&& first.porte_choisie is None
        &&& first.state_id == first.porte_gagnante
        &&& first.portes_disponibles.len() == first.nb_porte
        &&& forall|i: int| 0 <= i < first.nb_porte ==> (#[trigger] first.portes_disponibles[i]) == i
    }

    open spec fn begins_anywhere(&self, first: &Self) -> bool {
        &&& first.lvl == self.lvl
        &&& first.lvl == 1 ==> first.round == 0
        &&& first.round <= 2
        &&& !first.game_over()
        &&& first.round == 0 ==> first.porte_choisie is None && first.state_id
            == first.porte_gagnante
        &&& first.round > 0 ==> first.porte_choisie is Some
    }

    open spec fn leads(&self, action: usize, next: &Self, reward: Fixed) -> bool {
        &&& next.lvl == self.lvl
        &&& next.porte_gagnante == self.porte_gagnante
        &&& next.porte_choisie == Some(action)
        &&& next.round == self.round + 1
        &&& next.nb_porte == self.nb_porte - 1
        &&& exists|i: int|
            0 <= i < self.nb_porte && self.portes_disponibles[i] == action && next.state_id
                == self.state_id * self.nb_porte + i
        &&& exists|i: int|
            0 <= i < self.nb_porte && self.portes_disponibles[i] != action
                && self.portes_disponibles[i] != self.porte_gagnante && next.portes_disponibles@
                == self.portes_disponibles@.remove(i)
        &&& reward == next.total()
    }

    /// Closes every door again and hides the prize behind one drawn at
    /// random; the state identifier is that door.
    fn reset(&mut self, rng: &mut RandomSource)
        ensures
            final(self).lvl == old(self).lvl,
            final(self).round == 0,
            final(self).nb_porte == final(self).nb_porte_initial,
            final(self).porte_choisie is None,
            final(self).state_id == final(self).porte_gagnante,
            final(self).portes_disponibles.len() == final(self).nb_porte,
            forall|i: int|
                0 <= i < final(self).nb_porte ==> (#[trigger] final(self).portes_disponibles[i])
                    == i,
    {
        self.wake(rng);
    }

    /// Picks the door `action`; the host then removes one of the other doors
    /// that does not hide the prize.
    fn step(&mut self, action: usize, rng: &mut RandomSource) -> (outcome: (usize, Fixed))
        ensures
            final(self).lvl == old(self).lvl,
            final(self).porte_gagnante == old(self).porte_gagnante,
            final(self).porte_choisie == Some(action),
            final(self).round == old(self).round + 1,
            final(self).nb_porte == old(self).nb_porte - 1,
            exists|i: int|
                0 <= i < old(self).nb_porte && old(self).portes_disponibles[i] == action
                    && final(self).state_id == old(self).state_id * old(self).nb_porte + i,
            exists|i: int|
                0 <= i < old(self).nb_porte && old(self).portes_disponibles[i] != action && old(
                    self,
                ).portes_disponibles[i] != old(self).porte_gagnante
                    && final(self).portes_disponibles@ == old(self).portes_disponibles@.remove(i),
            outcome.1 == final(self).total(),
    {
        let index: usize = match self.position(action) {
            Some(index) => index,
            None => vstd::pervasive::unreached(),
        };
        let candidates: Vec<usize> = self.removable(action);
        let removed: usize = candidates[rng.below(candidates.len())];
        let ghost before = self.portes_disponibles@;
        let ghost old_id = self.state_id as int;
        let ghost old_doors = self.nb_porte as int;
        proof {
            assert(old_id * old_doors + index < id_bound(
                self.nb_porte_initial as int,
                old_doors - 1,
            )) by (nonlinear_arith)
                requires
                    0 <= old_id < id_bound(self.nb_porte_initial as int, old_doors),
                    0 <= index < old_doors,
                    id_bound(self.nb_porte_initial as int, old_doors) * old_doors == id_bound(
                        self.nb_porte_initial as int,
                        old_doors - 1,
                    ),
            ;
            assert(0 <= old_id * old_doors) by (nonlinear_arith)
                requires
                    0 <= old_id,
                    0 <= old_doors,
            ;
        }
        self.state_id = self.state_id * self.nb_porte + index;
        self.porte_choisie = Some(action);
        self.round = self.round + 1;
        self.nb_porte = self.nb_porte - 1;
        self.portes_disponibles.remove(removed);
        proof {
            let after = self.portes_disponibles@;
            assert(after == before.remove(removed as int));
            assert forall|i: int| 0 <= i < after.len() implies (#[trigger] after[i])
                < self.nb_porte_initial by {
                if i < removed {
                    assert(after[i] == before[i]);
                } else {
                    assert(after[i] == before[i + 1]);
                }
            }
            assert forall|i: int, j: int| 0 <= i < j < after.len() implies after[i] != after[j] by {
                let bi = if i < removed {
                    i
                } else {
                    i + 1
                };
                let bj = if j < removed {
                    j
                } else {
                    j + 1
                };
                assert(after[i] == before[bi]);
                assert(after[j] == before[bj]);
            }
            let w = choose|i: int|
                0 <= i < before.len() && #[trigger] before[i] == self.porte_gagnante;
            let wi = if w < removed {
                w
            } else {
                w - 1
            };
            assert(after[wi] == self.porte_gagnante);
            let ci = if index < removed {
                index as int
            } else {
                index - 1
            };
            assert(after[ci] == action);
        }
        (self.state_id, self.score())
    }

    fn score(&self) -> (total: Fixed) {
        if self.nb_porte > 2 {
            Fixed::from_int(0)
        } else {
            match self.porte_choisie {
                Some(door) => {
                    if door == self.porte_gagnante {
                        Fixed::from_int(1)
                    } else {
                        Fixed::from_int(0)
                    }
                },
                None => Fixed::from_int(0),
            }
        }
    }

    fn is_game_over(&self) -> (over: bool) {
        self.nb_porte == 2
    }

    fn available_actions(&self) -> (list: Vec<usize>)
        ensures
            list@ == self.portes_disponibles@,
    {
        self.portes_disponibles.clone()
    }

    fn display(&self) -> (picture: String)
        ensures
            picture@.len() == self.nb_porte_initial,
            forall|d: int|
                0 <= d < self.nb_porte_initial ==> picture@[d] == if !has_door(
                    self.portes_disponibles@,
                    d as usize,
                ) {
                    '.'
                } else if self.porte_choisie == Some(d as usize) {
                    'X'
                } else {
                    '#'
                },
    {
        let mut picture: String = String::new();
        let mut d: usize = 0;
        while d < self.nb_porte_initial
            invariant
                d <= self.nb_porte_initial,
                picture@.len() == d,
                forall|k: int|
                    0 <= k < d ==> picture@[k] == if !has_door(
                        self.portes_disponibles@,
                        k as usize,
                    ) {
                        '.'
                    } else if self.porte_choisie == Some(k as usize) {
                        'X'
                    } else {
                        '#'
                    },
            decreases self.nb_porte_initial - d,
        {
            proof {
                reveal_strlit(".");
                reveal_strlit("X");
                reveal_strlit("#");
            }
            let picked: bool = match self.porte_choisie {
                Some(door) => door == d,
                None => false,
            };
            if self.position(d).is_none() {
                picture.append(".");
            } else if picked {
                picture.append("X");
            } else {
                picture.append("#");
            }
            d = d + 1;
        }
        picture
    }

    /// Starts a new game and plays none of it at level 1, and up to two
    /// random picks of it at level 2: the game that is left is never over.
    fn start_from_random_state(&mut self, rng: &mut RandomSource)
        ensures
            final(self).lvl == old(self).lvl,
            final(self).lvl == 1 ==> final(self).round == 0,
            final(self).round <= 2,
            !final(self).game_over(),
            final(self).round == 0 ==> final(self).porte_choisie is None && final(self).state_id
                == final(self).porte_gagnante,
            final(self).round > 0 ==> final(self).porte_choisie is Some,
    {
        self.reset(rng);
        let max_iter: usize = if self.lvl == 1 {
            1
        } else {
            3
        };
        let picks: usize = rng.below(max_iter);
        let mut done: usize = 0;
        while done < picks
            invariant
                self.well_formed(),
                self.lvl == old(self).lvl,
                done <= picks,
                picks < 3,
                self.lvl == 2 || picks == 0,
                self.nb_porte + done == self.nb_porte_initial,
                self.round == done,
                done == 0 ==> self.porte_choisie is None && self.state_id == self.porte_gagnante,
                done > 0 ==> self.porte_choisie is Some,
            decreases picks - done,
        {
            let available_actions: Vec<usize> = self.available_actions();
            let action: usize = available_actions[rng.below(available_actions.len())];
            self.step(action, rng);
            done = done + 1;
        }
    }

    fn state_id(&self) -> (s: usize) {
        self.state_id
    }

    fn is_forbidden(&self, action: usize) -> (b: bool) {
        self.position(action).is_none()
    }

    /// The word for a door and the number of the door, counted from one.
    fn action_name(&self, action: usize) -> (label: String)
        ensures
            label@ == door_name(action),
    {
        let mut label: String = String::from_str("Porte ");
        push_decimal(&mut label, action.saturating_add(1));
        label
    }
}

/// The character of a decimal digit.
pub open spec fn digit_char(d: int) -> char {
    if d == 0 {
        '0'
    } else if d == 1 {
        '1'
    } else if d == 2 {
        '2'
    } else if d == 3 {
        '3'
    } else if d == 4 {
        '4'
    } else if d == 5 {
        '5'
    } else if d == 6 {
        '6'
    } else if d == 7 {
        '7'
    } else if d == 8 {
        '8'
    } else {
        '9'
    }
}

/// The decimal digits of `n`, the most significant first.
pub open spec fn decimal(n: nat) -> Seq<char>
    decreases n,
{
    if n < 10 {
        seq![digit_char(n as int)]
    } else {
        decimal(n / 10) + seq![digit_char((n % 10) as int)]
    }
}

/// The label of the door `action`: the word for a door and the number of the
/// door, counted from one; the largest number stands for itself.
pub open spec fn door_name(action: usize) -> Seq<char> {
    "Porte "@ + decimal(
        if action < usize::MAX {
            (action + 1) as nat
        } else {
            action as nat
        },
    )
}

/// The text of a decimal digit.
fn digit_name(d: usize) -> (name: &'static str)
    requires
        d < 10,
    ensures
        name@ == seq![digit_char(d as int)],
{
    proof {
        reveal_strlit("0");
        reveal_strlit("1");
        reveal_strlit("2");
        reveal_strlit("3");
        reveal_strlit("4");
        reveal_strlit("5");
        reveal_strlit("6");
        reveal_strlit("7");
        reveal_strlit("8");
        reveal_strlit("9");
    }
    if d == 0 {
        "0"
    } else if d == 1 {
        "1"
    } else if d == 2 {
        "2"
    } else if d == 3 {
        "3"
    } else if d == 4 {
        "4"
    } else if d == 5 {
        "5"
    } else if d == 6 {
        "6"
    } else if d == 7 {
        "7"
    } else if d == 8 {
        "8"
    } else {
        "9"
    }
}

/// Appends the decimal digits of `n` to `text`.
fn push_decimal(text: &mut String, n: usize)
    ensures
        final(text)@ == old(text)@ + decimal(n as nat),
    decreases n,
{
    if n >= 10 {
        push_decimal(text, n / 10);
    }
    text.append(digit_name(n % 10));
}

/// A game of level `lvl`, ready for the first pick.
pub fn new_monty_hall(lvl: usize, rng: &mut RandomSource) -> (env: MontyHallEnv)
    requires
        lvl == 1 || lvl == 2,
    ensures
        env.well_formed(),
        env.lvl == lvl,
        env.round == 0,
        env.nb_porte == doors_of_level(lvl as int),
        env.porte_choisie is None,
        env.state_id == env.porte_gagnante,
        env.portes_disponibles.len() == env.nb_porte,
        forall|i: int| 0 <= i < env.nb_porte ==> (#[trigger] env.portes_disponibles[i]) == i,
{
    let mut env = MontyHallEnv {
        nb_porte: 2,
        porte_choisie: None,
        porte_gagnante: 0,
        round: 0,
        portes_disponibles: Vec::new(),
        lvl,
        state_id: 0,
        nb_porte_initial: 2,
    };
    env.wake(rng);
    env
}

impl MontyHallEnv {
    /// Brings a game whose level alone is set to its first state.
    fn wake(&mut self, rng: &mut RandomSource)
        requires
            old(self).lvl == 1 || old(self).lvl == 2,
        ensures
            final(self).well_formed(),
            final(self).lvl == old(self).lvl,
            final(self).round == 0,
            final(self).nb_porte == doors_of_level(old(self).lvl as int),
            final(self).porte_choisie is None,
            final(self).state_id == final(self).porte_gagnante,
            final(self).portes_disponibles.len() == final(self).nb_porte,
            forall|i: int|
                0 <= i < final(self).nb_porte ==> (#[trigger] final(self).portes_disponibles[i])
                    == i,
    {
        let doors: usize = if self.lvl == 1 {
            3
        } else {
            5
        };
        self.round = 0;
        self.portes_disponibles = all_doors(doors);
        self.nb_porte = doors;
        self.porte_gagnante = rng.below(doors);
        self.porte_choisie = None;
        self.state_id = self.porte_gagnante;
        self.nb_porte_initial = doors;
        proof {
            assert(self.portes_disponibles[self.porte_gagnante as int] == self.porte_gagnante);
        }
    }
}

} // verus!
