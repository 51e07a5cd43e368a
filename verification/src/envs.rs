use vstd::prelude::*;

use crate::error::RlError;
use crate::fixed::Fixed;
use crate::random::RandomSource;

verus! {

/// The cardinalities every environment declares.
pub trait Environment {
    /// What every method keeps true of the environment. An environment that
    /// says nothing of itself is taken at its word.
    open spec fn well_formed(&self) -> bool {
        true
    }

    /// Number of states; a state is an index below it.
    open spec fn states(&self) -> nat {
        arbitrary()
    }

    /// Number of actions; an action is an index below it.
    open spec fn actions(&self) -> nat {
        arbitrary()
    }

    /// Number of distinct reward values.
    open spec fn rewards(&self) -> nat {
        arbitrary()
    }

    fn num_states(&self) -> (n: usize)
        ensures
            n == self.states(),
    ;

    fn num_actions(&self) -> (n: usize)
        ensures
            n == self.actions(),
    ;

    fn num_rewards(&self) -> (n: usize)
        ensures
            n == self.rewards(),
    ;
}

/// Whether `choice` is one of `actions`.
pub open spec fn offered(actions: Seq<usize>, choice: usize) -> bool {
    exists|i: int| 0 <= i < actions.len() && #[trigger] actions[i] == choice
}

/// A simulation that can be reset and stepped one action at a time.
///
/// Every draw a simulation makes comes from the random source it is handed,
/// so a run is reproduced by seeding that source again.
pub trait MonteCarloEnvironment: Environment {
    /// The state the simulation is in.
    open spec fn state(&self) -> nat {
        arbitrary()
    }

    /// Whether the episode has ended.
    open spec fn game_over(&self) -> bool {
        arbitrary()
    }

    /// Whether `action` may not be taken in the current state.
    open spec fn forbidden(&self, action: usize) -> bool {
        arbitrary()
    }

    /// The return accumulated since the episode began.
    open spec fn total(&self) -> Fixed {
        arbitrary()
    }

    /// The actions on offer in the current state, in the order in which ties
    /// are broken.
    open spec fn available(&self) -> Seq<usize> {
        arbitrary()
    }

    /// Whether a reset of this simulation may leave it as `first`.
    open spec fn begins(&self, first: &Self) -> bool {
        arbitrary()
    }

    /// Whether a start from a state drawn at random may leave this
    /// simulation as `first`.
    open spec fn begins_anywhere(&self, first: &Self) -> bool {
        arbitrary()
    }

    /// Whether taking `action` in this simulation may leave it as `next` and
    /// earn `reward`.
    open spec fn leads(&self, action: usize, next: &Self, reward: Fixed) -> bool {
        arbitrary()
    }

    /// Starts a new episode.
    fn reset(&mut self, rng: &mut RandomSource)
        requires
            old(self).well_formed(),
        ensures
            old(self).begins(&*final(self)),
            final(self).well_formed(),
            final(self).states() == old(self).states(),
            final(self).actions() == old(self).actions(),
            final(self).rewards() == old(self).rewards(),
    ;

    /// Takes `action` and reports the state reached and the reward earned.
    fn step(&mut self, action: usize, rng: &mut RandomSource) -> (outcome: (usize, Fixed))
        requires
            old(self).well_formed(),
            !old(self).game_over(),
            action < old(self).actions(),
            !old(self).forbidden(action),
        ensures
            old(self).leads(action, &*final(self), outcome.1),
            final(self).well_formed(),
            final(self).states() == old(self).states(),
            final(self).actions() == old(self).actions(),
            final(self).rewards() == old(self).rewards(),
            outcome.0 == final(self).state(),
            outcome.0 < final(self).states(),
    ;

    fn score(&self) -> (total: Fixed)
        requires
            self.well_formed(),
        ensures
            total == self.total(),
    ;

    fn is_game_over(&self) -> (over: bool)
        requires
            self.well_formed(),
        ensures
            over == self.game_over(),
    ;

    /// The actions that may be taken now, in the order in which ties are
    /// broken: never empty while the episode lasts.
    fn available_actions(&self) -> (list: Vec<usize>)
        requires
            self.well_formed(),
        ensures
            list@ == self.available(),
            !self.game_over() ==> list.len() > 0,
            forall|i: int|
                0 <= i < list.len() ==> (#[trigger] list[i]) < self.actions() && !self.forbidden(
                    list[i],
                ),
    ;

    /// A picture of the current state, one line of text per row.
    fn display(&self) -> (picture: String)
        requires
            self.well_formed(),
    ;

    /// Starts a new episode from a state drawn at random.
    fn start_from_random_state(&mut self, rng: &mut RandomSource)
        requires
            old(self).well_formed(),
        ensures
            old(self).begins_anywhere(&*final(self)),
            final(self).well_formed(),
            final(self).states() == old(self).states(),
            final(self).actions() == old(self).actions(),
            final(self).rewards() == old(self).rewards(),
    ;

    fn state_id(&self) -> (s: usize)
        requires
            self.well_formed(),
        ensures
            s == self.state(),
            s < self.states(),
    ;

    fn is_forbidden(&self, action: usize) -> (b: bool)
        requires
            self.well_formed(),
        ensures
            b == self.forbidden(action),
    ;

    /// A label for `action`, for diagnostics only.
    fn action_name(&self, action: usize) -> (label: String)
        requires
            self.well_formed(),
    ;
}

/// Whether the four indices address an entry of the model of `env`.
pub open spec fn addresses<E: Environment + ?Sized>(
    env: &E,
    state: int,
    action: int,
    state_prime: int,
    reward_index: int,
) -> bool {
    &&& 0 <= state < env.states()
    &&& 0 <= action < env.actions()
    &&& 0 <= state_prime < env.states()
    &&& 0 <= reward_index < env.rewards()
}

/// An environment whose transition model can be read entry by entry.
pub trait DynamicProgramingEnvironment: Environment {
    /// `P[state, action, state_prime, reward_index]`.
    open spec fn transition(
        &self,
        state: int,
        action: int,
        state_prime: int,
        reward_index: int,
    ) -> Fixed {
        arbitrary()
    }

    /// The reward value with index `i`.
    open spec fn reward(&self, i: int) -> Fixed {
        arbitrary()
    }

    /// The terminal states, as listed.
    open spec fn terminals(&self) -> Seq<usize> {
        arbitrary()
    }

    fn get_transition_prob(
        &self,
        state: usize,
        action: usize,
        state_prime: usize,
        reward_index: usize,
    ) -> (p: Result<Fixed, RlError>)
        requires
            self.well_formed(),
        ensures
            addresses(self, state as int, action as int, state_prime as int, reward_index as int)
                ==> p == Ok::<Fixed, RlError>(
                self.transition(state as int, action as int, state_prime as int, reward_index as int),
            ),
            !addresses(self, state as int, action as int, state_prime as int, reward_index as int)
                ==> p == Err::<Fixed, RlError>(RlError::IndexOutOfRange),
    ;

    fn get_reward(&self, i: usize) -> (r: Result<Fixed, RlError>)
        requires
            self.well_formed(),
        ensures
            i < self.rewards() ==> r == Ok::<Fixed, RlError>(self.reward(i as int)),
            i >= self.rewards() ==> r == Err::<Fixed, RlError>(RlError::IndexOutOfRange),
    ;

    fn get_terminal_states(&self) -> (list: Vec<usize>)
        requires
            self.well_formed(),
        ensures
            list@ == self.terminals(),
    ;
}

/// Position of an entry of a four-dimensional table of shape
/// `states x actions x states x rewards` in its row-major flattening.
pub open spec fn flat_index(
    actions: int,
    states: int,
    rewards: int,
    state: int,
    action: int,
    state_prime: int,
    reward_index: int,
) -> int {
    ((state * actions + action) * states + state_prime) * rewards + reward_index
}

/// A flattened position lies inside the table.
pub proof fn lemma_flat_index_bound(
    actions: int,
    states: int,
    rewards: int,
    state: int,
    action: int,
    state_prime: int,
    reward_index: int,
)
    requires
        0 <= state < states,
        0 <= action < actions,
        0 <= state_prime < states,
        0 <= reward_index < rewards,
    ensures
        0 <= state * actions + action < states * actions,
        0 <= (state * actions + action) * states + state_prime < states * actions * states,
        0 <= flat_index(actions, states, rewards, state, action, state_prime, reward_index)
            < states * actions * states * rewards,
{
    let x = state * actions + action;
    assert(0 <= x < states * actions) by (nonlinear_arith)
        requires
            x == state * actions + action,
            0 <= state < states,
            0 <= action < actions,
    ;
    let y = x * states + state_prime;
    assert(0 <= y < states * actions * states) by (nonlinear_arith)
        requires
            y == x * states + state_prime,
            0 <= x < states * actions,
            0 <= state_prime < states,
    ;
    assert(0 <= y * rewards + reward_index < states * actions * states * rewards)
        by (nonlinear_arith)
        requires
            0 <= y < states * actions * states,
            0 <= reward_index < rewards,
    ;
}

/// Two entries of the table share a flattened position only if they are the
/// same entry.
pub proof fn lemma_flat_index_injective(
    actions: int,
    states: int,
    rewards: int,
    s1: int,
    a1: int,
    p1: int,
    r1: int,
    s2: int,
    a2: int,
    p2: int,
    r2: int,
)
    requires
        0 <= s1 < states,
        0 <= a1 < actions,
        0 <= p1 < states,
        0 <= r1 < rewards,
        0 <= s2 < states,
        0 <= a2 < actions,
        0 <= p2 < states,
        0 <= r2 < rewards,
        flat_index(actions, states, rewards, s1, a1, p1, r1) == flat_index(
            actions,
            states,
            rewards,
            s2,
            a2,
            p2,
            r2,
        ),
    ensures
        s1 == s2,
        a1 == a2,
        p1 == p2,
        r1 == r2,
{
    let y1 = (s1 * actions + a1) * states + p1;
    let y2 = (s2 * actions + a2) * states + p2;
    let f = flat_index(actions, states, rewards, s1, a1, p1, r1);
    vstd::arithmetic::div_mod::lemma_fundamental_div_mod_converse(f, rewards, y1, r1);
    vstd::arithmetic::div_mod::lemma_fundamental_div_mod_converse(f, rewards, y2, r2);
    let x1 = s1 * actions + a1;
    let x2 = s2 * actions + a2;
    vstd::arithmetic::div_mod::lemma_fundamental_div_mod_converse(y1, states, x1, p1);
    vstd::arithmetic::div_mod::lemma_fundamental_div_mod_converse(y1, states, x2, p2);
    vstd::arithmetic::div_mod::lemma_fundamental_div_mod_converse(x1, actions, s1, a1);
    vstd::arithmetic::div_mod::lemma_fundamental_div_mod_converse(x1, actions, s2, a2);
}

/// Whether a table of shape `states x actions x states x rewards` can be
/// held in memory.
pub open spec fn table_fits(states: int, actions: int, rewards: int) -> bool {
    states * actions * states * rewards <= usize::MAX
}

/// An explicit transition model, held as a dense table.
#[derive(Debug)]
pub struct DPEnvironment {
    rewards: Vec<Fixed>,
    terminal_states: Vec<usize>,
    transitions: Vec<Fixed>,
    num_states: usize,
    num_actions: usize,
    num_rewards: usize,
}

impl Environment for DPEnvironment {
    closed spec fn well_formed(&self) -> bool {
        &&& self.rewards.len() == self.num_rewards
        &&& self.transitions.len() == self.num_states * self.num_actions * self.num_states
            * self.num_rewards
        &&& forall|i: int|
            0 <= i < self.terminal_states.len() ==> (#[trigger] self.terminal_states[i])
                < self.num_states
    }

    closed spec fn states(&self) -> nat {
        self.num_states as nat
    }

    closed spec fn actions(&self) -> nat {
        self.num_actions as nat
    }

    closed spec fn rewards(&self) -> nat {
        self.num_rewards as nat
    }

    fn num_states(&self) -> usize {
        self.num_states
    }

    fn num_actions(&self) -> usize {
        self.num_actions
    }

    fn num_rewards(&self) -> usize {
        self.num_rewards
    }
}

impl DPEnvironment {
    /// Whether the arguments of [`DPEnvironment::new`] describe a model:
    /// one reward value per index and every terminal state a state.
    pub open spec fn consistent(
        num_states: usize,
        num_rewards: usize,
        rewards: Seq<Fixed>,
        terminal_states: Seq<usize>,
    ) -> bool {
        &&& rewards.len() == num_rewards
        &&& forall|i: int|
            0 <= i < terminal_states.len() ==> (#[trigger] terminal_states[i]) < num_states
    }

    /// A model of the given shape in which every transition has
    /// probability zero.
    ///
    /// Fails with `IndexOutOfRange` when the reward values or the terminal
    /// states do not fit the shape, and otherwise with `InvalidParameter`
    /// when the table would not fit in memory.
    pub fn new(
        num_states: usize,
        num_actions: usize,
        num_rewards: usize,
        rewards: Vec<Fixed>,
        terminal_states: Vec<usize>,
    ) -> (res: Result<DPEnvironment, RlError>)
        ensures
            match res {
                Ok(env) => {
                    &&& Self::consistent(num_states, num_rewards, rewards@, terminal_states@)
                    &&& table_fits(num_states as int, num_actions as int, num_rewards as int)
                    &&& env.well_formed()
                    &&& env.states() == num_states
                    &&& env.actions() == num_actions
                    &&& env.rewards() == num_rewards
                    &&& env.terminals() == terminal_states@
                    &&& forall|i: int| 0 <= i < num_rewards ==> env.reward(i) == rewards[i]
                    &&& forall|s: int, a: int, p: int, r: int|
                        addresses(&env, s, a, p, r) ==> (#[trigger] env.transition(s, a, p, r)).raw
                            == 0
                },
                Err(e) => {
                    if !Self::consistent(num_states, num_rewards, rewards@, terminal_states@) {
                        e == RlError::IndexOutOfRange
                    } else {
                        e == RlError::InvalidParameter && !table_fits(
                            num_states as int,
                            num_actions as int,
                            num_rewards as int,
                        )
                    }
                },
            },
    {
        if rewards.len() != num_rewards {
            return Err(RlError::IndexOutOfRange);
        }
        let mut i: usize = 0;
        while i < terminal_states.len()
            invariant
                i <= terminal_states.len(),
                forall|k: int| 0 <= k < i ==> (#[trigger] terminal_states[k]) < num_states,
            decreases terminal_states.len() - i,
        {
            if terminal_states[i] >= num_states {
                return Err(RlError::IndexOutOfRange);
            }
            i = i + 1;
        }
        let size: usize = match table_size(num_states, num_actions, num_rewards) {
            Some(size) => size,
            None => {
                return Err(RlError::InvalidParameter);
            },
        };
        let transitions: Vec<Fixed> = vec![Fixed { raw: 0 }; size];
        let env = DPEnvironment {
            rewards,
            terminal_states,
            transitions,
            num_states,
            num_actions,
            num_rewards,
        };
        proof {
            assert forall|s: int, a: int, p: int, r: int| addresses(&env, s, a, p, r) implies (
            #[trigger] env.transition(s, a, p, r)).raw == 0 by {
                lemma_flat_index_bound(
                    num_actions as int,
                    num_states as int,
                    num_rewards as int,
                    s,
                    a,
                    p,
                    r,
                );
            }
        }
        Ok(env)
    }

    /// Sets `P[state, action, state_prime, reward_index]` to `value`, or
    /// fails with `IndexOutOfRange` and changes nothing when the indices
    /// address no entry.
    pub fn set_transition_prob(
        &mut self,
        state: usize,
        action: usize,
        state_prime: usize,
        reward_index: usize,
        value: Fixed,
    ) -> (res: Result<(), RlError>)
        requires
            old(self).well_formed(),
        ensures
            final(self).well_formed(),
            final(self).states() == old(self).states(),
            final(self).actions() == old(self).actions(),
            final(self).rewards() == old(self).rewards(),
            final(self).terminals() == old(self).terminals(),
            forall|i: int| final(self).reward(i) == old(self).reward(i),
            addresses(old(self), state as int, action as int, state_prime as int, reward_index as int)
                ==> res is Ok && final(self).transition(
                state as int,
                action as int,
                state_prime as int,
                reward_index as int,
            ) == value,
            !addresses(old(self), 
                state as int,
                action as int,
                state_prime as int,
                reward_index as int,
            ) ==> res == Err::<(), RlError>(RlError::IndexOutOfRange) && *final(self) == *old(self),
            forall|s: int, a: int, p: int, r: int|
                #![trigger final(self).transition(s, a, p, r)]
                addresses(old(self), s, a, p, r) && !(s == state && a == action && p == state_prime
                    && r == reward_index) ==> final(self).transition(s, a, p, r) == old(
                    self,
                ).transition(s, a, p, r),
    {
        if state >= self.num_states || action >= self.num_actions || state_prime
            >= self.num_states || reward_index >= self.num_rewards {
            return Err(RlError::IndexOutOfRange);
        }
        let index: usize = self.get_index(state, action, state_prime, reward_index);
        self.transitions[index] = value;
        proof {
            assert forall|s: int, a: int, p: int, r: int|
                #![trigger final(self).transition(s, a, p, r)]
                addresses(old(self), s, a, p, r) && !(s == state && a == action && p == state_prime
                    && r == reward_index) implies self.transition(s, a, p, r) == old(
                self,
            ).transition(s, a, p, r) by {
                lemma_flat_index_bound(
                    self.num_actions as int,
                    self.num_states as int,
                    self.num_rewards as int,
                    s,
                    a,
                    p,
                    r,
                );
                if flat_index(
                    self.num_actions as int,
                    self.num_states as int,
                    self.num_rewards as int,
                    s,
                    a,
                    p,
                    r,
                ) == index {
                    lemma_flat_index_injective(
                        self.num_actions as int,
                        self.num_states as int,
                        self.num_rewards as int,
                        s,
                        a,
                        p,
                        r,
                        state as int,
                        action as int,
                        state_prime as int,
                        reward_index as int,
                    );
                }
            }
        }
        Ok(())
    }

    /// Sets an entry that is known to exist.
    pub fn put_transition(
        &mut self,
        state: usize,
        action: usize,
        state_prime: usize,
        reward_index: usize,
        value: Fixed,
    )
        requires
            old(self).well_formed(),
            addresses(old(self), state as int, action as int, state_prime as int, reward_index as int),
        ensures
            final(self).well_formed(),
            final(self).states() == old(self).states(),
            final(self).actions() == old(self).actions(),
            final(self).rewards() == old(self).rewards(),
            final(self).terminals() == old(self).terminals(),
            forall|i: int| final(self).reward(i) == old(self).reward(i),
            final(self).transition(
                state as int,
                action as int,
                state_prime as int,
                reward_index as int,
            ) == value,
            forall|s: int, a: int, p: int, r: int|
                #![trigger final(self).transition(s, a, p, r)]
                addresses(old(self), s, a, p, r) && !(s == state && a == action && p == state_prime
                    && r == reward_index) ==> final(self).transition(s, a, p, r) == old(
                    self,
                ).transition(s, a, p, r),
    {
        match self.set_transition_prob(state, action, state_prime, reward_index, value) {
            Ok(_) => {},
            Err(_) => vstd::pervasive::unreached(),
        }
    }

    /// The position of an entry in the flattened table.
    fn get_index(&self, state: usize, action: usize, state_prime: usize, reward_index: usize) -> (index:
        usize)
        requires
            self.well_formed(),
            addresses(self, state as int, action as int, state_prime as int, reward_index as int),
        ensures
            index == flat_index(
                self.num_actions as int,
                self.num_states as int,
                self.num_rewards as int,
                state as int,
                action as int,
                state_prime as int,
                reward_index as int,
            ),
            index < self.transitions.len(),
    {
        proof {
            lemma_flat_index_bound(
                self.num_actions as int,
                self.num_states as int,
                self.num_rewards as int,
                state as int,
                action as int,
                state_prime as int,
                reward_index as int,
            );
            let total = self.num_states * self.num_actions * self.num_states * self.num_rewards;
            assert(total == self.transitions.len());
            assert(self.num_states * self.num_actions <= self.num_states * self.num_actions
                * self.num_states <= total) by (nonlinear_arith)
                requires
                    total == self.num_states * self.num_actions * self.num_states
                        * self.num_rewards,
                    self.num_states >= 1,
                    self.num_rewards >= 1,
            ;
            assert(0 <= state * self.num_actions <= state * self.num_actions + action)
                by (nonlinear_arith);
            assert(0 <= (state * self.num_actions + action) * self.num_states) by (nonlinear_arith);
            assert(0 <= ((state * self.num_actions + action) * self.num_states + state_prime)
                * self.num_rewards) by (nonlinear_arith);
        }
        ((state * self.num_actions + action) * self.num_states + state_prime) * self.num_rewards
            + reward_index
    }
}

/// The number of entries of a table of shape `states x actions x states x
/// rewards`, where a `usize` can hold it.
fn table_size(states: usize, actions: usize, rewards: usize) -> (size: Option<usize>)
    ensures
        match size {
            Some(n) => n == states * actions * states * rewards,
            None => !table_fits(states as int, actions as int, rewards as int),
        },
{
    if states == 0 || actions == 0 || rewards == 0 {
        assert(states * actions * states * rewards == 0) by (nonlinear_arith)
            requires
                states == 0 || actions == 0 || rewards == 0,
        ;
        return Some(0);
    }
    let x: usize = match states.checked_mul(actions) {
        Some(x) => x,
        None => {
            assert(states * actions * states * rewards >= states * actions) by (nonlinear_arith)
                requires
                    states >= 1,
                    actions >= 1,
                    rewards >= 1,
            ;
            return None;
        },
    };
    let y: usize = match x.checked_mul(states) {
        Some(y) => y,
        None => {
            assert(states * actions * states * rewards >= states * actions * states)
                by (nonlinear_arith)
                requires
                    states >= 1,
                    actions >= 1,
                    rewards >= 1,
            ;
            return None;
        },
    };
    y.checked_mul(rewards)
}

impl DynamicProgramingEnvironment for DPEnvironment {
    closed spec fn transition(&self, state: int, action: int, state_prime: int, reward_index: int) -> Fixed {
        self.transitions[flat_index(
            self.num_actions as int,
            self.num_states as int,
            self.num_rewards as int,
            state,
            action,
            state_prime,
            reward_index,
        )]
    }

    closed spec fn reward(&self, i: int) -> Fixed {
        self.rewards[i]
    }

    closed spec fn terminals(&self) -> Seq<usize> {
        self.terminal_states@
    }

    fn get_transition_prob(
        &self,
        state: usize,
        action: usize,
        state_prime: usize,
        reward_index: usize,
    ) -> (p: Result<Fixed, RlError>) {
        if state >= self.num_states || action >= self.num_actions || state_prime
            >= self.num_states || reward_index >= self.num_rewards {
            return Err(RlError::IndexOutOfRange);
        }
        let index: usize = self.get_index(state, action, state_prime, reward_index);
        Ok(self.transitions[index])
    }

    fn get_reward(&self, i: usize) -> (r: Result<Fixed, RlError>) {
        if i >= self.num_rewards {
            return Err(RlError::IndexOutOfRange);
        }
        Ok(self.rewards[i])
    }

    fn get_terminal_states(&self) -> (list: Vec<usize>) {
        self.terminal_states.clone()
    }
}

} // verus!
