use vstd::prelude::*;

use crate::envs::MonteCarloEnvironment;
use crate::error::RlError;
use crate::fixed::fixed_sum;
use crate::fixed::lemma_fixed_sum_push;
use crate::fixed::Fixed;
use crate::fixed::SCALE;
use crate::policies::Policy;
use crate::random::RandomSource;

verus! {

/// The environments that a configuration can name.
#[derive(Clone, Copy, Debug, PartialEq, Eq, Structural)]
pub enum EnvironmentKind {
    LineWorld,
    GridWorld,
    PierreFeuilleCiseaux,
    Secret0,
}

/// The algorithms that a configuration can name.
#[derive(Clone, Copy, Debug, PartialEq, Eq, Structural)]
pub enum Algorithm {
    PolicyIteration,
    ValueIteration,
    McEs,
    OnPolicyMc,
    OffPolicyMc,
    Sarsa,
    ExpectedSarsa,
    QLearning,
    DynaQ,
    DynaQPlus,
}

/// The environment that `name` names, if it names one.
pub open spec fn environment_named(name: Seq<char>) -> Option<EnvironmentKind> {
    if name == "line_world"@ {
        Some(EnvironmentKind::LineWorld)
    } else if name == "grid_world"@ {
        Some(EnvironmentKind::GridWorld)
    } else if name == "pfs"@ {
        Some(EnvironmentKind::PierreFeuilleCiseaux)
    } else if name == "secret_0"@ {
        Some(EnvironmentKind::Secret0)
    } else {
        None
    }
}

/// The algorithm that `name` names, if it names one.
pub open spec fn algorithm_named(name: Seq<char>) -> Option<Algorithm> {
    if name == "policy_iteration"@ {
        Some(Algorithm::PolicyIteration)
    } else if name == "value_iteration"@ {
        Some(Algorithm::ValueIteration)
    } else if name == "mc_es"@ {
        Some(Algorithm::McEs)
    } else if name == "on_policy_mc"@ {
        Some(Algorithm::OnPolicyMc)
    } else if name == "off_policy_mc"@ {
        Some(Algorithm::OffPolicyMc)
    } else if name == "sarsa"@ {
        Some(Algorithm::Sarsa)
    } else if name == "expected_sarsa"@ {
        Some(Algorithm::ExpectedSarsa)
    } else if name == "q_learning"@ {
        Some(Algorithm::QLearning)
    } else if name == "dyna_q"@ {
        Some(Algorithm::DynaQ)
    } else if name == "dyna_q_plus"@ {
        Some(Algorithm::DynaQPlus)
    } else {
        None
    }
}

/// Whether `name` is the text `word`.
fn is_word(name: &String, word: &str) -> (same: bool)
    ensures
        same == (name@ == word@),
{
    *name == String::from_str(word)
}

/// The environment that `name` names, if it names one.
pub fn environment_kind(name: &String) -> (kind: Option<EnvironmentKind>)
    ensures
        kind == environment_named(name@),
{
    if is_word(name, "line_world") {
        Some(EnvironmentKind::LineWorld)
    } else if is_word(name, "grid_world") {
        Some(EnvironmentKind::GridWorld)
    } else if is_word(name, "pfs") {
        Some(EnvironmentKind::PierreFeuilleCiseaux)
    } else if is_word(name, "secret_0") {
        Some(EnvironmentKind::Secret0)
    } else {
        None
    }
}

/// The algorithm that `name` names, if it names one.
pub fn algorithm_kind(name: &String) -> (kind: Option<Algorithm>)
    ensures
        kind == algorithm_named(name@),
{
    if is_word(name, "policy_iteration") {
        Some(Algorithm::PolicyIteration)
    } else if is_word(name, "value_iteration") {
        Some(Algorithm::ValueIteration)
    } else if is_word(name, "mc_es") {
        Some(Algorithm::McEs)
    } else if is_word(name, "on_policy_mc") {
        Some(Algorithm::OnPolicyMc)
    } else if is_word(name, "off_policy_mc") {
        Some(Algorithm::OffPolicyMc)
    } else if is_word(name, "sarsa") {
        Some(Algorithm::Sarsa)
    } else if is_word(name, "expected_sarsa") {
        Some(Algorithm::ExpectedSarsa)
    } else if is_word(name, "q_learning") {
        Some(Algorithm::QLearning)
    } else if is_word(name, "dyna_q") {
        Some(Algorithm::DynaQ)
    } else if is_word(name, "dyna_q_plus") {
        Some(Algorithm::DynaQPlus)
    } else {
        None
    }
}

/// The options of a training run.
///
/// * `env_name`: the environment, one of `line_world`, `grid_world`, `pfs`,
///   `secret_0`.
/// * `algorithm`: the algorithm, one of `policy_iteration`,
///   `value_iteration`, `mc_es`, `on_policy_mc`, `off_policy_mc`, `sarsa`,
///   `expected_sarsa`, `q_learning`, `dyna_q`, `dyna_q_plus`.
/// * `alpha`: step size of the temporal-difference and planning updates.
/// * `epsilon`: exploration rate of the epsilon-greedy behaviour.
/// * `gamma`: discount factor.
/// * `theta`: convergence threshold of dynamic programming.
/// * `kappa`: scale of the bonus of Dyna-Q+.
/// * `max_iter`: hard cap on iterations or episodes.
/// * `planning_steps`: replays per real step in Dyna-Q and Dyna-Q+.
/// * `output_dir`: where the results go.
#[derive(Debug)]
pub struct Config {
    pub env_name: String,
    pub algorithm: String,
    pub alpha: Fixed,
    pub epsilon: Fixed,
    pub gamma: Fixed,
    pub theta: Fixed,
    pub kappa: Fixed,
    pub max_iter: usize,
    pub planning_steps: usize,
    pub output_dir: String,
}

impl Default for Config {
    /// No environment and no algorithm yet, `alpha = 0.1`, `epsilon = 0.1`,
    /// `gamma = 0.99`, `theta = 0.0001`, `kappa = 0.001`, a cap of 1000 and
    /// ten planning steps.
    fn default() -> (cfg: Self)
        ensures
            cfg.env_name@.len() == 0,
            cfg.algorithm@.len() == 0,
            cfg.alpha.raw == 100_000_000,
            cfg.epsilon.raw == 100_000_000,
            cfg.gamma.raw == 990_000_000,
            cfg.theta.raw == 100_000,
            cfg.kappa.raw == 1_000_000,
            cfg.max_iter == 1000,
            cfg.planning_steps == 10,
            cfg.output_dir@ == "output/default"@,
    {
        Config {
            env_name: String::new(),
            algorithm: String::new(),
            alpha: Fixed { raw: 100_000_000 },
            epsilon: Fixed { raw: 100_000_000 },
            gamma: Fixed { raw: 990_000_000 },
            theta: Fixed { raw: 100_000 },
            kappa: Fixed { raw: 1_000_000 },
            max_iter: 1000,
            planning_steps: 10,
            output_dir: String::from_str("output/default"),
        }
    }
}

impl Config {
    /// Whether a run can start from these options: the environment and the
    /// algorithm are known, and `gamma` and `epsilon` lie in the unit
    /// interval.
    pub open spec fn acceptable(&self) -> bool {
        &&& environment_named(self.env_name@) is Some
        &&& algorithm_named(self.algorithm@) is Some
        &&& self.gamma.is_unit()
        &&& self.epsilon.is_unit()
    }

    /// The environment and the algorithm of a run, or `InvalidParameter`
    /// where a run cannot start from these options.
    pub fn validate(&self) -> (res: Result<(EnvironmentKind, Algorithm), RlError>)
        ensures
            match res {
                Ok(run) => self.acceptable() && Some(run.0) == environment_named(self.env_name@)
                    && Some(run.1) == algorithm_named(self.algorithm@),
                Err(e) => e == RlError::InvalidParameter && !self.acceptable(),
            },
    {
        let environment: EnvironmentKind = match environment_kind(&self.env_name) {
            Some(kind) => kind,
            None => {
                return Err(RlError::InvalidParameter);
            },
        };
        let algorithm: Algorithm = match algorithm_kind(&self.algorithm) {
            Some(kind) => kind,
            None => {
                return Err(RlError::InvalidParameter);
            },
        };
        if !self.gamma.in_unit_interval() || !self.epsilon.in_unit_interval() {
            return Err(RlError::InvalidParameter);
        }
        Ok((environment, algorithm))
    }
}

/// The first `k` rewards of an episode, each discounted by `gamma` once for
/// every step before it: `sum over t < k of gamma^t * reward(t)`.
pub open spec fn discounted_sum(rewards: Seq<Fixed>, gamma: Fixed, k: int) -> Fixed
    decreases k,
{
    if k <= 0 {
        Fixed { raw: 0 }
    } else {
        discounted_sum(rewards, gamma, k - 1).spec_add(
            discount(gamma, k - 1).spec_mul(rewards[k - 1]),
        )
    }
}

/// `gamma` to the power `t`.
pub open spec fn discount(gamma: Fixed, t: int) -> Fixed
    decreases t,
{
    if t <= 0 {
        Fixed { raw: SCALE }
    } else {
        discount(gamma, t - 1).spec_mul(gamma)
    }
}

/// The discounted return of an episode with the given rewards.
pub fn discounted_return(rewards: &Vec<Fixed>, gamma: Fixed) -> (g: Fixed)
    ensures
        g == discounted_sum(rewards@, gamma, rewards.len() as int),
{
    let mut g: Fixed = Fixed { raw: 0 };
    let mut power: Fixed = Fixed { raw: SCALE };
    let mut t: usize = 0;
    while t < rewards.len()
        invariant
            t <= rewards.len(),
            g == discounted_sum(rewards@, gamma, t as int),
            power == discount(gamma, t as int),
        decreases rewards.len() - t,
    {
        g = g.sat_add(power.sat_mul(rewards[t]));
        power = power.sat_mul(gamma);
        t = t + 1;
    }
    g
}

/// Whether a step under `policy` fails with the error `e` in the state that
/// `env` is in: the policy has no answer there and refuses with `e`, or it
/// has one, `e` is `IndexOutOfRange`, and an answer that it can give there
/// is no action of the environment or is forbidden.
pub open spec fn step_fails<E: MonteCarloEnvironment, P: Policy>(
    env: &E,
    policy: &P,
    e: RlError,
) -> bool {
    if !policy.answers(env.state() as usize) {
        e == policy.refusal(env.state() as usize)
    } else {
        e == RlError::IndexOutOfRange && exists|action: usize| #[trigger]
            policy.may_choose(env.state() as usize, action) && (action >= env.actions()
                || env.forbidden(action))
    }
}

/// Whether `mean` is the mean of the discounted sums of `episodes`
/// episodes of at most `cap` steps each: `rewards` holds the rewards of
/// each episode and `gains` its discounted return.
pub open spec fn mean_return(
    gains: Seq<Fixed>,
    rewards: Seq<Seq<Fixed>>,
    mean: Fixed,
    episodes: nat,
    cap: nat,
    gamma: Fixed,
) -> bool {
    &&& gains.len() == episodes
    &&& rewards.len() == episodes
    &&& forall|k: int|
        0 <= k < episodes ==> (#[trigger] rewards[k]).len() <= cap && gains[k] == discounted_sum(
            rewards[k],
            gamma,
            rewards[k].len() as int,
        )
    &&& mean == fixed_sum(gains, episodes as int).spec_div_count(episodes as int)
}

/// Whether `mean` is the mean of the discounted returns of `episodes`
/// episodes of at most `cap` steps each, whatever their rewards were.
pub open spec fn is_mean_return(mean: Fixed, episodes: nat, cap: nat, gamma: Fixed) -> bool {
    exists|gains: Seq<Fixed>, rewards: Seq<Seq<Fixed>>| #[trigger]
        mean_return(gains, rewards, mean, episodes, cap, gamma)
}

/// One step under a policy: the action the policy chooses in the current
/// state, taken if the environment allows it.
///
/// Returns the action and the reward. Fails with the error of the policy
/// where the policy has no answer in the state, and with `IndexOutOfRange`
/// where its answer is no action of the environment or is forbidden; a call
/// that fails leaves the environment as it was.
pub fn policy_step<E: MonteCarloEnvironment, P: Policy>(
    env: &mut E,
    policy: &P,
    rng: &mut RandomSource,
) -> (res: Result<(usize, Fixed), RlError>)
    requires
        old(env).well_formed(),
        !old(env).game_over(),
        policy.well_formed(),
    ensures
        final(env).well_formed(),
        final(env).states() == old(env).states(),
        final(env).actions() == old(env).actions(),
        final(env).rewards() == old(env).rewards(),
        match res {
            Ok(out) => policy.answers(old(env).state() as usize) && policy.may_choose(
                old(env).state() as usize,
                out.0,
            ) && out.0 < old(env).actions() && !old(env).forbidden(out.0),
            Err(e) => *final(env) == *old(env) && step_fails(old(env), policy, e),
        },
{
    let state: usize = env.state_id();
    let action: usize = match policy.get_action(&state, rng) {
        Ok(action) => action,
        Err(e) => {
            return Err(e);
        },
    };
    if action >= env.num_actions() || env.is_forbidden(action) {
        assert(policy.may_choose(state, action));
        return Err(RlError::IndexOutOfRange);
    }
    let outcome = env.step(action, rng);
    Ok((action, outcome.1))
}

/// The mean discounted return of `policy` over `num_episodes` episodes of at
/// most `max_steps` steps each: the sum of the discounted sums of the
/// episodes, divided by their number.
///
/// Fails with `InvalidParameter`, before anything is drawn or stepped, when
/// there is no episode to average over or `gamma` lies outside the unit
/// interval, and otherwise with the error of the first step that fails, as
/// [`policy_step`] reports it.
pub fn evaluate_policy<E: MonteCarloEnvironment, P: Policy>(
    env: &mut E,
    policy: &P,
    num_episodes: usize,
    gamma: Fixed,
    max_steps: usize,
    rng: &mut RandomSource,
) -> (res: Result<Fixed, RlError>)
    requires
        old(env).well_formed(),
        policy.well_formed(),
    ensures
        final(env).well_formed(),
        final(env).states() == old(env).states(),
        final(env).actions() == old(env).actions(),
        final(env).rewards() == old(env).rewards(),
        res is Ok ==> num_episodes > 0 && gamma.is_unit(),
        res matches Ok(mean) ==> is_mean_return(mean, num_episodes as nat, max_steps as nat, gamma),
        res matches Err(e) ==> if !(num_episodes > 0 && gamma.is_unit()) {
            e == RlError::InvalidParameter && *final(env) == *old(env)
        } else {
            max_steps > 0 && !final(env).game_over() && step_fails(final(env), policy, e)
        },
{
    if num_episodes == 0 || !gamma.in_unit_interval() {
        return Err(RlError::InvalidParameter);
    }
    let mut total_return: Fixed = Fixed { raw: 0 };
    let mut episode: usize = 0;
    let ghost mut gains: Seq<Fixed> = Seq::empty();
    let ghost mut all_rewards: Seq<Seq<Fixed>> = Seq::empty();
    while episode < num_episodes
        invariant
            env.well_formed(),
            env.states() == old(env).states(),
            env.actions() == old(env).actions(),
            env.rewards() == old(env).rewards(),
            policy.well_formed(),
            episode <= num_episodes,
            num_episodes > 0,
            gamma.is_unit(),
            gains.len() == episode,
            all_rewards.len() == episode,
            forall|k: int|
                0 <= k < episode ==> (#[trigger] all_rewards[k]).len() <= max_steps && gains[k]
                    == discounted_sum(all_rewards[k], gamma, all_rewards[k].len() as int),
            total_return == fixed_sum(gains, episode as int),
        decreases num_episodes - episode,
    {
        env.reset(rng);
        let mut rewards: Vec<Fixed> = Vec::new();
        let mut steps: usize = 0;
        while steps < max_steps && !env.is_game_over()
            invariant
                env.well_formed(),
                env.states() == old(env).states(),
                env.actions() == old(env).actions(),
                env.rewards() == old(env).rewards(),
                policy.well_formed(),
                steps <= max_steps,
                rewards.len() == steps,
                num_episodes > 0,
                gamma.is_unit(),
            decreases max_steps - steps,
        {
            match policy_step(env, policy, rng) {
                Ok(out) => {
                    rewards.push(out.1);
                },
                Err(e) => {
                    return Err(e);
                },
            }
            steps = steps + 1;
        }
        let g: Fixed = discounted_return(&rewards, gamma);
        proof {
            lemma_fixed_sum_push(gains, g, episode as int);
            gains = gains.push(g);
            all_rewards = all_rewards.push(rewards@);
        }
        total_return = total_return.sat_add(g);
        episode = episode + 1;
    }
    let mean: Fixed = total_return.div_count(num_episodes as u64);
    proof {
        assert(mean_return(
            gains,
            all_rewards,
            mean,
            num_episodes as nat,
            max_steps as nat,
            gamma,
        ));
        assert(is_mean_return(mean, num_episodes as nat, max_steps as nat, gamma));
    }
    Ok(mean)
}

} // verus!
