//! The trajectory shaper: a steering profile as a weighted sum of radial
//! basis functions, and the reward of a position against the waypoints of a
//! circuit. Also the steering controller.

use crate::fixed::{
    div_toward_zero, from_int, fx_abs, fx_add, fx_div, fx_mul, fx_neg, fx_sub, ratio, sat, saturate,
    spec_wide_mul, trunc_div, wide_mul, Fixed, Wide, SCALE,
};
use crate::geometry::{closer_than, Point};
use crate::trig::{fx_exp, lemma_exp_unit};
use vstd::prelude::*;

verus! {

/// The reward weight of the first waypoint.
pub const BASE_REWARD: Fixed = 100_000_000_000;

/// A waypoint counts for a position less than this far from it.
pub const REWARD_RADIUS: Fixed = 4_000_000_000;

/// What is added to the squared distance in the reward of a waypoint.
pub const REWARD_SOFTENING: Fixed = 2_000_000_000;

/// The factor 0.01 on the reward of a waypoint.
pub const REWARD_FACTOR: Fixed = 10_000_000;

/// The number of samples of a trajectory.
pub const TRAJECTORY_SAMPLES: u32 = 1000;

/// A position on the circuit with its reward weight: `(x, y, weight)`.
pub type Waypoint = (Fixed, Fixed, Fixed);

/// Why a weight vector was refused.
#[derive(Clone, Copy, PartialEq, Eq, Structural, Debug)]
pub enum WeightError {
    /// The vector does not have one weight for each basis function.
    LengthMismatch { expected: usize, given: usize },
}

/// The point halfway between two coordinates, rounded toward zero.
pub open spec fn spec_midpoint(a: Fixed, b: Fixed) -> Fixed {
    trunc_div(a + b, 2) as i64
}

#[verifier::when_used_as_spec(spec_midpoint)]
pub fn midpoint(a: Fixed, b: Fixed) -> (m: Fixed)
    ensures
        m == spec_midpoint(a, b),
{
    let sum: i128 = a as i128 + b as i128;
    if sum >= 0 {
        (sum / 2) as i64
    } else {
        (-((-sum) / 2)) as i64
    }
}

/// The reward weight of waypoint `i`: `i + BASE_REWARD`, saturated.
pub open spec fn waypoint_weight(i: int) -> Fixed {
    sat(i * 1_000_000_000 + BASE_REWARD)
}

/// Waypoint `i`: halfway between the two markers of pair `i`, with its
/// weight.
pub open spec fn waypoint_at(yellow: Seq<Point>, blue: Seq<Point>, i: int) -> Waypoint {
    (midpoint(yellow[i].0, blue[i].0), midpoint(yellow[i].1, blue[i].1), waypoint_weight(i))
}

/// One waypoint for each pair of markers with the same index.
pub open spec fn waypoints_of(yellow: Seq<Point>, blue: Seq<Point>) -> Seq<Waypoint> {
    Seq::new(
        if yellow.len() <= blue.len() {
            yellow.len()
        } else {
            blue.len()
        },
        |i: int| waypoint_at(yellow, blue, i),
    )
}

/// What one waypoint adds to the reward of a position: nothing unless the
/// position is less than `REWARD_RADIUS` from it, else
/// `weight / (distance^2 + 2) * 0.01`.
pub open spec fn spec_waypoint_reward(pos: Point, w: Waypoint) -> Fixed {
    if closer_than(pos, (w.0, w.1), REWARD_RADIUS) {
        let dx = fx_sub(pos.0, w.0);
        let dy = fx_sub(pos.1, w.1);
        let d2 = fx_add(fx_mul(dx, dx), fx_mul(dy, dy));
        fx_mul(fx_div(w.2, fx_add(d2, REWARD_SOFTENING)), REWARD_FACTOR)
    } else {
        0
    }
}

#[verifier::when_used_as_spec(spec_waypoint_reward)]
pub fn waypoint_reward(pos: Point, w: Waypoint) -> (r: Fixed)
    ensures
        r == spec_waypoint_reward(pos, w),
{
    if closer_than(pos, (w.0, w.1), REWARD_RADIUS) {
        let dx: Fixed = fx_sub(pos.0, w.0);
        let dy: Fixed = fx_sub(pos.1, w.1);
        let d2: Fixed = fx_add(fx_mul(dx, dx), fx_mul(dy, dy));
        fx_mul(fx_div(w.2, fx_add(d2, REWARD_SOFTENING)), REWARD_FACTOR)
    } else {
        0
    }
}

/// The reward of a position: the sum over all waypoints, in their order.
pub open spec fn reward_sum(pos: Point, waypoints: Seq<Waypoint>) -> Fixed
    decreases waypoints.len(),
{
    if waypoints.len() == 0 {
        0
    } else {
        fx_add(reward_sum(pos, waypoints.drop_last()), waypoint_reward(pos, waypoints.last()))
    }
}

/// The center of basis function `i` of `n`, for `i` from 1 to `n`: `i / n`.
pub open spec fn spec_basis_center(i: i32, n: i32) -> Fixed {
    ratio(i as i64, n as i64)
}

/// The value at `x` of the basis function of `n` centered at `c`:
/// `exp(-(x - c)^2 * n / c)`.
pub open spec fn spec_base_function(n: i32, x: Fixed, c: Fixed) -> Fixed {
    fx_exp(fx_neg(fx_mul(fx_mul(fx_sub(x, c), fx_sub(x, c)), fx_div(from_int(n as i64), c))))
}

/// A basis function with a centre that is not negative lies between 0 and 1.
pub proof fn lemma_base_function_unit(n: i32, x: Fixed, c: Fixed)
    requires
        n >= 0,
        c >= 0,
    ensures
        0 <= spec_base_function(n, x, c) <= SCALE,
{
    let d = fx_sub(x, c);
    assert(d * d >= 0) by (nonlinear_arith);
    let square = fx_mul(d, d);
    assert(square >= 0);
    let rate = fx_div(from_int(n as i64), c);
    let scaled = from_int(n as i64) * 1_000_000_000;
    if c > 0 {
        assert(scaled / (c as int) >= 0) by (nonlinear_arith)
            requires
                scaled >= 0,
                c > 0,
        ;
    }
    assert(rate >= 0);
    assert(square * rate >= 0) by (nonlinear_arith)
        requires
            square >= 0,
            rate >= 0,
    ;
    lemma_exp_unit(fx_neg(fx_mul(square, rate)));
}

#[verifier::when_used_as_spec(spec_base_function)]
pub fn base_function(n: i32, x: Fixed, c: Fixed) -> (v: Fixed)
    ensures
        v == spec_base_function(n, x, c),
        n >= 0 && c >= 0 ==> 0 <= v <= SCALE,
{
    proof {
        if n >= 0 && c >= 0 {
            lemma_base_function_unit(n, x, c);
        }
    }
    fx_exp(fx_neg(fx_mul(fx_mul(fx_sub(x, c), fx_sub(x, c)), fx_div(from_int(n as i64), c))))
}

/// The sum of the first `k` of `n` basis functions at `x`.
pub open spec fn basis_sum(n: i32, x: Fixed, k: int) -> int
    decreases k,
{
    if k <= 0 {
        0
    } else {
        basis_sum(n, x, k - 1) + spec_base_function(n, x, spec_basis_center(k as i32, n))
    }
}

/// The sum of the first `k` of `n` basis functions at `x`, each times its
/// weight.
pub open spec fn weighted_basis_sum(n: i32, weights: Seq<Fixed>, x: Fixed, k: int) -> int
    decreases k,
{
    if k <= 0 {
        0
    } else {
        weighted_basis_sum(n, weights, x, k - 1) + trunc_div(
            spec_base_function(n, x, spec_basis_center(k as i32, n)) * weights[k - 1],
            1_000_000_000,
        )
    }
}

/// The weighted sum of the basis functions over their plain sum: an average
/// of the weights. Zero where the plain sum is zero.
pub open spec fn weight_average(n: i32, weights: Seq<Fixed>, x: Fixed) -> int {
    trunc_div(weighted_basis_sum(n, weights, x, n as int) * 1_000_000_000, basis_sum(n, x, n as int))
}

/// Sample `j` of the trajectory, at `x = j / 1000`: the average of the
/// weights at `x`, times `x`, times `goal - state`. No step saturates: a
/// sample may lie outside the range of `Fixed`.
pub open spec fn trajectory_sample(
    n: i32,
    weights: Seq<Fixed>,
    goal: Fixed,
    state: Fixed,
    j: int,
) -> int {
    let x = ratio(j as i64, 1000);
    trunc_div(
        trunc_div(weight_average(n, weights, x) * x, 1_000_000_000) * (goal - state),
        1_000_000_000,
    )
}

/// The whole trajectory: `TRAJECTORY_SAMPLES` samples.
pub open spec fn trajectory(n: i32, weights: Seq<Fixed>, goal: Fixed, state: Fixed) -> Seq<int> {
    Seq::new(1000, |j: int| trajectory_sample(n, weights, goal, state, j))
}

/// The samples of a trajectory as plain integers.
pub open spec fn wide_view(samples: Seq<Wide>) -> Seq<int> {
    samples.map_values(|v: Wide| v as int)
}

/// The trajectory turns its sign when goal and state change places, and is
/// zero where they are the same.
pub proof fn lemma_trajectory_mirrors(
    n: i32,
    weights: Seq<Fixed>,
    goal: Fixed,
    state: Fixed,
    j: int,
)
    ensures
        trajectory_sample(n, weights, state, goal, j) == -trajectory_sample(
            n,
            weights,
            goal,
            state,
            j,
        ),
        goal == state ==> trajectory_sample(n, weights, goal, state, j) == 0,
{
    let x = ratio(j as i64, 1000);
    let a = trunc_div(weight_average(n, weights, x) * x, 1_000_000_000);
    let d = goal - state;
    assert(a * (-d) == -(a * d)) by (nonlinear_arith);
    assert(a * 0 == 0) by (nonlinear_arith);
}

/// The trajectory depends on goal and state through their difference alone.
pub proof fn lemma_trajectory_of_difference(
    n: i32,
    weights: Seq<Fixed>,
    goal: Fixed,
    state: Fixed,
    other_goal: Fixed,
    other_state: Fixed,
    j: int,
)
    requires
        goal - state == other_goal - other_state,
    ensures
        trajectory_sample(n, weights, goal, state, j) == trajectory_sample(
            n,
            weights,
            other_goal,
            other_state,
            j,
        ),
{
}

/// A reward carried over from the tick before counts again while it is
/// smaller than this.
pub const CARRY_THRESHOLD: Fixed = 10_000_000;

pub struct DMP {
    n: i32,
    reward_trajectory: Vec<Waypoint>,
    weights: Vec<Fixed>,
    last_reward: Fixed,
}

impl DMP {
    /// There is one weight for each basis function.
    #[verifier::type_invariant]
    spec fn well_formed(self) -> bool {
        self.n >= 0 && self.weights@.len() == self.n
    }

    /// The number of basis functions.
    pub closed spec fn basis_count(self) -> int {
        self.n as int
    }

    /// The weights, one for each basis function.
    pub closed spec fn weight_seq(self) -> Seq<Fixed> {
        self.weights@
    }

    /// The waypoints that positions are scored against.
    pub closed spec fn waypoints(self) -> Seq<Waypoint> {
        self.reward_trajectory@
    }

    /// The reward that the last call of `get_reward_carried` returned; zero
    /// before the first.
    pub closed spec fn carried(self) -> Fixed {
        self.last_reward
    }

    /// A shaper of `number_gaussians` basis functions with all weights zero,
    /// and one waypoint for each pair of markers with the same index.
    pub fn new(number_gaussians: i32, yellow_cones: &Vec<Point>, blue_cones: &Vec<Point>) -> (dmp: DMP)
        requires
            number_gaussians >= 0,
        ensures
            dmp.basis_count() == number_gaussians,
            dmp.weight_seq() == Seq::new(number_gaussians as nat, |i: int| 0i64),
            dmp.waypoints() == waypoints_of(yellow_cones@, blue_cones@),
            dmp.carried() == 0,
    {
        let count: usize = if yellow_cones.len() <= blue_cones.len() {
            yellow_cones.len()
        } else {
            blue_cones.len()
        };
        let mut r_trajectory: Vec<Waypoint> = Vec::new();
        let mut i: usize = 0;
        while i < count
            invariant
                i <= count,
                count <= yellow_cones.len(),
                count <= blue_cones.len(),
                r_trajectory.len() == i,
                forall|k: int|
                    0 <= k < i ==> r_trajectory@[k] == waypoint_at(yellow_cones@, blue_cones@, k),
            decreases count - i,
        {
            let y_cone: Point = yellow_cones[i];
            let b_cone: Point = blue_cones[i];
            let reward: Fixed = saturate((i as i128) * 1_000_000_000 + 100_000_000_000);
            r_trajectory.push((midpoint(y_cone.0, b_cone.0), midpoint(y_cone.1, b_cone.1), reward));
            i = i + 1;
        }
        let mut weight_vec: Vec<Fixed> = Vec::new();
        let mut k: i32 = 0;
        while k < number_gaussians
            invariant
                0 <= k <= number_gaussians,
                weight_vec.len() == k,
                forall|j: int| 0 <= j < k ==> weight_vec@[j] == 0,
            decreases number_gaussians - k,
        {
            weight_vec.push(0);
            k = k + 1;
        }
        assert(r_trajectory@ =~= waypoints_of(yellow_cones@, blue_cones@));
        assert(weight_vec@ =~= Seq::new(number_gaussians as nat, |i: int| 0i64));
        DMP {
            n: number_gaussians,
            reward_trajectory: r_trajectory,
            weights: weight_vec,
            last_reward: 0,
        }
    }

    /// The reward of a position. It depends on the position and the
    /// waypoints alone.
    pub fn get_reward(&self, pos: Point) -> (reward: Fixed)
        ensures
            reward == reward_sum(pos, self.waypoints()),
    {
        let mut reward: Fixed = 0;
        let mut i: usize = 0;
        assert(self.reward_trajectory@.take(0) =~= Seq::<Waypoint>::empty());
        while i < self.reward_trajectory.len()
            invariant
                i <= self.reward_trajectory.len(),
                reward == reward_sum(pos, self.reward_trajectory@.take(i as int)),
            decreases self.reward_trajectory.len() - i,
        {
            let w: Waypoint = self.reward_trajectory[i];
            proof {
                assert(self.reward_trajectory@.take(i + 1).drop_last() =~= self.reward_trajectory@.take(
                    i as int,
                ));
            }
            reward = fx_add(reward, waypoint_reward(pos, w));
            i = i + 1;
        }
        assert(self.reward_trajectory@.take(self.reward_trajectory.len() as int)
            =~= self.reward_trajectory@);
        reward
    }

    /// The reward of a position with the reward of the call before added
    /// where that was smaller than `CARRY_THRESHOLD` in size. The result is
    /// carried to the next call. Use `get_reward` unless this is asked for.
    pub fn get_reward_carried(&mut self, pos: Point) -> (reward: Fixed)
        ensures
            reward == (if fx_abs(old(self).carried()) < CARRY_THRESHOLD {
                fx_add(reward_sum(pos, old(self).waypoints()), old(self).carried())
            } else {
                reward_sum(pos, old(self).waypoints())
            }),
            final(self).carried() == reward,
            final(self).basis_count() == old(self).basis_count(),
            final(self).waypoints() == old(self).waypoints(),
            final(self).weight_seq() == old(self).weight_seq(),
    {
        let mut reward: Fixed = self.get_reward(pos);
        if fx_abs(self.last_reward) < CARRY_THRESHOLD {
            reward = fx_add(reward, self.last_reward);
        }
        proof {
            use_type_invariant(&*self);
        }
        self.last_reward = reward;
        reward
    }

    /// Replaces the weights by a vector of the same length. A vector of
    /// another length is refused and the weights stay as they are.
    pub fn set_weights(&mut self, weights: Vec<Fixed>) -> (res: Result<(), WeightError>)
        ensures
            final(self).basis_count() == old(self).basis_count(),
            final(self).waypoints() == old(self).waypoints(),
            final(self).carried() == old(self).carried(),
            final(self).weight_seq().len() == final(self).basis_count(),
            weights@.len() == old(self).weight_seq().len() ==> res is Ok && final(self).weight_seq()
                == weights@,
            weights@.len() != old(self).weight_seq().len() ==> res == Err::<(), WeightError>(
                WeightError::LengthMismatch {
                    expected: old(self).weight_seq().len() as usize,
                    given: weights@.len() as usize,
                },
            ) && final(self).weight_seq() == old(self).weight_seq(),
    {
        proof {
            use_type_invariant(&*self);
        }
        if weights.len() == self.weights.len() {
            self.weights = weights;
            Ok(())
        } else {
            Err(WeightError::LengthMismatch { expected: self.weights.len(), given: weights.len() })
        }
    }

    /// The weights, one for each basis function.
    pub fn get_weights(&self) -> (w: &Vec<Fixed>)
        ensures
            w@ == self.weight_seq(),
            w@.len() == self.basis_count(),
    {
        proof {
            use_type_invariant(self);
        }
        &self.weights
    }

    /// The steering profile from `state` toward `goal`: a thousand samples,
    /// whatever the number of basis functions, the weights, the goal and the
    /// state. The samples are exact on the grid and so may be wider than a
    /// `Fixed`.
    pub fn generate_trajectory(&self, goal: Fixed, state: Fixed) -> (y_vec: Vec<Wide>)
        ensures
            wide_view(y_vec@) == trajectory(
                self.basis_count() as i32,
                self.weight_seq(),
                goal,
                state,
            ),
            y_vec.len() == 1000,
    {
        self.forcing_function(goal, state)
    }

    /// The plain and the weighted sum of the basis functions at `x`.
    fn basis_sums(&self, x: Fixed) -> (sums: (i128, i128))
        ensures
            sums.0 == basis_sum(self.n, x, self.n as int),
            sums.1 == weighted_basis_sum(self.n, self.weights@, x, self.n as int),
            0 <= sums.0 <= self.n * 1_000_000_000,
            -0x8000_0000_0000_0000 * sums.0 <= sums.1 * 1_000_000_000 <= 0x8000_0000_0000_0000
                * sums.0,
    {
        proof {
            use_type_invariant(self);
        }
        let mut base_sum: i128 = 0;
        let mut base_sum_weights: i128 = 0;
        let mut k: i32 = 0;
        while k < self.n
            invariant
                0 <= k <= self.n,
                self.weights@.len() == self.n,
                base_sum == basis_sum(self.n, x, k as int),
                base_sum_weights == weighted_basis_sum(self.n, self.weights@, x, k as int),
                0 <= base_sum <= k * 1_000_000_000,
                -0x8000_0000_0000_0000 * base_sum <= base_sum_weights * 1_000_000_000
                    <= 0x8000_0000_0000_0000 * base_sum,
            decreases self.n - k,
        {
            let c: Fixed = ratio((k + 1) as i64, self.n as i64);
            assert(c >= 0) by {
                let scaled = (k + 1) * 1_000_000_000;
                assert(scaled / (self.n as int) >= 0) by (nonlinear_arith)
                    requires
                        scaled >= 0,
                        self.n > 0,
                ;
            }
            let t: Fixed = base_function(self.n, x, c);
            let w: Fixed = self.weights[k as usize];
            assert(-0x8000_0000_0000_0000 * t <= t * w <= 0x8000_0000_0000_0000 * t
                && -0x8000_0000_0000_0000 * 1_000_000_000 <= t * w <= 0x8000_0000_0000_0000
                * 1_000_000_000) by (nonlinear_arith)
                requires
                    0 <= t <= 1_000_000_000,
                    -0x8000_0000_0000_0000 <= w <= 0x8000_0000_0000_0000,
            ;
            let part: i128 = div_toward_zero((t as i128) * (w as i128), 1_000_000_000);
            base_sum_weights = base_sum_weights + part;
            base_sum = base_sum + t as i128;
            k = k + 1;
        }
        (base_sum, base_sum_weights)
    }

    fn forcing_function(&self, goal: Fixed, state: Fixed) -> (y_vec: Vec<Wide>)
        ensures
            wide_view(y_vec@) == trajectory(self.n, self.weights@, goal, state),
            y_vec.len() == 1000,
    {
        proof {
            use_type_invariant(self);
        }
        let delta: i128 = goal as i128 - state as i128;
        let mut y_vec: Vec<Wide> = Vec::new();
        let mut i: u32 = 0;
        while i < TRAJECTORY_SAMPLES
            invariant
                i <= TRAJECTORY_SAMPLES,
                TRAJECTORY_SAMPLES == 1000,
                self.n >= 0,
                delta == goal - state,
                y_vec.len() == i,
                forall|j: int|
                    0 <= j < i ==> y_vec@[j] == trajectory_sample(
                        self.n,
                        self.weights@,
                        goal,
                        state,
                        j,
                    ),
            decreases TRAJECTORY_SAMPLES - i,
        {
            let x: Fixed = ratio(i as i64, 1000);
            assert(0 <= x < 1_000_000_000);
            let (base_sum, base_sum_weights) = self.basis_sums(x);
            let scaled: i128 = base_sum_weights * 1_000_000_000;
            let average: i128 = div_toward_zero(scaled, base_sum);
            assert(-0x8000_0000_0000_0000 <= average <= 0x8000_0000_0000_0000) by {
                if base_sum > 0 {
                    if scaled >= 0 {
                        assert((scaled as int) / (base_sum as int) <= 0x8000_0000_0000_0000)
                            by (nonlinear_arith)
                            requires
                                0 <= scaled <= 0x8000_0000_0000_0000 * base_sum,
                                base_sum > 0,
                        ;
                    } else {
                        assert((-(scaled as int)) / (base_sum as int) <= 0x8000_0000_0000_0000)
                            by (nonlinear_arith)
                            requires
                                0 <= -scaled <= 0x8000_0000_0000_0000 * base_sum,
                                base_sum > 0,
                        ;
                    }
                }
            }
            assert(-0x8000_0000_0000_0000 * 1_000_000_000 <= average * x <= 0x8000_0000_0000_0000
                * 1_000_000_000) by (nonlinear_arith)
                requires
                    -0x8000_0000_0000_0000 <= average <= 0x8000_0000_0000_0000,
                    0 <= x <= 1_000_000_000,
            ;
            let shaped: i128 = div_toward_zero(average * (x as i128), 1_000_000_000);
            assert(-0x8000_0000_0000_0000 <= shaped <= 0x8000_0000_0000_0000);
            assert(-0x7fff_ffff_ffff_ffff_ffff_ffff_ffff_ffff <= shaped * delta
                <= 0x7fff_ffff_ffff_ffff_ffff_ffff_ffff_ffff) by (nonlinear_arith)
                requires
                    -0x8000_0000_0000_0000 <= shaped <= 0x8000_0000_0000_0000,
                    -0xffff_ffff_ffff_ffff <= delta <= 0xffff_ffff_ffff_ffff,
            ;
            let sample: i128 = div_toward_zero(shaped * delta, 1_000_000_000);
            y_vec.push(sample);
            i = i + 1;
        }
        assert(wide_view(y_vec@) =~= trajectory(self.n, self.weights@, goal, state));
        y_vec
    }
}

/// A proportional-derivative controller. It remembers the last error and is
/// never reset.
#[derive(Clone, Copy, Debug)]
pub struct PdController {
    pub kp: Fixed,
    pub kd: Fixed,
    /// The error of the last call, saturated.
    pub last_error: Fixed,
}

impl PdController {
    /// The command for an error after the error `last_error`:
    /// `kp * error + kd * (error - last_error)`. It is not bounded: both
    /// products are exact.
    pub open spec fn command(self, error: int) -> int {
        spec_wide_mul(self.kp, error) + spec_wide_mul(self.kd, error - self.last_error)
    }

    pub fn new(p: Fixed, d: Fixed) -> (c: PdController)
        ensures
            c == (PdController { kp: p, kd: d, last_error: 0 }),
    {
        PdController { kp: p, kd: d, last_error: 0 }
    }

    /// The command for the error `state - goal`, which becomes the last
    /// error. The command is not clamped, and so may be wider than a `Fixed`.
    pub fn compute(&mut self, state: Fixed, goal: Fixed) -> (command: Wide)
        ensures
            command == old(self).command(state - goal),
            -0x20_0000_0000_0000_0000_0000_0000 <= command <= 0x20_0000_0000_0000_0000_0000_0000,
            final(self).last_error == fx_sub(state, goal),
            final(self).kp == old(self).kp,
            final(self).kd == old(self).kd,
    {
        let error: i128 = state as i128 - goal as i128;
        let error_diff: i128 = error - self.last_error as i128;
        let command: i128 = wide_mul(self.kp, error) + wide_mul(self.kd, error_diff);
        self.last_error = saturate(error);
        command
    }
}

/// The reward weight of a waypoint grows with its index: a later waypoint
/// never weighs less than an earlier one, and weighs more as long as the
/// weights are below the largest number.
pub proof fn lemma_waypoint_weights_increase(yellow: Seq<Point>, blue: Seq<Point>, i: int, j: int)
    requires
        0 <= i < j < waypoints_of(yellow, blue).len(),
    ensures
        waypoints_of(yellow, blue)[i].2 <= waypoints_of(yellow, blue)[j].2,
        waypoints_of(yellow, blue)[i].2 >= BASE_REWARD,
        j <= 9_000_000_000 ==> waypoints_of(yellow, blue)[i].2 < waypoints_of(yellow, blue)[j].2,
{
    assert(waypoints_of(yellow, blue)[i] == waypoint_at(yellow, blue, i));
    assert(waypoints_of(yellow, blue)[j] == waypoint_at(yellow, blue, j));
}

} // verus!
