//! A simulated vehicle on a generated closed circuit, and the search for a
//! steering profile that drives it well.
//!
//! Every quantity (length, angle, weight, reward) is a [`fixed::Fixed`]: an
//! integer count of billionths. Arithmetic on them saturates, so every
//! function is total and none can overflow. Where a result may lie outside
//! that range it is a [`fixed::Wide`] and exact.
//!
//! - [`fixed`], [`trig`], [`geometry`]: the arithmetic.
//! - [`car`]: the bicycle model and the sensor.
//! - [`track`]: the circuit generator, with the random source in [`random`].
//! - [`dmp`]: the trajectory shaper, the reward and the steering controller.
//! - [`rollout`]: one rollout, tick by tick.
//! - [`optimizer`]: the search over basis weights, round by round.
//! - [`plot`]: the series behind the on-screen plot.

pub mod car;
pub mod dmp;
pub mod fixed;
pub mod geometry;
pub mod optimizer;
pub mod plot;
pub mod random;
pub mod rollout;
pub mod track;
pub mod trig;
