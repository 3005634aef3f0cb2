//! One rollout, tick by tick: the sensor scans, the controller steers, the
//! vehicle moves, and the reward of the new position is collected. The
//! caller draws between ticks and hands in what the driver put in by hand.

use crate::car::{Car, Pose};
use crate::dmp::{midpoint, reward_sum, PdController, DMP};
use crate::fixed::{fx_add, fx_sub, hypot, magnitude, sat, Fixed, Wide, SCALE};
use crate::geometry::Point;
use crate::trig::fx_atan2;
use vstd::prelude::*;

verus! {

/// The number of ticks of a rollout: ten seconds at sixty ticks a second.
pub const ROLLOUT_TICKS: u32 = 600;

/// The number of ticks at the start of a rollout that collect no reward.
pub const WARMUP_TICKS: u32 = 1;

/// What the driver put in by hand since the last tick.
#[derive(Clone, Copy, Debug)]
pub struct ManualInput {
    pub velocity_delta: Fixed,
    pub steering_goal_delta: Fixed,
}

/// What one tick did, for display.
pub struct TickReport {
    /// The blue markers seen from the pose before the step.
    pub detected_blue: Vec<Point>,
    /// The yellow markers seen from the pose before the step.
    pub detected_yellow: Vec<Point>,
    /// The pose after the step.
    pub pose: Pose,
    pub steering_goal: Fixed,
    /// The steering input that drove the step, within -1 and 1.
    pub steering_command: Fixed,
    /// How far the command of the controller was from the steering goal.
    pub tracking_error: Wide,
    /// The reward collected in this tick.
    pub reward: Fixed,
}

/// The state of a rollout between two ticks.
#[derive(Clone, Copy, Debug)]
pub struct Rollout {
    pub car: Car,
    pub controller: PdController,
    pub ticks_done: u32,
    pub tick_budget: u32,
    pub warmup_ticks: u32,
    /// The reward collected so far.
    pub reward: Fixed,
}

/// The steering input for a command: the command held within -1 and 1.
pub open spec fn clamped(command: int) -> Fixed {
    if command > 1_000_000_000 {
        1_000_000_000
    } else if command < -1_000_000_000 {
        -1_000_000_000i64
    } else {
        command as i64
    }
}

/// The steering input for a command: the command held within -1 and 1.
pub fn clamp_steering(command: Wide) -> (steering: Fixed)
    ensures
        steering == clamped(command as int),
        -SCALE <= steering <= SCALE,
{
    if command > 1_000_000_000 {
        SCALE
    } else if command < -1_000_000_000 {
        -SCALE
    } else {
        command as i64
    }
}

/// The direction to steer toward: the bearing from the vehicle to the point
/// halfway between the first blue and the first yellow marker, or the
/// heading where either list is empty.
pub open spec fn spec_goal_direction(car: Car, blue: Seq<Point>, yellow: Seq<Point>) -> Fixed {
    if blue.len() > 0 && yellow.len() > 0 {
        fx_atan2(
            fx_sub(midpoint(blue[0].1, yellow[0].1), car.pos_y),
            fx_sub(midpoint(blue[0].0, yellow[0].0), car.pos_x),
        )
    } else {
        car.direction
    }
}

/// The direction to steer toward, from the markers that the sensor sees.
pub fn goal_direction(car: Car, blue: &Vec<Point>, yellow: &Vec<Point>) -> (g: Fixed)
    ensures
        g == spec_goal_direction(car, blue@, yellow@),
{
    if blue.len() > 0 && yellow.len() > 0 {
        let b: Point = blue[0];
        let y: Point = yellow[0];
        fx_atan2(fx_sub(midpoint(b.1, y.1), car.pos_y), fx_sub(midpoint(b.0, y.0), car.pos_x))
    } else {
        car.direction
    }
}

impl Rollout {
    /// All ticks are done.
    pub open spec fn spec_finished(&self) -> bool {
        self.ticks_done >= self.tick_budget
    }

    /// The steering goal of the next tick: the way from the heading to the
    /// goal direction, plus what the driver added.
    pub open spec fn steering_goal(self, goal_direction: Fixed, input: ManualInput) -> Fixed {
        fx_add(fx_sub(goal_direction, self.car.direction), input.steering_goal_delta)
    }

    /// The error that the controller sees in the next tick: how far the
    /// heading is past the steering goal.
    pub open spec fn steering_error(self, goal_direction: Fixed, input: ManualInput) -> int {
        self.car.direction - self.steering_goal(goal_direction, input)
    }

    /// The vehicle as it enters the next step: with the velocity that the
    /// driver changed and the steering input of the controller.
    pub open spec fn driven(self, goal_direction: Fixed, input: ManualInput) -> Car {
        Car {
            velocity: fx_add(self.car.velocity, input.velocity_delta),
            steering_angle: clamped(
                self.controller.command(self.steering_error(goal_direction, input)),
            ),
            ..self.car
        }
    }

    /// The vehicle after the next step.
    pub open spec fn moved(self, goal_direction: Fixed, input: ManualInput) -> Car {
        let driven = self.driven(goal_direction, input);
        let pose = driven.spec_integrate(driven.pose(), driven.velocity, driven.steering_angle);
        Car {
            pos_x: pose.x,
            pos_y: pose.y,
            direction: pose.heading,
            traveled_distance: fx_add(
                driven.traveled_distance,
                hypot(fx_sub(driven.pos_x, pose.x), fx_sub(driven.pos_y, pose.y)),
            ),
            ..driven
        }
    }

    /// The reward that the next tick collects: that of the new position, or
    /// nothing during the warm-up.
    pub open spec fn gained(
        self,
        goal_direction: Fixed,
        input: ManualInput,
        waypoints: Seq<(Fixed, Fixed, Fixed)>,
    ) -> Fixed {
        if self.ticks_done >= self.warmup_ticks {
            reward_sum(self.moved(goal_direction, input).position(), waypoints)
        } else {
            0
        }
    }

    /// The state after the next tick.
    pub open spec fn next(
        self,
        goal_direction: Fixed,
        input: ManualInput,
        waypoints: Seq<(Fixed, Fixed, Fixed)>,
    ) -> Rollout {
        Rollout {
            car: self.moved(goal_direction, input),
            controller: PdController {
                last_error: sat(self.steering_error(goal_direction, input)),
                ..self.controller
            },
            ticks_done: (self.ticks_done + 1) as u32,
            reward: fx_add(self.reward, self.gained(goal_direction, input, waypoints)),
            ..self
        }
    }

    /// A rollout of `tick_budget` ticks, the first `warmup_ticks` of which
    /// collect no reward.
    pub fn new(car: Car, controller: PdController, tick_budget: u32, warmup_ticks: u32) -> (r: Rollout)
        ensures
            r == (Rollout { car, controller, ticks_done: 0, tick_budget, warmup_ticks, reward: 0 }),
    {
        Rollout { car, controller, ticks_done: 0, tick_budget, warmup_ticks, reward: 0 }
    }

    /// Whether all ticks are done.
    #[verifier::when_used_as_spec(spec_finished)]
    pub fn finished(&self) -> (done: bool)
        ensures
            done == self.spec_finished(),
    {
        self.ticks_done >= self.tick_budget
    }

    /// One tick: scan, steer toward `goal_direction`, move, collect the
    /// reward. A finished rollout stays as it is and reports nothing.
    pub fn step(
        &mut self,
        blue_cones: &Vec<Point>,
        yellow_cones: &Vec<Point>,
        dmp: &DMP,
        goal_direction: Fixed,
        input: ManualInput,
    ) -> (report: Option<TickReport>)
        ensures
            old(self).spec_finished() ==> report is None && *final(self) == *old(self),
            !old(self).spec_finished() ==> report is Some && *final(self) == old(self).next(
                goal_direction,
                input,
                dmp.waypoints(),
            ),
            report matches Some(t) ==> {
                &&& t.detected_blue@ == old(self).car.visible(blue_cones@)
                &&& t.detected_yellow@ == old(self).car.visible(yellow_cones@)
                &&& t.pose == final(self).car.pose()
                &&& t.steering_goal == old(self).steering_goal(goal_direction, input)
                &&& t.steering_command == final(self).car.steering_angle
                &&& t.tracking_error == magnitude(
                    t.steering_goal - old(self).controller.command(
                        old(self).steering_error(goal_direction, input),
                    ),
                )
                &&& t.reward == old(self).gained(goal_direction, input, dmp.waypoints())
            },
    {
        if self.ticks_done >= self.tick_budget {
            return None;
        }
        let (detected_blue, detected_yellow) = self.car.scan_cones(blue_cones, yellow_cones);
        let heading: Fixed = self.car.direction;
        let steering_goal: Fixed = fx_add(fx_sub(goal_direction, heading), input.steering_goal_delta);
        let mut controller: PdController = self.controller;
        let command: Wide = controller.compute(heading, steering_goal);
        let ghost error = old(self).steering_error(goal_direction, input);
        assert(error == heading - steering_goal);
        assert(command == old(self).controller.command(error));
        let mut car: Car = self.car;
        car.velocity = fx_add(car.velocity, input.velocity_delta);
        car.steering_angle = clamp_steering(command);
        assert(car == old(self).driven(goal_direction, input));
        car.update_car_position();
        assert(car == old(self).moved(goal_direction, input));
        let gained: Fixed = if self.ticks_done >= self.warmup_ticks {
            dmp.get_reward((car.pos_x, car.pos_y))
        } else {
            0
        };
        let off: Wide = steering_goal as i128 - command;
        let tracking_error: Wide = if off < 0 {
            -off
        } else {
            off
        };
        self.car = car;
        self.controller = controller;
        self.ticks_done = self.ticks_done + 1;
        self.reward = fx_add(self.reward, gained);
        Some(
            TickReport {
                detected_blue,
                detected_yellow,
                pose: Pose { x: car.pos_x, y: car.pos_y, heading: car.direction },
                steering_goal,
                steering_command: car.steering_angle,
                tracking_error,
                reward: gained,
            },
        )
    }
}

} // verus!
