//! The physics translation: a pure function of control, vessel coefficients
//! and current velocities, computing the force and torque handed to the
//! physics engine's accumulator for one tick.  Forces are recomputed from
//! scratch every tick, never accumulated across ticks.
//!
//! Everything is fixed point: inputs in thousandths, outputs in millionths
//! (the exact product of two thousandths values).  The embedding application
//! rotates the body-frame force into world space and feeds the engine.

use vstd::prelude::*;

use crate::SCALAR_LIMIT;
use crate::vessel::Control;
use crate::vessel::VesselProperties;

verus! {

/// One tick's force and torque in the vessel's body frame (x forwards, y up,
/// z to the right), in millionths of the engine's units.
#[derive(Clone, Copy, Debug, PartialEq, Eq, Structural)]
pub struct Actuation {
    /// Force along the forward axis.
    pub force_forward: i64,
    /// Force along the sideways axis, countering lateral sliding.
    pub force_side: i64,
    /// Torque about the forward axis, damping roll.
    pub torque_x: i64,
    /// Torque about the vertical axis: steering plus horizontal damping.
    pub torque_y: i64,
    /// Torque about the sideways axis, damping pitch.
    pub torque_z: i64,
}

/// Computes one tick's actuation:
///
/// - a forward force scaled by the throttle axis and the forwards-force
///   coefficient;
/// - a sideways counter-force scaled by the lateral speed and the side
///   friction coefficient;
/// - a steering torque about the vertical axis scaled by the turn axis and
///   the torque coefficient, turning right under positive turn input;
/// - damping counter-torques: the vertical (horizontal-plane) angular speed
///   scaled by the horizontal rotary friction, the other two axes by the
///   vertical rotary friction.
///
/// `side_velocity` is the sideways component of the body-frame linear
/// velocity; `ang_x`, `ang_y`, `ang_z` are the angular velocity components,
/// `ang_y` about the vertical axis.  All inputs in thousandths.
pub fn move_vessel(
    control: &Control,
    props: &VesselProperties,
    side_velocity: i64,
    ang_x: i64,
    ang_y: i64,
    ang_z: i64,
) -> (r: Actuation)
    requires
        control.wf(),
        props.wf(),
        -SCALAR_LIMIT <= side_velocity <= SCALAR_LIMIT,
        -SCALAR_LIMIT <= ang_x <= SCALAR_LIMIT,
        -SCALAR_LIMIT <= ang_y <= SCALAR_LIMIT,
        -SCALAR_LIMIT <= ang_z <= SCALAR_LIMIT,
    ensures
        r.force_forward == props.control_forwards_force * control.forward,
        r.force_side == -(side_velocity * props.side_friction),
        r.torque_x == -(ang_x * props.rotary_friction_ver),
        r.torque_y == -(control.turn * props.control_torque) + -(ang_y
            * props.rotary_friction_hor),
        r.torque_z == -(ang_z * props.rotary_friction_ver),
{
    proof {
        assert(props.control_forwards_force * control.forward <= props.control_forwards_force
            * 1000 <= SCALAR_LIMIT * 1000) by (nonlinear_arith)
            requires
                control.wf(),
                props.wf(),
        ;
        assert(props.control_forwards_force * control.forward >= props.control_forwards_force * (
        -1000) >= SCALAR_LIMIT * (-1000)) by (nonlinear_arith)
            requires
                control.wf(),
                props.wf(),
        ;
        lemma_product_bound(side_velocity, props.side_friction);
        lemma_product_bound(ang_x, props.rotary_friction_ver);
        lemma_product_bound(ang_y, props.rotary_friction_hor);
        lemma_product_bound(ang_z, props.rotary_friction_ver);
        lemma_product_bound(control.turn, props.control_torque);
    }
    let force_forward = props.control_forwards_force * control.forward;
    let force_side = -(side_velocity * props.side_friction);
    let torque_x = -(ang_x * props.rotary_friction_ver);
    let torque_y = -(control.turn * props.control_torque) + -(ang_y * props.rotary_friction_hor);
    let torque_z = -(ang_z * props.rotary_friction_ver);
    Actuation { force_forward, force_side, torque_x, torque_y, torque_z }
}

/// The product of a bounded value and a non-negative bounded coefficient
/// stays far inside `i64`.
proof fn lemma_product_bound(v: i64, c: i64)
    requires
        -SCALAR_LIMIT <= v <= SCALAR_LIMIT,
        0 <= c <= SCALAR_LIMIT,
    ensures
        -(SCALAR_LIMIT * SCALAR_LIMIT) <= v * c <= SCALAR_LIMIT * SCALAR_LIMIT,
{
    assert(-(SCALAR_LIMIT * SCALAR_LIMIT) <= v * c <= SCALAR_LIMIT * SCALAR_LIMIT)
        by (nonlinear_arith)
        requires
            -SCALAR_LIMIT <= v <= SCALAR_LIMIT,
            0 <= c <= SCALAR_LIMIT,
    ;
}

} // verus!
