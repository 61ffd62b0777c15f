//! The physics translation.  Scalars are fixed point: inputs in thousandths,
//! outputs in millionths, so 8.0 units of force read as 8_000_000.

use vesselplay::actuation::move_vessel;
use vesselplay::vessel::Control;
use vesselplay::vessel::VesselProperties;

#[test]
fn full_forward_yields_pure_forward_force_and_no_torque() {
    let props = VesselProperties::default();
    let control = Control { turn: 0, forward: 1000 };
    let r = move_vessel(&control, &props, 0, 0, 0, 0);
    // exactly the forwards-force coefficient (8.0), along the forward axis
    assert_eq!(r.force_forward, 8_000_000);
    assert_eq!(r.force_side, 0);
    assert_eq!(r.torque_x, 0);
    assert_eq!(r.torque_y, 0);
    assert_eq!(r.torque_z, 0);
}

#[test]
fn side_friction_counters_lateral_speed() {
    let props = VesselProperties::default();
    let control = Control::zero();
    // sliding to the right at 2.0 units per second, side friction 2.2
    let r = move_vessel(&control, &props, 2000, 0, 0, 0);
    assert_eq!(r.force_side, -4_400_000);
    assert_eq!(r.force_forward, 0);
}

#[test]
fn turning_and_rotary_friction_sum_on_the_vertical_axis() {
    let props = VesselProperties::default();
    let control = Control { turn: 1000, forward: 0 };
    // full right turn with torque coefficient 6.0 and an existing spin of
    // 0.5 damped at 3.0
    let r = move_vessel(&control, &props, 0, 0, 500, 0);
    assert_eq!(r.torque_y, -6_000_000 - 1_500_000);
    // roll and pitch are damped by the vertical coefficient 6.0
    let r2 = move_vessel(&control, &props, 0, 250, 0, -250);
    assert_eq!(r2.torque_x, -1_500_000);
    assert_eq!(r2.torque_z, 1_500_000);
}
