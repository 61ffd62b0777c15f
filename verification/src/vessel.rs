//! Vessel definitions: the serializable description of a player-built vehicle
//! (placed parts plus physics coefficients) and the per-entity control vector.

use vstd::prelude::*;

use crate::MILLI;
use crate::SCALAR_LIMIT;

verus! {

/// A 128-bit identifier naming a vessel definition in the shared asset table.
#[derive(Clone, Copy, Debug, PartialEq, Eq, Structural)]
pub struct VesselId(pub u128);

/// A fixed-point translation, in thousandths of a world unit.
#[derive(Clone, Copy, Debug, PartialEq, Eq, Structural)]
pub struct Translation {
    pub x: i64,
    pub y: i64,
    pub z: i64,
}

impl Translation {
    pub open spec fn spec_zero() -> Translation {
        Translation { x: 0, y: 0, z: 0 }
    }

    pub fn zero() -> (r: Translation)
        ensures
            r == Translation::spec_zero(),
    {
        Translation { x: 0, y: 0, z: 0 }
    }
}

/// A cuboid collision shape, edge lengths in thousandths of a world unit.
#[derive(Clone, Copy, Debug, PartialEq, Eq, Structural)]
pub struct Shape {
    pub x_len: i64,
    pub y_len: i64,
    pub z_len: i64,
}

/// One collider of a compound collision shape, offset to its placement.
#[derive(Clone, Copy, Debug, PartialEq, Eq, Structural)]
pub struct ColliderPart {
    pub placement: Translation,
    pub shape: Shape,
}

/// Physics tuning of a vessel; every field is a non-negative fixed-point
/// scalar in thousandths.
#[derive(Clone, Copy, Debug, PartialEq, Eq, Structural)]
pub struct VesselProperties {
    /// Forwards force applied when the input is fully forwards.
    pub control_forwards_force: i64,
    /// Torque applied for horizontal turning when the input is fully sideways.
    pub control_torque: i64,
    /// Ratio of the sideways speed applied as counter-force.
    pub side_friction: i64,
    /// Ratio of the horizontal rotation speed applied as counter-torque.
    pub rotary_friction_hor: i64,
    /// Ratio of the non-horizontal rotation speed applied as counter-torque.
    pub rotary_friction_ver: i64,
}

impl VesselProperties {
    /// All coefficients non-negative and small enough for the force
    /// computation to stay within `i64`.
    pub open spec fn wf(self) -> bool {
        &&& 0 <= self.control_forwards_force <= SCALAR_LIMIT
        &&& 0 <= self.control_torque <= SCALAR_LIMIT
        &&& 0 <= self.side_friction <= SCALAR_LIMIT
        &&& 0 <= self.rotary_friction_hor <= SCALAR_LIMIT
        &&& 0 <= self.rotary_friction_ver <= SCALAR_LIMIT
    }

    pub open spec fn spec_default() -> VesselProperties {
        VesselProperties {
            control_forwards_force: 8000,
            control_torque: 6000,
            side_friction: 2200,
            rotary_friction_hor: 3000,
            rotary_friction_ver: 6000,
        }
    }
}

impl Default for VesselProperties {
    fn default() -> (r: VesselProperties)
        ensures
            r == VesselProperties::spec_default(),
            r.wf(),
    {
        VesselProperties {
            control_forwards_force: 8000,
            control_torque: 6000,
            side_friction: 2200,
            rotary_friction_hor: 3000,
            rotary_friction_ver: 6000,
        }
    }
}

/// The steering/throttle input of one controlled entity, each axis a
/// fixed-point value clamped to one unit either way.
#[derive(Clone, Copy, Debug, PartialEq, Eq, Structural)]
pub struct Control {
    /// Left/right axis; positive is to the right.
    pub turn: i64,
    /// Forwards/backwards axis; positive is forwards.
    pub forward: i64,
}

impl Control {
    pub open spec fn wf(self) -> bool {
        &&& -MILLI <= self.turn <= MILLI
        &&& -MILLI <= self.forward <= MILLI
    }

    pub open spec fn spec_zero() -> Control {
        Control { turn: 0, forward: 0 }
    }

    pub fn zero() -> (r: Control)
        ensures
            r == Control::spec_zero(),
            r.wf(),
    {
        Control { turn: 0, forward: 0 }
    }
}

/// One placed part of a vessel definition: which element, and where.
pub struct Part {
    pub element_id: String,
    pub placement: Translation,
}

/// Mathematical image of a `Part`.
pub ghost struct PartView {
    pub element_id: Seq<char>,
    pub placement: Translation,
}

impl View for Part {
    type V = PartView;

    open spec fn view(&self) -> PartView {
        PartView { element_id: self.element_id@, placement: self.placement }
    }
}

impl Part {
    pub fn duplicate(&self) -> (r: Part)
        ensures
            r@ == self@,
    {
        Part { element_id: self.element_id.clone(), placement: self.placement }
    }
}

/// The immutable, serializable description of one vessel: its placed parts,
/// the compound collision shape resolved from them, and physics coefficients.
pub struct SimVessel {
    pub parts: Vec<Part>,
    pub collider: Vec<ColliderPart>,
    pub physics_properties: VesselProperties,
}

/// Mathematical image of a `SimVessel`.
pub ghost struct SimVesselView {
    pub parts: Seq<PartView>,
    pub collider: Seq<ColliderPart>,
    pub physics_properties: VesselProperties,
}

impl View for SimVessel {
    type V = SimVesselView;

    open spec fn view(&self) -> SimVesselView {
        SimVesselView {
            parts: self.parts.deep_view(),
            collider: self.collider@,
            physics_properties: self.physics_properties,
        }
    }
}

impl DeepView for Part {
    type V = PartView;

    open spec fn deep_view(&self) -> PartView {
        self@
    }
}

impl SimVessel {
    pub fn duplicate(&self) -> (r: SimVessel)
        ensures
            r@ == self@,
    {
        let mut parts: Vec<Part> = Vec::new();
        let mut i: usize = 0;
        while i < self.parts.len()
            invariant
                i <= self.parts.len(),
                parts@.len() == i,
                forall|k: int| 0 <= k < i ==> parts.deep_view()[k] == self.parts.deep_view()[k],
            decreases self.parts.len() - i,
        {
            let ghost prev = parts;
            parts.push(self.parts[i].duplicate());
            proof {
                assert forall|k: int| 0 <= k < i + 1 implies parts.deep_view()[k]
                    == self.parts.deep_view()[k] by {
                    assert(parts.deep_view()[k] == parts@[k].deep_view());
                    assert(self.parts.deep_view()[k] == self.parts@[k].deep_view());
                    if k < i {
                        assert(prev.deep_view()[k] == prev@[k].deep_view());
                    }
                }
            }
            i = i + 1;
        }
        let mut collider: Vec<ColliderPart> = Vec::new();
        let mut j: usize = 0;
        while j < self.collider.len()
            invariant
                j <= self.collider.len(),
                collider@.len() == j,
                forall|k: int| 0 <= k < j ==> collider@[k] == self.collider@[k],
            decreases self.collider.len() - j,
        {
            collider.push(self.collider[j]);
            j = j + 1;
        }
        proof {
            assert(parts.deep_view() =~= self.parts.deep_view());
            assert(collider@ =~= self.collider@);
        }
        SimVessel { parts, collider, physics_properties: self.physics_properties }
    }
}

/// One renderable part of a resolved vessel: mesh and material handles plus
/// the part's placement.
#[derive(Clone, Copy, Debug, PartialEq, Eq, Structural)]
pub struct VesselGraphicPart {
    pub mesh: u64,
    pub material: u64,
    pub placement: Translation,
}

/// A vessel resolved into directly spawnable form: render parts with resolved
/// handles, plus the physics coefficients copied from the definition.
pub struct RtVesselData {
    pub vessel_info: VesselProperties,
    pub graphics: Vec<VesselGraphicPart>,
}

/// Mathematical image of an `RtVesselData`.
pub ghost struct RtVesselDataView {
    pub vessel_info: VesselProperties,
    pub graphics: Seq<VesselGraphicPart>,
}

impl View for RtVesselData {
    type V = RtVesselDataView;

    open spec fn view(&self) -> RtVesselDataView {
        RtVesselDataView { vessel_info: self.vessel_info, graphics: self.graphics@ }
    }
}

} // verus!
