//! The creation editor's data model: objects placed on an integer grid, the
//! placement rules (click a face, place a block beyond it), and the build
//! step that turns a finished creation into a vessel definition.
//!
//! The grid is right-handed: x forwards, y up, z to the right.

use vstd::prelude::*;

use crate::GRID_LIMIT;
use crate::catalogue::Element;
use crate::catalogue::ElementView;
use crate::vessel::ColliderPart;
use crate::vessel::Part;
use crate::vessel::PartView;
use crate::vessel::SimVessel;
use crate::vessel::Translation;
use crate::vessel::VesselProperties;

verus! {

/// A position on the editor's integer grid.
#[derive(Clone, Copy, Debug, PartialEq, Eq, Structural)]
pub struct Pos {
    pub x: i64,
    pub y: i64,
    pub z: i64,
}

impl Pos {
    /// Within the editor's build volume, so that fixed-point conversion
    /// cannot overflow.
    pub open spec fn in_grid(self) -> bool {
        &&& -GRID_LIMIT <= self.x <= GRID_LIMIT
        &&& -GRID_LIMIT <= self.y <= GRID_LIMIT
        &&& -GRID_LIMIT <= self.z <= GRID_LIMIT
    }

    pub open spec fn spec_origin() -> Pos {
        Pos { x: 0, y: 0, z: 0 }
    }
}

/// The grid position in fixed-point world units.
pub open spec fn spec_grid_to_milli(p: Pos) -> Translation {
    Translation { x: (p.x * 1000) as i64, y: (p.y * 1000) as i64, z: (p.z * 1000) as i64 }
}

/// Converts a grid position to fixed-point world units.
pub fn grid_to_milli(p: Pos) -> (t: Translation)
    requires
        p.in_grid(),
    ensures
        t == spec_grid_to_milli(p),
{
    Translation { x: p.x * 1000, y: p.y * 1000, z: p.z * 1000 }
}

/// Where an object's unit cube is drawn: its grid corner plus half a cube,
/// so the cube is centered on its cell.
pub fn object_display_translation(p: Pos) -> (t: Translation)
    requires
        p.in_grid(),
    ensures
        t.x == p.x * 1000 + 500,
        t.y == p.y * 1000 + 500,
        t.z == p.z * 1000 + 500,
{
    Translation { x: p.x * 1000 + 500, y: p.y * 1000 + 500, z: p.z * 1000 + 500 }
}

/// One placed object: its element and its grid position.
pub struct Object {
    pub element: Element,
    pub pos: Pos,
}

/// Mathematical image of an `Object`.
pub ghost struct ObjectView {
    pub element: ElementView,
    pub pos: Pos,
}

impl View for Object {
    type V = ObjectView;

    open spec fn view(&self) -> ObjectView {
        ObjectView { element: self.element@, pos: self.pos }
    }
}

impl DeepView for Object {
    type V = ObjectView;

    open spec fn deep_view(&self) -> ObjectView {
        self@
    }
}

impl Object {
    pub fn duplicate(&self) -> (r: Object)
        ensures
            r@ == self@,
    {
        Object { element: self.element.duplicate(), pos: self.pos }
    }
}

/// A finished creation, taken out of the editor: the placed objects, in
/// placement order.
pub struct CreationData {
    pub objects: Vec<Object>,
}

impl View for CreationData {
    type V = Seq<ObjectView>;

    open spec fn view(&self) -> Seq<ObjectView> {
        self.objects.deep_view()
    }
}

impl CreationData {
    /// Every object within the build volume.
    pub open spec fn wf(&self) -> bool {
        forall|k: int| 0 <= k < self@.len() ==> (#[trigger] self@[k]).pos.in_grid()
    }

    /// An empty creation.
    pub fn new() -> (r: CreationData)
        ensures
            r@ =~= Seq::<ObjectView>::empty(),
    {
        CreationData { objects: Vec::new() }
    }
}

/// The editor session: the objects placed so far, in order.
pub struct EditorSession {
    pub objects: Vec<Object>,
}

impl View for EditorSession {
    type V = Seq<ObjectView>;

    open spec fn view(&self) -> Seq<ObjectView> {
        self.objects.deep_view()
    }
}

impl EditorSession {
    /// An empty session.
    pub fn new() -> (r: EditorSession)
        ensures
            r@ =~= Seq::<ObjectView>::empty(),
    {
        EditorSession { objects: Vec::new() }
    }

    /// Places an object of the given element at the given grid position.
    /// Placement never fails and never merges: every request adds one
    /// object, in order.
    pub fn place(&mut self, pos: Pos, element: Element)
        ensures
            final(self)@ =~= old(self)@.push(ObjectView { element: element@, pos }),
    {
        let ghost s0 = self@;
        self.objects.push(Object { element, pos });
        proof {
            assert forall|k: int| 0 <= k < self@.len() implies self@[k] == (if k == s0.len() {
                ObjectView { element: element@, pos }
            } else {
                s0[k]
            }) by {
                assert(self@[k] == self.objects@[k]@);
            }
        }
    }

    /// Hands the placed objects out as a finished creation.
    pub fn store_objects(&self) -> (r: CreationData)
        ensures
            r@ =~= self@,
    {
        let mut objects: Vec<Object> = Vec::new();
        let n = self.objects.len();
        let mut i: usize = 0;
        while i < n
            invariant
                n == self.objects.len(),
                0 <= i <= n,
                objects@.len() == i,
                forall|k: int| 0 <= k < i ==> objects.deep_view()[k] == self.objects.deep_view()[k],
            decreases n - i,
        {
            let ghost prev = objects;
            objects.push(self.objects[i].duplicate());
            proof {
                assert forall|k: int| 0 <= k < i + 1 implies objects.deep_view()[k]
                    == self.objects.deep_view()[k] by {
                    assert(objects.deep_view()[k] == objects@[k]@);
                    assert(self.objects.deep_view()[k] == self.objects@[k]@);
                    if k < i {
                        assert(prev.deep_view()[k] == prev@[k]@);
                    }
                }
            }
            i = i + 1;
        }
        CreationData { objects }
    }
}

/// Where a click on an existing object places the next one: one cell beyond
/// the clicked face, along the face's normal.  A click whose normal rounds
/// to no direction at all places nothing.
pub fn click_target(clicked: Pos, face_normal: Pos) -> (r: Option<Pos>)
    requires
        clicked.in_grid(),
        -1 <= face_normal.x <= 1,
        -1 <= face_normal.y <= 1,
        -1 <= face_normal.z <= 1,
    ensures
        match r {
            Some(p) => face_normal != Pos::spec_origin() && p == (Pos {
                x: (clicked.x + face_normal.x) as i64,
                y: (clicked.y + face_normal.y) as i64,
                z: (clicked.z + face_normal.z) as i64,
            }),
            None => face_normal == Pos::spec_origin(),
        },
{
    if face_normal.x == 0 && face_normal.y == 0 && face_normal.z == 0 {
        None
    } else {
        Some(
            Pos {
                x: clicked.x + face_normal.x,
                y: clicked.y + face_normal.y,
                z: clicked.z + face_normal.z,
            },
        )
    }
}

/// The definition part a placed object builds.
pub open spec fn built_part(o: ObjectView) -> PartView {
    PartView { element_id: o.element.id, placement: spec_grid_to_milli(o.pos) }
}

/// The collider a placed object contributes to the compound shape.
pub open spec fn built_collider(o: ObjectView) -> ColliderPart {
    ColliderPart { placement: spec_grid_to_milli(o.pos), shape: o.element.collider }
}

/// Builds the serializable vessel definition out of a finished creation:
/// one part and one compound-collider entry per placed object, in placement
/// order, under the default physics coefficients.
pub fn build_sim_vessel(creation: &CreationData) -> (sv: SimVessel)
    requires
        creation.wf(),
    ensures
        sv@.physics_properties == VesselProperties::spec_default(),
        sv@.parts.len() == creation@.len(),
        sv@.collider.len() == creation@.len(),
        forall|k: int| 0 <= k < creation@.len() ==> sv@.parts[k] == built_part(
            #[trigger] creation@[k],
        ),
        forall|k: int| 0 <= k < creation@.len() ==> sv@.collider[k] == built_collider(
            #[trigger] creation@[k],
        ),
{
    let mut parts: Vec<Part> = Vec::new();
    let mut collider: Vec<ColliderPart> = Vec::new();
    let n = creation.objects.len();
    let mut i: usize = 0;
    while i < n
        invariant
            n == creation.objects@.len(),
            creation.wf(),
            0 <= i <= n,
            parts@.len() == i,
            collider@.len() == i,
            forall|k: int| 0 <= k < i ==> parts.deep_view()[k] == built_part(
                #[trigger] creation@[k],
            ),
            forall|k: int| 0 <= k < i ==> collider@[k] == built_collider(#[trigger] creation@[k]),
        decreases n - i,
    {
        proof {
            assert(creation@[i as int] == creation.objects@[i as int]@);
        }
        let ghost prev = parts;
        let placement = grid_to_milli(creation.objects[i].pos);
        parts.push(Part { element_id: creation.objects[i].element.id.clone(), placement });
        collider.push(
            ColliderPart { placement, shape: creation.objects[i].element.collider },
        );
        proof {
            assert forall|k: int| 0 <= k < i + 1 implies parts.deep_view()[k] == built_part(
                #[trigger] creation@[k],
            ) by {
                assert(parts.deep_view()[k] == parts@[k]@);
                if k < i {
                    assert(prev.deep_view()[k] == prev@[k]@);
                }
            }
        }
        i = i + 1;
    }
    SimVessel { parts, collider, physics_properties: VesselProperties::default() }
}

} // verus!
