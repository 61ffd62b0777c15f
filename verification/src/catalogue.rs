//! The element catalogue: a process-wide, read-mostly registry mapping
//! element ids to renderable and physical templates, and the resolution of a
//! vessel definition against it.
//!
//! Resolution is a pure function of the definition and the catalogue; it
//! fails exactly when a referenced element id is absent, which is a content
//! error, fatal within one session.

use vstd::prelude::*;

use crate::VesselError;
use crate::vessel::Part;
use crate::vessel::PartView;
use crate::vessel::RtVesselData;
use crate::vessel::RtVesselDataView;
use crate::vessel::Shape;
use crate::vessel::SimVessel;
use crate::vessel::SimVesselView;
use crate::vessel::VesselGraphicPart;

verus! {

/// Handles to renderable assets, as plain identifiers handed out by the host
/// application when it loads meshes and materials.
#[derive(Clone, Copy, Debug, PartialEq, Eq, Structural)]
pub struct Graphics {
    pub mesh: u64,
    pub material: u64,
}

/// One catalogued building-block type: its unique id, its renderable
/// template, and its collision shape.
pub struct Element {
    pub id: String,
    pub graphics: Graphics,
    pub collider: Shape,
}

/// Mathematical image of an `Element`.
pub ghost struct ElementView {
    pub id: Seq<char>,
    pub graphics: Graphics,
    pub collider: Shape,
}

impl View for Element {
    type V = ElementView;

    open spec fn view(&self) -> ElementView {
        ElementView { id: self.id@, graphics: self.graphics, collider: self.collider }
    }
}

impl DeepView for Element {
    type V = ElementView;

    open spec fn deep_view(&self) -> ElementView {
        self@
    }
}

impl Element {
    /// A value-identical copy of the element.
    pub fn duplicate(&self) -> (r: Element)
        ensures
            r@ == self@,
    {
        Element { id: self.id.clone(), graphics: self.graphics, collider: self.collider }
    }
}

/// The list of all available elements.  Populated once at startup; entries
/// are never removed during a session; lookups are by exact id.
pub struct Catalogue {
    pub elements: Vec<Element>,
}

impl View for Catalogue {
    type V = Seq<ElementView>;

    open spec fn view(&self) -> Seq<ElementView> {
        self.elements.deep_view()
    }
}

/// The first element of `s`, from index `i` on, whose id is `id`.
pub open spec fn find_from(s: Seq<ElementView>, id: Seq<char>, i: int) -> Option<ElementView>
    decreases s.len() - i,
{
    if i < 0 || i >= s.len() {
        None
    } else if s[i].id == id {
        Some(s[i])
    } else {
        find_from(s, id, i + 1)
    }
}

/// The element of `s` with id `id`, if any.
pub open spec fn spec_find(s: Seq<ElementView>, id: Seq<char>) -> Option<ElementView> {
    find_from(s, id, 0)
}

/// A lookup succeeds exactly when some element carries the id, and what it
/// returns carries that id.
pub proof fn lemma_find_characterizes(s: Seq<ElementView>, id: Seq<char>, i: int)
    requires
        0 <= i <= s.len(),
    ensures
        find_from(s, id, i) is Some <==> exists|k: int| i <= k < s.len() && s[k].id == id,
        find_from(s, id, i) matches Some(e) ==> e.id == id && exists|k: int|
            i <= k < s.len() && s[k] == e,
    decreases s.len() - i,
{
    if i < s.len() && !(s[i].id == id) {
        lemma_find_characterizes(s, id, i + 1);
        if find_from(s, id, i + 1) is Some {
            let k = choose|k: int| i + 1 <= k < s.len() && s[k].id == id;
            assert(i <= k < s.len() && s[k].id == id);
        }
        if exists|k: int| i <= k < s.len() && s[k].id == id {
            let k = choose|k: int| i <= k < s.len() && s[k].id == id;
            assert(i + 1 <= k < s.len() && s[k].id == id);
        }
    }
}

impl Catalogue {
    /// Looks an element up by its exact id.  Absence is a content error: the
    /// catalogue is closed-world within one running session, so callers
    /// treat `None` as fatal.
    pub fn find_by_id(&self, id: &String) -> (r: Option<&Element>)
        ensures
            match r {
                Some(e) => spec_find(self@, id@) == Some(e@),
                None => spec_find(self@, id@) is None,
            },
    {
        let n = self.elements.len();
        let mut i: usize = 0;
        while i < n
            invariant
                n == self.elements.len(),
                0 <= i <= n,
                spec_find(self@, id@) == find_from(self@, id@, i as int),
            decreases n - i,
        {
            proof {
                assert(self@[i as int] == self.elements@[i as int]@);
            }
            if self.elements[i].id == *id {
                return Some(&self.elements[i]);
            }
            i = i + 1;
        }
        None
    }

    /// Builds the demo catalogue of the editor: a plain block and a green
    /// block, both unit cubes, over the given asset handles.
    pub fn with_demo_elements(cube_mesh: u64, plain_material: u64, green_material: u64) -> (c:
        Catalogue)
        ensures
            c@.len() == 2,
            c@[0] == (ElementView {
                id: "block"@,
                graphics: Graphics { mesh: cube_mesh, material: plain_material },
                collider: Shape { x_len: 1000, y_len: 1000, z_len: 1000 },
            }),
            c@[1] == (ElementView {
                id: "green_block"@,
                graphics: Graphics { mesh: cube_mesh, material: green_material },
                collider: Shape { x_len: 1000, y_len: 1000, z_len: 1000 },
            }),
    {
        let unit_cube = Shape { x_len: 1000, y_len: 1000, z_len: 1000 };
        let mut elements: Vec<Element> = Vec::new();
        elements.push(
            Element {
                id: "block".to_string(),
                graphics: Graphics { mesh: cube_mesh, material: plain_material },
                collider: unit_cube,
            },
        );
        elements.push(
            Element {
                id: "green_block".to_string(),
                graphics: Graphics { mesh: cube_mesh, material: green_material },
                collider: unit_cube,
            },
        );
        let c = Catalogue { elements };
        proof {
            assert(c@[0] == c.elements@[0]@);
            assert(c@[1] == c.elements@[1]@);
        }
        c
    }
}

/// The render parts that resolving `parts` against catalogue `cat` yields:
/// each part's element id looked up, its handles taken, its placement kept.
/// The error is the first missing element id.
pub open spec fn resolve_parts(parts: Seq<PartView>, cat: Seq<ElementView>) -> Result<
    Seq<VesselGraphicPart>,
    Seq<char>,
>
    decreases parts.len(),
{
    if parts.len() == 0 {
        Ok(Seq::empty())
    } else {
        match resolve_parts(parts.drop_last(), cat) {
            Err(e) => Err(e),
            Ok(gs) => match spec_find(cat, parts.last().element_id) {
                None => Err(parts.last().element_id),
                Some(e) => Ok(
                    gs.push(
                        VesselGraphicPart {
                            mesh: e.graphics.mesh,
                            material: e.graphics.material,
                            placement: parts.last().placement,
                        },
                    ),
                ),
            },
        }
    }
}

/// What resolving a whole definition yields: the resolved render parts plus
/// the physics coefficients copied over from the definition.
pub open spec fn resolve_spec(sim: SimVesselView, cat: Seq<ElementView>) -> Result<
    RtVesselDataView,
    Seq<char>,
> {
    match resolve_parts(sim.parts, cat) {
        Err(e) => Err(e),
        Ok(gs) => Ok(RtVesselDataView { vessel_info: sim.physics_properties, graphics: gs }),
    }
}

/// Resolution succeeds exactly when every referenced element id is in the
/// catalogue, and then yields one render part per definition part, in order.
pub proof fn lemma_resolve_parts_ok(parts: Seq<PartView>, cat: Seq<ElementView>)
    ensures
        resolve_parts(parts, cat) is Ok <==> forall|k: int|
            0 <= k < parts.len() ==> spec_find(cat, parts[k].element_id) is Some,
        resolve_parts(parts, cat) matches Ok(gs) ==> {
            &&& gs.len() == parts.len()
            &&& forall|k: int| 0 <= k < parts.len() ==> {
                &&& spec_find(cat, parts[k].element_id) matches Some(e)
                &&& (#[trigger] gs[k]) == (VesselGraphicPart {
                    mesh: e.graphics.mesh,
                    material: e.graphics.material,
                    placement: parts[k].placement,
                })
            }
        },
    decreases parts.len(),
{
    if parts.len() > 0 {
        lemma_resolve_parts_ok(parts.drop_last(), cat);
        if resolve_parts(parts, cat) is Ok {
            assert forall|k: int|
                0 <= k < parts.len() implies spec_find(cat, parts[k].element_id) is Some by {
                if k < parts.len() - 1 {
                    assert(parts.drop_last()[k] == parts[k]);
                }
            }
        }
        if forall|k: int| 0 <= k < parts.len() ==> spec_find(cat, parts[k].element_id) is Some {
            assert forall|k: int|
                0 <= k < parts.drop_last().len() implies spec_find(
                cat,
                parts.drop_last()[k].element_id,
            ) is Some by {
                assert(parts.drop_last()[k] == parts[k]);
            }
            assert(spec_find(cat, parts.last().element_id) is Some);
        }
    }
}

/// Resolution is deterministic: it is a function of the definition and the
/// catalogue alone, so resolving and then re-resolving the same definition
/// against the same catalogue yields identical render parts and shapes.
pub proof fn lemma_resolution_deterministic(
    sim1: SimVesselView,
    sim2: SimVesselView,
    cat1: Seq<ElementView>,
    cat2: Seq<ElementView>,
)
    requires
        sim1 == sim2,
        cat1 == cat2,
    ensures
        resolve_spec(sim1, cat1) == resolve_spec(sim2, cat2),
{
}

/// Resolves a vessel definition into directly spawnable form: one render
/// part per definition part, handles taken from the catalogue, plus the
/// physics coefficients copied by value.  Fails with the first element id
/// that the catalogue does not know.
pub fn sim_to_rt(sim: &SimVessel, catalogue: &Catalogue) -> (r: Result<RtVesselData, VesselError>)
    ensures
        match r {
            Ok(rt) => resolve_spec(sim@, catalogue@) == Ok::<RtVesselDataView, Seq<char>>(rt@),
            Err(e) => {
                &&& e matches VesselError::UnknownElement(id) && resolve_spec(sim@, catalogue@)
                    == Err::<RtVesselDataView, Seq<char>>(id@)
            },
        },
        r is Ok <==> resolve_spec(sim@, catalogue@) is Ok,
{
    let mut graphics: Vec<VesselGraphicPart> = Vec::new();
    let n = sim.parts.len();
    let mut i: usize = 0;
    while i < n
        invariant
            n == sim.parts.len(),
            0 <= i <= n,
            resolve_parts(sim@.parts.take(i as int), catalogue@) == Ok::<
                Seq<VesselGraphicPart>,
                Seq<char>,
            >(graphics@),
        decreases n - i,
    {
        proof {
            assert(sim@.parts[i as int] == sim.parts@[i as int]@);
        }
        let found = catalogue.find_by_id(&sim.parts[i].element_id);
        match found {
            None => {
                proof {
                    let p = sim@.parts.take(i + 1);
                    assert(p.drop_last() =~= sim@.parts.take(i as int));
                    assert(p.last() == sim@.parts[i as int]);
                    lemma_error_sticks(sim@.parts, catalogue@, i + 1);
                }
                return Err(VesselError::UnknownElement(sim.parts[i].element_id.clone()));
            },
            Some(e) => {
                graphics.push(
                    VesselGraphicPart {
                        mesh: e.graphics.mesh,
                        material: e.graphics.material,
                        placement: sim.parts[i].placement,
                    },
                );
                proof {
                    let p = sim@.parts.take(i + 1);
                    assert(p.drop_last() =~= sim@.parts.take(i as int));
                    assert(p.last() == sim@.parts[i as int]);
                }
                i = i + 1;
            },
        }
    }
    proof {
        assert(sim@.parts.take(n as int) =~= sim@.parts);
    }
    Ok(RtVesselData { vessel_info: sim.physics_properties, graphics })
}

/// Once a prefix of the parts fails to resolve, the whole list fails with
/// the same missing id.
proof fn lemma_error_sticks(parts: Seq<PartView>, cat: Seq<ElementView>, i: int)
    requires
        0 <= i <= parts.len(),
        resolve_parts(parts.take(i), cat) is Err,
    ensures
        resolve_parts(parts, cat) == resolve_parts(parts.take(i), cat),
    decreases parts.len() - i,
{
    if i < parts.len() {
        let p = parts.take(i + 1);
        assert(p.drop_last() =~= parts.take(i));
        lemma_error_sticks(parts, cat, i + 1);
    } else {
        assert(parts.take(i) =~= parts);
    }
}

} // verus!
