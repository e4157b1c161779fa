//! Element geometry, in the form IFC stores it.
//!
//! A `Representation` is what a family recipe evaluates to and what gets written to a file.
//!
//! - [`Representation::ExtrudedAreaSolid`] exports as `IfcExtrudedAreaSolid` over
//!   `IfcArbitraryClosedProfileDef`: it stays parametric and editable after a round trip.
//! - [`Representation::TriangulatedFaceSet`] exports as `IfcTriangulatedFaceSet`: correct,
//!   displayable, and no longer editable.
//!
//! Coordinates are held as `f64` bit patterns (see [`crate::floatbits`]).

use vstd::prelude::*;
use crate::floatbits::{finite, is_finite, is_negative, is_positive, is_zero, neg, neg3, negate, negate3, negative, positive, zero};

verus! {

/// The geometry of one element, in its own local coordinate system.
#[derive(Debug, PartialEq)]
pub enum Representation {
    /// A closed profile swept along a direction.
    ExtrudedAreaSolid {
        /// The profile in the local XY plane: counter-clockwise, with no repeated closing
        /// point.
        profile: Vec<[u64; 2]>,
        /// Sweep direction in local space.
        direction: [u64; 3],
        /// Sweep distance. Positive once built by [`Representation::extrusion`].
        depth: u64,
    },
    /// Explicit triangles, for geometry no recipe can express.
    TriangulatedFaceSet { vertices: Vec<[u64; 3]>, faces: Vec<[u32; 3]> },
}

/// What a [`Representation`] holds, as mathematical sequences.
pub enum RepresentationModel {
    Swept { profile: Seq<[u64; 2]>, direction: [u64; 3], depth: u64 },
    Mesh { vertices: Seq<[u64; 3]>, faces: Seq<[u32; 3]> },
}

impl View for Representation {
    type V = RepresentationModel;

    open spec fn view(&self) -> RepresentationModel {
        match self {
            Representation::ExtrudedAreaSolid { profile, direction, depth } => RepresentationModel::Swept {
                profile: profile@,
                direction: *direction,
                depth: *depth,
            },
            Representation::TriangulatedFaceSet { vertices, faces } => RepresentationModel::Mesh {
                vertices: vertices@,
                faces: faces@,
            },
        }
    }
}

/// A copy of a vector of plain values.
pub fn copy_vec<T: Copy>(v: &Vec<T>) -> (r: Vec<T>)
    ensures
        r@ == v@,
{
    let mut r: Vec<T> = Vec::new();
    let mut i: usize = 0;
    while i < v.len()
        invariant
            i <= v.len(),
            r@ == v@.take(i as int),
        decreases v.len() - i,
    {
        r.push(v[i]);
        assert(v@.take(i + 1) =~= v@.take(i as int).push(v@[i as int]));
        i += 1;
    }
    assert(v@.take(v.len() as int) =~= v@);
    r
}

impl Clone for Representation {
    fn clone(&self) -> (r: Self)
        ensures
            r@ == self@,
    {
        match self {
            Representation::ExtrudedAreaSolid { profile, direction, depth } => {
                Representation::ExtrudedAreaSolid { profile: copy_vec(profile), direction: *direction, depth: *depth }
            },
            Representation::TriangulatedFaceSet { vertices, faces } => {
                Representation::TriangulatedFaceSet { vertices: copy_vec(vertices), faces: copy_vec(faces) }
            },
        }
    }
}

/// Both coordinates of a profile point finite.
pub open spec fn finite2(p: [u64; 2]) -> bool {
    finite(p[0]) && finite(p[1])
}

/// Every index of a face below `n`.
pub open spec fn face_in_range(face: [u32; 3], n: int) -> bool {
    (face[0] as int) < n && (face[1] as int) < n && (face[2] as int) < n
}

/// All three components finite.
pub open spec fn finite3(v: [u64; 3]) -> bool {
    finite(v[0]) && finite(v[1]) && finite(v[2])
}

/// The structural check before export: a malformed representation must never reach a file.
pub open spec fn valid_model(r: RepresentationModel) -> bool {
    match r {
        RepresentationModel::Swept { profile, direction, depth } => {
            &&& profile.len() >= 3
            &&& forall|i: int| 0 <= i < profile.len() ==> finite2(#[trigger] profile[i])
            &&& finite3(direction)
            &&& (!zero(direction[0]) || !zero(direction[1]) || !zero(direction[2]))
            &&& finite(depth)
            &&& positive(depth)
        },
        RepresentationModel::Mesh { vertices, faces } => {
            &&& vertices.len() > 0
            &&& faces.len() > 0
            &&& forall|i: int| 0 <= i < vertices.len() ==> finite3(#[trigger] vertices[i])
            &&& forall|i: int| 0 <= i < faces.len() ==> face_in_range(#[trigger] faces[i], vertices.len() as int)
        },
    }
}

/// What [`Representation::extrusion`] builds.
pub open spec fn extrusion_of(profile: Seq<[u64; 2]>, direction: [u64; 3], depth: u64) -> (Seq<[u64; 2]>, [u64; 3], u64) {
    if negative(depth) {
        (profile, neg3(direction), neg(depth))
    } else {
        (profile, direction, depth)
    }
}

impl Representation {
    /// Build a swept solid, folding a negative depth into the direction: IFC requires
    /// `IfcExtrudedAreaSolid.Depth` to be positive.
    pub fn extrusion(profile: Vec<[u64; 2]>, direction: [u64; 3], depth: u64) -> (r: Self)
        ensures
            r matches Representation::ExtrudedAreaSolid { profile: p, direction: d, depth: h }
                && (p@, d, h) == extrusion_of(profile@, direction, depth),
    {
        if is_negative(depth) {
            Representation::ExtrudedAreaSolid {
                profile,
                direction: negate3(direction),
                depth: negate(depth),
            }
        } else {
            Representation::ExtrudedAreaSolid { profile, direction, depth }
        }
    }

    /// Whether this survives export as editable parametric geometry.
    pub fn is_native_parametric(&self) -> (r: bool)
        ensures
            r == (*self is ExtrudedAreaSolid),
    {
        matches!(self, Representation::ExtrudedAreaSolid { .. })
    }

    /// The `IfcShapeRepresentation.RepresentationType` this maps to.
    pub fn ifc_representation_type(&self) -> (r: &'static str)
        ensures
            r@ == (if *self is ExtrudedAreaSolid { "SweptSolid"@ } else { "Tessellation"@ }),
    {
        match self {
            Representation::ExtrudedAreaSolid { .. } => "SweptSolid",
            Representation::TriangulatedFaceSet { .. } => "Tessellation",
        }
    }

    /// The IFC entity name of the representation item.
    pub fn ifc_item(&self) -> (r: &'static str)
        ensures
            r@ == (if *self is ExtrudedAreaSolid {
                "IfcExtrudedAreaSolid"@
            } else {
                "IfcTriangulatedFaceSet"@
            }),
    {
        match self {
            Representation::ExtrudedAreaSolid { .. } => "IfcExtrudedAreaSolid",
            Representation::TriangulatedFaceSet { .. } => "IfcTriangulatedFaceSet",
        }
    }

    /// Structural check before export. A malformed representation must never reach a file.
    pub fn is_valid(&self) -> (r: bool)
        ensures
            r == valid_model(self@),
    {
        match self {
            Representation::ExtrudedAreaSolid { profile, direction, depth } => {
                profile.len() >= 3 && points_finite(profile) && is_finite(direction[0])
                    && is_finite(direction[1]) && is_finite(direction[2]) && (!is_zero(direction[0])
                    || !is_zero(direction[1]) || !is_zero(direction[2])) && is_finite(*depth)
                    && is_positive(*depth)
            },
            Representation::TriangulatedFaceSet { vertices, faces } => {
                vertices.len() > 0 && faces.len() > 0 && vertices_finite(vertices) && faces_in_range(
                    faces,
                    vertices.len(),
                )
            },
        }
    }
}

/// Every coordinate of every profile point is finite.
fn points_finite(profile: &Vec<[u64; 2]>) -> (r: bool)
    ensures
        r == (forall|i: int| 0 <= i < profile.len() ==> finite2(#[trigger] profile@[i])),
{
    let mut i: usize = 0;
    while i < profile.len()
        invariant
            i <= profile.len(),
            forall|j: int| 0 <= j < i ==> finite2(#[trigger] profile@[j]),
        decreases profile.len() - i,
    {
        let pt = profile[i];
        if !is_finite(pt[0]) || !is_finite(pt[1]) {
            assert(!finite2(profile@[i as int]));
            return false;
        }
        assert(finite2(profile@[i as int]));
        i += 1;
    }
    true
}

/// Every coordinate of every vertex is finite.
fn vertices_finite(vertices: &Vec<[u64; 3]>) -> (r: bool)
    ensures
        r == (forall|i: int| 0 <= i < vertices.len() ==> finite3(#[trigger] vertices@[i])),
{
    let mut i: usize = 0;
    while i < vertices.len()
        invariant
            i <= vertices.len(),
            forall|j: int| 0 <= j < i ==> finite3(#[trigger] vertices@[j]),
        decreases vertices.len() - i,
    {
        let v = vertices[i];
        if !is_finite(v[0]) || !is_finite(v[1]) || !is_finite(v[2]) {
            assert(!finite3(vertices@[i as int]));
            return false;
        }
        assert(finite3(vertices@[i as int]));
        i += 1;
    }
    true
}

/// Every face index names a vertex.
fn faces_in_range(faces: &Vec<[u32; 3]>, n: usize) -> (r: bool)
    ensures
        r == (forall|i: int| 0 <= i < faces.len() ==> face_in_range(#[trigger] faces@[i], n as int)),
{
    let mut f: usize = 0;
    while f < faces.len()
        invariant
            f <= faces.len(),
            forall|i: int| 0 <= i < f ==> face_in_range(#[trigger] faces@[i], n as int),
        decreases faces.len() - f,
    {
        let face = faces[f];
        if (face[0] as usize) >= n || (face[1] as usize) >= n || (face[2] as usize) >= n {
            assert(!face_in_range(faces@[f as int], n as int));
            return false;
        }
        assert(face_in_range(faces@[f as int], n as int));
        f += 1;
    }
    true
}

/// A swept solid built from a finite, non-zero depth and a finite, non-zero direction over a
/// finite profile of at least three points passes the export check, whichever way the depth
/// pointed.
pub proof fn lemma_extrusion_is_valid(profile: Seq<[u64; 2]>, direction: [u64; 3], depth: u64)
    requires
        profile.len() >= 3,
        forall|i: int| 0 <= i < profile.len() ==> finite2(#[trigger] profile[i]),
        finite3(direction),
        !zero(direction[0]) || !zero(direction[1]) || !zero(direction[2]),
        finite(depth),
        !zero(depth),
    ensures
        ({
            let (p, d, h) = extrusion_of(profile, direction, depth);
            &&& finite3(d)
            &&& (!zero(d[0]) || !zero(d[1]) || !zero(d[2]))
            &&& finite(h)
            &&& positive(h)
        }),
{
    crate::floatbits::lemma_neg_facts(depth);
    crate::floatbits::lemma_neg_facts(direction[0]);
    crate::floatbits::lemma_neg_facts(direction[1]);
    crate::floatbits::lemma_neg_facts(direction[2]);
    assert(finite(depth) ==> !crate::floatbits::nan(depth)) by {
        let x = depth;
        assert(x & 0x7ff0_0000_0000_0000u64 != 0x7ff0_0000_0000_0000u64 ==> !(x & 0x7fff_ffff_ffff_ffffu64 > 0x7ff0_0000_0000_0000u64)) by (bit_vector);
    }
}

}
