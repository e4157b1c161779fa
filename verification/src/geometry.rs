//! Geometry's integer side: what can go wrong building geometry, triangle meshes as index
//! structures over `f64` bit-pattern vertices, and the boundary behind which mesh booleans
//! are delegated.
//!
//! A mesh is never authoritative: it is the derived, disposable result of evaluating a
//! parametric recipe. Booleans are the one operation not implemented here; the default
//! backend refuses every one rather than approximating it.

use vstd::prelude::*;
use crate::representation::copy_vec;

verus! {

/// Everything that can go wrong building geometry. Lengths and depths are `f64` bit patterns.
#[derive(Debug, Clone, Copy, PartialEq)]
pub enum GeometryError {
    /// A closed profile needs at least three distinct points.
    TooFewPoints(usize),
    /// The profile encloses no area.
    ZeroArea,
    /// The input holds a coordinate that is not finite.
    NonFinite,
    /// An extrusion depth must be non-zero and finite.
    InvalidDepth(u64),
    /// The extrusion direction is degenerate.
    DegenerateDirection,
    /// Profile holes are not tessellated; a void is modelled as an opening instead.
    HolesNotSupported(usize),
    /// The polygon is likely self-intersecting.
    TriangulationFailed,
    /// No boolean backend is configured.
    CsgUnavailable,
    /// A boolean operand is not a closed solid.
    OpenOperand(&'static str),
    /// A boolean operand is empty.
    EmptyOperand(&'static str),
    /// A boolean operand is structurally malformed.
    MalformedOperand(&'static str),
}

/// An indexed triangle mesh with per-vertex normals, vertices as `f64` bit patterns.
///
/// Faces do not share vertices: each triangle contributes three, so flat shading is exact and
/// hard edges stay hard.
#[derive(Debug, Default, PartialEq)]
pub struct IndexedMesh {
    pub positions: Vec<[u64; 3]>,
    pub normals: Vec<[u64; 3]>,
    pub indices: Vec<u32>,
}

/// The mesh's arrays agree, every index names a vertex, and the indices come in threes.
pub open spec fn well_formed(m: IndexedMesh) -> bool {
    &&& m.positions@.len() == m.normals@.len()
    &&& m.indices@.len() % 3 == 0
    &&& forall|i: int| 0 <= i < m.indices@.len() ==> (#[trigger] m.indices@[i]) < m.positions@.len()
}

/// Indices moved past `base` vertices.
pub open spec fn rebased(indices: Seq<u32>, base: int) -> Seq<u32> {
    indices.map_values(|i: u32| (i + base) as u32)
}

/// The largest index of a list, or zero for none.
pub open spec fn max_index(indices: Seq<u32>) -> nat
    decreases indices.len(),
{
    if indices.len() == 0 {
        0
    } else {
        let rest = max_index(indices.drop_last());
        if indices.last() > rest {
            indices.last() as nat
        } else {
            rest
        }
    }
}

proof fn lemma_max_index(indices: Seq<u32>, i: int)
    requires
        0 <= i < indices.len(),
    ensures
        indices[i] <= max_index(indices),
    decreases indices.len(),
{
    if i < indices.len() - 1 {
        lemma_max_index(indices.drop_last(), i);
    }
}

impl View for IndexedMesh {
    type V = (Seq<[u64; 3]>, Seq<[u64; 3]>, Seq<u32>);

    /// Positions, normals and indices.
    open spec fn view(&self) -> (Seq<[u64; 3]>, Seq<[u64; 3]>, Seq<u32>) {
        (self.positions@, self.normals@, self.indices@)
    }
}

impl Clone for IndexedMesh {
    fn clone(&self) -> (r: Self)
        ensures
            r@ == self@,
    {
        let r = IndexedMesh {
            positions: copy_vec(&self.positions),
            normals: copy_vec(&self.normals),
            indices: copy_vec(&self.indices),
        };
        r
    }
}

impl IndexedMesh {
    pub fn new() -> (r: Self)
        ensures
            r.positions@.len() == 0 && r.normals@.len() == 0 && r.indices@.len() == 0,
    {
        IndexedMesh { positions: Vec::new(), normals: Vec::new(), indices: Vec::new() }
    }

    /// An empty mesh, for `triangles` triangles to come.
    pub fn with_capacity(triangles: usize) -> (r: Self)
        ensures
            r.positions@.len() == 0 && r.normals@.len() == 0 && r.indices@.len() == 0,
    {
        IndexedMesh::new()
    }

    /// Append another mesh, rebasing its indices past this mesh's vertices.
    pub fn append(&mut self, other: &IndexedMesh)
        requires
            old(self).positions@.len() + max_index(other.indices@) <= u32::MAX,
        ensures
            final(self).positions@ == old(self).positions@ + other.positions@,
            final(self).normals@ == old(self).normals@ + other.normals@,
            final(self).indices@ == old(self).indices@ + rebased(other.indices@, old(self).positions@.len() as int),
    {
        let base = self.positions.len() as u32;
        let ghost start = self.indices@;
        let mut i: usize = 0;
        while i < other.indices.len()
            invariant
                i <= other.indices.len(),
                base == old(self).positions@.len(),
                base + max_index(other.indices@) <= u32::MAX,
                self.positions@ == old(self).positions@,
                self.normals@ == old(self).normals@,
                start == old(self).indices@,
                self.indices@ == start + rebased(other.indices@.take(i as int), base as int),
            decreases other.indices.len() - i,
        {
            proof {
                lemma_max_index(other.indices@, i as int);
            }
            self.indices.push(other.indices[i] + base);
            proof {
                assert(rebased(other.indices@.take(i + 1), base as int) =~= rebased(
                    other.indices@.take(i as int),
                    base as int,
                ).push((other.indices@[i as int] + base) as u32));
            }
            i += 1;
        }
        assert(other.indices@.take(other.indices.len() as int) =~= other.indices@);
        let mut j: usize = 0;
        while j < other.positions.len()
            invariant
                j <= other.positions.len(),
                self.positions@ == old(self).positions@ + other.positions@.take(j as int),
                self.normals@ == old(self).normals@,
                self.indices@ == old(self).indices@ + rebased(other.indices@, old(self).positions@.len() as int),
            decreases other.positions.len() - j,
        {
            self.positions.push(other.positions[j]);
            assert(other.positions@.take(j + 1) =~= other.positions@.take(j as int).push(other.positions@[j as int]));
            j += 1;
        }
        assert(other.positions@.take(other.positions.len() as int) =~= other.positions@);
        let mut k: usize = 0;
        while k < other.normals.len()
            invariant
                k <= other.normals.len(),
                self.positions@ == old(self).positions@ + other.positions@,
                self.normals@ == old(self).normals@ + other.normals@.take(k as int),
                self.indices@ == old(self).indices@ + rebased(other.indices@, old(self).positions@.len() as int),
            decreases other.normals.len() - k,
        {
            self.normals.push(other.normals[k]);
            assert(other.normals@.take(k + 1) =~= other.normals@.take(k as int).push(other.normals@[k as int]));
            k += 1;
        }
        assert(other.normals@.take(other.normals.len() as int) =~= other.normals@);
    }

    pub fn triangle_count(&self) -> (r: usize)
        ensures
            r == self.indices@.len() / 3,
    {
        self.indices.len() / 3
    }

    pub fn vertex_count(&self) -> (r: usize)
        ensures
            r == self.positions@.len(),
    {
        self.positions.len()
    }

    pub fn is_empty(&self) -> (r: bool)
        ensures
            r == (self.indices@.len() == 0),
    {
        self.indices.len() == 0
    }

    /// Structural check: the arrays agree, the indices are in range and come in threes.
    pub fn is_well_formed(&self) -> (r: bool)
        ensures
            r == well_formed(*self),
    {
        if self.positions.len() != self.normals.len() || self.indices.len() % 3 != 0 {
            return false;
        }
        let mut i: usize = 0;
        while i < self.indices.len()
            invariant
                i <= self.indices.len(),
                forall|j: int| 0 <= j < i ==> (#[trigger] self.indices@[j]) < self.positions@.len(),
            decreases self.indices.len() - i,
        {
            if self.indices[i] as usize >= self.positions.len() {
                return false;
            }
            i += 1;
        }
        true
    }
}

/// A mesh boolean provider.
pub trait CsgBackend {
    /// The backend's name, for the degraded-geometry report.
    fn name(&self) -> &'static str;

    /// `a ∪ b`
    fn union(&self, a: &IndexedMesh, b: &IndexedMesh) -> Result<IndexedMesh, GeometryError>;

    /// `a − b`: the opening cut, a wall minus its openings.
    fn difference(&self, a: &IndexedMesh, b: &IndexedMesh) -> Result<IndexedMesh, GeometryError>;

    /// `a ∩ b`: the clash-detection primitive.
    fn intersection(&self, a: &IndexedMesh, b: &IndexedMesh) -> Result<IndexedMesh, GeometryError>;

    /// Subtract every operand in turn, stopping at the first failure. Subtracting nothing
    /// gives `a` back, whatever the backend.
    fn difference_many(&self, a: &IndexedMesh, others: &[IndexedMesh]) -> (r: Result<IndexedMesh, GeometryError>)
        ensures
            others@.len() == 0 ==> (r matches Ok(m) && m@ == a@),
    {
        let mut acc = a.clone();
        let mut i: usize = 0;
        while i < others.len()
            invariant
                i <= others.len(),
                i == 0 ==> acc@ == a@,
            decreases others.len() - i,
        {
            acc = match self.difference(&acc, &others[i]) {
                Ok(m) => m,
                Err(e) => {
                    return Err(e);
                },
            };
            i += 1;
        }
        Ok(acc)
    }
}

/// The default backend: refuses every boolean, so that the failure path is exercised from the
/// start rather than discovered when a real backend is swapped in.
#[derive(Debug, Clone, Copy, Default)]
pub struct UnavailableCsg;

impl CsgBackend for UnavailableCsg {
    fn name(&self) -> (r: &'static str)
        ensures
            r@ == "unavailable"@,
    {
        "unavailable"
    }

    fn union(&self, a: &IndexedMesh, b: &IndexedMesh) -> (r: Result<IndexedMesh, GeometryError>)
        ensures
            r == Err::<IndexedMesh, GeometryError>(GeometryError::CsgUnavailable),
    {
        Err(GeometryError::CsgUnavailable)
    }

    fn difference(&self, a: &IndexedMesh, b: &IndexedMesh) -> (r: Result<IndexedMesh, GeometryError>)
        ensures
            r == Err::<IndexedMesh, GeometryError>(GeometryError::CsgUnavailable),
    {
        Err(GeometryError::CsgUnavailable)
    }

    fn intersection(&self, a: &IndexedMesh, b: &IndexedMesh) -> (r: Result<IndexedMesh, GeometryError>)
        ensures
            r == Err::<IndexedMesh, GeometryError>(GeometryError::CsgUnavailable),
    {
        Err(GeometryError::CsgUnavailable)
    }
}

}
