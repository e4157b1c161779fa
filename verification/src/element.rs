//! Elements and their placement.
//!
//! Coordinates are `f64` bit patterns (see [`crate::floatbits`]). What placement and bounds
//! compute with floating-point arithmetic beyond a translation lives with the application.

use vstd::prelude::*;
use crate::floatbits::{add3, canonical, canonicalize, dvec3_sum, nan, ONE};
use crate::id::GlobalId;
use crate::property::{PropertySets, PropertySetsModel};
use crate::representation::{Representation, RepresentationModel};
use crate::text::{str_eq, to_ascii_uppercase, upper};

verus! {

/// The IFC class of an element.
///
/// Only classes CADForge authors natively are named; everything else round-trips through
/// [`IfcClass::Other`] so that importing an unfamiliar model never loses its typing.
#[derive(Debug, PartialEq, Eq, PartialOrd, Ord, Hash)]
pub enum IfcClass {
    // Spatial structure
    Project,
    Site,
    Building,
    BuildingStorey,
    Space,
    // Physical elements CADForge authors natively: all profile sweeps.
    Wall,
    Slab,
    Roof,
    Column,
    Beam,
    Door,
    Window,
    Stair,
    Covering,
    Furniture,
    OpeningElement,
    BuildingElementProxy,
    /// Anything imported that CADForge does not author natively. Preserved verbatim.
    Other(String),
}

impl Clone for IfcClass {
    fn clone(&self) -> (r: Self)
        ensures
            r == *self,
    {
        match self {
            IfcClass::Project => IfcClass::Project,
            IfcClass::Site => IfcClass::Site,
            IfcClass::Building => IfcClass::Building,
            IfcClass::BuildingStorey => IfcClass::BuildingStorey,
            IfcClass::Space => IfcClass::Space,
            IfcClass::Wall => IfcClass::Wall,
            IfcClass::Slab => IfcClass::Slab,
            IfcClass::Roof => IfcClass::Roof,
            IfcClass::Column => IfcClass::Column,
            IfcClass::Beam => IfcClass::Beam,
            IfcClass::Door => IfcClass::Door,
            IfcClass::Window => IfcClass::Window,
            IfcClass::Stair => IfcClass::Stair,
            IfcClass::Covering => IfcClass::Covering,
            IfcClass::Furniture => IfcClass::Furniture,
            IfcClass::OpeningElement => IfcClass::OpeningElement,
            IfcClass::BuildingElementProxy => IfcClass::BuildingElementProxy,
            IfcClass::Other(name) => IfcClass::Other(name.clone()),
        }
    }
}

/// The IFC entity name of a class.
pub open spec fn class_name(c: IfcClass) -> Seq<char> {
    match c {
        IfcClass::Project => "IfcProject"@,
        IfcClass::Site => "IfcSite"@,
        IfcClass::Building => "IfcBuilding"@,
        IfcClass::BuildingStorey => "IfcBuildingStorey"@,
        IfcClass::Space => "IfcSpace"@,
        IfcClass::Wall => "IfcWall"@,
        IfcClass::Slab => "IfcSlab"@,
        IfcClass::Roof => "IfcRoof"@,
        IfcClass::Column => "IfcColumn"@,
        IfcClass::Beam => "IfcBeam"@,
        IfcClass::Door => "IfcDoor"@,
        IfcClass::Window => "IfcWindow"@,
        IfcClass::Stair => "IfcStair"@,
        IfcClass::Covering => "IfcCovering"@,
        IfcClass::Furniture => "IfcFurniture"@,
        IfcClass::OpeningElement => "IfcOpeningElement"@,
        IfcClass::BuildingElementProxy => "IfcBuildingElementProxy"@,
        IfcClass::Other(name) => name@,
    }
}

/// Spatial entities CADForge does not model natively but must still accept as containers:
/// mostly the IFC4X3 infrastructure hierarchy, compared without regard to ASCII case.
///
/// Deliberately a list rather than a prefix rule: `IfcSpatialZone` is spatial and
/// `IfcSpaceHeater` is not.
pub open spec fn spatial_entity(name: Seq<char>) -> bool {
    let u = upper(name);
    ||| u == "IFCSPATIALELEMENT"@
    ||| u == "IFCSPATIALSTRUCTUREELEMENT"@
    ||| u == "IFCSPATIALZONE"@
    ||| u == "IFCEXTERNALSPATIALELEMENT"@
    ||| u == "IFCEXTERNALSPATIALSTRUCTUREELEMENT"@
    ||| u == "IFCFACILITY"@
    ||| u == "IFCFACILITYPART"@
    ||| u == "IFCFACILITYPARTCOMMON"@
    ||| u == "IFCBRIDGE"@
    ||| u == "IFCBRIDGEPART"@
    ||| u == "IFCROAD"@
    ||| u == "IFCROADPART"@
    ||| u == "IFCRAILWAY"@
    ||| u == "IFCRAILWAYPART"@
    ||| u == "IFCMARINEFACILITY"@
    ||| u == "IFCMARINEPART"@
    ||| u == "IFCTUNNEL"@
    ||| u == "IFCTUNNELPART"@
}

/// The spatial structure hierarchy, which contains elements rather than being contained.
pub open spec fn spatial(c: IfcClass) -> bool {
    match c {
        IfcClass::Project | IfcClass::Site | IfcClass::Building | IfcClass::BuildingStorey
        | IfcClass::Space => true,
        IfcClass::Other(name) => spatial_entity(name@),
        _ => false,
    }
}

/// The four classes that form the containment spine.
pub open spec fn structure_spine(c: IfcClass) -> bool {
    c is Project || c is Site || c is Building || c is BuildingStorey
}

/// The classes that may host openings (`IfcRelVoidsElement`).
pub open spec fn hosts_openings(c: IfcClass) -> bool {
    c is Wall || c is Slab || c is Roof || c is Column || c is Beam
}

/// Whether `name` is one of the spatial entities CADForge accepts as containers without
/// authoring them.
pub fn is_spatial_entity(name: &str) -> (r: bool)
    ensures
        r == spatial_entity(name@),
{
    let u = to_ascii_uppercase(name);
    let u = u.as_str();
    str_eq(u, "IFCSPATIALELEMENT") || str_eq(u, "IFCSPATIALSTRUCTUREELEMENT") || str_eq(
        u,
        "IFCSPATIALZONE",
    ) || str_eq(u, "IFCEXTERNALSPATIALELEMENT") || str_eq(u, "IFCEXTERNALSPATIALSTRUCTUREELEMENT")
        || str_eq(u, "IFCFACILITY") || str_eq(u, "IFCFACILITYPART") || str_eq(
        u,
        "IFCFACILITYPARTCOMMON",
    ) || str_eq(u, "IFCBRIDGE") || str_eq(u, "IFCBRIDGEPART") || str_eq(u, "IFCROAD") || str_eq(
        u,
        "IFCROADPART",
    ) || str_eq(u, "IFCRAILWAY") || str_eq(u, "IFCRAILWAYPART") || str_eq(u, "IFCMARINEFACILITY")
        || str_eq(u, "IFCMARINEPART") || str_eq(u, "IFCTUNNEL") || str_eq(u, "IFCTUNNELPART")
}

impl IfcClass {
    /// The IFC entity name, for export and for display.
    pub fn ifc_name(&self) -> (r: &str)
        ensures
            r@ == class_name(*self),
    {
        match self {
            IfcClass::Project => "IfcProject",
            IfcClass::Site => "IfcSite",
            IfcClass::Building => "IfcBuilding",
            IfcClass::BuildingStorey => "IfcBuildingStorey",
            IfcClass::Space => "IfcSpace",
            IfcClass::Wall => "IfcWall",
            IfcClass::Slab => "IfcSlab",
            IfcClass::Roof => "IfcRoof",
            IfcClass::Column => "IfcColumn",
            IfcClass::Beam => "IfcBeam",
            IfcClass::Door => "IfcDoor",
            IfcClass::Window => "IfcWindow",
            IfcClass::Stair => "IfcStair",
            IfcClass::Covering => "IfcCovering",
            IfcClass::Furniture => "IfcFurniture",
            IfcClass::OpeningElement => "IfcOpeningElement",
            IfcClass::BuildingElementProxy => "IfcBuildingElementProxy",
            IfcClass::Other(name) => name.as_str(),
        }
    }

    /// True for the spatial structure hierarchy.
    ///
    /// `Other` participates: IFC4X3 introduced a whole spatial hierarchy for infrastructure —
    /// `IfcRoadPart`, `IfcBridgePart`, `IfcFacilityPart` — which arrives as `Other`, and
    /// treating it as non-spatial would strand every element contained in one.
    pub fn is_spatial(&self) -> (r: bool)
        ensures
            r == spatial(*self),
    {
        match self {
            IfcClass::Project | IfcClass::Site | IfcClass::Building | IfcClass::BuildingStorey
            | IfcClass::Space => true,
            IfcClass::Other(name) => is_spatial_entity(name.as_str()),
            _ => false,
        }
    }

    /// True for the four classes the exporter writes as structure rather than as products.
    ///
    /// Narrower than [`IfcClass::is_spatial`]: a space can contain things but is written as a
    /// product.
    pub fn is_structure_spine(&self) -> (r: bool)
        ensures
            r == structure_spine(*self),
    {
        matches!(
            self,
            IfcClass::Project | IfcClass::Site | IfcClass::Building | IfcClass::BuildingStorey
        )
    }

    /// True if an element of this class may host openings.
    pub fn can_host_openings(&self) -> (r: bool)
        ensures
            r == hosts_openings(*self),
    {
        matches!(self, IfcClass::Wall | IfcClass::Slab | IfcClass::Roof | IfcClass::Column | IfcClass::Beam)
    }
}

/// Equality of classes: the same variant, and for `Other` the same name.
pub open spec fn same_class(a: IfcClass, b: IfcClass) -> bool {
    match (a, b) {
        (IfcClass::Other(x), IfcClass::Other(y)) => x@ == y@,
        _ => a == b,
    }
}

impl IfcClass {
    /// `==` on classes: the same variant, and for `Other` the same name.
    pub fn same_as(&self, other: &IfcClass) -> (r: bool)
        ensures
            r == same_class(*self, *other),
    {
        match (self, other) {
            (IfcClass::Other(x), IfcClass::Other(y)) => str_eq(x.as_str(), y.as_str()),
            (IfcClass::Project, IfcClass::Project) | (IfcClass::Site, IfcClass::Site) | (
                IfcClass::Building,
                IfcClass::Building,
            ) | (IfcClass::BuildingStorey, IfcClass::BuildingStorey) | (IfcClass::Space, IfcClass::Space) | (
                IfcClass::Wall,
                IfcClass::Wall,
            ) | (IfcClass::Slab, IfcClass::Slab) | (IfcClass::Roof, IfcClass::Roof) | (
                IfcClass::Column,
                IfcClass::Column,
            ) | (IfcClass::Beam, IfcClass::Beam) | (IfcClass::Door, IfcClass::Door) | (
                IfcClass::Window,
                IfcClass::Window,
            ) | (IfcClass::Stair, IfcClass::Stair) | (IfcClass::Covering, IfcClass::Covering) | (
                IfcClass::Furniture,
                IfcClass::Furniture,
            ) | (IfcClass::OpeningElement, IfcClass::OpeningElement) | (
                IfcClass::BuildingElementProxy,
                IfcClass::BuildingElementProxy,
            ) => true,
            _ => false,
        }
    }
}

/// Every class on the containment spine is spatial.
pub proof fn lemma_spine_is_spatial(c: IfcClass)
    ensures
        structure_spine(c) ==> spatial(c),
{
}

/// An object placement, modelled as `IfcAxis2Placement3D` models it: a location plus a Z axis
/// and a reference X axis, each an `f64` bit-pattern vector.
#[derive(Debug, Clone, Copy, PartialEq)]
pub struct Placement {
    pub location: [u64; 3],
    /// Local Z.
    pub axis: [u64; 3],
    /// Local X.
    pub ref_direction: [u64; 3],
}

/// The identity placement at the origin: Z up, X along X.
pub open spec fn identity_placement() -> Placement {
    Placement { location: [0u64, 0u64, 0u64], axis: [0u64, 0u64, ONE], ref_direction: [ONE, 0u64, 0u64] }
}

/// `location` moved by `delta`, as floating-point addition moves it; a coordinate that comes
/// out NaN is stored as the canonical quiet NaN.
pub open spec fn translated_location(location: [u64; 3], delta: [u64; 3]) -> [u64; 3] {
    let s = dvec3_sum(location@, delta@);
    [canonical(s[0]), canonical(s[1]), canonical(s[2])]
}

impl Placement {
    /// Identity placement at the origin.
    pub fn identity() -> (r: Self)
        ensures
            r == identity_placement(),
    {
        Placement { location: [0u64, 0u64, 0u64], axis: [0u64, 0u64, ONE], ref_direction: [ONE, 0u64, 0u64] }
    }

    /// The identity orientation at `location`.
    pub fn at(location: [u64; 3]) -> (r: Self)
        ensures
            r == (Placement { location, ..identity_placement() }),
    {
        Placement { location, ..Self::identity() }
    }

    /// Translate without touching orientation.
    pub fn translated(self, delta: [u64; 3]) -> (r: Self)
        ensures
            r == (Placement { location: translated_location(self.location, delta), ..self }),
    {
        let sum = add3(self.location, delta);
        let location = [canonicalize(sum[0]), canonicalize(sum[1]), canonicalize(sum[2])];
        proof {
            let s = dvec3_sum(self.location@, delta@);
            assert(nan(sum[0]) == nan(s[0]) && nan(sum[1]) == nan(s[1]) && nan(sum[2]) == nan(s[2]));
        }
        assert(location == translated_location(self.location, delta));
        Placement { location, ..self }
    }
}

impl Default for Placement {
    fn default() -> (r: Self)
        ensures
            r == identity_placement(),
    {
        Self::identity()
    }
}

/// An axis-aligned bounding box in world space, as two `f64` bit-pattern corners.
#[derive(Debug, Clone, Copy, PartialEq)]
pub struct BoundingBox {
    pub min: [u64; 3],
    pub max: [u64; 3],
}

/// One element in the model.
///
/// The two revision counters are what make incremental work possible: a rename bumps only
/// `semantic_revision`, so the renderer never rebuilds a mesh for it.
#[derive(Debug, PartialEq)]
pub struct ElementRecord {
    pub global_id: GlobalId,
    pub class: IfcClass,
    pub name: Option<String>,
    pub object_type: Option<String>,
    pub placement: Placement,
    /// `IfcRelContainedInSpatialStructure` — the storey or space holding this element.
    pub container: Option<GlobalId>,
    /// `IfcRelDefinesByType` — the family type this instance is defined by.
    pub type_ref: Option<GlobalId>,
    pub properties: PropertySets,
    /// Geometry in local space. `None` for spatial structure and for anything not yet
    /// evaluated.
    pub representation: Option<Representation>,
    /// World-space bounds, once geometry has been evaluated.
    pub bounds: Option<BoundingBox>,
    /// Bumped when geometry must be rebuilt.
    pub representation_revision: u64,
    /// Bumped when metadata changes but geometry does not.
    pub semantic_revision: u64,
}

/// What an [`ElementRecord`] holds, with its collections as mathematical values.
pub struct ElementView {
    pub global_id: GlobalId,
    pub class: IfcClass,
    pub name: Option<String>,
    pub object_type: Option<String>,
    pub placement: Placement,
    pub container: Option<GlobalId>,
    pub type_ref: Option<GlobalId>,
    pub properties: PropertySetsModel,
    pub representation: Option<RepresentationModel>,
    pub bounds: Option<BoundingBox>,
    pub representation_revision: u64,
    pub semantic_revision: u64,
}

/// The view of an optional representation.
pub open spec fn representation_view(r: Option<Representation>) -> Option<RepresentationModel> {
    match r {
        Some(r) => Some(r@),
        None => None,
    }
}

impl View for ElementRecord {
    type V = ElementView;

    open spec fn view(&self) -> ElementView {
        ElementView {
            global_id: self.global_id,
            class: self.class,
            name: self.name,
            object_type: self.object_type,
            placement: self.placement,
            container: self.container,
            type_ref: self.type_ref,
            properties: self.properties@,
            representation: representation_view(self.representation),
            bounds: self.bounds,
            representation_revision: self.representation_revision,
            semantic_revision: self.semantic_revision,
        }
    }
}

/// A copy of an optional identity.
pub fn clone_id_opt(o: &Option<GlobalId>) -> (r: Option<GlobalId>)
    ensures
        r == *o,
{
    match o {
        Some(g) => Some(g.clone()),
        None => None,
    }
}

/// A copy of an optional string.
pub fn clone_string_opt(o: &Option<String>) -> (r: Option<String>)
    ensures
        r == *o,
{
    match o {
        Some(s) => Some(s.clone()),
        None => None,
    }
}

/// A copy of an optional representation.
pub fn clone_representation_opt(o: &Option<Representation>) -> (r: Option<Representation>)
    ensures
        representation_view(r) == representation_view(*o),
{
    match o {
        Some(x) => Some(x.clone()),
        None => None,
    }
}

impl Clone for ElementRecord {
    fn clone(&self) -> (r: Self)
        ensures
            r@ == self@,
    {
        ElementRecord {
            global_id: self.global_id.clone(),
            class: self.class.clone(),
            name: clone_string_opt(&self.name),
            object_type: clone_string_opt(&self.object_type),
            placement: self.placement,
            container: clone_id_opt(&self.container),
            type_ref: clone_id_opt(&self.type_ref),
            properties: self.properties.clone(),
            representation: clone_representation_opt(&self.representation),
            bounds: self.bounds,
            representation_revision: self.representation_revision,
            semantic_revision: self.semantic_revision,
        }
    }
}

/// A fresh record: identity placement, nothing attached, both counters at zero.
pub open spec fn new_element(global_id: GlobalId, class: IfcClass) -> ElementView {
    ElementView {
        global_id,
        class,
        name: None,
        object_type: None,
        placement: identity_placement(),
        container: None,
        type_ref: None,
        properties: Map::empty(),
        representation: None,
        bounds: None,
        representation_revision: 0,
        semantic_revision: 0,
    }
}

impl ElementRecord {
    pub fn new(global_id: GlobalId, class: IfcClass) -> (r: Self)
        ensures
            r@ == new_element(global_id, class),
    {
        ElementRecord {
            global_id,
            class,
            name: None,
            object_type: None,
            placement: Placement::identity(),
            container: None,
            type_ref: None,
            properties: PropertySets::new(),
            representation: None,
            bounds: None,
            representation_revision: 0,
            semantic_revision: 0,
        }
    }

    pub fn with_name(self, name: &str) -> (r: Self)
        ensures
            r@ == (ElementView { name: r@.name, ..self@ }),
            r@.name matches Some(n) && n@ == name@,
    {
        let mut s = self;
        s.name = Some(crate::text::owned(name));
        s
    }

    pub fn with_placement(self, placement: Placement) -> (r: Self)
        ensures
            r@ == (ElementView { placement, ..self@ }),
    {
        let mut s = self;
        s.placement = placement;
        s
    }

    pub fn with_container(self, container: GlobalId) -> (r: Self)
        ensures
            r@ == (ElementView { container: Some(container), ..self@ }),
    {
        let mut s = self;
        s.container = Some(container);
        s
    }

    pub fn with_representation(self, representation: Representation) -> (r: Self)
        ensures
            r@ == (ElementView { representation: Some(representation@), ..self@ }),
    {
        let mut s = self;
        s.representation = Some(representation);
        s
    }
}

}
