//! Parametric families: how their geometry exports, how they relate to their hosts, how they
//! land in IFC, and the kinds and scopes of their parameters.

use vstd::prelude::*;
use crate::command::{CommandView, ModelCommand};
use crate::element::{clone_id_opt, clone_string_opt, new_element, ElementRecord, ElementView, IfcClass, Placement};
use crate::geometry::GeometryError;
use crate::id::GlobalId;
use crate::param::{validation, ParamBag, ParamDef, ParamValue};
use crate::geometry::{CsgBackend, IndexedMesh};
use crate::recipe::{single_sweep, Arithmetic, GeometryRecipe, RecipeGeometry};
use crate::representation::Representation;
use crate::text::{owned, push_str, str_eq};
use crate::textmap::TextMap;

verus! {

/// Whether geometry survives export as native parametric IFC, or has to be tessellated.
///
/// Surfaced rather than hidden: a degraded element is still valid IFC, but it has lost its
/// editability downstream.
#[derive(Debug, Clone, Copy, PartialEq, Eq, Structural)]
pub enum RepresentationKind {
    /// Exports as `IfcExtrudedAreaSolid` over `IfcArbitraryClosedProfileDef`.
    NativeParametric,
    /// Exports as `IfcTriangulatedFaceSet`. Geometrically correct, semantically poorer.
    Tessellated,
}

impl RepresentationKind {
    pub fn is_degraded(self) -> (r: bool)
        ensures
            r == (self is Tessellated),
    {
        matches!(self, RepresentationKind::Tessellated)
    }

    /// The IFC representation item this maps to.
    pub fn ifc_representation(self) -> (r: &'static str)
        ensures
            r@ == (if self is NativeParametric { "IfcExtrudedAreaSolid"@ } else { "IfcTriangulatedFaceSet"@ }),
    {
        match self {
            RepresentationKind::NativeParametric => "IfcExtrudedAreaSolid",
            RepresentationKind::Tessellated => "IfcTriangulatedFaceSet",
        }
    }
}

/// How a family relates to the elements around it.
#[derive(Debug, Clone, Copy, PartialEq, Eq, Structural)]
pub enum HostBehavior {
    /// Placed anywhere. Furniture, equipment.
    Free,
    /// Placed on a storey. Columns, freestanding walls.
    LevelHosted,
    /// Placed in a host element. Doors, windows.
    WallHosted {
        /// Whether placement cuts an opening in the host (`IfcRelVoidsElement`).
        cuts_host: bool,
    },
    /// Placed on a face without cutting it. Wall-mounted fixtures.
    FaceHosted,
}

/// The name of a hosting behaviour, as messages use it.
pub open spec fn behavior_name(h: HostBehavior) -> Seq<char> {
    match h {
        HostBehavior::Free => "free"@,
        HostBehavior::LevelHosted => "level-hosted"@,
        HostBehavior::WallHosted { .. } => "wall-hosted"@,
        HostBehavior::FaceHosted => "face-hosted"@,
    }
}

impl HostBehavior {
    pub fn name(self) -> (r: &'static str)
        ensures
            r@ == behavior_name(self),
    {
        match self {
            HostBehavior::Free => "free",
            HostBehavior::LevelHosted => "level-hosted",
            HostBehavior::WallHosted { .. } => "wall-hosted",
            HostBehavior::FaceHosted => "face-hosted",
        }
    }

    pub fn requires_host(self) -> (r: bool)
        ensures
            r == (self is WallHosted || self is FaceHosted),
    {
        matches!(self, HostBehavior::WallHosted { .. } | HostBehavior::FaceHosted)
    }

    pub fn cuts_host(self) -> (r: bool)
        ensures
            r == (self matches HostBehavior::WallHosted { cuts_host } && cuts_host),
    {
        matches!(self, HostBehavior::WallHosted { cuts_host: true })
    }
}

/// A family that cuts its host needs one.
pub proof fn lemma_cutting_needs_a_host(h: HostBehavior)
    ensures
        (h matches HostBehavior::WallHosted { cuts_host } && cuts_host) ==> (h is WallHosted || h is FaceHosted),
{
}

/// How a family lands in IFC.
#[derive(Debug, Clone, PartialEq)]
pub struct IfcTypeMapping {
    pub entity: IfcClass,
    /// `PredefinedType`, e.g. `DOOR` or `SLIDING_TO_LEFT`.
    pub predefined_type: Option<String>,
    /// Property set family parameters are written into, e.g. `Pset_DoorCommon`.
    pub property_set: Option<String>,
}

impl IfcTypeMapping {
    pub fn new(entity: IfcClass) -> (r: Self)
        ensures
            r == (IfcTypeMapping { entity, predefined_type: None, property_set: None }),
    {
        IfcTypeMapping { entity, predefined_type: None, property_set: None }
    }

    pub fn with_predefined_type(self, value: &str) -> (r: Self)
        ensures
            r == (IfcTypeMapping { predefined_type: r.predefined_type, ..self }),
            r.predefined_type matches Some(v) && v@ == value@,
    {
        let mut s = self;
        s.predefined_type = Some(owned(value));
        s
    }

    pub fn with_property_set(self, value: &str) -> (r: Self)
        ensures
            r == (IfcTypeMapping { property_set: r.property_set, ..self }),
            r.property_set matches Some(v) && v@ == value@,
    {
        let mut s = self;
        s.property_set = Some(owned(value));
        s
    }
}

/// What a parameter holds.
#[derive(Debug, Clone, Copy, PartialEq, Eq, Structural)]
pub enum ParamType {
    /// Metres.
    Length,
    /// Radians.
    Angle,
    Count,
    Number,
    Text,
    Boolean,
    /// A material identity, resolved against the material library.
    Material,
}

/// The name of a parameter kind, as messages use it.
pub open spec fn param_type_name(t: ParamType) -> Seq<char> {
    match t {
        ParamType::Length => "Length"@,
        ParamType::Angle => "Angle"@,
        ParamType::Count => "Count"@,
        ParamType::Number => "Number"@,
        ParamType::Text => "Text"@,
        ParamType::Boolean => "Boolean"@,
        ParamType::Material => "Material"@,
    }
}

impl ParamType {
    pub fn name(self) -> (r: &'static str)
        ensures
            r@ == param_type_name(self),
    {
        match self {
            ParamType::Length => "Length",
            ParamType::Angle => "Angle",
            ParamType::Count => "Count",
            ParamType::Number => "Number",
            ParamType::Text => "Text",
            ParamType::Boolean => "Boolean",
            ParamType::Material => "Material",
        }
    }

    /// Lengths, angles, counts and numbers take part in expressions.
    pub fn is_numeric(self) -> (r: bool)
        ensures
            r == (self is Length || self is Angle || self is Count || self is Number),
    {
        matches!(self, ParamType::Length | ParamType::Angle | ParamType::Count | ParamType::Number)
    }
}

/// Whether a parameter varies per instance or is fixed by the type.
#[derive(Debug, Clone, Copy, PartialEq, Eq, Structural)]
pub enum ParamScope {
    /// Fixed by the family type. Changing it changes every instance of that type.
    Type,
    /// Varies per placed instance.
    Instance,
}


/// Everything that can go wrong defining, resolving, or evaluating a family.
///
/// Values and bounds are `f64` bit patterns.
#[derive(Debug, PartialEq)]
pub enum FamilyError {
    UnknownParameter(String),
    TypeMismatch { name: String, expected: &'static str, actual: &'static str },
    OutOfRange { name: String, value: u64, min: u64, max: u64 },
    NotInstanceScoped(String),
    UnknownType(String),
    DuplicateParameter(String),
    BadRecipeReference { index: usize, referenced: usize },
    BadRecipeOutput(usize),
    EmptyRecipe,
    NotNumeric(String),
    DivideByZero,
    HostRequired { behavior: &'static str },
    HostNotAllowed { behavior: &'static str },
    Geometry(GeometryError),
}

/// What a [`FamilyError`] says, with its texts as character sequences.
pub enum FamilyErrorView {
    UnknownParameter(Seq<char>),
    TypeMismatch { name: Seq<char>, expected: Seq<char>, actual: Seq<char> },
    OutOfRange { name: Seq<char>, value: u64, min: u64, max: u64 },
    NotInstanceScoped(Seq<char>),
    UnknownType(Seq<char>),
    DuplicateParameter(Seq<char>),
    BadRecipeReference { index: usize, referenced: usize },
    BadRecipeOutput(usize),
    EmptyRecipe,
    NotNumeric(Seq<char>),
    DivideByZero,
    HostRequired { behavior: Seq<char> },
    HostNotAllowed { behavior: Seq<char> },
    Geometry(GeometryError),
}

impl View for FamilyError {
    type V = FamilyErrorView;

    open spec fn view(&self) -> FamilyErrorView {
        match self {
            FamilyError::UnknownParameter(n) => FamilyErrorView::UnknownParameter(n@),
            FamilyError::TypeMismatch { name, expected, actual } => FamilyErrorView::TypeMismatch {
                name: name@,
                expected: expected@,
                actual: actual@,
            },
            FamilyError::OutOfRange { name, value, min, max } => FamilyErrorView::OutOfRange {
                name: name@,
                value: *value,
                min: *min,
                max: *max,
            },
            FamilyError::NotInstanceScoped(n) => FamilyErrorView::NotInstanceScoped(n@),
            FamilyError::UnknownType(n) => FamilyErrorView::UnknownType(n@),
            FamilyError::DuplicateParameter(n) => FamilyErrorView::DuplicateParameter(n@),
            FamilyError::BadRecipeReference { index, referenced } => FamilyErrorView::BadRecipeReference {
                index: *index,
                referenced: *referenced,
            },
            FamilyError::BadRecipeOutput(o) => FamilyErrorView::BadRecipeOutput(*o),
            FamilyError::EmptyRecipe => FamilyErrorView::EmptyRecipe,
            FamilyError::NotNumeric(n) => FamilyErrorView::NotNumeric(n@),
            FamilyError::DivideByZero => FamilyErrorView::DivideByZero,
            FamilyError::HostRequired { behavior } => FamilyErrorView::HostRequired { behavior: behavior@ },
            FamilyError::HostNotAllowed { behavior } => FamilyErrorView::HostNotAllowed { behavior: behavior@ },
            FamilyError::Geometry(g) => FamilyErrorView::Geometry(*g),
        }
    }
}

impl Clone for FamilyError {
    fn clone(&self) -> (r: Self)
        ensures
            r == *self,
    {
        match self {
            FamilyError::UnknownParameter(n) => FamilyError::UnknownParameter(n.clone()),
            FamilyError::TypeMismatch { name, expected, actual } => FamilyError::TypeMismatch {
                name: name.clone(),
                expected: *expected,
                actual: *actual,
            },
            FamilyError::OutOfRange { name, value, min, max } => FamilyError::OutOfRange {
                name: name.clone(),
                value: *value,
                min: *min,
                max: *max,
            },
            FamilyError::NotInstanceScoped(n) => FamilyError::NotInstanceScoped(n.clone()),
            FamilyError::UnknownType(n) => FamilyError::UnknownType(n.clone()),
            FamilyError::DuplicateParameter(n) => FamilyError::DuplicateParameter(n.clone()),
            FamilyError::BadRecipeReference { index, referenced } => FamilyError::BadRecipeReference {
                index: *index,
                referenced: *referenced,
            },
            FamilyError::BadRecipeOutput(o) => FamilyError::BadRecipeOutput(*o),
            FamilyError::EmptyRecipe => FamilyError::EmptyRecipe,
            FamilyError::NotNumeric(n) => FamilyError::NotNumeric(n.clone()),
            FamilyError::DivideByZero => FamilyError::DivideByZero,
            FamilyError::HostRequired { behavior } => FamilyError::HostRequired { behavior: *behavior },
            FamilyError::HostNotAllowed { behavior } => FamilyError::HostNotAllowed { behavior: *behavior },
            FamilyError::Geometry(g) => FamilyError::Geometry(*g),
        }
    }
}


/// A named set of parameter overrides: Revit's "type", Archicad's parameter preset.
#[derive(Debug, PartialEq)]
pub struct FamilyType {
    pub name: String,
    pub overrides: TextMap<ParamValue>,
}

impl FamilyType {
    pub fn new(name: &str) -> (r: Self)
        ensures
            r.name@ == name@,
            r.overrides@ == Map::<Seq<char>, ParamValue>::empty(),
    {
        FamilyType { name: owned(name), overrides: TextMap::new() }
    }

    pub fn set(self, name: &str, value: ParamValue) -> (r: Self)
        ensures
            r.name == self.name,
            r.overrides@ == self.overrides@.insert(name@, value),
    {
        let mut s = self;
        s.overrides.insert(owned(name), value);
        s
    }
}

/// The first declaration with this name.
pub open spec fn find_param(ps: Seq<ParamDef>, n: Seq<char>) -> Option<ParamDef>
    decreases ps.len(),
{
    if ps.len() == 0 {
        None
    } else if ps[0].name@ == n {
        Some(ps[0])
    } else {
        find_param(ps.drop_first(), n)
    }
}

/// The first family type with this name.
pub open spec fn find_type(ts: Seq<FamilyType>, n: Seq<char>) -> Option<FamilyType>
    decreases ts.len(),
{
    if ts.len() == 0 {
        None
    } else if ts[0].name@ == n {
        Some(ts[0])
    } else {
        find_type(ts.drop_first(), n)
    }
}

/// Every declaration's default, a later declaration of a name winning.
pub open spec fn defaults(ps: Seq<ParamDef>) -> Map<Seq<char>, ParamValue>
    decreases ps.len(),
{
    if ps.len() == 0 {
        Map::empty()
    } else {
        defaults(ps.drop_last()).insert(ps.last().name@, ps.last().default)
    }
}

/// Apply a type's overrides in order: each must name a declaration and pass its check; the
/// first that does not is the answer.
pub open spec fn apply_type_overrides(
    ps: Seq<ParamDef>,
    bag: Map<Seq<char>, ParamValue>,
    entries: Seq<(String, ParamValue)>,
) -> Result<Map<Seq<char>, ParamValue>, FamilyErrorView>
    decreases entries.len(),
{
    if entries.len() == 0 {
        Ok(bag)
    } else {
        let k = entries[0].0@;
        let v = entries[0].1;
        match find_param(ps, k) {
            None => Err(FamilyErrorView::UnknownParameter(k)),
            Some(def) => match validation(def, v) {
                Some(e) => Err(e),
                None => apply_type_overrides(ps, bag.insert(k, v), entries.drop_first()),
            },
        }
    }
}

/// Apply instance overrides in order: each must name a declaration, that declaration must be
/// instance-scoped, and the value must pass its check; the first that does not is the answer.
pub open spec fn apply_instance_overrides(
    ps: Seq<ParamDef>,
    bag: Map<Seq<char>, ParamValue>,
    entries: Seq<(String, ParamValue)>,
) -> Result<Map<Seq<char>, ParamValue>, FamilyErrorView>
    decreases entries.len(),
{
    if entries.len() == 0 {
        Ok(bag)
    } else {
        let k = entries[0].0@;
        let v = entries[0].1;
        match find_param(ps, k) {
            None => Err(FamilyErrorView::UnknownParameter(k)),
            Some(def) => if def.scope != ParamScope::Instance {
                Err(FamilyErrorView::NotInstanceScoped(k))
            } else {
                match validation(def, v) {
                    Some(e) => Err(e),
                    None => apply_instance_overrides(ps, bag.insert(k, v), entries.drop_first()),
                }
            },
        }
    }
}

/// Resolution: defaults, then the named type's overrides, then instance overrides.
pub open spec fn resolution(
    ps: Seq<ParamDef>,
    ts: Seq<FamilyType>,
    chosen_type: Option<Seq<char>>,
    instance: Seq<(String, ParamValue)>,
) -> Result<Map<Seq<char>, ParamValue>, FamilyErrorView> {
    let typed = match chosen_type {
        None => Ok(defaults(ps)),
        Some(n) => match find_type(ts, n) {
            None => Err(FamilyErrorView::UnknownType(n)),
            Some(t) => apply_type_overrides(ps, defaults(ps), t.overrides.items()),
        },
    };
    match typed {
        Ok(b) => apply_instance_overrides(ps, b, instance),
        Err(e) => Err(e),
    }
}

/// The text of an optional owned name.
pub open spec fn opt_string_text(o: Option<String>) -> Option<Seq<char>> {
    match o {
        Some(s) => Some(s@),
        None => None,
    }
}

/// The text of an optional name.
pub open spec fn opt_text(o: Option<&str>) -> Option<Seq<char>> {
    match o {
        Some(s) => Some(s@),
        None => None,
    }
}

/// The first declaration, from `from` on, whose name an earlier one already has.
pub open spec fn first_duplicate(ps: Seq<ParamDef>, from: int) -> Option<Seq<char>>
    decreases ps.len() - from,
{
    if from < 0 || from >= ps.len() {
        None
    } else if exists|j: int| 0 <= j < from && #[trigger] ps[j].name@ == ps[from].name@ {
        Some(ps[from].name@)
    } else {
        first_duplicate(ps, from + 1)
    }
}

/// A reusable parametric component.
#[derive(Debug, PartialEq)]
pub struct FamilyDefinition {
    pub id: GlobalId,
    pub name: String,
    /// Bumped on any edit to parameters or recipe.
    pub version: u32,
    pub parameters: Vec<ParamDef>,
    pub types: Vec<FamilyType>,
    pub recipe: GeometryRecipe,
    /// Geometry of the void this family cuts in its host.
    pub void_recipe: Option<GeometryRecipe>,
    pub host: HostBehavior,
    pub ifc_mapping: IfcTypeMapping,
}

/// What to place, where.
#[derive(Debug, PartialEq)]
pub struct PlacementRequest {
    /// Family type to place. `None` uses bare defaults.
    pub chosen_type: Option<String>,
    pub placement: Placement,
    /// Spatial container, usually the storey.
    pub container: Option<GlobalId>,
    /// Host element, for hosted families.
    pub host: Option<GlobalId>,
    /// Instance-scoped overrides.
    pub overrides: ParamBag,
}

impl PlacementRequest {
    pub fn new(placement: Placement) -> (r: Self)
        ensures
            r.chosen_type is None,
            r.placement == placement,
            r.container is None,
            r.host is None,
            r.overrides@ == Map::<Seq<char>, ParamValue>::empty(),
    {
        PlacementRequest { chosen_type: None, placement, container: None, host: None, overrides: ParamBag::new() }
    }

    pub fn of_type(self, name: &str) -> (r: Self)
        ensures
            r == (PlacementRequest { chosen_type: r.chosen_type, ..self }),
            r.chosen_type matches Some(t) && t@ == name@,
    {
        let mut s = self;
        s.chosen_type = Some(owned(name));
        s
    }

    pub fn in_container(self, container: GlobalId) -> (r: Self)
        ensures
            r == (PlacementRequest { container: Some(container), ..self }),
    {
        let mut s = self;
        s.container = Some(container);
        s
    }

    pub fn hosted_by(self, host: GlobalId) -> (r: Self)
        ensures
            r == (PlacementRequest { host: Some(host), ..self }),
    {
        let mut s = self;
        s.host = Some(host);
        s
    }

    pub fn with_override(self, name: &str, value: ParamValue) -> (r: Self)
        ensures
            r.chosen_type == self.chosen_type,
            r.placement == self.placement,
            r.container == self.container,
            r.host == self.host,
            r.overrides@ == self.overrides@.insert(name@, value),
    {
        let mut s = self;
        s.overrides.insert(name, value);
        s
    }
}

/// The result of planning a placement: identities, resolved parameters, and the commands that
/// realise it. Returning commands rather than mutating a model means a placement can be
/// validated, previewed, or replayed before anything changes.
#[derive(Debug, PartialEq)]
pub struct PlacementPlan {
    pub instance: GlobalId,
    /// The opening created for a host-cutting family.
    pub opening: Option<GlobalId>,
    pub params: ParamBag,
    pub representation: RepresentationKind,
    pub commands: Vec<ModelCommand>,
}

/// What a placement finds wrong with the host it was or was not given.
pub open spec fn host_fault(h: HostBehavior, host: Option<GlobalId>) -> Option<FamilyErrorView> {
    let needs = h is WallHosted || h is FaceHosted;
    if needs && host is None {
        Some(FamilyErrorView::HostRequired { behavior: behavior_name(h) })
    } else if !needs && host is Some {
        Some(FamilyErrorView::HostNotAllowed { behavior: behavior_name(h) })
    } else {
        None
    }
}

/// The opening a host-cutting placement creates: named after the family, typed and placed
/// as requested, in the requested container.
pub open spec fn opening_record(e: ElementView, id: GlobalId, fam: FamilyDefinition, req: PlacementRequest) -> bool {
    &&& e == (ElementView {
        name: e.name,
        object_type: req.chosen_type,
        placement: req.placement,
        container: req.container,
        ..new_element(id, IfcClass::OpeningElement)
    })
    &&& e.name matches Some(n) && n@ == fam.name@ + " opening"@
}

/// The instance a placement creates: of the family's IFC class, named after the family, typed
/// as requested or else by the family's name, defined by the family, placed and contained as
/// requested.
pub open spec fn instance_record(e: ElementView, id: GlobalId, fam: FamilyDefinition, req: PlacementRequest) -> bool {
    e == (ElementView {
        name: Some(fam.name),
        object_type: if req.chosen_type is Some { req.chosen_type } else { Some(fam.name) },
        placement: req.placement,
        container: req.container,
        type_ref: Some(fam.id),
        ..new_element(id, fam.ifc_mapping.entity)
    })
}

/// The commands a placement issues, given the identities it minted: for a cutting family the
/// opening first, then the instance, then the void in the host and the fill; otherwise the
/// instance alone.
pub open spec fn planned(
    cmds: Seq<CommandView>,
    fam: FamilyDefinition,
    req: PlacementRequest,
    instance: GlobalId,
    opening: Option<GlobalId>,
) -> bool {
    match opening {
        Some(o) => {
            &&& cmds.len() == 4
            &&& cmds[0] matches CommandView::CreateElement { element } && opening_record(element, o, fam, req)
            &&& cmds[1] matches CommandView::CreateElement { element } && instance_record(element, instance, fam, req)
            &&& cmds[2] == CommandView::AddVoid { host: req.host.unwrap(), opening: o }
            &&& cmds[3] == CommandView::AddFill { opening: o, filler: instance }
        },
        None => {
            &&& cmds.len() == 1
            &&& cmds[0] matches CommandView::CreateElement { element } && instance_record(element, instance, fam, req)
        },
    }
}

/// The views of a list of commands.
pub open spec fn command_views(v: Seq<ModelCommand>) -> Seq<CommandView> {
    v.map_values(|c: ModelCommand| c@)
}


impl FamilyDefinition {
    /// A family with no types, freely placed, cutting nothing; refused when two parameters
    /// share a name.
    pub fn new(name: &str, ifc_mapping: IfcTypeMapping, parameters: Vec<ParamDef>, recipe: GeometryRecipe) -> (r: Result<
        Self,
        FamilyError,
    >)
        ensures
            match r {
                Ok(f) => {
                    &&& first_duplicate(parameters@, 0) is None
                    &&& f.name@ == name@
                    &&& f.version == 1
                    &&& f.parameters == parameters
                    &&& f.types@.len() == 0
                    &&& f.recipe == recipe
                    &&& f.void_recipe is None
                    &&& f.host == HostBehavior::Free
                    &&& f.ifc_mapping == ifc_mapping
                },
                Err(e) => first_duplicate(parameters@, 0) matches Some(n) && e@ == FamilyErrorView::DuplicateParameter(n),
            },
    {
        let mut seen: TextMap<bool> = TextMap::new();
        let mut i: usize = 0;
        while i < parameters.len()
            invariant
                i <= parameters.len(),
                first_duplicate(parameters@, 0) == first_duplicate(parameters@, i as int),
                forall|k: Seq<char>| seen@.contains_key(k) <==> exists|j: int| 0 <= j < i && #[trigger] parameters@[j].name@ == k,
            decreases parameters.len() - i,
        {
            let n = parameters[i].name.as_str();
            if seen.contains_key(n) {
                proof {
                    let j = choose|j: int| 0 <= j < i && #[trigger] parameters@[j].name@ == n@;
                }
                return Err(FamilyError::DuplicateParameter(parameters[i].name.clone()));
            }
            seen.insert(parameters[i].name.clone(), true);
            proof {
                assert(!(exists|j: int| 0 <= j < i && #[trigger] parameters@[j].name@ == parameters@[i as int].name@));
                assert forall|k: Seq<char>| seen@.contains_key(k) implies exists|j: int| 0 <= j < i + 1 && #[trigger] parameters@[j].name@ == k by {
                    if k != parameters@[i as int].name@ {
                        let j = choose|j: int| 0 <= j < i && #[trigger] parameters@[j].name@ == k;
                    }
                }
            }
            i += 1;
        }
        Ok(FamilyDefinition {
            id: GlobalId::new(),
            name: owned(name),
            version: 1,
            parameters,
            types: Vec::new(),
            recipe,
            void_recipe: None,
            host: HostBehavior::Free,
            ifc_mapping,
        })
    }

    pub fn with_type(self, family_type: FamilyType) -> (r: Self)
        ensures
            r == (FamilyDefinition { types: r.types, ..self }),
            r.types@ == self.types@.push(family_type),
    {
        let mut s = self;
        s.types.push(family_type);
        s
    }

    pub fn with_host(self, host: HostBehavior) -> (r: Self)
        ensures
            r == (FamilyDefinition { host, ..self }),
    {
        let mut s = self;
        s.host = host;
        s
    }

    pub fn with_void_recipe(self, recipe: GeometryRecipe) -> (r: Self)
        ensures
            r == (FamilyDefinition { void_recipe: Some(recipe), ..self }),
    {
        let mut s = self;
        s.void_recipe = Some(recipe);
        s
    }

    /// The first declaration with this name.
    pub fn parameter(&self, name: &str) -> (r: Option<&ParamDef>)
        ensures
            match r {
                Some(p) => find_param(self.parameters@, name@) == Some(*p),
                None => find_param(self.parameters@, name@) is None,
            },
    {
        let mut i: usize = 0;
        assert(self.parameters@.skip(0) =~= self.parameters@);
        while i < self.parameters.len()
            invariant
                i <= self.parameters.len(),
                find_param(self.parameters@, name@) == find_param(self.parameters@.skip(i as int), name@),
            decreases self.parameters.len() - i,
        {
            proof {
                assert(self.parameters@.skip(i as int).drop_first() =~= self.parameters@.skip(i + 1));
            }
            if str_eq(self.parameters[i].name.as_str(), name) {
                return Some(&self.parameters[i]);
            }
            i += 1;
        }
        None
    }

    /// The first family type with this name.
    pub fn family_type(&self, name: &str) -> (r: Option<&FamilyType>)
        ensures
            match r {
                Some(t) => find_type(self.types@, name@) == Some(*t),
                None => find_type(self.types@, name@) is None,
            },
    {
        let mut i: usize = 0;
        assert(self.types@.skip(0) =~= self.types@);
        while i < self.types.len()
            invariant
                i <= self.types.len(),
                find_type(self.types@, name@) == find_type(self.types@.skip(i as int), name@),
            decreases self.types.len() - i,
        {
            proof {
                assert(self.types@.skip(i as int).drop_first() =~= self.types@.skip(i + 1));
            }
            if str_eq(self.types[i].name.as_str(), name) {
                return Some(&self.types[i]);
            }
            i += 1;
        }
        None
    }

    /// The type names, in the order the types were added, for a type picker.
    pub fn type_names(&self) -> (r: Vec<&str>)
        ensures
            r@.len() == self.types@.len(),
            forall|i: int| 0 <= i < r@.len() ==> (#[trigger] r@[i])@ == self.types@[i].name@,
    {
        let mut out: Vec<&str> = Vec::new();
        let mut i: usize = 0;
        while i < self.types.len()
            invariant
                i <= self.types.len(),
                out@.len() == i,
                forall|j: int| 0 <= j < i ==> (#[trigger] out@[j])@ == self.types@[j].name@,
            decreases self.types.len() - i,
        {
            out.push(self.types[i].name.as_str());
            i += 1;
        }
        out
    }


    /// Resolve parameters: defaults, then the named type's overrides, then instance overrides.
    ///
    /// Every override is checked against its declaration, and instance overrides are refused
    /// for type-scoped parameters, the mistake that otherwise shows up as every door changing.
    pub fn resolve(&self, chosen_type: Option<&str>, instance_overrides: &ParamBag) -> (r: Result<ParamBag, FamilyError>)
        ensures
            match r {
                Ok(b) => resolution(self.parameters@, self.types@, opt_text(chosen_type), instance_overrides.entries())
                    == Ok::<Map<Seq<char>, ParamValue>, FamilyErrorView>(b@),
                Err(e) => resolution(self.parameters@, self.types@, opt_text(chosen_type), instance_overrides.entries())
                    == Err::<Map<Seq<char>, ParamValue>, FamilyErrorView>(e@),
            },
    {
        let mut bag = ParamBag::new();
        let mut i: usize = 0;
        while i < self.parameters.len()
            invariant
                i <= self.parameters.len(),
                bag@ == defaults(self.parameters@.take(i as int)),
            decreases self.parameters.len() - i,
        {
            bag.insert(self.parameters[i].name.as_str(), self.parameters[i].default.clone());
            proof {
                assert(self.parameters@.take(i + 1).drop_last() =~= self.parameters@.take(i as int));
            }
            i += 1;
        }
        proof {
            assert(self.parameters@.take(self.parameters.len() as int) =~= self.parameters@);
        }
        let ghost start = bag@;
        match chosen_type {
            Some(name) => {
                let family_type = match self.family_type(name) {
                    Some(t) => t,
                    None => {
                        return Err(FamilyError::UnknownType(owned(name)));
                    },
                };
                let entries = family_type.overrides.as_slice();
                let mut j: usize = 0;
                proof {
                    assert(entries@.skip(0) =~= entries@);
                }
                while j < entries.len()
                    invariant
                        j <= entries.len(),
                        start == defaults(self.parameters@),
                        chosen_type == Some(name),
                        find_type(self.types@, name@) == Some(*family_type),
                        entries@ == family_type.overrides.items(),
                        apply_type_overrides(self.parameters@, start, entries@)
                            == apply_type_overrides(self.parameters@, bag@, entries@.skip(j as int)),
                    decreases entries.len() - j,
                {
                    proof {
                        assert(entries@.skip(j as int).drop_first() =~= entries@.skip(j + 1));
                    }
                    let key = &entries[j].0;
                    let def = match self.parameter(key.as_str()) {
                        Some(d) => d,
                        None => {
                            return Err(FamilyError::UnknownParameter(key.clone()));
                        },
                    };
                    match def.validate(&entries[j].1) {
                        Err(e) => {
                            return Err(e);
                        },
                        Ok(()) => {},
                    }
                    bag.insert(key.as_str(), entries[j].1.clone());
                    j += 1;
                }
                proof {
                    assert(entries@.skip(entries.len() as int) =~= Seq::<(String, ParamValue)>::empty());
                }
            },
            None => {},
        }
        let ghost typed = bag@;
        let inst = instance_overrides.iter();
        let mut k: usize = 0;
        proof {
            assert(inst@.skip(0) =~= inst@);
        }
        while k < inst.len()
            invariant
                k <= inst.len(),
                inst@ == instance_overrides.entries(),
                resolution(self.parameters@, self.types@, opt_text(chosen_type), instance_overrides.entries())
                    == apply_instance_overrides(self.parameters@, typed, inst@),
                apply_instance_overrides(self.parameters@, typed, inst@)
                    == apply_instance_overrides(self.parameters@, bag@, inst@.skip(k as int)),
            decreases inst.len() - k,
        {
            proof {
                assert(inst@.skip(k as int).drop_first() =~= inst@.skip(k + 1));
            }
            let key = &inst[k].0;
            let def = match self.parameter(key.as_str()) {
                Some(d) => d,
                None => {
                    return Err(FamilyError::UnknownParameter(key.clone()));
                },
            };
            if def.scope != ParamScope::Instance {
                return Err(FamilyError::NotInstanceScoped(key.clone()));
            }
            match def.validate(&inst[k].1) {
                Err(e) => {
                    return Err(e);
                },
                Ok(()) => {},
            }
            bag.insert(key.as_str(), inst[k].1.clone());
            k += 1;
        }
        Ok(bag)
    }


    /// Flex the family and produce its mesh: the resolved parameters, then the recipe.
    pub fn evaluate<A: Arithmetic, G: RecipeGeometry, C: CsgBackend>(
        &self,
        chosen_type: Option<&str>,
        instance_overrides: &ParamBag,
        arith: &A,
        geometry: &G,
        csg: &C,
    ) -> (r: Result<IndexedMesh, FamilyError>)
        ensures
            resolution(self.parameters@, self.types@, opt_text(chosen_type), instance_overrides.entries()) matches Err(
                f,
            ) ==> (r matches Err(e) && e@ == f),
    {
        let params = match self.resolve(chosen_type, instance_overrides) {
            Ok(b) => b,
            Err(e) => {
                return Err(e);
            },
        };
        self.recipe.evaluate(&params, arith, geometry, csg)
    }

    /// Flex the family and produce its IFC-ready representation: a single extrusion is never
    /// tessellated on the way to a file.
    pub fn representation<A: Arithmetic, G: RecipeGeometry, C: CsgBackend>(
        &self,
        chosen_type: Option<&str>,
        instance_overrides: &ParamBag,
        arith: &A,
        geometry: &G,
        csg: &C,
    ) -> (r: Result<Representation, FamilyError>)
        ensures
            resolution(self.parameters@, self.types@, opt_text(chosen_type), instance_overrides.entries()) matches Err(
                f,
            ) ==> (r matches Err(e) && e@ == f),
            r matches Ok(rep) ==> (rep is ExtrudedAreaSolid <==> single_sweep(self.recipe.steps())),
    {
        let params = match self.resolve(chosen_type, instance_overrides) {
            Ok(b) => b,
            Err(e) => {
                return Err(e);
            },
        };
        self.recipe.to_representation(&params, arith, geometry, csg)
    }

    /// The representation of the void this family cuts, if it cuts one.
    pub fn void_representation<A: Arithmetic, G: RecipeGeometry, C: CsgBackend>(
        &self,
        chosen_type: Option<&str>,
        instance_overrides: &ParamBag,
        arith: &A,
        geometry: &G,
        csg: &C,
    ) -> (r: Result<Option<Representation>, FamilyError>)
        ensures
            self.void_recipe is None ==> r matches Ok(None),
            self.void_recipe is Some ==> (r is Ok ==> r->Ok_0 is Some),
            self.void_recipe is Some ==> (resolution(
                self.parameters@,
                self.types@,
                opt_text(chosen_type),
                instance_overrides.entries(),
            ) matches Err(f) ==> (r matches Err(e) && e@ == f)),
    {
        let recipe = match &self.void_recipe {
            Some(v) => v,
            None => {
                return Ok(None);
            },
        };
        let params = match self.resolve(chosen_type, instance_overrides) {
            Ok(b) => b,
            Err(e) => {
                return Err(e);
            },
        };
        match recipe.to_representation(&params, arith, geometry, csg) {
            Ok(rep) => Ok(Some(rep)),
            Err(e) => Err(e),
        }
    }

    /// The geometry of the void this family cuts, if it cuts one.
    pub fn evaluate_void<A: Arithmetic, G: RecipeGeometry, C: CsgBackend>(
        &self,
        chosen_type: Option<&str>,
        instance_overrides: &ParamBag,
        arith: &A,
        geometry: &G,
        csg: &C,
    ) -> (r: Result<Option<IndexedMesh>, FamilyError>)
        ensures
            self.void_recipe is None ==> r matches Ok(None),
            self.void_recipe is Some ==> (r is Ok ==> r->Ok_0 is Some),
            self.void_recipe is Some ==> (resolution(
                self.parameters@,
                self.types@,
                opt_text(chosen_type),
                instance_overrides.entries(),
            ) matches Err(f) ==> (r matches Err(e) && e@ == f)),
    {
        let recipe = match &self.void_recipe {
            Some(v) => v,
            None => {
                return Ok(None);
            },
        };
        let params = match self.resolve(chosen_type, instance_overrides) {
            Ok(b) => b,
            Err(e) => {
                return Err(e);
            },
        };
        match recipe.evaluate(&params, arith, geometry, csg) {
            Ok(m) => Ok(Some(m)),
            Err(e) => Err(e),
        }
    }

    /// Plan a placement.
    ///
    /// For a host-cutting family this expands into the full IFC relationship set: an
    /// `IfcOpeningElement`, an `IfcRelVoidsElement` to the host, and an `IfcRelFillsElement` to
    /// the instance. The identities are fresh.
    pub fn place(&self, request: &PlacementRequest) -> (r: Result<PlacementPlan, FamilyError>)
        ensures
            match r {
                Ok(plan) => {
                    &&& resolution(self.parameters@, self.types@, opt_string_text(request.chosen_type), request.overrides.entries())
                        == Ok::<Map<Seq<char>, ParamValue>, FamilyErrorView>(plan.params@)
                    &&& host_fault(self.host, request.host) is None
                    &&& plan.representation == (if self.recipe.steps().len() == 1 && self.recipe.steps()[0] is Extrude {
                        RepresentationKind::NativeParametric
                    } else {
                        RepresentationKind::Tessellated
                    })
                    &&& (plan.opening is Some) == (self.host matches HostBehavior::WallHosted { cuts_host } && cuts_host)
                    &&& planned(command_views(plan.commands@), *self, *request, plan.instance, plan.opening)
                },
                Err(e) => match resolution(
                    self.parameters@,
                    self.types@,
                    opt_string_text(request.chosen_type),
                    request.overrides.entries(),
                ) {
                    Err(f) => f == e@,
                    Ok(_) => host_fault(self.host, request.host) == Some(e@),
                },
            },
    {
        let chosen: Option<&str> = match &request.chosen_type {
            Some(t) => Some(t.as_str()),
            None => None,
        };
        let params = match self.resolve(chosen, &request.overrides) {
            Ok(b) => b,
            Err(e) => {
                return Err(e);
            },
        };
        let needs = self.host.requires_host();
        if needs && request.host.is_none() {
            return Err(FamilyError::HostRequired { behavior: self.host.name() });
        }
        if !needs && request.host.is_some() {
            return Err(FamilyError::HostNotAllowed { behavior: self.host.name() });
        }
        let mut commands: Vec<ModelCommand> = Vec::new();
        // The opening is created first: the instance fills it, so it must already exist.
        let opening = if self.host.cuts_host() {
            let id = GlobalId::new();
            let mut element = ElementRecord::new(id.clone(), IfcClass::OpeningElement).with_placement(request.placement);
            let mut label = self.name.clone();
            push_str(&mut label, " opening");
            element.name = Some(label);
            element.object_type = clone_string_opt(&request.chosen_type);
            element.container = clone_id_opt(&request.container);
            commands.push(ModelCommand::CreateElement { element: Box::new(element) });
            Some(id)
        } else {
            None
        };
        let instance_id = GlobalId::new();
        let mut instance = ElementRecord::new(instance_id.clone(), self.ifc_mapping.entity.clone()).with_placement(
            request.placement,
        );
        instance.name = Some(self.name.clone());
        instance.object_type = match &request.chosen_type {
            Some(t) => Some(t.clone()),
            None => Some(self.name.clone()),
        };
        instance.type_ref = Some(self.id.clone());
        instance.container = clone_id_opt(&request.container);
        commands.push(ModelCommand::CreateElement { element: Box::new(instance) });
        match (&opening, &request.host) {
            (Some(o), Some(h)) => {
                commands.push(ModelCommand::AddVoid { host: h.clone(), opening: o.clone() });
                commands.push(ModelCommand::AddFill { opening: o.clone(), filler: instance_id.clone() });
            },
            _ => {},
        }
        proof {
            assert(command_views(commands@).len() == commands@.len());
        }
        Ok(PlacementPlan {
            instance: instance_id,
            opening,
            params,
            representation: self.representation_kind(),
            commands,
        })
    }

    /// How this family's geometry will export.
    pub fn representation_kind(&self) -> (r: RepresentationKind)
        ensures
            r == (if self.recipe.steps().len() == 1 && self.recipe.steps()[0] is Extrude {
                RepresentationKind::NativeParametric
            } else {
                RepresentationKind::Tessellated
            }),
    {
        self.recipe.representation_kind()
    }
}


/// Overrides that do not mention `k` leave it as it was.
proof fn lemma_type_overrides_keep(
    ps: Seq<ParamDef>,
    bag: Map<Seq<char>, ParamValue>,
    entries: Seq<(String, ParamValue)>,
    k: Seq<char>,
)
    requires
        forall|i: int| 0 <= i < entries.len() ==> (#[trigger] entries[i]).0@ != k,
    ensures
        apply_type_overrides(ps, bag, entries) matches Ok(b) ==> b.contains_key(k) == bag.contains_key(k)
            && (bag.contains_key(k) ==> b[k] == bag[k]),
    decreases entries.len(),
{
    if entries.len() > 0 {
        assert(entries[0].0@ != k);
        let rest = entries.drop_first();
        assert forall|i: int| 0 <= i < rest.len() implies (#[trigger] rest[i]).0@ != k by {
            assert(rest[i] == entries[i + 1]);
        }
        lemma_type_overrides_keep(ps, bag.insert(entries[0].0@, entries[0].1), rest, k);
    }
}

/// Instance overrides that do not mention `k` leave it as it was.
proof fn lemma_instance_overrides_keep(
    ps: Seq<ParamDef>,
    bag: Map<Seq<char>, ParamValue>,
    entries: Seq<(String, ParamValue)>,
    k: Seq<char>,
)
    requires
        forall|i: int| 0 <= i < entries.len() ==> (#[trigger] entries[i]).0@ != k,
    ensures
        apply_instance_overrides(ps, bag, entries) matches Ok(b) ==> b.contains_key(k) == bag.contains_key(k)
            && (bag.contains_key(k) ==> b[k] == bag[k]),
    decreases entries.len(),
{
    if entries.len() > 0 {
        assert(entries[0].0@ != k);
        let rest = entries.drop_first();
        assert forall|i: int| 0 <= i < rest.len() implies (#[trigger] rest[i]).0@ != k by {
            assert(rest[i] == entries[i + 1]);
        }
        lemma_instance_overrides_keep(ps, bag.insert(entries[0].0@, entries[0].1), rest, k);
    }
}

/// A parameter that neither the chosen type nor the instance overrides mention keeps its
/// default.
pub proof fn lemma_untouched_keep_defaults(
    ps: Seq<ParamDef>,
    ts: Seq<FamilyType>,
    chosen: Option<Seq<char>>,
    instance: Seq<(String, ParamValue)>,
    k: Seq<char>,
)
    requires
        defaults(ps).contains_key(k),
        chosen matches Some(n) ==> (find_type(ts, n) matches Some(t) ==> forall|i: int|
            0 <= i < t.overrides.items().len() ==> (#[trigger] t.overrides.items()[i]).0@ != k),
        forall|i: int| 0 <= i < instance.len() ==> (#[trigger] instance[i]).0@ != k,
    ensures
        resolution(ps, ts, chosen, instance) matches Ok(b) ==> b.contains_key(k) && b[k] == defaults(ps)[k],
{
    let typed = match chosen {
        None => Ok(defaults(ps)),
        Some(n) => match find_type(ts, n) {
            None => Err(FamilyErrorView::UnknownType(n)),
            Some(t) => {
                lemma_type_overrides_keep(ps, defaults(ps), t.overrides.items(), k);
                apply_type_overrides(ps, defaults(ps), t.overrides.items())
            },
        },
    };
    if let Ok(b) = typed {
        lemma_instance_overrides_keep(ps, b, instance, k);
    }
}

/// Applied instance overrides name instance-scoped declarations, and, given each name once,
/// each one's value is what the bag ends up holding.
proof fn lemma_instance_overrides_land(
    ps: Seq<ParamDef>,
    bag: Map<Seq<char>, ParamValue>,
    entries: Seq<(String, ParamValue)>,
    i: int,
)
    requires
        0 <= i < entries.len(),
        forall|a: int, b: int| 0 <= a < b < entries.len() ==> (#[trigger] entries[a]).0@ != (#[trigger] entries[b]).0@,
        apply_instance_overrides(ps, bag, entries) is Ok,
    ensures
        find_param(ps, entries[i].0@) matches Some(d) && d.scope == ParamScope::Instance,
        apply_instance_overrides(ps, bag, entries) matches Ok(b) ==> b.contains_key(entries[i].0@)
            && b[entries[i].0@] == entries[i].1,
    decreases entries.len(),
{
    let rest = entries.drop_first();
    let next = bag.insert(entries[0].0@, entries[0].1);
    if i == 0 {
        assert forall|q: int| 0 <= q < rest.len() implies (#[trigger] rest[q]).0@ != entries[0].0@ by {
            assert(rest[q] == entries[q + 1]);
        }
        lemma_instance_overrides_keep(ps, next, rest, entries[0].0@);
    } else {
        assert forall|a: int, b: int| 0 <= a < b < rest.len() implies (#[trigger] rest[a]).0@ != (#[trigger] rest[b]).0@ by {
            assert(rest[a] == entries[a + 1]);
            assert(rest[b] == entries[b + 1]);
        }
        assert(rest[i - 1] == entries[i]);
        lemma_instance_overrides_land(ps, next, rest, i - 1);
    }
}

/// Instance overrides are applied last and only to instance-scoped parameters: when
/// resolution succeeds, each override names an instance-scoped declaration and its value is
/// the one resolved.
pub proof fn lemma_instance_overrides_win(
    ps: Seq<ParamDef>,
    ts: Seq<FamilyType>,
    chosen: Option<Seq<char>>,
    instance: Seq<(String, ParamValue)>,
    i: int,
)
    requires
        0 <= i < instance.len(),
        forall|a: int, b: int| 0 <= a < b < instance.len() ==> (#[trigger] instance[a]).0@ != (#[trigger] instance[b]).0@,
        resolution(ps, ts, chosen, instance) is Ok,
    ensures
        find_param(ps, instance[i].0@) matches Some(d) && d.scope == ParamScope::Instance,
        resolution(ps, ts, chosen, instance) matches Ok(b) ==> b.contains_key(instance[i].0@)
            && b[instance[i].0@] == instance[i].1,
{
    let typed = match chosen {
        None => Ok(defaults(ps)),
        Some(n) => match find_type(ts, n) {
            None => Err(FamilyErrorView::UnknownType(n)),
            Some(t) => apply_type_overrides(ps, defaults(ps), t.overrides.items()),
        },
    };
    if let Ok(b) = typed {
        lemma_instance_overrides_land(ps, b, instance, i);
    }
}

/// With no type named and no instance overrides, resolution gives the defaults.
pub proof fn lemma_defaults_when_nothing_named(ps: Seq<ParamDef>, ts: Seq<FamilyType>)
    ensures
        resolution(ps, ts, None, Seq::empty()) == Ok::<Map<Seq<char>, ParamValue>, FamilyErrorView>(defaults(ps)),
{
}

/// A plan for a cutting family creates the opening before the instance that fills it, and
/// voids the host with the same opening the instance fills.
pub proof fn lemma_opening_before_fill(
    cmds: Seq<CommandView>,
    fam: FamilyDefinition,
    req: PlacementRequest,
    instance: GlobalId,
    opening: GlobalId,
)
    requires
        planned(cmds, fam, req, instance, Some(opening)),
    ensures
        cmds[0] matches CommandView::CreateElement { element } && element.global_id == opening
            && element.class == IfcClass::OpeningElement,
        cmds[1] matches CommandView::CreateElement { element } && element.global_id == instance,
        cmds[2] matches CommandView::AddVoid { opening: o, .. } && o == opening,
        cmds[3] matches CommandView::AddFill { opening: o, filler } && o == opening && filler == instance,
{
}

}
