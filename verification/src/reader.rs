//! Reading IFC through `ifc-lite-core`: the backend's declared capabilities, and how the
//! entity names found in a file map onto the classes CADForge models.
//!
//! An entity CADForge does not model natively keeps its name, in the schema's canonical
//! casing where the schema knows it, so that importing an unfamiliar model never loses its
//! typing.

use vstd::prelude::*;
use crate::backend::BackendCapabilities;
use crate::element::{class_name, IfcClass};
use crate::schema::IfcSchema;
use crate::text::{owned, str_eq, to_ascii_uppercase, upper};

verus! {

/// Reads IFC via `ifc-lite-core`.
#[derive(Debug, Clone, Copy, Default)]
pub struct IfcLiteBackend;

impl IfcLiteBackend {
    pub fn new() -> (r: Self) {
        IfcLiteBackend
    }

    pub fn name(&self) -> (r: &'static str)
        ensures
            r@ == "ifc-lite"@,
    {
        "ifc-lite"
    }

    /// Reads IFC2X3, IFC4 and IFC4X3, with geometry, on every platform; writes nothing.
    pub fn capabilities(&self) -> (r: BackendCapabilities)
        ensures
            r.reads@ == seq![IfcSchema::Ifc2x3, IfcSchema::Ifc4, IfcSchema::Ifc4x3],
            r.writes@.len() == 0,
            r.geometry,
            r.mobile,
    {
        let mut reads: Vec<IfcSchema> = Vec::new();
        reads.push(IfcSchema::Ifc2x3);
        reads.push(IfcSchema::Ifc4);
        reads.push(IfcSchema::Ifc4x3);
        assert(reads@ =~= seq![IfcSchema::Ifc2x3, IfcSchema::Ifc4, IfcSchema::Ifc4x3]);
        BackendCapabilities { reads, writes: Vec::new(), geometry: true, mobile: true }
    }
}

/// The name `ifc-lite-core` displays for an entity keyword.
pub uninterp spec fn schema_display_name(keyword: Seq<char>) -> Seq<char>;

/// `ifc_lite_core::IfcType::from_str(keyword).name()`.
///
/// Claims only that the result is a function of the keyword, named `schema_display_name`:
/// for an entity the schema declares, its PascalCase name; for any other, the keyword
/// upper-cased.
#[verifier::external_body]
fn display_name(keyword: &str) -> (r: String)
    ensures
        r@ == schema_display_name(keyword@),
{
    ifc_lite_core::IfcType::from_str(keyword).name().to_string()
}

/// The casing a class name is kept in: the schema's own, when it names the same entity, and
/// the name as given otherwise.
pub open spec fn canonical(name: Seq<char>) -> Seq<char> {
    if upper(schema_display_name(name)) == upper(name) {
        schema_display_name(name)
    } else {
        name
    }
}

/// The schema's casing for an upper-cased entity name, or the name itself when the schema
/// does not know it.
pub fn canonical_case(name: &str) -> (r: String)
    ensures
        r@ == canonical(name@),
{
    let known = display_name(name);
    let a = to_ascii_uppercase(known.as_str());
    let b = to_ascii_uppercase(name);
    if str_eq(a.as_str(), b.as_str()) {
        known
    } else {
        owned(name)
    }
}

/// The class CADForge models natively for an upper-cased entity name, counting the IFC2X3
/// `…StandardCase` and `…ElementedCase` subtypes as their parents.
pub open spec fn native_class(u: Seq<char>) -> Option<IfcClass> {
    if u == "IFCPROJECT"@ {
        Some(IfcClass::Project)
    } else if u == "IFCSITE"@ {
        Some(IfcClass::Site)
    } else if u == "IFCBUILDING"@ {
        Some(IfcClass::Building)
    } else if u == "IFCBUILDINGSTOREY"@ {
        Some(IfcClass::BuildingStorey)
    } else if u == "IFCSPACE"@ {
        Some(IfcClass::Space)
    } else if u == "IFCWALL"@ || u == "IFCWALLSTANDARDCASE"@ || u == "IFCWALLELEMENTEDCASE"@ {
        Some(IfcClass::Wall)
    } else if u == "IFCSLAB"@ || u == "IFCSLABSTANDARDCASE"@ || u == "IFCSLABELEMENTEDCASE"@ {
        Some(IfcClass::Slab)
    } else if u == "IFCROOF"@ {
        Some(IfcClass::Roof)
    } else if u == "IFCCOLUMN"@ || u == "IFCCOLUMNSTANDARDCASE"@ {
        Some(IfcClass::Column)
    } else if u == "IFCBEAM"@ || u == "IFCBEAMSTANDARDCASE"@ {
        Some(IfcClass::Beam)
    } else if u == "IFCDOOR"@ || u == "IFCDOORSTANDARDCASE"@ {
        Some(IfcClass::Door)
    } else if u == "IFCWINDOW"@ || u == "IFCWINDOWSTANDARDCASE"@ {
        Some(IfcClass::Window)
    } else if u == "IFCSTAIR"@ {
        Some(IfcClass::Stair)
    } else if u == "IFCCOVERING"@ {
        Some(IfcClass::Covering)
    } else if u == "IFCFURNITURE"@ || u == "IFCFURNISHINGELEMENT"@ {
        Some(IfcClass::Furniture)
    } else if u == "IFCOPENINGELEMENT"@ || u == "IFCOPENINGSTANDARDCASE"@ {
        Some(IfcClass::OpeningElement)
    } else if u == "IFCBUILDINGELEMENTPROXY"@ {
        Some(IfcClass::BuildingElementProxy)
    } else {
        None
    }
}

/// The class of an entity name found in a file: a native class where there is one, and
/// otherwise `Other` with the name in canonical casing.
pub fn class_of(entity: &str) -> (r: IfcClass)
    ensures
        native_class(upper(entity@)) matches Some(c) ==> r == c,
        native_class(upper(entity@)) is None ==> (r matches IfcClass::Other(n) && n@ == canonical(upper(entity@))),
{
    let u = to_ascii_uppercase(entity);
    let s = u.as_str();
    if str_eq(s, "IFCPROJECT") {
        IfcClass::Project
    } else if str_eq(s, "IFCSITE") {
        IfcClass::Site
    } else if str_eq(s, "IFCBUILDING") {
        IfcClass::Building
    } else if str_eq(s, "IFCBUILDINGSTOREY") {
        IfcClass::BuildingStorey
    } else if str_eq(s, "IFCSPACE") {
        IfcClass::Space
    } else if str_eq(s, "IFCWALL") || str_eq(s, "IFCWALLSTANDARDCASE") || str_eq(s, "IFCWALLELEMENTEDCASE") {
        IfcClass::Wall
    } else if str_eq(s, "IFCSLAB") || str_eq(s, "IFCSLABSTANDARDCASE") || str_eq(s, "IFCSLABELEMENTEDCASE") {
        IfcClass::Slab
    } else if str_eq(s, "IFCROOF") {
        IfcClass::Roof
    } else if str_eq(s, "IFCCOLUMN") || str_eq(s, "IFCCOLUMNSTANDARDCASE") {
        IfcClass::Column
    } else if str_eq(s, "IFCBEAM") || str_eq(s, "IFCBEAMSTANDARDCASE") {
        IfcClass::Beam
    } else if str_eq(s, "IFCDOOR") || str_eq(s, "IFCDOORSTANDARDCASE") {
        IfcClass::Door
    } else if str_eq(s, "IFCWINDOW") || str_eq(s, "IFCWINDOWSTANDARDCASE") {
        IfcClass::Window
    } else if str_eq(s, "IFCSTAIR") {
        IfcClass::Stair
    } else if str_eq(s, "IFCCOVERING") {
        IfcClass::Covering
    } else if str_eq(s, "IFCFURNITURE") || str_eq(s, "IFCFURNISHINGELEMENT") {
        IfcClass::Furniture
    } else if str_eq(s, "IFCOPENINGELEMENT") || str_eq(s, "IFCOPENINGSTANDARDCASE") {
        IfcClass::OpeningElement
    } else if str_eq(s, "IFCBUILDINGELEMENTPROXY") {
        IfcClass::BuildingElementProxy
    } else {
        IfcClass::Other(canonical_case(s))
    }
}




/// Reading a class's own IFC entity name, in any case, gives that class back: every class
/// the model has natively is found under its own name.
pub proof fn lemma_own_name_reads_back(c: IfcClass)
    requires
        !(c is Other),
    ensures
        native_class(upper(class_name(c))) == Some(c),
{
    match c {
        IfcClass::Project => {
            reveal_strlit("IfcProject");
            reveal_strlit("IFCPROJECT");
            assert(upper("IfcProject"@) =~= "IFCPROJECT"@);
            assert(native_class("IFCPROJECT"@) == Some(IfcClass::Project));
        },
        IfcClass::Site => {
            reveal_strlit("IfcSite");
            reveal_strlit("IFCSITE");
            assert(upper("IfcSite"@) =~= "IFCSITE"@);
            reveal_strlit("IFCPROJECT");
            assert("IFCSITE"@.len() != "IFCPROJECT"@.len());
            assert("IFCSITE"@ != "IFCPROJECT"@);
            assert(native_class("IFCSITE"@) == Some(IfcClass::Site));
        },
        IfcClass::Building => {
            reveal_strlit("IfcBuilding");
            reveal_strlit("IFCBUILDING");
            assert(upper("IfcBuilding"@) =~= "IFCBUILDING"@);
            reveal_strlit("IFCPROJECT");
            assert("IFCBUILDING"@.len() != "IFCPROJECT"@.len());
            assert("IFCBUILDING"@ != "IFCPROJECT"@);
            reveal_strlit("IFCSITE");
            assert("IFCBUILDING"@.len() != "IFCSITE"@.len());
            assert("IFCBUILDING"@ != "IFCSITE"@);
            assert(native_class("IFCBUILDING"@) == Some(IfcClass::Building));
        },
        IfcClass::BuildingStorey => {
            reveal_strlit("IfcBuildingStorey");
            reveal_strlit("IFCBUILDINGSTOREY");
            assert(upper("IfcBuildingStorey"@) =~= "IFCBUILDINGSTOREY"@);
            reveal_strlit("IFCPROJECT");
            assert("IFCBUILDINGSTOREY"@.len() != "IFCPROJECT"@.len());
            assert("IFCBUILDINGSTOREY"@ != "IFCPROJECT"@);
            reveal_strlit("IFCSITE");
            assert("IFCBUILDINGSTOREY"@.len() != "IFCSITE"@.len());
            assert("IFCBUILDINGSTOREY"@ != "IFCSITE"@);
            reveal_strlit("IFCBUILDING");
            assert("IFCBUILDINGSTOREY"@.len() != "IFCBUILDING"@.len());
            assert("IFCBUILDINGSTOREY"@ != "IFCBUILDING"@);
            assert(native_class("IFCBUILDINGSTOREY"@) == Some(IfcClass::BuildingStorey));
        },
        IfcClass::Space => {
            reveal_strlit("IfcSpace");
            reveal_strlit("IFCSPACE");
            assert(upper("IfcSpace"@) =~= "IFCSPACE"@);
            reveal_strlit("IFCPROJECT");
            assert("IFCSPACE"@.len() != "IFCPROJECT"@.len());
            assert("IFCSPACE"@ != "IFCPROJECT"@);
            reveal_strlit("IFCSITE");
            assert("IFCSPACE"@.len() != "IFCSITE"@.len());
            assert("IFCSPACE"@ != "IFCSITE"@);
            reveal_strlit("IFCBUILDING");
            assert("IFCSPACE"@.len() != "IFCBUILDING"@.len());
            assert("IFCSPACE"@ != "IFCBUILDING"@);
            reveal_strlit("IFCBUILDINGSTOREY");
            assert("IFCSPACE"@.len() != "IFCBUILDINGSTOREY"@.len());
            assert("IFCSPACE"@ != "IFCBUILDINGSTOREY"@);
            assert(native_class("IFCSPACE"@) == Some(IfcClass::Space));
        },
        IfcClass::Wall => {
            reveal_strlit("IfcWall");
            reveal_strlit("IFCWALL");
            assert(upper("IfcWall"@) =~= "IFCWALL"@);
            reveal_strlit("IFCPROJECT");
            assert("IFCWALL"@.len() != "IFCPROJECT"@.len());
            assert("IFCWALL"@ != "IFCPROJECT"@);
            reveal_strlit("IFCSITE");
            assert("IFCWALL"@[3] != "IFCSITE"@[3]);
            assert("IFCWALL"@ != "IFCSITE"@);
            reveal_strlit("IFCBUILDING");
            assert("IFCWALL"@.len() != "IFCBUILDING"@.len());
            assert("IFCWALL"@ != "IFCBUILDING"@);
            reveal_strlit("IFCBUILDINGSTOREY");
            assert("IFCWALL"@.len() != "IFCBUILDINGSTOREY"@.len());
            assert("IFCWALL"@ != "IFCBUILDINGSTOREY"@);
            reveal_strlit("IFCSPACE");
            assert("IFCWALL"@.len() != "IFCSPACE"@.len());
            assert("IFCWALL"@ != "IFCSPACE"@);
            assert(native_class("IFCWALL"@) == Some(IfcClass::Wall));
        },
        IfcClass::Slab => {
            reveal_strlit("IfcSlab");
            reveal_strlit("IFCSLAB");
            assert(upper("IfcSlab"@) =~= "IFCSLAB"@);
            reveal_strlit("IFCPROJECT");
            assert("IFCSLAB"@.len() != "IFCPROJECT"@.len());
            assert("IFCSLAB"@ != "IFCPROJECT"@);
            reveal_strlit("IFCSITE");
            assert("IFCSLAB"@[4] != "IFCSITE"@[4]);
            assert("IFCSLAB"@ != "IFCSITE"@);
            reveal_strlit("IFCBUILDING");
            assert("IFCSLAB"@.len() != "IFCBUILDING"@.len());
            assert("IFCSLAB"@ != "IFCBUILDING"@);
            reveal_strlit("IFCBUILDINGSTOREY");
            assert("IFCSLAB"@.len() != "IFCBUILDINGSTOREY"@.len());
            assert("IFCSLAB"@ != "IFCBUILDINGSTOREY"@);
            reveal_strlit("IFCSPACE");
            assert("IFCSLAB"@.len() != "IFCSPACE"@.len());
            assert("IFCSLAB"@ != "IFCSPACE"@);
            reveal_strlit("IFCWALL");
            assert("IFCSLAB"@[3] != "IFCWALL"@[3]);
            assert("IFCSLAB"@ != "IFCWALL"@);
            reveal_strlit("IFCWALLSTANDARDCASE");
            assert("IFCSLAB"@.len() != "IFCWALLSTANDARDCASE"@.len());
            assert("IFCSLAB"@ != "IFCWALLSTANDARDCASE"@);
            reveal_strlit("IFCWALLELEMENTEDCASE");
            assert("IFCSLAB"@.len() != "IFCWALLELEMENTEDCASE"@.len());
            assert("IFCSLAB"@ != "IFCWALLELEMENTEDCASE"@);
            assert(native_class("IFCSLAB"@) == Some(IfcClass::Slab));
        },
        IfcClass::Roof => {
            reveal_strlit("IfcRoof");
            reveal_strlit("IFCROOF");
            assert(upper("IfcRoof"@) =~= "IFCROOF"@);
            reveal_strlit("IFCPROJECT");
            assert("IFCROOF"@.len() != "IFCPROJECT"@.len());
            assert("IFCROOF"@ != "IFCPROJECT"@);
            reveal_strlit("IFCSITE");
            assert("IFCROOF"@[3] != "IFCSITE"@[3]);
            assert("IFCROOF"@ != "IFCSITE"@);
            reveal_strlit("IFCBUILDING");
            assert("IFCROOF"@.len() != "IFCBUILDING"@.len());
            assert("IFCROOF"@ != "IFCBUILDING"@);
            reveal_strlit("IFCBUILDINGSTOREY");
            assert("IFCROOF"@.len() != "IFCBUILDINGSTOREY"@.len());
            assert("IFCROOF"@ != "IFCBUILDINGSTOREY"@);
            reveal_strlit("IFCSPACE");
            assert("IFCROOF"@.len() != "IFCSPACE"@.len());
            assert("IFCROOF"@ != "IFCSPACE"@);
            reveal_strlit("IFCWALL");
            assert("IFCROOF"@[3] != "IFCWALL"@[3]);
            assert("IFCROOF"@ != "IFCWALL"@);
            reveal_strlit("IFCWALLSTANDARDCASE");
            assert("IFCROOF"@.len() != "IFCWALLSTANDARDCASE"@.len());
            assert("IFCROOF"@ != "IFCWALLSTANDARDCASE"@);
            reveal_strlit("IFCWALLELEMENTEDCASE");
            assert("IFCROOF"@.len() != "IFCWALLELEMENTEDCASE"@.len());
            assert("IFCROOF"@ != "IFCWALLELEMENTEDCASE"@);
            reveal_strlit("IFCSLAB");
            assert("IFCROOF"@[3] != "IFCSLAB"@[3]);
            assert("IFCROOF"@ != "IFCSLAB"@);
            reveal_strlit("IFCSLABSTANDARDCASE");
            assert("IFCROOF"@.len() != "IFCSLABSTANDARDCASE"@.len());
            assert("IFCROOF"@ != "IFCSLABSTANDARDCASE"@);
            reveal_strlit("IFCSLABELEMENTEDCASE");
            assert("IFCROOF"@.len() != "IFCSLABELEMENTEDCASE"@.len());
            assert("IFCROOF"@ != "IFCSLABELEMENTEDCASE"@);
            assert(native_class("IFCROOF"@) == Some(IfcClass::Roof));
        },
        IfcClass::Column => {
            reveal_strlit("IfcColumn");
            reveal_strlit("IFCCOLUMN");
            assert(upper("IfcColumn"@) =~= "IFCCOLUMN"@);
            reveal_strlit("IFCPROJECT");
            assert("IFCCOLUMN"@.len() != "IFCPROJECT"@.len());
            assert("IFCCOLUMN"@ != "IFCPROJECT"@);
            reveal_strlit("IFCSITE");
            assert("IFCCOLUMN"@.len() != "IFCSITE"@.len());
            assert("IFCCOLUMN"@ != "IFCSITE"@);
            reveal_strlit("IFCBUILDING");
            assert("IFCCOLUMN"@.len() != "IFCBUILDING"@.len());
            assert("IFCCOLUMN"@ != "IFCBUILDING"@);
            reveal_strlit("IFCBUILDINGSTOREY");
            assert("IFCCOLUMN"@.len() != "IFCBUILDINGSTOREY"@.len());
            assert("IFCCOLUMN"@ != "IFCBUILDINGSTOREY"@);
            reveal_strlit("IFCSPACE");
            assert("IFCCOLUMN"@.len() != "IFCSPACE"@.len());
            assert("IFCCOLUMN"@ != "IFCSPACE"@);
            reveal_strlit("IFCWALL");
            assert("IFCCOLUMN"@.len() != "IFCWALL"@.len());
            assert("IFCCOLUMN"@ != "IFCWALL"@);
            reveal_strlit("IFCWALLSTANDARDCASE");
            assert("IFCCOLUMN"@.len() != "IFCWALLSTANDARDCASE"@.len());
            assert("IFCCOLUMN"@ != "IFCWALLSTANDARDCASE"@);
            reveal_strlit("IFCWALLELEMENTEDCASE");
            assert("IFCCOLUMN"@.len() != "IFCWALLELEMENTEDCASE"@.len());
            assert("IFCCOLUMN"@ != "IFCWALLELEMENTEDCASE"@);
            reveal_strlit("IFCSLAB");
            assert("IFCCOLUMN"@.len() != "IFCSLAB"@.len());
            assert("IFCCOLUMN"@ != "IFCSLAB"@);
            reveal_strlit("IFCSLABSTANDARDCASE");
            assert("IFCCOLUMN"@.len() != "IFCSLABSTANDARDCASE"@.len());
            assert("IFCCOLUMN"@ != "IFCSLABSTANDARDCASE"@);
            reveal_strlit("IFCSLABELEMENTEDCASE");
            assert("IFCCOLUMN"@.len() != "IFCSLABELEMENTEDCASE"@.len());
            assert("IFCCOLUMN"@ != "IFCSLABELEMENTEDCASE"@);
            reveal_strlit("IFCROOF");
            assert("IFCCOLUMN"@.len() != "IFCROOF"@.len());
            assert("IFCCOLUMN"@ != "IFCROOF"@);
            assert(native_class("IFCCOLUMN"@) == Some(IfcClass::Column));
        },
        IfcClass::Beam => {
            reveal_strlit("IfcBeam");
            reveal_strlit("IFCBEAM");
            assert(upper("IfcBeam"@) =~= "IFCBEAM"@);
            reveal_strlit("IFCPROJECT");
            assert("IFCBEAM"@.len() != "IFCPROJECT"@.len());
            assert("IFCBEAM"@ != "IFCPROJECT"@);
            reveal_strlit("IFCSITE");
            assert("IFCBEAM"@[3] != "IFCSITE"@[3]);
            assert("IFCBEAM"@ != "IFCSITE"@);
            reveal_strlit("IFCBUILDING");
            assert("IFCBEAM"@.len() != "IFCBUILDING"@.len());
            assert("IFCBEAM"@ != "IFCBUILDING"@);
            reveal_strlit("IFCBUILDINGSTOREY");
            assert("IFCBEAM"@.len() != "IFCBUILDINGSTOREY"@.len());
            assert("IFCBEAM"@ != "IFCBUILDINGSTOREY"@);
            reveal_strlit("IFCSPACE");
            assert("IFCBEAM"@.len() != "IFCSPACE"@.len());
            assert("IFCBEAM"@ != "IFCSPACE"@);
            reveal_strlit("IFCWALL");
            assert("IFCBEAM"@[3] != "IFCWALL"@[3]);
            assert("IFCBEAM"@ != "IFCWALL"@);
            reveal_strlit("IFCWALLSTANDARDCASE");
            assert("IFCBEAM"@.len() != "IFCWALLSTANDARDCASE"@.len());
            assert("IFCBEAM"@ != "IFCWALLSTANDARDCASE"@);
            reveal_strlit("IFCWALLELEMENTEDCASE");
            assert("IFCBEAM"@.len() != "IFCWALLELEMENTEDCASE"@.len());
            assert("IFCBEAM"@ != "IFCWALLELEMENTEDCASE"@);
            reveal_strlit("IFCSLAB");
            assert("IFCBEAM"@[3] != "IFCSLAB"@[3]);
            assert("IFCBEAM"@ != "IFCSLAB"@);
            reveal_strlit("IFCSLABSTANDARDCASE");
            assert("IFCBEAM"@.len() != "IFCSLABSTANDARDCASE"@.len());
            assert("IFCBEAM"@ != "IFCSLABSTANDARDCASE"@);
            reveal_strlit("IFCSLABELEMENTEDCASE");
            assert("IFCBEAM"@.len() != "IFCSLABELEMENTEDCASE"@.len());
            assert("IFCBEAM"@ != "IFCSLABELEMENTEDCASE"@);
            reveal_strlit("IFCROOF");
            assert("IFCBEAM"@[3] != "IFCROOF"@[3]);
            assert("IFCBEAM"@ != "IFCROOF"@);
            reveal_strlit("IFCCOLUMN");
            assert("IFCBEAM"@.len() != "IFCCOLUMN"@.len());
            assert("IFCBEAM"@ != "IFCCOLUMN"@);
            reveal_strlit("IFCCOLUMNSTANDARDCASE");
            assert("IFCBEAM"@.len() != "IFCCOLUMNSTANDARDCASE"@.len());
            assert("IFCBEAM"@ != "IFCCOLUMNSTANDARDCASE"@);
            assert(native_class("IFCBEAM"@) == Some(IfcClass::Beam));
        },
        IfcClass::Door => {
            reveal_strlit("IfcDoor");
            reveal_strlit("IFCDOOR");
            assert(upper("IfcDoor"@) =~= "IFCDOOR"@);
            reveal_strlit("IFCPROJECT");
            assert("IFCDOOR"@.len() != "IFCPROJECT"@.len());
            assert("IFCDOOR"@ != "IFCPROJECT"@);
            reveal_strlit("IFCSITE");
            assert("IFCDOOR"@[3] != "IFCSITE"@[3]);
            assert("IFCDOOR"@ != "IFCSITE"@);
            reveal_strlit("IFCBUILDING");
            assert("IFCDOOR"@.len() != "IFCBUILDING"@.len());
            assert("IFCDOOR"@ != "IFCBUILDING"@);
            reveal_strlit("IFCBUILDINGSTOREY");
            assert("IFCDOOR"@.len() != "IFCBUILDINGSTOREY"@.len());
            assert("IFCDOOR"@ != "IFCBUILDINGSTOREY"@);
            reveal_strlit("IFCSPACE");
            assert("IFCDOOR"@.len() != "IFCSPACE"@.len());
            assert("IFCDOOR"@ != "IFCSPACE"@);
            reveal_strlit("IFCWALL");
            assert("IFCDOOR"@[3] != "IFCWALL"@[3]);
            assert("IFCDOOR"@ != "IFCWALL"@);
            reveal_strlit("IFCWALLSTANDARDCASE");
            assert("IFCDOOR"@.len() != "IFCWALLSTANDARDCASE"@.len());
            assert("IFCDOOR"@ != "IFCWALLSTANDARDCASE"@);
            reveal_strlit("IFCWALLELEMENTEDCASE");
            assert("IFCDOOR"@.len() != "IFCWALLELEMENTEDCASE"@.len());
            assert("IFCDOOR"@ != "IFCWALLELEMENTEDCASE"@);
            reveal_strlit("IFCSLAB");
            assert("IFCDOOR"@[3] != "IFCSLAB"@[3]);
            assert("IFCDOOR"@ != "IFCSLAB"@);
            reveal_strlit("IFCSLABSTANDARDCASE");
            assert("IFCDOOR"@.len() != "IFCSLABSTANDARDCASE"@.len());
            assert("IFCDOOR"@ != "IFCSLABSTANDARDCASE"@);
            reveal_strlit("IFCSLABELEMENTEDCASE");
            assert("IFCDOOR"@.len() != "IFCSLABELEMENTEDCASE"@.len());
            assert("IFCDOOR"@ != "IFCSLABELEMENTEDCASE"@);
            reveal_strlit("IFCROOF");
            assert("IFCDOOR"@[3] != "IFCROOF"@[3]);
            assert("IFCDOOR"@ != "IFCROOF"@);
            reveal_strlit("IFCCOLUMN");
            assert("IFCDOOR"@.len() != "IFCCOLUMN"@.len());
            assert("IFCDOOR"@ != "IFCCOLUMN"@);
            reveal_strlit("IFCCOLUMNSTANDARDCASE");
            assert("IFCDOOR"@.len() != "IFCCOLUMNSTANDARDCASE"@.len());
            assert("IFCDOOR"@ != "IFCCOLUMNSTANDARDCASE"@);
            reveal_strlit("IFCBEAM");
            assert("IFCDOOR"@[3] != "IFCBEAM"@[3]);
            assert("IFCDOOR"@ != "IFCBEAM"@);
            reveal_strlit("IFCBEAMSTANDARDCASE");
            assert("IFCDOOR"@.len() != "IFCBEAMSTANDARDCASE"@.len());
            assert("IFCDOOR"@ != "IFCBEAMSTANDARDCASE"@);
            assert(native_class("IFCDOOR"@) == Some(IfcClass::Door));
        },
        IfcClass::Window => {
            reveal_strlit("IfcWindow");
            reveal_strlit("IFCWINDOW");
            assert(upper("IfcWindow"@) =~= "IFCWINDOW"@);
            reveal_strlit("IFCPROJECT");
            assert("IFCWINDOW"@.len() != "IFCPROJECT"@.len());
            assert("IFCWINDOW"@ != "IFCPROJECT"@);
            reveal_strlit("IFCSITE");
            assert("IFCWINDOW"@.len() != "IFCSITE"@.len());
            assert("IFCWINDOW"@ != "IFCSITE"@);
            reveal_strlit("IFCBUILDING");
            assert("IFCWINDOW"@.len() != "IFCBUILDING"@.len());
            assert("IFCWINDOW"@ != "IFCBUILDING"@);
            reveal_strlit("IFCBUILDINGSTOREY");
            assert("IFCWINDOW"@.len() != "IFCBUILDINGSTOREY"@.len());
            assert("IFCWINDOW"@ != "IFCBUILDINGSTOREY"@);
            reveal_strlit("IFCSPACE");
            assert("IFCWINDOW"@.len() != "IFCSPACE"@.len());
            assert("IFCWINDOW"@ != "IFCSPACE"@);
            reveal_strlit("IFCWALL");
            assert("IFCWINDOW"@.len() != "IFCWALL"@.len());
            assert("IFCWINDOW"@ != "IFCWALL"@);
            reveal_strlit("IFCWALLSTANDARDCASE");
            assert("IFCWINDOW"@.len() != "IFCWALLSTANDARDCASE"@.len());
            assert("IFCWINDOW"@ != "IFCWALLSTANDARDCASE"@);
            reveal_strlit("IFCWALLELEMENTEDCASE");
            assert("IFCWINDOW"@.len() != "IFCWALLELEMENTEDCASE"@.len());
            assert("IFCWINDOW"@ != "IFCWALLELEMENTEDCASE"@);
            reveal_strlit("IFCSLAB");
            assert("IFCWINDOW"@.len() != "IFCSLAB"@.len());
            assert("IFCWINDOW"@ != "IFCSLAB"@);
            reveal_strlit("IFCSLABSTANDARDCASE");
            assert("IFCWINDOW"@.len() != "IFCSLABSTANDARDCASE"@.len());
            assert("IFCWINDOW"@ != "IFCSLABSTANDARDCASE"@);
            reveal_strlit("IFCSLABELEMENTEDCASE");
            assert("IFCWINDOW"@.len() != "IFCSLABELEMENTEDCASE"@.len());
            assert("IFCWINDOW"@ != "IFCSLABELEMENTEDCASE"@);
            reveal_strlit("IFCROOF");
            assert("IFCWINDOW"@.len() != "IFCROOF"@.len());
            assert("IFCWINDOW"@ != "IFCROOF"@);
            reveal_strlit("IFCCOLUMN");
            assert("IFCWINDOW"@[3] != "IFCCOLUMN"@[3]);
            assert("IFCWINDOW"@ != "IFCCOLUMN"@);
            reveal_strlit("IFCCOLUMNSTANDARDCASE");
            assert("IFCWINDOW"@.len() != "IFCCOLUMNSTANDARDCASE"@.len());
            assert("IFCWINDOW"@ != "IFCCOLUMNSTANDARDCASE"@);
            reveal_strlit("IFCBEAM");
            assert("IFCWINDOW"@.len() != "IFCBEAM"@.len());
            assert("IFCWINDOW"@ != "IFCBEAM"@);
            reveal_strlit("IFCBEAMSTANDARDCASE");
            assert("IFCWINDOW"@.len() != "IFCBEAMSTANDARDCASE"@.len());
            assert("IFCWINDOW"@ != "IFCBEAMSTANDARDCASE"@);
            reveal_strlit("IFCDOOR");
            assert("IFCWINDOW"@.len() != "IFCDOOR"@.len());
            assert("IFCWINDOW"@ != "IFCDOOR"@);
            reveal_strlit("IFCDOORSTANDARDCASE");
            assert("IFCWINDOW"@.len() != "IFCDOORSTANDARDCASE"@.len());
            assert("IFCWINDOW"@ != "IFCDOORSTANDARDCASE"@);
            assert(native_class("IFCWINDOW"@) == Some(IfcClass::Window));
        },
        IfcClass::Stair => {
            reveal_strlit("IfcStair");
            reveal_strlit("IFCSTAIR");
            assert(upper("IfcStair"@) =~= "IFCSTAIR"@);
            reveal_strlit("IFCPROJECT");
            assert("IFCSTAIR"@.len() != "IFCPROJECT"@.len());
            assert("IFCSTAIR"@ != "IFCPROJECT"@);
            reveal_strlit("IFCSITE");
            assert("IFCSTAIR"@.len() != "IFCSITE"@.len());
            assert("IFCSTAIR"@ != "IFCSITE"@);
            reveal_strlit("IFCBUILDING");
            assert("IFCSTAIR"@.len() != "IFCBUILDING"@.len());
            assert("IFCSTAIR"@ != "IFCBUILDING"@);
            reveal_strlit("IFCBUILDINGSTOREY");
            assert("IFCSTAIR"@.len() != "IFCBUILDINGSTOREY"@.len());
            assert("IFCSTAIR"@ != "IFCBUILDINGSTOREY"@);
            reveal_strlit("IFCSPACE");
            assert("IFCSTAIR"@[4] != "IFCSPACE"@[4]);
            assert("IFCSTAIR"@ != "IFCSPACE"@);
            reveal_strlit("IFCWALL");
            assert("IFCSTAIR"@.len() != "IFCWALL"@.len());
            assert("IFCSTAIR"@ != "IFCWALL"@);
            reveal_strlit("IFCWALLSTANDARDCASE");
            assert("IFCSTAIR"@.len() != "IFCWALLSTANDARDCASE"@.len());
            assert("IFCSTAIR"@ != "IFCWALLSTANDARDCASE"@);
            reveal_strlit("IFCWALLELEMENTEDCASE");
            assert("IFCSTAIR"@.len() != "IFCWALLELEMENTEDCASE"@.len());
            assert("IFCSTAIR"@ != "IFCWALLELEMENTEDCASE"@);
            reveal_strlit("IFCSLAB");
            assert("IFCSTAIR"@.len() != "IFCSLAB"@.len());
            assert("IFCSTAIR"@ != "IFCSLAB"@);
            reveal_strlit("IFCSLABSTANDARDCASE");
            assert("IFCSTAIR"@.len() != "IFCSLABSTANDARDCASE"@.len());
            assert("IFCSTAIR"@ != "IFCSLABSTANDARDCASE"@);
            reveal_strlit("IFCSLABELEMENTEDCASE");
            assert("IFCSTAIR"@.len() != "IFCSLABELEMENTEDCASE"@.len());
            assert("IFCSTAIR"@ != "IFCSLABELEMENTEDCASE"@);
            reveal_strlit("IFCROOF");
            assert("IFCSTAIR"@.len() != "IFCROOF"@.len());
            assert("IFCSTAIR"@ != "IFCROOF"@);
            reveal_strlit("IFCCOLUMN");
            assert("IFCSTAIR"@.len() != "IFCCOLUMN"@.len());
            assert("IFCSTAIR"@ != "IFCCOLUMN"@);
            reveal_strlit("IFCCOLUMNSTANDARDCASE");
            assert("IFCSTAIR"@.len() != "IFCCOLUMNSTANDARDCASE"@.len());
            assert("IFCSTAIR"@ != "IFCCOLUMNSTANDARDCASE"@);
            reveal_strlit("IFCBEAM");
            assert("IFCSTAIR"@.len() != "IFCBEAM"@.len());
            assert("IFCSTAIR"@ != "IFCBEAM"@);
            reveal_strlit("IFCBEAMSTANDARDCASE");
            assert("IFCSTAIR"@.len() != "IFCBEAMSTANDARDCASE"@.len());
            assert("IFCSTAIR"@ != "IFCBEAMSTANDARDCASE"@);
            reveal_strlit("IFCDOOR");
            assert("IFCSTAIR"@.len() != "IFCDOOR"@.len());
            assert("IFCSTAIR"@ != "IFCDOOR"@);
            reveal_strlit("IFCDOORSTANDARDCASE");
            assert("IFCSTAIR"@.len() != "IFCDOORSTANDARDCASE"@.len());
            assert("IFCSTAIR"@ != "IFCDOORSTANDARDCASE"@);
            reveal_strlit("IFCWINDOW");
            assert("IFCSTAIR"@.len() != "IFCWINDOW"@.len());
            assert("IFCSTAIR"@ != "IFCWINDOW"@);
            reveal_strlit("IFCWINDOWSTANDARDCASE");
            assert("IFCSTAIR"@.len() != "IFCWINDOWSTANDARDCASE"@.len());
            assert("IFCSTAIR"@ != "IFCWINDOWSTANDARDCASE"@);
            assert(native_class("IFCSTAIR"@) == Some(IfcClass::Stair));
        },
        IfcClass::Covering => {
            reveal_strlit("IfcCovering");
            reveal_strlit("IFCCOVERING");
            assert(upper("IfcCovering"@) =~= "IFCCOVERING"@);
            reveal_strlit("IFCPROJECT");
            assert("IFCCOVERING"@.len() != "IFCPROJECT"@.len());
            assert("IFCCOVERING"@ != "IFCPROJECT"@);
            reveal_strlit("IFCSITE");
            assert("IFCCOVERING"@.len() != "IFCSITE"@.len());
            assert("IFCCOVERING"@ != "IFCSITE"@);
            reveal_strlit("IFCBUILDING");
            assert("IFCCOVERING"@[3] != "IFCBUILDING"@[3]);
            assert("IFCCOVERING"@ != "IFCBUILDING"@);
            reveal_strlit("IFCBUILDINGSTOREY");
            assert("IFCCOVERING"@.len() != "IFCBUILDINGSTOREY"@.len());
            assert("IFCCOVERING"@ != "IFCBUILDINGSTOREY"@);
            reveal_strlit("IFCSPACE");
            assert("IFCCOVERING"@.len() != "IFCSPACE"@.len());
            assert("IFCCOVERING"@ != "IFCSPACE"@);
            reveal_strlit("IFCWALL");
            assert("IFCCOVERING"@.len() != "IFCWALL"@.len());
            assert("IFCCOVERING"@ != "IFCWALL"@);
            reveal_strlit("IFCWALLSTANDARDCASE");
            assert("IFCCOVERING"@.len() != "IFCWALLSTANDARDCASE"@.len());
            assert("IFCCOVERING"@ != "IFCWALLSTANDARDCASE"@);
            reveal_strlit("IFCWALLELEMENTEDCASE");
            assert("IFCCOVERING"@.len() != "IFCWALLELEMENTEDCASE"@.len());
            assert("IFCCOVERING"@ != "IFCWALLELEMENTEDCASE"@);
            reveal_strlit("IFCSLAB");
            assert("IFCCOVERING"@.len() != "IFCSLAB"@.len());
            assert("IFCCOVERING"@ != "IFCSLAB"@);
            reveal_strlit("IFCSLABSTANDARDCASE");
            assert("IFCCOVERING"@.len() != "IFCSLABSTANDARDCASE"@.len());
            assert("IFCCOVERING"@ != "IFCSLABSTANDARDCASE"@);
            reveal_strlit("IFCSLABELEMENTEDCASE");
            assert("IFCCOVERING"@.len() != "IFCSLABELEMENTEDCASE"@.len());
            assert("IFCCOVERING"@ != "IFCSLABELEMENTEDCASE"@);
            reveal_strlit("IFCROOF");
            assert("IFCCOVERING"@.len() != "IFCROOF"@.len());
            assert("IFCCOVERING"@ != "IFCROOF"@);
            reveal_strlit("IFCCOLUMN");
            assert("IFCCOVERING"@.len() != "IFCCOLUMN"@.len());
            assert("IFCCOVERING"@ != "IFCCOLUMN"@);
            reveal_strlit("IFCCOLUMNSTANDARDCASE");
            assert("IFCCOVERING"@.len() != "IFCCOLUMNSTANDARDCASE"@.len());
            assert("IFCCOVERING"@ != "IFCCOLUMNSTANDARDCASE"@);
            reveal_strlit("IFCBEAM");
            assert("IFCCOVERING"@.len() != "IFCBEAM"@.len());
            assert("IFCCOVERING"@ != "IFCBEAM"@);
            reveal_strlit("IFCBEAMSTANDARDCASE");
            assert("IFCCOVERING"@.len() != "IFCBEAMSTANDARDCASE"@.len());
            assert("IFCCOVERING"@ != "IFCBEAMSTANDARDCASE"@);
            reveal_strlit("IFCDOOR");
            assert("IFCCOVERING"@.len() != "IFCDOOR"@.len());
            assert("IFCCOVERING"@ != "IFCDOOR"@);
            reveal_strlit("IFCDOORSTANDARDCASE");
            assert("IFCCOVERING"@.len() != "IFCDOORSTANDARDCASE"@.len());
            assert("IFCCOVERING"@ != "IFCDOORSTANDARDCASE"@);
            reveal_strlit("IFCWINDOW");
            assert("IFCCOVERING"@.len() != "IFCWINDOW"@.len());
            assert("IFCCOVERING"@ != "IFCWINDOW"@);
            reveal_strlit("IFCWINDOWSTANDARDCASE");
            assert("IFCCOVERING"@.len() != "IFCWINDOWSTANDARDCASE"@.len());
            assert("IFCCOVERING"@ != "IFCWINDOWSTANDARDCASE"@);
            reveal_strlit("IFCSTAIR");
            assert("IFCCOVERING"@.len() != "IFCSTAIR"@.len());
            assert("IFCCOVERING"@ != "IFCSTAIR"@);
            assert(native_class("IFCCOVERING"@) == Some(IfcClass::Covering));
        },
        IfcClass::Furniture => {
            reveal_strlit("IfcFurniture");
            reveal_strlit("IFCFURNITURE");
            assert(upper("IfcFurniture"@) =~= "IFCFURNITURE"@);
            reveal_strlit("IFCPROJECT");
            assert("IFCFURNITURE"@.len() != "IFCPROJECT"@.len());
            assert("IFCFURNITURE"@ != "IFCPROJECT"@);
            reveal_strlit("IFCSITE");
            assert("IFCFURNITURE"@.len() != "IFCSITE"@.len());
            assert("IFCFURNITURE"@ != "IFCSITE"@);
            reveal_strlit("IFCBUILDING");
            assert("IFCFURNITURE"@.len() != "IFCBUILDING"@.len());
            assert("IFCFURNITURE"@ != "IFCBUILDING"@);
            reveal_strlit("IFCBUILDINGSTOREY");
            assert("IFCFURNITURE"@.len() != "IFCBUILDINGSTOREY"@.len());
            assert("IFCFURNITURE"@ != "IFCBUILDINGSTOREY"@);
            reveal_strlit("IFCSPACE");
            assert("IFCFURNITURE"@.len() != "IFCSPACE"@.len());
            assert("IFCFURNITURE"@ != "IFCSPACE"@);
            reveal_strlit("IFCWALL");
            assert("IFCFURNITURE"@.len() != "IFCWALL"@.len());
            assert("IFCFURNITURE"@ != "IFCWALL"@);
            reveal_strlit("IFCWALLSTANDARDCASE");
            assert("IFCFURNITURE"@.len() != "IFCWALLSTANDARDCASE"@.len());
            assert("IFCFURNITURE"@ != "IFCWALLSTANDARDCASE"@);
            reveal_strlit("IFCWALLELEMENTEDCASE");
            assert("IFCFURNITURE"@.len() != "IFCWALLELEMENTEDCASE"@.len());
            assert("IFCFURNITURE"@ != "IFCWALLELEMENTEDCASE"@);
            reveal_strlit("IFCSLAB");
            assert("IFCFURNITURE"@.len() != "IFCSLAB"@.len());
            assert("IFCFURNITURE"@ != "IFCSLAB"@);
            reveal_strlit("IFCSLABSTANDARDCASE");
            assert("IFCFURNITURE"@.len() != "IFCSLABSTANDARDCASE"@.len());
            assert("IFCFURNITURE"@ != "IFCSLABSTANDARDCASE"@);
            reveal_strlit("IFCSLABELEMENTEDCASE");
            assert("IFCFURNITURE"@.len() != "IFCSLABELEMENTEDCASE"@.len());
            assert("IFCFURNITURE"@ != "IFCSLABELEMENTEDCASE"@);
            reveal_strlit("IFCROOF");
            assert("IFCFURNITURE"@.len() != "IFCROOF"@.len());
            assert("IFCFURNITURE"@ != "IFCROOF"@);
            reveal_strlit("IFCCOLUMN");
            assert("IFCFURNITURE"@.len() != "IFCCOLUMN"@.len());
            assert("IFCFURNITURE"@ != "IFCCOLUMN"@);
            reveal_strlit("IFCCOLUMNSTANDARDCASE");
            assert("IFCFURNITURE"@.len() != "IFCCOLUMNSTANDARDCASE"@.len());
            assert("IFCFURNITURE"@ != "IFCCOLUMNSTANDARDCASE"@);
            reveal_strlit("IFCBEAM");
            assert("IFCFURNITURE"@.len() != "IFCBEAM"@.len());
            assert("IFCFURNITURE"@ != "IFCBEAM"@);
            reveal_strlit("IFCBEAMSTANDARDCASE");
            assert("IFCFURNITURE"@.len() != "IFCBEAMSTANDARDCASE"@.len());
            assert("IFCFURNITURE"@ != "IFCBEAMSTANDARDCASE"@);
            reveal_strlit("IFCDOOR");
            assert("IFCFURNITURE"@.len() != "IFCDOOR"@.len());
            assert("IFCFURNITURE"@ != "IFCDOOR"@);
            reveal_strlit("IFCDOORSTANDARDCASE");
            assert("IFCFURNITURE"@.len() != "IFCDOORSTANDARDCASE"@.len());
            assert("IFCFURNITURE"@ != "IFCDOORSTANDARDCASE"@);
            reveal_strlit("IFCWINDOW");
            assert("IFCFURNITURE"@.len() != "IFCWINDOW"@.len());
            assert("IFCFURNITURE"@ != "IFCWINDOW"@);
            reveal_strlit("IFCWINDOWSTANDARDCASE");
            assert("IFCFURNITURE"@.len() != "IFCWINDOWSTANDARDCASE"@.len());
            assert("IFCFURNITURE"@ != "IFCWINDOWSTANDARDCASE"@);
            reveal_strlit("IFCSTAIR");
            assert("IFCFURNITURE"@.len() != "IFCSTAIR"@.len());
            assert("IFCFURNITURE"@ != "IFCSTAIR"@);
            reveal_strlit("IFCCOVERING");
            assert("IFCFURNITURE"@.len() != "IFCCOVERING"@.len());
            assert("IFCFURNITURE"@ != "IFCCOVERING"@);
            assert(native_class("IFCFURNITURE"@) == Some(IfcClass::Furniture));
        },
        IfcClass::OpeningElement => {
            reveal_strlit("IfcOpeningElement");
            reveal_strlit("IFCOPENINGELEMENT");
            assert(upper("IfcOpeningElement"@) =~= "IFCOPENINGELEMENT"@);
            reveal_strlit("IFCPROJECT");
            assert("IFCOPENINGELEMENT"@.len() != "IFCPROJECT"@.len());
            assert("IFCOPENINGELEMENT"@ != "IFCPROJECT"@);
            reveal_strlit("IFCSITE");
            assert("IFCOPENINGELEMENT"@.len() != "IFCSITE"@.len());
            assert("IFCOPENINGELEMENT"@ != "IFCSITE"@);
            reveal_strlit("IFCBUILDING");
            assert("IFCOPENINGELEMENT"@.len() != "IFCBUILDING"@.len());
            assert("IFCOPENINGELEMENT"@ != "IFCBUILDING"@);
            reveal_strlit("IFCBUILDINGSTOREY");
            assert("IFCOPENINGELEMENT"@[3] != "IFCBUILDINGSTOREY"@[3]);
            assert("IFCOPENINGELEMENT"@ != "IFCBUILDINGSTOREY"@);
            reveal_strlit("IFCSPACE");
            assert("IFCOPENINGELEMENT"@.len() != "IFCSPACE"@.len());
            assert("IFCOPENINGELEMENT"@ != "IFCSPACE"@);
            reveal_strlit("IFCWALL");
            assert("IFCOPENINGELEMENT"@.len() != "IFCWALL"@.len());
            assert("IFCOPENINGELEMENT"@ != "IFCWALL"@);
            reveal_strlit("IFCWALLSTANDARDCASE");
            assert("IFCOPENINGELEMENT"@.len() != "IFCWALLSTANDARDCASE"@.len());
            assert("IFCOPENINGELEMENT"@ != "IFCWALLSTANDARDCASE"@);
            reveal_strlit("IFCWALLELEMENTEDCASE");
            assert("IFCOPENINGELEMENT"@.len() != "IFCWALLELEMENTEDCASE"@.len());
            assert("IFCOPENINGELEMENT"@ != "IFCWALLELEMENTEDCASE"@);
            reveal_strlit("IFCSLAB");
            assert("IFCOPENINGELEMENT"@.len() != "IFCSLAB"@.len());
            assert("IFCOPENINGELEMENT"@ != "IFCSLAB"@);
            reveal_strlit("IFCSLABSTANDARDCASE");
            assert("IFCOPENINGELEMENT"@.len() != "IFCSLABSTANDARDCASE"@.len());
            assert("IFCOPENINGELEMENT"@ != "IFCSLABSTANDARDCASE"@);
            reveal_strlit("IFCSLABELEMENTEDCASE");
            assert("IFCOPENINGELEMENT"@.len() != "IFCSLABELEMENTEDCASE"@.len());
            assert("IFCOPENINGELEMENT"@ != "IFCSLABELEMENTEDCASE"@);
            reveal_strlit("IFCROOF");
            assert("IFCOPENINGELEMENT"@.len() != "IFCROOF"@.len());
            assert("IFCOPENINGELEMENT"@ != "IFCROOF"@);
            reveal_strlit("IFCCOLUMN");
            assert("IFCOPENINGELEMENT"@.len() != "IFCCOLUMN"@.len());
            assert("IFCOPENINGELEMENT"@ != "IFCCOLUMN"@);
            reveal_strlit("IFCCOLUMNSTANDARDCASE");
            assert("IFCOPENINGELEMENT"@.len() != "IFCCOLUMNSTANDARDCASE"@.len());
            assert("IFCOPENINGELEMENT"@ != "IFCCOLUMNSTANDARDCASE"@);
            reveal_strlit("IFCBEAM");
            assert("IFCOPENINGELEMENT"@.len() != "IFCBEAM"@.len());
            assert("IFCOPENINGELEMENT"@ != "IFCBEAM"@);
            reveal_strlit("IFCBEAMSTANDARDCASE");
            assert("IFCOPENINGELEMENT"@.len() != "IFCBEAMSTANDARDCASE"@.len());
            assert("IFCOPENINGELEMENT"@ != "IFCBEAMSTANDARDCASE"@);
            reveal_strlit("IFCDOOR");
            assert("IFCOPENINGELEMENT"@.len() != "IFCDOOR"@.len());
            assert("IFCOPENINGELEMENT"@ != "IFCDOOR"@);
            reveal_strlit("IFCDOORSTANDARDCASE");
            assert("IFCOPENINGELEMENT"@.len() != "IFCDOORSTANDARDCASE"@.len());
            assert("IFCOPENINGELEMENT"@ != "IFCDOORSTANDARDCASE"@);
            reveal_strlit("IFCWINDOW");
            assert("IFCOPENINGELEMENT"@.len() != "IFCWINDOW"@.len());
            assert("IFCOPENINGELEMENT"@ != "IFCWINDOW"@);
            reveal_strlit("IFCWINDOWSTANDARDCASE");
            assert("IFCOPENINGELEMENT"@.len() != "IFCWINDOWSTANDARDCASE"@.len());
            assert("IFCOPENINGELEMENT"@ != "IFCWINDOWSTANDARDCASE"@);
            reveal_strlit("IFCSTAIR");
            assert("IFCOPENINGELEMENT"@.len() != "IFCSTAIR"@.len());
            assert("IFCOPENINGELEMENT"@ != "IFCSTAIR"@);
            reveal_strlit("IFCCOVERING");
            assert("IFCOPENINGELEMENT"@.len() != "IFCCOVERING"@.len());
            assert("IFCOPENINGELEMENT"@ != "IFCCOVERING"@);
            reveal_strlit("IFCFURNITURE");
            assert("IFCOPENINGELEMENT"@.len() != "IFCFURNITURE"@.len());
            assert("IFCOPENINGELEMENT"@ != "IFCFURNITURE"@);
            reveal_strlit("IFCFURNISHINGELEMENT");
            assert("IFCOPENINGELEMENT"@.len() != "IFCFURNISHINGELEMENT"@.len());
            assert("IFCOPENINGELEMENT"@ != "IFCFURNISHINGELEMENT"@);
            assert(native_class("IFCOPENINGELEMENT"@) == Some(IfcClass::OpeningElement));
        },
        IfcClass::BuildingElementProxy => {
            reveal_strlit("IfcBuildingElementProxy");
            reveal_strlit("IFCBUILDINGELEMENTPROXY");
            assert(upper("IfcBuildingElementProxy"@) =~= "IFCBUILDINGELEMENTPROXY"@);
            reveal_strlit("IFCPROJECT");
            assert("IFCBUILDINGELEMENTPROXY"@.len() != "IFCPROJECT"@.len());
            assert("IFCBUILDINGELEMENTPROXY"@ != "IFCPROJECT"@);
            reveal_strlit("IFCSITE");
            assert("IFCBUILDINGELEMENTPROXY"@.len() != "IFCSITE"@.len());
            assert("IFCBUILDINGELEMENTPROXY"@ != "IFCSITE"@);
            reveal_strlit("IFCBUILDING");
            assert("IFCBUILDINGELEMENTPROXY"@.len() != "IFCBUILDING"@.len());
            assert("IFCBUILDINGELEMENTPROXY"@ != "IFCBUILDING"@);
            reveal_strlit("IFCBUILDINGSTOREY");
            assert("IFCBUILDINGELEMENTPROXY"@.len() != "IFCBUILDINGSTOREY"@.len());
            assert("IFCBUILDINGELEMENTPROXY"@ != "IFCBUILDINGSTOREY"@);
            reveal_strlit("IFCSPACE");
            assert("IFCBUILDINGELEMENTPROXY"@.len() != "IFCSPACE"@.len());
            assert("IFCBUILDINGELEMENTPROXY"@ != "IFCSPACE"@);
            reveal_strlit("IFCWALL");
            assert("IFCBUILDINGELEMENTPROXY"@.len() != "IFCWALL"@.len());
            assert("IFCBUILDINGELEMENTPROXY"@ != "IFCWALL"@);
            reveal_strlit("IFCWALLSTANDARDCASE");
            assert("IFCBUILDINGELEMENTPROXY"@.len() != "IFCWALLSTANDARDCASE"@.len());
            assert("IFCBUILDINGELEMENTPROXY"@ != "IFCWALLSTANDARDCASE"@);
            reveal_strlit("IFCWALLELEMENTEDCASE");
            assert("IFCBUILDINGELEMENTPROXY"@.len() != "IFCWALLELEMENTEDCASE"@.len());
            assert("IFCBUILDINGELEMENTPROXY"@ != "IFCWALLELEMENTEDCASE"@);
            reveal_strlit("IFCSLAB");
            assert("IFCBUILDINGELEMENTPROXY"@.len() != "IFCSLAB"@.len());
            assert("IFCBUILDINGELEMENTPROXY"@ != "IFCSLAB"@);
            reveal_strlit("IFCSLABSTANDARDCASE");
            assert("IFCBUILDINGELEMENTPROXY"@.len() != "IFCSLABSTANDARDCASE"@.len());
            assert("IFCBUILDINGELEMENTPROXY"@ != "IFCSLABSTANDARDCASE"@);
            reveal_strlit("IFCSLABELEMENTEDCASE");
            assert("IFCBUILDINGELEMENTPROXY"@.len() != "IFCSLABELEMENTEDCASE"@.len());
            assert("IFCBUILDINGELEMENTPROXY"@ != "IFCSLABELEMENTEDCASE"@);
            reveal_strlit("IFCROOF");
            assert("IFCBUILDINGELEMENTPROXY"@.len() != "IFCROOF"@.len());
            assert("IFCBUILDINGELEMENTPROXY"@ != "IFCROOF"@);
            reveal_strlit("IFCCOLUMN");
            assert("IFCBUILDINGELEMENTPROXY"@.len() != "IFCCOLUMN"@.len());
            assert("IFCBUILDINGELEMENTPROXY"@ != "IFCCOLUMN"@);
            reveal_strlit("IFCCOLUMNSTANDARDCASE");
            assert("IFCBUILDINGELEMENTPROXY"@.len() != "IFCCOLUMNSTANDARDCASE"@.len());
            assert("IFCBUILDINGELEMENTPROXY"@ != "IFCCOLUMNSTANDARDCASE"@);
            reveal_strlit("IFCBEAM");
            assert("IFCBUILDINGELEMENTPROXY"@.len() != "IFCBEAM"@.len());
            assert("IFCBUILDINGELEMENTPROXY"@ != "IFCBEAM"@);
            reveal_strlit("IFCBEAMSTANDARDCASE");
            assert("IFCBUILDINGELEMENTPROXY"@.len() != "IFCBEAMSTANDARDCASE"@.len());
            assert("IFCBUILDINGELEMENTPROXY"@ != "IFCBEAMSTANDARDCASE"@);
            reveal_strlit("IFCDOOR");
            assert("IFCBUILDINGELEMENTPROXY"@.len() != "IFCDOOR"@.len());
            assert("IFCBUILDINGELEMENTPROXY"@ != "IFCDOOR"@);
            reveal_strlit("IFCDOORSTANDARDCASE");
            assert("IFCBUILDINGELEMENTPROXY"@.len() != "IFCDOORSTANDARDCASE"@.len());
            assert("IFCBUILDINGELEMENTPROXY"@ != "IFCDOORSTANDARDCASE"@);
            reveal_strlit("IFCWINDOW");
            assert("IFCBUILDINGELEMENTPROXY"@.len() != "IFCWINDOW"@.len());
            assert("IFCBUILDINGELEMENTPROXY"@ != "IFCWINDOW"@);
            reveal_strlit("IFCWINDOWSTANDARDCASE");
            assert("IFCBUILDINGELEMENTPROXY"@.len() != "IFCWINDOWSTANDARDCASE"@.len());
            assert("IFCBUILDINGELEMENTPROXY"@ != "IFCWINDOWSTANDARDCASE"@);
            reveal_strlit("IFCSTAIR");
            assert("IFCBUILDINGELEMENTPROXY"@.len() != "IFCSTAIR"@.len());
            assert("IFCBUILDINGELEMENTPROXY"@ != "IFCSTAIR"@);
            reveal_strlit("IFCCOVERING");
            assert("IFCBUILDINGELEMENTPROXY"@.len() != "IFCCOVERING"@.len());
            assert("IFCBUILDINGELEMENTPROXY"@ != "IFCCOVERING"@);
            reveal_strlit("IFCFURNITURE");
            assert("IFCBUILDINGELEMENTPROXY"@.len() != "IFCFURNITURE"@.len());
            assert("IFCBUILDINGELEMENTPROXY"@ != "IFCFURNITURE"@);
            reveal_strlit("IFCFURNISHINGELEMENT");
            assert("IFCBUILDINGELEMENTPROXY"@.len() != "IFCFURNISHINGELEMENT"@.len());
            assert("IFCBUILDINGELEMENTPROXY"@ != "IFCFURNISHINGELEMENT"@);
            reveal_strlit("IFCOPENINGELEMENT");
            assert("IFCBUILDINGELEMENTPROXY"@.len() != "IFCOPENINGELEMENT"@.len());
            assert("IFCBUILDINGELEMENTPROXY"@ != "IFCOPENINGELEMENT"@);
            reveal_strlit("IFCOPENINGSTANDARDCASE");
            assert("IFCBUILDINGELEMENTPROXY"@.len() != "IFCOPENINGSTANDARDCASE"@.len());
            assert("IFCBUILDINGELEMENTPROXY"@ != "IFCOPENINGSTANDARDCASE"@);
            assert(native_class("IFCBUILDINGELEMENTPROXY"@) == Some(IfcClass::BuildingElementProxy));
        },
        IfcClass::Other(_) => {},
    }
}

}
