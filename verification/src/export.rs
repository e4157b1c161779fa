//! Writing a model as an IFC4 STEP physical file: the spatial structure, every product with
//! its placement and geometry, and every relationship and property set.
//!
//! Geometry is written as it is held: a swept solid as a profile and a depth, a triangle set
//! as its triangles. A representation that would make an unreadable file is refused instead.

use vstd::prelude::*;
use vstd::string::StrSliceExecFns;
use vstd::utf8::encode_utf8;
use crate::backend::IfcError;
use crate::element::{class_name, clone_id_opt, identity_placement, same_class, spatial, ElementRecord, ElementView, IfcClass, Placement};
use crate::floatbits::{finite, is_finite};
use crate::id::GlobalId;
use crate::model::Model;
use crate::property::{PropertySet, PropertyValue};
use crate::representation::{valid_model, Representation};
use crate::schema::IfcSchema;
use crate::spf::{numbered_in_order, derived_id, synthetic_key, entity_line, file_text, iso8601, SpfBackend, reference, ref_text, step_string, text, ExportContext, ExportedType, Writer};
use crate::text::{decimal, seq_lt, chars_of, format_i64, format_u64, owned, push_str, signed_decimal, str_eq};
use crate::textmap::TextMap;
use crate::reader::{lemma_own_name_reads_back, native_class};
use crate::text::upper;

verus! {

/// The parts, one after the other.
pub open spec fn concat(parts: Seq<Seq<char>>) -> Seq<char>
    decreases parts.len(),
{
    if parts.len() == 0 {
        Seq::empty()
    } else {
        concat(parts.drop_last()) + parts.last()
    }
}

/// The texts of some string slices.
pub open spec fn views(parts: Seq<&str>) -> Seq<Seq<char>> {
    parts.map_values(|p: &str| p@)
}

/// The parts joined into one string.
pub fn cat(parts: &[&str]) -> (r: String)
    ensures
        r@ == concat(views(parts@)),
{
    let mut out = String::new();
    let mut i: usize = 0;
    while i < parts.len()
        invariant
            i <= parts.len(),
            out@ == concat(views(parts@).take(i as int)),
        decreases parts.len() - i,
    {
        push_str(&mut out, parts[i]);
        proof {
            assert(views(parts@).take(i + 1).drop_last() =~= views(parts@).take(i as int));
        }
        i += 1;
    }
    proof {
        assert(views(parts@).take(parts.len() as int) =~= views(parts@));
    }
    out
}

/// What Rust's `Display` writes for an `f64`: the shortest text that reads back as the same
/// value.
pub uninterp spec fn display_text(bits: u64) -> Seq<char>;

/// `<f64 as Display>::fmt`, through `format!`.
///
/// Claims only that the text is a function of the value, named `display_text`.
#[verifier::external_body]
fn display_real(bits: u64) -> (r: String)
    ensures
        r@ == display_text(bits),
{
    format!("{}", bytemuck::cast::<[u64; 2], glam::DVec2>([bits, 0]).x)
}

/// A STEP real: always with a decimal point or an exponent; a value that is not finite is
/// written as zero.
pub open spec fn real_text(bits: u64) -> Seq<char> {
    if !finite(bits) {
        "0."@
    } else {
        let s = display_text(bits);
        if s.contains('.') || s.contains('e') || s.contains('E') {
            s
        } else {
            s + "."@
        }
    }
}

/// A STEP real.
pub fn step_real(bits: u64) -> (r: String)
    ensures
        r@ == real_text(bits),
{
    if !is_finite(bits) {
        proof {
            reveal_strlit("0.");
        }
        return owned("0.");
    }
    let s = display_real(bits);
    let cs = chars_of(s.as_str());
    let mut marked = false;
    let mut i: usize = 0;
    while i < cs.len()
        invariant
            i <= cs.len(),
            cs@ == s@,
            marked == (exists|j: int| 0 <= j < i && (cs@[j] == '.' || cs@[j] == 'e' || cs@[j] == 'E')),
        decreases cs.len() - i,
    {
        if cs[i] == '.' || cs[i] == 'e' || cs[i] == 'E' {
            marked = true;
        }
        i += 1;
    }
    proof {
        if s@.contains('.') {
            let j = choose|j: int| 0 <= j < s@.len() && s@[j] == '.';
            assert(cs@[j] == '.');
        }
        if s@.contains('e') {
            let j = choose|j: int| 0 <= j < s@.len() && s@[j] == 'e';
            assert(cs@[j] == 'e');
        }
        if s@.contains('E') {
            let j = choose|j: int| 0 <= j < s@.len() && s@[j] == 'E';
            assert(cs@[j] == 'E');
        }
        if marked {
            let j = choose|j: int| 0 <= j < i && (cs@[j] == '.' || cs@[j] == 'e' || cs@[j] == 'E');
            assert(s@[j] == cs@[j]);
        }
    }
    if marked {
        s
    } else {
        let mut t = s;
        push_str(&mut t, ".");
        t
    }
}

/// The STEP value of a property, by its measure type.
pub open spec fn value_text(v: PropertyValue) -> Seq<char> {
    match v {
        PropertyValue::Text(t) => "IFCTEXT("@ + step_string(t@) + ")"@,
        PropertyValue::Integer(i) => "IFCINTEGER("@ + signed_decimal(i as int) + ")"@,
        PropertyValue::Real(f) => "IFCREAL("@ + real_text(f) + ")"@,
        PropertyValue::Boolean(b) => if b {
            "IFCBOOLEAN(.T.)"@
        } else {
            "IFCBOOLEAN(.F.)"@
        },
        PropertyValue::Length(f) => "IFCLENGTHMEASURE("@ + real_text(f) + ")"@,
        PropertyValue::Area(f) => "IFCAREAMEASURE("@ + real_text(f) + ")"@,
        PropertyValue::Volume(f) => "IFCVOLUMEMEASURE("@ + real_text(f) + ")"@,
        PropertyValue::Count(i) => "IFCCOUNTMEASURE("@ + signed_decimal(i as int) + ")"@,
    }
}

/// A constructor around an argument.
fn wrapped(constructor: &str, argument: &String) -> (r: String)
    ensures
        r@ == constructor@ + argument@ + ")"@,
{
    let mut out = owned(constructor);
    push_str(&mut out, argument.as_str());
    push_str(&mut out, ")");
    out
}

/// The STEP value of a property.
pub fn ifc_value(value: &PropertyValue) -> (r: String)
    ensures
        r@ == value_text(*value),
{
    match value {
        PropertyValue::Text(v) => wrapped("IFCTEXT(", &text(v.as_str())),
        PropertyValue::Integer(v) => wrapped("IFCINTEGER(", &format_i64(*v)),
        PropertyValue::Real(v) => wrapped("IFCREAL(", &step_real(*v)),
        PropertyValue::Boolean(v) => if *v {
            owned("IFCBOOLEAN(.T.)")
        } else {
            owned("IFCBOOLEAN(.F.)")
        },
        PropertyValue::Length(v) => wrapped("IFCLENGTHMEASURE(", &step_real(*v)),
        PropertyValue::Area(v) => wrapped("IFCAREAMEASURE(", &step_real(*v)),
        PropertyValue::Volume(v) => wrapped("IFCVOLUMEMEASURE(", &step_real(*v)),
        PropertyValue::Count(v) => wrapped("IFCCOUNTMEASURE(", &format_i64(*v)),
    }
}

/// An identity as a STEP string.
fn guid(id: &GlobalId) -> (r: String)
    ensures
        r@ == step_string(id@),
{
    text(id.as_str())
}

/// `after` is `before` with entities and derived identities added: the same context, and
/// every earlier line where it was.
pub open spec fn extends<'a>(before: Writer<'a>, after: Writer<'a>) -> bool {
    &&& after.wf()
    &&& after.context() == before.context()
    &&& before.lines().len() <= after.lines().len()
    &&& forall|i: int| 0 <= i < before.lines().len() ==> #[trigger] after.lines()[i] == before.lines()[i]
    &&& before.count() <= after.count()
}

/// The writer can number no more entities, or derive no more identities.
pub open spec fn exhausted<'a>(w: Writer<'a>) -> bool {
    w.lines().len() + 2 >= u64::MAX || w.count() == u64::MAX
}

/// A step of an export: the writer is extended, and it fails only once it is exhausted.
pub open spec fn stepped<'a, T>(before: Writer<'a>, after: Writer<'a>, r: Result<T, IfcError>) -> bool {
    &&& extends(before, after)
    &&& r matches Err(e) ==> e is Backend && exhausted(after)
}

/// Entity `n` of the writer is defined with `body`.
pub open spec fn names(w: Seq<Seq<char>>, n: u64, body: Seq<char>) -> bool {
    1 <= n <= w.len() && w[n - 1] == entity_line(n as nat, body)
}

/// An entity stays defined as the file grows.
proof fn lemma_names_kept<'a>(before: Writer<'a>, after: Writer<'a>, n: u64, body: Seq<char>)
    requires
        extends(before, after),
        names(before.lines(), n, body),
    ensures
        names(after.lines(), n, body),
{
    assert(after.lines()[n - 1] == before.lines()[n - 1]);
}

/// The body of a 3D cartesian point.
pub open spec fn point3_text(p: [u64; 3]) -> Seq<char> {
    concat(seq!["IFCCARTESIANPOINT(("@, real_text(p[0]), ","@, real_text(p[1]), ","@, real_text(p[2]), "))"@])
}

/// The body of a 2D cartesian point.
pub open spec fn point2_text(p: [u64; 2]) -> Seq<char> {
    concat(seq!["IFCCARTESIANPOINT(("@, real_text(p[0]), ","@, real_text(p[1]), "))"@])
}

/// The body of a direction.
pub open spec fn direction_text(d: [u64; 3]) -> Seq<char> {
    concat(seq!["IFCDIRECTION(("@, real_text(d[0]), ","@, real_text(d[1]), ","@, real_text(d[2]), "))"@])
}

/// The body of an axis placement from its location and its two directions.
pub open spec fn axis_text(location: u64, axis: u64, reference_direction: u64) -> Seq<char> {
    concat(
        seq![
            "IFCAXIS2PLACEMENT3D("@,
            reference(location as nat),
            ","@,
            reference(axis as nat),
            ","@,
            reference(reference_direction as nat),
            ")"@,
        ],
    )
}

/// Entity `n` is the axis placement of `placement`: its location and both of its directions
/// are defined as such.
pub open spec fn axis_named(w: Seq<Seq<char>>, n: u64, placement: Placement) -> bool {
    exists|l: u64, a: u64, d: u64|
        #![trigger axis_text(l, a, d), names(w, n, axis_text(l, a, d))]
        names(w, n, axis_text(l, a, d)) && names(w, l, point3_text(placement.location)) && names(
            w,
            a,
            direction_text(placement.axis),
        ) && names(w, d, direction_text(placement.ref_direction))
}

proof fn lemma_axis_kept<'a>(before: Writer<'a>, after: Writer<'a>, n: u64, placement: Placement)
    requires
        extends(before, after),
        axis_named(before.lines(), n, placement),
    ensures
        axis_named(after.lines(), n, placement),
{
    let (l, a, d) = choose|l: u64, a: u64, d: u64|
        #![trigger axis_text(l, a, d), names(before.lines(), n, axis_text(l, a, d))]
        names(before.lines(), n, axis_text(l, a, d)) && names(before.lines(), l, point3_text(placement.location)) && names(
            before.lines(),
            a,
            direction_text(placement.axis),
        ) && names(before.lines(), d, direction_text(placement.ref_direction));
    lemma_names_kept(before, after, n, axis_text(l, a, d));
    lemma_names_kept(before, after, l, point3_text(placement.location));
    lemma_names_kept(before, after, a, direction_text(placement.axis));
    lemma_names_kept(before, after, d, direction_text(placement.ref_direction));
}

/// The body of a local placement relative to `parent`, or to the world without one.
pub open spec fn local_text(parent: Option<u64>, relative: u64) -> Seq<char> {
    let p = match parent {
        Some(n) => reference(n as nat),
        None => "$"@,
    };
    concat(seq!["IFCLOCALPLACEMENT("@, p, ","@, reference(relative as nat), ")"@])
}

/// Entity `n` is a local placement of `placement` relative to `parent`.
pub open spec fn local_named(w: Seq<Seq<char>>, n: u64, placement: Placement, parent: Option<u64>) -> bool {
    exists|rel: u64| #![trigger local_text(parent, rel)] names(w, n, local_text(parent, rel)) && axis_named(w, rel, placement)
}

proof fn lemma_local_kept<'a>(before: Writer<'a>, after: Writer<'a>, n: u64, placement: Placement, parent: Option<u64>)
    requires
        extends(before, after),
        local_named(before.lines(), n, placement, parent),
    ensures
        local_named(after.lines(), n, placement, parent),
{
    let rel = choose|rel: u64| #![trigger local_text(parent, rel)] names(before.lines(), n, local_text(parent, rel)) && axis_named(before.lines(), rel, placement);
    lemma_names_kept(before, after, n, local_text(parent, rel));
    lemma_axis_kept(before, after, rel, placement);
}

/// Emits the point, or finds it emitted before, and returns its number.
fn point3(w: &mut Writer, p: [u64; 3]) -> (r: Result<u64, IfcError>)
    requires
        old(w).wf(),
    ensures
        stepped(*old(w), *final(w), r),
        r matches Ok(n) ==> names((*final(w)).lines(), n, point3_text(p)),
{
    let (a, b, c) = (step_real(p[0]), step_real(p[1]), step_real(p[2]));
    let parts = ["IFCCARTESIANPOINT((", a.as_str(), ",", b.as_str(), ",", c.as_str(), "))"];
    let body = cat(&parts);
    assert(views(parts@) =~= seq!["IFCCARTESIANPOINT(("@, real_text(p[0]), ","@, real_text(p[1]), ","@, real_text(p[2]), "))"@]);
    w.emit_shared(body)
}

/// Emits the point, or finds it emitted before, and returns its number.
fn point2(w: &mut Writer, p: [u64; 2]) -> (r: Result<u64, IfcError>)
    requires
        old(w).wf(),
    ensures
        stepped(*old(w), *final(w), r),
        r matches Ok(n) ==> names((*final(w)).lines(), n, point2_text(p)),
{
    let (a, b) = (step_real(p[0]), step_real(p[1]));
    let parts = ["IFCCARTESIANPOINT((", a.as_str(), ",", b.as_str(), "))"];
    let body = cat(&parts);
    assert(views(parts@) =~= seq!["IFCCARTESIANPOINT(("@, real_text(p[0]), ","@, real_text(p[1]), "))"@]);
    w.emit_shared(body)
}

/// Emits the direction, or finds it emitted before, and returns its number.
fn direction(w: &mut Writer, d: [u64; 3]) -> (r: Result<u64, IfcError>)
    requires
        old(w).wf(),
    ensures
        stepped(*old(w), *final(w), r),
        r matches Ok(n) ==> names((*final(w)).lines(), n, direction_text(d)),
{
    let (a, b, c) = (step_real(d[0]), step_real(d[1]), step_real(d[2]));
    let parts = ["IFCDIRECTION((", a.as_str(), ",", b.as_str(), ",", c.as_str(), "))"];
    let body = cat(&parts);
    assert(views(parts@) =~= seq!["IFCDIRECTION(("@, real_text(d[0]), ","@, real_text(d[1]), ","@, real_text(d[2]), "))"@]);
    w.emit_shared(body)
}

/// Emits the axis placement with its point and directions, sharing any emitted before.
fn axis_placement(w: &mut Writer, placement: Placement) -> (r: Result<u64, IfcError>)
    requires
        old(w).wf(),
    ensures
        stepped(*old(w), *final(w), r),
        r matches Ok(n) ==> axis_named((*final(w)).lines(), n, placement),
{
    let location = match point3(w, placement.location) {
        Ok(n) => n,
        Err(e) => {
            return Err(e);
        },
    };
    let ghost w1 = *w;
    let axis = match direction(w, placement.axis) {
        Ok(n) => n,
        Err(e) => {
            return Err(e);
        },
    };
    let ghost w2 = *w;
    let toward = match direction(w, placement.ref_direction) {
        Ok(n) => n,
        Err(e) => {
            return Err(e);
        },
    };
    let ghost w3 = *w;
    let (l, a, d) = (ref_text(location), ref_text(axis), ref_text(toward));
    let parts = ["IFCAXIS2PLACEMENT3D(", l.as_str(), ",", a.as_str(), ",", d.as_str(), ")"];
    let body = cat(&parts);
    assert(views(parts@) =~= seq![
        "IFCAXIS2PLACEMENT3D("@,
        reference(location as nat),
        ","@,
        reference(axis as nat),
        ","@,
        reference(toward as nat),
        ")"@,
    ]);
    let r = w.emit_shared(body);
    proof {
        if r is Ok {
            lemma_names_kept(w1, w2, location, point3_text(placement.location));
            lemma_names_kept(w2, w3, location, point3_text(placement.location));
            lemma_names_kept(w3, *w, location, point3_text(placement.location));
            lemma_names_kept(w2, w3, axis, direction_text(placement.axis));
            lemma_names_kept(w3, *w, axis, direction_text(placement.axis));
            lemma_names_kept(w3, *w, toward, direction_text(placement.ref_direction));
            assert(names((*w).lines(), r->Ok_0, axis_text(location, axis, toward)));
        }
    }
    r
}

/// Emits the local placement of `placement` relative to `parent`, or to the world.
fn local_placement(w: &mut Writer, placement: Placement, parent: Option<u64>) -> (r: Result<u64, IfcError>)
    requires
        old(w).wf(),
    ensures
        stepped(*old(w), *final(w), r),
        r matches Ok(n) ==> local_named((*final(w)).lines(), n, placement, parent),
{
    let relative = match axis_placement(w, placement) {
        Ok(n) => n,
        Err(e) => {
            return Err(e);
        },
    };
    let ghost w1 = *w;
    let parent_text = match parent {
        Some(p) => ref_text(p),
        None => owned("$"),
    };
    let rel = ref_text(relative);
    let parts = ["IFCLOCALPLACEMENT(", parent_text.as_str(), ",", rel.as_str(), ")"];
    let body = cat(&parts);
    let ghost pt = match parent {
        Some(n) => reference(n as nat),
        None => "$"@,
    };
    assert(parent_text@ == pt);
    assert(views(parts@) =~= seq!["IFCLOCALPLACEMENT("@, pt, ","@, reference(relative as nat), ")"@]);
    assert(body@ == local_text(parent, relative));
    let r = w.emit_shared(body);
    proof {
        if r is Ok {
            lemma_axis_kept(w1, *w, relative, placement);
            assert(names((*w).lines(), r->Ok_0, local_text(parent, relative)));
        }
    }
    r
}

/// Texts joined with commas.
pub open spec fn comma_text(s: Seq<Seq<char>>) -> Seq<char>
    decreases s.len(),
{
    if s.len() == 0 {
        Seq::empty()
    } else if s.len() == 1 {
        s[0]
    } else {
        comma_text(s.drop_last()) + ","@ + s.last()
    }
}

/// Join texts with commas.
fn comma_joined(items: &Vec<String>) -> (r: String)
    ensures
        r@ == comma_text(items@.map_values(|t: String| t@)),
{
    let ghost all = items@.map_values(|t: String| t@);
    let mut out = String::new();
    let mut i: usize = 0;
    while i < items.len()
        invariant
            i <= items.len(),
            all == items@.map_values(|t: String| t@),
            out@ == comma_text(all.take(i as int)),
        decreases items.len() - i,
    {
        if i > 0 {
            push_str(&mut out, ",");
        }
        push_str(&mut out, items[i].as_str());
        proof {
            assert(all.take(i + 1).drop_last() =~= all.take(i as int));
            if i == 0 {
                assert(all.take(1) =~= seq![items@[0]@]);
            }
        }
        i += 1;
    }
    assert(all.take(items.len() as int) =~= all);
    out
}

/// The text of a face: its three corners, counted from one.
pub open spec fn face_text(f: [u32; 3]) -> Seq<char> {
    concat(seq!["("@, decimal((f[0] + 1) as nat), ","@, decimal((f[1] + 1) as nat), ","@, decimal((f[2] + 1) as nat), ")"@])
}

/// The text of a vertex's coordinates.
pub open spec fn coord_text(v: [u64; 3]) -> Seq<char> {
    concat(seq!["("@, real_text(v[0]), ","@, real_text(v[1]), ","@, real_text(v[2]), ")"@])
}

/// The body of an extruded solid of a profile, placed, along a direction, by a depth.
pub open spec fn extruded_text(pdef: u64, pos: u64, dirn: u64, depth: u64) -> Seq<char> {
    concat(seq!["IFCEXTRUDEDAREASOLID("@, reference(pdef as nat), ","@, reference(pos as nat), ","@, reference(dirn as nat), ","@, real_text(depth), ")"@])
}

/// The body of a closed profile bounded by a polyline.
pub open spec fn profile_def_text(poly: u64) -> Seq<char> {
    concat(seq!["IFCARBITRARYCLOSEDPROFILEDEF(.AREA.,$,"@, reference(poly as nat), ")"@])
}

/// The body of a polyline through some points.
pub open spec fn polyline_text(pts: Seq<u64>) -> Seq<char> {
    concat(seq!["IFCPOLYLINE(("@, comma_text(references(pts)), "))"@])
}

/// The body of a list of vertices.
pub open spec fn pointlist_text(vertices: Seq<[u64; 3]>) -> Seq<char> {
    concat(seq!["IFCCARTESIANPOINTLIST3D(("@, comma_text(vertices.map_values(|v: [u64; 3]| coord_text(v))), "))"@])
}

/// The body of a triangulated face set over a vertex list.
pub open spec fn faceset_text(list: u64, faces: Seq<[u32; 3]>) -> Seq<char> {
    concat(seq!["IFCTRIANGULATEDFACESET("@, reference(list as nat), ",$,.T.,("@, comma_text(faces.map_values(|f: [u32; 3]| face_text(f))), "),$)"@])
}

/// The body of a product's shape over one representation.
pub open spec fn product_shape_text(sr: u64) -> Seq<char> {
    concat(seq!["IFCPRODUCTDEFINITIONSHAPE($,$,("@, reference(sr as nat), "))"@])
}

/// The references to some entities.
pub open spec fn references(ns: Seq<u64>) -> Seq<Seq<char>> {
    ns.map_values(|n: u64| reference(n as nat))
}

/// `pts` are the points of the closed polyline of `profile`: each profile point in order, then
/// the first again.
pub open spec fn polyline_points(w: Seq<Seq<char>>, pts: Seq<u64>, profile: Seq<[u64; 2]>) -> bool {
    &&& pts.len() == (if profile.len() > 0 { profile.len() + 1 } else { 0 })
    &&& profile.len() > 0 ==> pts[pts.len() - 1] == pts[0]
    &&& forall|i: int| 0 <= i < profile.len() ==> names(w, #[trigger] pts[i], point2_text(profile[i]))
}

/// Entity `item` is the geometric item of a representation, with what it refers to.
pub open spec fn item_written(w: Seq<Seq<char>>, item: u64, rep: crate::representation::RepresentationModel) -> bool {
    match rep {
        crate::representation::RepresentationModel::Swept { profile, direction, depth } => exists|
            poly: u64,
            pdef: u64,
            pos: u64,
            dirn: u64,
            pts: Seq<u64>,
        |
            #![trigger polyline_points(w, pts, profile), names(w, pdef, profile_def_text(poly)), names(w, item, extruded_text(pdef, pos, dirn, depth))]
            names(
                w,
                item,
                extruded_text(pdef, pos, dirn, depth),
            ) && names(w, pdef, profile_def_text(poly))
                && names(w, poly, polyline_text(pts)) && polyline_points(
                w,
                pts,
                profile,
            ) && axis_named(w, pos, identity_placement()) && names(w, dirn, direction_text(direction)),
        crate::representation::RepresentationModel::Mesh { vertices, faces } => exists|list: u64|
            #![trigger names(w, list, pointlist_text(vertices))]
            names(w, list, pointlist_text(vertices))
                && names(
                w,
                item,
                faceset_text(list, faces),
            ),
    }
}

/// The representation type a representation is written with.
pub open spec fn representation_kind(r: crate::representation::RepresentationModel) -> Seq<char> {
    if r is Swept {
        "SweptSolid"@
    } else {
        "Tessellation"@
    }
}

/// Entity `n` is the product shape of `rep` in `context`: the shape, its shape representation,
/// and the representation's geometric item with what it refers to.
pub open spec fn shape_named(w: Seq<Seq<char>>, n: u64, rep: crate::representation::RepresentationModel, context: u64) -> bool {
    exists|sr: u64, item: u64|
        #![trigger shape_rep_text(context, representation_kind(rep), item), names(w, n, product_shape_text(sr))]
        names(w, n, product_shape_text(sr)) && names(w, sr, shape_rep_text(context, representation_kind(rep), item))
            && item_written(w, item, rep)
}

/// The body of a shape representation of `item` in `context`.
pub open spec fn shape_rep_text(context: u64, kind: Seq<char>, item: u64) -> Seq<char> {
    concat(seq!["IFCSHAPEREPRESENTATION("@, reference(context as nat), ",'Body','"@, kind, "',("@, reference(item as nat), "))"@])
}

/// The entities of a body representation, and the number of its `IfcProductDefinitionShape`.
/// A representation that would make an unreadable file is refused.
#[verifier::spinoff_prover]
#[verifier::rlimit(100)]
fn shape(w: &mut Writer, representation: &Representation, context: u64) -> (r: Result<u64, IfcError>)
    requires
        old(w).wf(),
    ensures
        extends(*old(w), *final(w)),
        !valid_model(representation@) ==> (r matches Err(IfcError::Malformed(_))) && final(w).lines() == old(w).lines(),
        r matches Err(e) ==> (e is Malformed && !valid_model(representation@)) || (e is Backend && exhausted(
            *final(w),
        )),
        r matches Ok(n) ==> shape_named(final(w).lines(), n, representation@, context),
{
    if !representation.is_valid() {
        return Err(IfcError::Malformed(owned("representation would produce an unreadable file")));
    }
    let ghost start = *w;
    let item = match representation {
        Representation::ExtrudedAreaSolid { profile, direction: dir, depth } => {
            // A closed profile curve repeats its first point.
            let mut ids: Vec<String> = Vec::new();
            let ghost mut pts: Seq<u64> = Seq::empty();
            let mut i: usize = 0;
            while i < profile.len()
                invariant
                    i <= profile.len(),
                    extends(*old(w), *w),
                    valid_model(representation@),
                    pts.len() == i,
                    ids@.len() == i,
                    forall|k: int| 0 <= k < i ==> (#[trigger] ids@[k])@ == reference(pts[k] as nat),
                    forall|j: int| 0 <= j < i ==> names(w.lines(), #[trigger] pts[j], point2_text(profile@[j])),
                decreases profile.len() - i,
            {
                let ghost before = *w;
                match point2(w, profile[i]) {
                    Ok(n) => {
                        let t = ref_text(n);
                        ids.push(t);
                        proof {
                            assert forall|j: int| 0 <= j < i implies names(w.lines(), #[trigger] pts[j], point2_text(profile@[j])) by {
                                lemma_names_kept(before, *w, pts[j], point2_text(profile@[j]));
                            }
                            pts = pts.push(n);
                        }
                    },
                    Err(e) => {
                        return Err(e);
                    },
                }
                i += 1;
            }
            if ids.len() > 0 {
                let first = owned(ids[0].as_str());
                ids.push(first);
                proof {
                    pts = pts.push(pts[0]);
                }
            }
            assert(ids@.map_values(|t: String| t@) =~= references(pts));
            let ghost w1 = *w;
            assert(polyline_points(w1.lines(), pts, profile@));
            let points = comma_joined(&ids);
            let pparts = ["IFCPOLYLINE((", points.as_str(), "))"];
            let pbody = cat(&pparts);
            assert(views(pparts@) =~= seq!["IFCPOLYLINE(("@, comma_text(references(pts)), "))"@]);
            let polyline = match w.emit(pbody) {
                Ok(n) => n,
                Err(e) => {
                    return Err(e);
                },
            };
            let ghost w2 = *w;
            let poly = ref_text(polyline);
            let dparts = ["IFCARBITRARYCLOSEDPROFILEDEF(.AREA.,$,", poly.as_str(), ")"];
            let dbody = cat(&dparts);
            assert(views(dparts@) =~= seq!["IFCARBITRARYCLOSEDPROFILEDEF(.AREA.,$,"@, reference(polyline as nat), ")"@]);
            let profile_def = match w.emit(dbody) {
                Ok(n) => n,
                Err(e) => {
                    return Err(e);
                },
            };
            let ghost w3 = *w;
            let position = match axis_placement(w, Placement::identity()) {
                Ok(n) => n,
                Err(e) => {
                    return Err(e);
                },
            };
            let ghost w4 = *w;
            let extrude_direction = match direction(w, *dir) {
                Ok(n) => n,
                Err(e) => {
                    return Err(e);
                },
            };
            let ghost w5 = *w;
            let (a, b, c, d) = (ref_text(profile_def), ref_text(position), ref_text(extrude_direction), step_real(*depth));
            let eparts = ["IFCEXTRUDEDAREASOLID(", a.as_str(), ",", b.as_str(), ",", c.as_str(), ",", d.as_str(), ")"];
            let ebody = cat(&eparts);
            assert(views(eparts@) =~= seq![
                "IFCEXTRUDEDAREASOLID("@,
                reference(profile_def as nat),
                ","@,
                reference(position as nat),
                ","@,
                reference(extrude_direction as nat),
                ","@,
                real_text(*depth),
                ")"@,
            ]);
            let it = match w.emit(ebody) {
                Ok(n) => n,
                Err(e) => {
                    return Err(e);
                },
            };
            proof {
                let fin = *w;
                lemma_extends_trans(w1, w2, w3);
                lemma_extends_trans(w1, w3, w4);
                lemma_extends_trans(w1, w4, w5);
                lemma_extends_trans(w1, w5, fin);
                lemma_extends_trans(w2, w3, w4);
                lemma_extends_trans(w2, w4, w5);
                lemma_extends_trans(w2, w5, fin);
                lemma_extends_trans(w3, w4, w5);
                lemma_extends_trans(w3, w5, fin);
                lemma_extends_trans(w4, w5, fin);
                assert forall|j: int| 0 <= j < profile@.len() implies names(fin.lines(), #[trigger] pts[j], point2_text(profile@[j])) by {
                    lemma_names_kept(w1, fin, pts[j], point2_text(profile@[j]));
                }
                lemma_names_kept(w2, fin, polyline, polyline_text(pts));
                lemma_names_kept(w3, fin, profile_def, profile_def_text(polyline));
                lemma_axis_kept(w4, fin, position, identity_placement());
                lemma_names_kept(w5, fin, extrude_direction, direction_text(*dir));
                assert(polyline_points(fin.lines(), pts, profile@));
                assert(ebody@ == extruded_text(profile_def, position, extrude_direction, *depth));
                assert(names(fin.lines(), it, extruded_text(profile_def, position, extrude_direction, *depth)));
                assert(item_written(fin.lines(), it, representation@));
            }
            it
        },
        Representation::TriangulatedFaceSet { vertices, faces } => {
            let mut coords: Vec<String> = Vec::new();
            let mut i: usize = 0;
            while i < vertices.len()
                invariant
                    i <= vertices.len(),
                    coords@.len() == i,
                    forall|k: int| 0 <= k < i ==> (#[trigger] coords@[k])@ == coord_text(vertices@[k]),
                decreases vertices.len() - i,
            {
                let v = vertices[i];
                let (a, b, c) = (step_real(v[0]), step_real(v[1]), step_real(v[2]));
                let parts = ["(", a.as_str(), ",", b.as_str(), ",", c.as_str(), ")"];
                let t = cat(&parts);
                assert(views(parts@) =~= seq!["("@, real_text(v[0]), ","@, real_text(v[1]), ","@, real_text(v[2]), ")"@]);
                coords.push(t);
                i += 1;
            }
            assert(coords@.map_values(|t: String| t@) =~= vertices@.map_values(|v: [u64; 3]| coord_text(v)));
            let all_coords = comma_joined(&coords);
            let lparts = ["IFCCARTESIANPOINTLIST3D((", all_coords.as_str(), "))"];
            let lbody = cat(&lparts);
            assert(views(lparts@) =~= seq!["IFCCARTESIANPOINTLIST3D(("@, comma_text(vertices@.map_values(|v: [u64; 3]| coord_text(v))), "))"@]);
            let list = match w.emit(lbody) {
                Ok(n) => n,
                Err(e) => {
                    return Err(e);
                },
            };
            let ghost w1 = *w;
            let mut indices: Vec<String> = Vec::new();
            let mut j: usize = 0;
            while j < faces.len()
                invariant
                    j <= faces.len(),
                    indices@.len() == j,
                    forall|k: int| 0 <= k < j ==> (#[trigger] indices@[k])@ == face_text(faces@[k]),
                decreases faces.len() - j,
            {
                let f = faces[j];
                let (a, b, c) = (
                    format_u64(f[0] as u64 + 1),
                    format_u64(f[1] as u64 + 1),
                    format_u64(f[2] as u64 + 1),
                );
                let parts = ["(", a.as_str(), ",", b.as_str(), ",", c.as_str(), ")"];
                let t = cat(&parts);
                assert(views(parts@) =~= seq!["("@, decimal((f[0] + 1) as nat), ","@, decimal((f[1] + 1) as nat), ","@, decimal((f[2] + 1) as nat), ")"@]);
                indices.push(t);
                j += 1;
            }
            assert(indices@.map_values(|t: String| t@) =~= faces@.map_values(|f: [u32; 3]| face_text(f)));
            let all_indices = comma_joined(&indices);
            let l = ref_text(list);
            let fparts = ["IFCTRIANGULATEDFACESET(", l.as_str(), ",$,.T.,(", all_indices.as_str(), "),$)"];
            let fbody = cat(&fparts);
            assert(views(fparts@) =~= seq!["IFCTRIANGULATEDFACESET("@, reference(list as nat), ",$,.T.,("@, comma_text(faces@.map_values(|f: [u32; 3]| face_text(f))), "),$)"@]);
            let it = match w.emit(fbody) {
                Ok(n) => n,
                Err(e) => {
                    return Err(e);
                },
            };
            proof {
                let fin = *w;
                lemma_names_kept(w1, fin, list, pointlist_text(vertices@));
                assert(item_written(fin.lines(), it, representation@));
            }
            it
        },
    };
    let ghost w6 = *w;
    let (ctx, it) = (ref_text(context), ref_text(item));
    let kind = representation.ifc_representation_type();
    let sparts = ["IFCSHAPEREPRESENTATION(", ctx.as_str(), ",'Body','", kind, "',(", it.as_str(), "))"];
    let sbody = cat(&sparts);
    assert(views(sparts@) =~= seq!["IFCSHAPEREPRESENTATION("@, reference(context as nat), ",'Body','"@, kind@, "',("@, reference(item as nat), "))"@]);
    let shape = match w.emit(sbody) {
        Ok(n) => n,
        Err(e) => {
            return Err(e);
        },
    };
    let ghost w7 = *w;
    let s = ref_text(shape);
    let parts = ["IFCPRODUCTDEFINITIONSHAPE($,$,(", s.as_str(), "))"];
    let body = cat(&parts);
    assert(views(parts@) =~= seq!["IFCPRODUCTDEFINITIONSHAPE($,$,("@, reference(shape as nat), "))"@]);
    let r = w.emit(body);
    proof {
        if r is Ok {
            let fin = *w;
            lemma_item_kept(w6, fin, item, representation@);
            assert(kind@ == representation_kind(representation@));
            assert(names(fin.lines(), shape, shape_rep_text(context, representation_kind(representation@), item)));
            lemma_names_kept(w7, fin, shape, shape_rep_text(context, kind@, item));
            assert(names(fin.lines(), r->Ok_0, product_shape_text(shape)));
        }
    }
    r
}

proof fn lemma_item_kept<'a>(before: Writer<'a>, after: Writer<'a>, item: u64, rep: crate::representation::RepresentationModel)
    requires
        extends(before, after),
        item_written(before.lines(), item, rep),
    ensures
        item_written(after.lines(), item, rep),
{
    match rep {
        crate::representation::RepresentationModel::Swept { profile, direction, depth } => {
            let (poly, pdef, pos, dirn, pts) = choose|poly: u64, pdef: u64, pos: u64, dirn: u64, pts: Seq<u64>|
                #![trigger polyline_points(before.lines(), pts, profile), names(before.lines(), pdef, profile_def_text(poly)), names(before.lines(), item, extruded_text(pdef, pos, dirn, depth))]
                names(
                    before.lines(),
                    item,
                    extruded_text(pdef, pos, dirn, depth),
                ) && names(before.lines(), pdef, profile_def_text(poly))
                    && names(before.lines(), poly, polyline_text(pts)) && polyline_points(
                    before.lines(),
                    pts,
                    profile,
                ) && axis_named(before.lines(), pos, identity_placement()) && names(before.lines(), dirn, direction_text(direction));
            lemma_names_kept(before, after, item, extruded_text(pdef, pos, dirn, depth));
            lemma_names_kept(before, after, pdef, profile_def_text(poly));
            lemma_names_kept(before, after, poly, polyline_text(pts));
            assert forall|j: int| 0 <= j < profile.len() implies names(after.lines(), #[trigger] pts[j], point2_text(profile[j])) by {
                lemma_names_kept(before, after, pts[j], point2_text(profile[j]));
            }
            lemma_axis_kept(before, after, pos, identity_placement());
            lemma_names_kept(before, after, dirn, direction_text(direction));
            assert(polyline_points(after.lines(), pts, profile));
        },
        crate::representation::RepresentationModel::Mesh { vertices, faces } => {
            let list = choose|list: u64|
                #![trigger names(before.lines(), list, pointlist_text(vertices))]
                names(before.lines(), list, pointlist_text(vertices))
                    && names(
                    before.lines(),
                    item,
                    faceset_text(list, faces),
                );
            lemma_names_kept(before, after, list, pointlist_text(vertices));
            lemma_names_kept(before, after, item, faceset_text(list, faces));
        },
    }
}

/// The body of a relationship `entity` with identity `g` and the given tail of arguments.
pub open spec fn relation_text(entity: Seq<char>, g: Seq<char>, tail: Seq<char>) -> Seq<char> {
    concat(seq![entity, "("@, step_string(g), ",$,$,$,"@, tail, ")"@])
}

/// Some relationship `entity` with this tail of arguments is defined.
pub open spec fn related(w: Seq<Seq<char>>, entity: Seq<char>, tail: Seq<char>) -> bool {
    exists|n: u64, g: Seq<char>| #![trigger names(w, n, relation_text(entity, g, tail))] names(w, n, relation_text(entity, g, tail))
}

proof fn lemma_related_kept<'a>(before: Writer<'a>, after: Writer<'a>, entity: Seq<char>, tail: Seq<char>)
    requires
        extends(before, after),
        related(before.lines(), entity, tail),
    ensures
        related(after.lines(), entity, tail),
{
    let (n, g) = choose|n: u64, g: Seq<char>| #![trigger names(before.lines(), n, relation_text(entity, g, tail))] names(before.lines(), n, relation_text(entity, g, tail));
    lemma_names_kept(before, after, n, relation_text(entity, g, tail));
}

/// A relationship entity with a derived identity and the given tail of arguments.
fn relationship(w: &mut Writer, entity: &str, tail: &String) -> (r: Result<u64, IfcError>)
    requires
        old(w).wf(),
    ensures
        stepped(*old(w), *final(w), r),
        r matches Ok(n) ==> names(
            (*final(w)).lines(),
            n,
            relation_text(entity@, derived_id(synthetic_key(old(w).context().project_name@, entity@, old(w).count() + 1)), tail@),
        ),
        r is Ok ==> related((*final(w)).lines(), entity@, tail@),
{
    let id = match w.derive(entity) {
        Ok(g) => g,
        Err(e) => {
            return Err(e);
        },
    };
    let g = guid(&id);
    let parts = [entity, "(", g.as_str(), ",$,$,$,", tail.as_str(), ")"];
    let body = cat(&parts);
    assert(views(parts@) =~= seq![entity@, "("@, step_string(id@), ",$,$,$,"@, tail@, ")"@]);
    let r = w.emit(body);
    proof {
        if r is Ok {
            assert(names((*w).lines(), r->Ok_0, relation_text(entity@, id@, tail@)));
        }
    }
    r
}

/// The entity name a class is written as, with the arguments that follow the common ones.
pub open spec fn product_entity(c: IfcClass) -> (Seq<char>, Seq<char>) {
    match c {
        IfcClass::Wall => ("IFCWALL"@, ",$,$)"@),
        IfcClass::Slab => ("IFCSLAB"@, ",$,$)"@),
        IfcClass::Roof => ("IFCROOF"@, ",$,$)"@),
        IfcClass::Column => ("IFCCOLUMN"@, ",$,$)"@),
        IfcClass::Beam => ("IFCBEAM"@, ",$,$)"@),
        IfcClass::Stair => ("IFCSTAIR"@, ",$,$)"@),
        IfcClass::Covering => ("IFCCOVERING"@, ",$,$)"@),
        IfcClass::Furniture => ("IFCFURNITURE"@, ",$,$)"@),
        IfcClass::OpeningElement => ("IFCOPENINGELEMENT"@, ",$,$)"@),
        IfcClass::Door => ("IFCDOOR"@, ",$,$,$,$,$,$)"@),
        IfcClass::Window => ("IFCWINDOW"@, ",$,$,$,$,$,$)"@),
        _ => ("IFCBUILDINGELEMENTPROXY"@, ",$,$)"@),
    }
}

/// A product of a class with an IFC entity of its own is written under that entity, its own
/// class name in upper case (an `IfcColumn` as `IFCCOLUMN`), so that reading the written name
/// gives the class back; a class without one (the spatial ones, and those the model does not
/// know) is written as a proxy.
pub proof fn lemma_products_keep_their_class(c: IfcClass)
    ensures
        (c is Wall || c is Slab || c is Roof || c is Column || c is Beam || c is Stair || c is Covering
            || c is Furniture || c is OpeningElement || c is Door || c is Window || c is BuildingElementProxy) ==> {
            &&& product_entity(c).0 == upper(class_name(c))
            &&& native_class(product_entity(c).0) == Some(c)
        },
        (c is Project || c is Site || c is Building || c is BuildingStorey || c is Space || c is Other)
            ==> product_entity(c).0 == "IFCBUILDINGELEMENTPROXY"@,
{
    match c {
        IfcClass::Wall => {
            reveal_strlit("IfcWall");
            reveal_strlit("IFCWALL");
            assert(upper("IfcWall"@) =~= "IFCWALL"@);
        },
        IfcClass::Slab => {
            reveal_strlit("IfcSlab");
            reveal_strlit("IFCSLAB");
            assert(upper("IfcSlab"@) =~= "IFCSLAB"@);
        },
        IfcClass::Roof => {
            reveal_strlit("IfcRoof");
            reveal_strlit("IFCROOF");
            assert(upper("IfcRoof"@) =~= "IFCROOF"@);
        },
        IfcClass::Column => {
            reveal_strlit("IfcColumn");
            reveal_strlit("IFCCOLUMN");
            assert(upper("IfcColumn"@) =~= "IFCCOLUMN"@);
        },
        IfcClass::Beam => {
            reveal_strlit("IfcBeam");
            reveal_strlit("IFCBEAM");
            assert(upper("IfcBeam"@) =~= "IFCBEAM"@);
        },
        IfcClass::Stair => {
            reveal_strlit("IfcStair");
            reveal_strlit("IFCSTAIR");
            assert(upper("IfcStair"@) =~= "IFCSTAIR"@);
        },
        IfcClass::Covering => {
            reveal_strlit("IfcCovering");
            reveal_strlit("IFCCOVERING");
            assert(upper("IfcCovering"@) =~= "IFCCOVERING"@);
        },
        IfcClass::Furniture => {
            reveal_strlit("IfcFurniture");
            reveal_strlit("IFCFURNITURE");
            assert(upper("IfcFurniture"@) =~= "IFCFURNITURE"@);
        },
        IfcClass::OpeningElement => {
            reveal_strlit("IfcOpeningElement");
            reveal_strlit("IFCOPENINGELEMENT");
            assert(upper("IfcOpeningElement"@) =~= "IFCOPENINGELEMENT"@);
        },
        IfcClass::Door => {
            reveal_strlit("IfcDoor");
            reveal_strlit("IFCDOOR");
            assert(upper("IfcDoor"@) =~= "IFCDOOR"@);
        },
        IfcClass::Window => {
            reveal_strlit("IfcWindow");
            reveal_strlit("IFCWINDOW");
            assert(upper("IfcWindow"@) =~= "IFCWINDOW"@);
        },
        IfcClass::BuildingElementProxy => {
            reveal_strlit("IfcBuildingElementProxy");
            reveal_strlit("IFCBUILDINGELEMENTPROXY");
            assert(upper("IfcBuildingElementProxy"@) =~= "IFCBUILDINGELEMENTPROXY"@);
        },
        _ => {},
    }
    if !(c is Project || c is Site || c is Building || c is BuildingStorey || c is Space || c is Other) {
        lemma_own_name_reads_back(c);
    }
}

/// The entity name and trailing arguments of a product.
fn product_parts(c: &IfcClass) -> (r: (&'static str, &'static str))
    ensures
        (r.0@, r.1@) == product_entity(*c),
{
    match c {
        IfcClass::Wall => ("IFCWALL", ",$,$)"),
        IfcClass::Slab => ("IFCSLAB", ",$,$)"),
        IfcClass::Roof => ("IFCROOF", ",$,$)"),
        IfcClass::Column => ("IFCCOLUMN", ",$,$)"),
        IfcClass::Beam => ("IFCBEAM", ",$,$)"),
        IfcClass::Stair => ("IFCSTAIR", ",$,$)"),
        IfcClass::Covering => ("IFCCOVERING", ",$,$)"),
        IfcClass::Furniture => ("IFCFURNITURE", ",$,$)"),
        IfcClass::OpeningElement => ("IFCOPENINGELEMENT", ",$,$)"),
        IfcClass::Door => ("IFCDOOR", ",$,$,$,$,$,$)"),
        IfcClass::Window => ("IFCWINDOW", ",$,$,$,$,$,$)"),
        _ => ("IFCBUILDINGELEMENTPROXY", ",$,$)"),
    }
}

/// The STEP text of a product: identity, name, type label, placement and shape, under the
/// entity its class is written as; a class without an entity of its own is written as a proxy.
pub open spec fn product_text(e: ElementView, placement: nat, shape: Seq<char>) -> Seq<char> {
    let name = match e.name {
        Some(n) => n@,
        None => ""@,
    };
    let object_type = match e.object_type {
        Some(t) => step_string(t@),
        None => "$"@,
    };
    product_entity(e.class).0 + "("@ + step_string(e.global_id@) + ",$,"@ + step_string(name) + ",$,"@
        + object_type + ","@ + reference(placement) + ","@ + shape + product_entity(e.class).1
}

/// The text of a product.
pub fn product(element: &ElementRecord, placement: u64, shape: &str) -> (r: String)
    ensures
        r@ == product_text(element@, placement as nat, shape@),
{
    let g = guid(&element.global_id);
    let name = match &element.name {
        Some(n) => text(n.as_str()),
        None => text(""),
    };
    let object_type = match &element.object_type {
        Some(t) => text(t.as_str()),
        None => owned("$"),
    };
    let p = ref_text(placement);
    let (entity, tail) = product_parts(&element.class);
    let mut out = owned(entity);
    push_str(&mut out, "(");
    push_str(&mut out, g.as_str());
    push_str(&mut out, ",$,");
    push_str(&mut out, name.as_str());
    push_str(&mut out, ",$,");
    push_str(&mut out, object_type.as_str());
    push_str(&mut out, ",");
    push_str(&mut out, p.as_str());
    push_str(&mut out, ",");
    push_str(&mut out, shape);
    push_str(&mut out, tail);
    out
}

/// Some line defines `e` as a product, whatever its placement and shape.
pub open spec fn product_listed(lines: Seq<Seq<char>>, e: ElementView) -> bool {
    exists|i: int, p: nat, s: Seq<char>|
        #![trigger lines[i], product_text(e, p, s)]
        0 <= i < lines.len() && lines[i] == entity_line((i + 1) as nat, product_text(e, p, s))
}

/// Every element of `l` outside the spatial structure is defined as a product.
pub open spec fn products_listed(lines: Seq<Seq<char>>, l: Seq<ElementView>) -> bool {
    forall|i: int| #![trigger l[i]] 0 <= i < l.len() && !spatial(l[i].class) ==> product_listed(lines, l[i])
}

/// Every element of `l` outside the spatial structure that has a shape has one that makes a
/// readable file.
pub open spec fn shapes_valid(l: Seq<ElementView>) -> bool {
    forall|i: int|
        #![trigger l[i]]
        0 <= i < l.len() && !spatial(l[i].class) && l[i].representation is Some ==> valid_model(
            l[i].representation->0,
        )
}

/// A product line stays where it is as the file grows.
proof fn lemma_product_kept<'a>(before: Writer<'a>, after: Writer<'a>, e: ElementView)
    requires
        extends(before, after),
        product_listed(before.lines(), e),
    ensures
        product_listed(after.lines(), e),
{
    let (i, p, s) = choose|i: int, p: nat, s: Seq<char>|
        #![trigger before.lines()[i], product_text(e, p, s)]
        0 <= i < before.lines().len() && before.lines()[i] == entity_line((i + 1) as nat, product_text(e, p, s));
    assert(after.lines()[i] == before.lines()[i]);
}

/// The entity an exported type of a class is written as, and the arguments that close it;
/// `None` for a class without a type entity.
pub open spec fn type_parts(c: IfcClass) -> Option<(Seq<char>, Seq<char>)> {
    match c {
        IfcClass::Wall => Some(("IFCWALLTYPE("@, ".)"@)),
        IfcClass::Slab => Some(("IFCSLABTYPE("@, ".)"@)),
        IfcClass::Roof => Some(("IFCROOFTYPE("@, ".)"@)),
        IfcClass::Column => Some(("IFCCOLUMNTYPE("@, ".)"@)),
        IfcClass::Beam => Some(("IFCBEAMTYPE("@, ".)"@)),
        IfcClass::Stair => Some(("IFCSTAIRTYPE("@, ".)"@)),
        IfcClass::Covering => Some(("IFCCOVERINGTYPE("@, ".)"@)),
        IfcClass::Furniture => Some(("IFCFURNITURETYPE("@, ".)"@)),
        IfcClass::BuildingElementProxy => Some(("IFCBUILDINGELEMENTPROXYTYPE("@, ".)"@)),
        IfcClass::Door => Some(("IFCDOORTYPE("@, ".,.NOTDEFINED.,.F.,$)"@)),
        IfcClass::Window => Some(("IFCWINDOWTYPE("@, ".,.NOTDEFINED.,.F.,$)"@)),
        _ => None,
    }
}

/// The body of the type entity of an exported type whose class has one.
pub open spec fn type_text(t: ExportedType) -> Seq<char> {
    let predefined = match t.predefined_type {
        Some(p) => p@,
        None => "NOTDEFINED"@,
    };
    let common = concat(seq![step_string(t.global_id@), ",$,"@, step_string(t.name@), ",$,$,$,$,$,$"@]);
    let (entity, tail) = type_parts(t.class)->0;
    concat(seq![entity, common, ",."@, predefined, tail])
}

/// The `IfcTypeProduct` of an exported family type, for the classes that have one.
fn type_entity(w: &mut Writer, exported: &ExportedType) -> (r: Result<Option<u64>, IfcError>)
    requires
        old(w).wf(),
    ensures
        stepped(*old(w), *final(w), r),
        type_parts(exported.class) is None ==> r == Ok::<Option<u64>, IfcError>(None) && *final(w) == *old(w),
        r matches Ok(Some(n)) ==> type_parts(exported.class) is Some && names((*final(w)).lines(), n, type_text(*exported)),
        r matches Ok(o) ==> (o is None <==> type_parts(exported.class) is None),
{
    let g = guid(&exported.global_id);
    let n = text(exported.name.as_str());
    let predefined = match &exported.predefined_type {
        Some(p) => owned(p.as_str()),
        None => owned("NOTDEFINED"),
    };
    let common_parts = [g.as_str(), ",$,", n.as_str(), ",$,$,$,$,$,$"];
    let common = cat(&common_parts);
    assert(views(common_parts@) =~= seq![step_string(exported.global_id@), ",$,"@, step_string(exported.name@), ",$,$,$,$,$,$"@]);
    let (entity, tail): (&str, &str) = match exported.class {
        IfcClass::Wall => ("IFCWALLTYPE(", ".)"),
        IfcClass::Slab => ("IFCSLABTYPE(", ".)"),
        IfcClass::Roof => ("IFCROOFTYPE(", ".)"),
        IfcClass::Column => ("IFCCOLUMNTYPE(", ".)"),
        IfcClass::Beam => ("IFCBEAMTYPE(", ".)"),
        IfcClass::Stair => ("IFCSTAIRTYPE(", ".)"),
        IfcClass::Covering => ("IFCCOVERINGTYPE(", ".)"),
        IfcClass::Furniture => ("IFCFURNITURETYPE(", ".)"),
        IfcClass::BuildingElementProxy => ("IFCBUILDINGELEMENTPROXYTYPE(", ".)"),
        IfcClass::Door => ("IFCDOORTYPE(", ".,.NOTDEFINED.,.F.,$)"),
        IfcClass::Window => ("IFCWINDOWTYPE(", ".,.NOTDEFINED.,.F.,$)"),
        _ => {
            return Ok(None);
        },
    };
    assert(type_parts(exported.class) == Some((entity@, tail@)));
    let parts = [entity, common.as_str(), ",.", predefined.as_str(), tail];
    let body = cat(&parts);
    assert(views(parts@) =~= seq![entity@, common@, ",."@, predefined@, tail@]);
    assert(body@ == type_text(*exported));
    match w.emit(body) {
        Ok(n) => Ok(Some(n)),
        Err(e) => Err(e),
    }
}

/// References, comma-joined.
pub open spec fn refs_text(s: Seq<u64>) -> Seq<char>
    decreases s.len(),
{
    if s.len() == 0 {
        Seq::empty()
    } else if s.len() == 1 {
        reference(s[0] as nat)
    } else {
        refs_text(s.drop_last()) + ","@ + reference(s.last() as nat)
    }
}

/// References, comma-joined.
fn joined_refs(refs: &Vec<u64>) -> (r: String)
    ensures
        r@ == refs_text(refs@),
{
    let mut out = String::new();
    let mut i: usize = 0;
    while i < refs.len()
        invariant
            i <= refs.len(),
            out@ == refs_text(refs@.take(i as int)),
        decreases refs.len() - i,
    {
        if i > 0 {
            push_str(&mut out, ",");
        }
        let t = ref_text(refs[i]);
        push_str(&mut out, t.as_str());
        proof {
            assert(refs@.take(i + 1).drop_last() =~= refs@.take(i as int));
            if i == 0 {
                assert(refs@.take(1) =~= seq![refs@[0]]);
            }
        }
        i += 1;
    }
    assert(refs@.take(refs.len() as int) =~= refs@);
    out
}

/// The body of the unit assignment of four units.
pub open spec fn units_text(length: u64, area: u64, volume: u64, angle: u64) -> Seq<char> {
    concat(
        seq![
            "IFCUNITASSIGNMENT(("@,
            reference(length as nat),
            ","@,
            reference(area as nat),
            ","@,
            reference(volume as nat),
            ","@,
            reference(angle as nat),
            "))"@,
        ],
    )
}

/// The body of the model's representation context, placed at `world`.
pub open spec fn context_text(world: u64) -> Seq<char> {
    concat(seq!["IFCGEOMETRICREPRESENTATIONCONTEXT($,'Model',3,1.E-05,"@, reference(world as nat), ",$)"@])
}

/// Entity `units` assigns metres, square and cubic metres and radians, and entity `context`
/// is the model's representation context at the world origin.
pub open spec fn units_named(w: Seq<Seq<char>>, context: u64, units: u64) -> bool {
    exists|l: u64, a: u64, v: u64, g: u64, world: u64|
        #![trigger units_text(l, a, v, g), context_text(world)]
        names(w, l, "IFCSIUNIT(*,.LENGTHUNIT.,$,.METRE.)"@) && names(w, a, "IFCSIUNIT(*,.AREAUNIT.,$,.SQUARE_METRE.)"@)
            && names(w, v, "IFCSIUNIT(*,.VOLUMEUNIT.,$,.CUBIC_METRE.)"@) && names(
            w,
            g,
            "IFCSIUNIT(*,.PLANEANGLEUNIT.,$,.RADIAN.)"@,
        ) && names(w, units, units_text(l, a, v, g)) && axis_named(w, world, identity_placement()) && names(
            w,
            context,
            context_text(world),
        )
}

/// The units every file declares, and its geometric representation context: the context's
/// number and the unit assignment's.
fn units_and_context(w: &mut Writer) -> (r: Result<(u64, u64), IfcError>)
    requires
        old(w).wf(),
    ensures
        stepped(*old(w), *final(w), r),
        r matches Ok((c, u)) ==> units_named((*final(w)).lines(), c, u),
{
    let length = match w.emit(owned("IFCSIUNIT(*,.LENGTHUNIT.,$,.METRE.)")) {
        Ok(n) => n,
        Err(e) => {
            return Err(e);
        },
    };
    let ghost w1 = *w;
    let area = match w.emit(owned("IFCSIUNIT(*,.AREAUNIT.,$,.SQUARE_METRE.)")) {
        Ok(n) => n,
        Err(e) => {
            return Err(e);
        },
    };
    let ghost w2 = *w;
    let volume = match w.emit(owned("IFCSIUNIT(*,.VOLUMEUNIT.,$,.CUBIC_METRE.)")) {
        Ok(n) => n,
        Err(e) => {
            return Err(e);
        },
    };
    let ghost w3 = *w;
    let angle = match w.emit(owned("IFCSIUNIT(*,.PLANEANGLEUNIT.,$,.RADIAN.)")) {
        Ok(n) => n,
        Err(e) => {
            return Err(e);
        },
    };
    let ghost w4 = *w;
    let (l, a, v, g) = (ref_text(length), ref_text(area), ref_text(volume), ref_text(angle));
    let parts = ["IFCUNITASSIGNMENT((", l.as_str(), ",", a.as_str(), ",", v.as_str(), ",", g.as_str(), "))"];
    let body = cat(&parts);
    assert(views(parts@) =~= seq![
        "IFCUNITASSIGNMENT(("@,
        reference(length as nat),
        ","@,
        reference(area as nat),
        ","@,
        reference(volume as nat),
        ","@,
        reference(angle as nat),
        "))"@,
    ]);
    let units = match w.emit(body) {
        Ok(n) => n,
        Err(e) => {
            return Err(e);
        },
    };
    let ghost w5 = *w;
    let world = match axis_placement(w, Placement::identity()) {
        Ok(n) => n,
        Err(e) => {
            return Err(e);
        },
    };
    let ghost w6 = *w;
    let wt = ref_text(world);
    let cparts = ["IFCGEOMETRICREPRESENTATIONCONTEXT($,'Model',3,1.E-05,", wt.as_str(), ",$)"];
    let cbody = cat(&cparts);
    assert(views(cparts@) =~= seq!["IFCGEOMETRICREPRESENTATIONCONTEXT($,'Model',3,1.E-05,"@, reference(world as nat), ",$)"@]);
    let context = match w.emit(cbody) {
        Ok(n) => n,
        Err(e) => {
            return Err(e);
        },
    };
    proof {
        let lt = "IFCSIUNIT(*,.LENGTHUNIT.,$,.METRE.)"@;
        let at = "IFCSIUNIT(*,.AREAUNIT.,$,.SQUARE_METRE.)"@;
        let vt = "IFCSIUNIT(*,.VOLUMEUNIT.,$,.CUBIC_METRE.)"@;
        let gt = "IFCSIUNIT(*,.PLANEANGLEUNIT.,$,.RADIAN.)"@;
        assert(names(w1.lines(), length, lt));
        lemma_names_kept(w1, w2, length, lt);
        lemma_names_kept(w2, w3, length, lt);
        lemma_names_kept(w3, w4, length, lt);
        lemma_names_kept(w4, w5, length, lt);
        lemma_names_kept(w5, w6, length, lt);
        lemma_names_kept(w6, *w, length, lt);
        assert(names(w2.lines(), area, at));
        lemma_names_kept(w2, w3, area, at);
        lemma_names_kept(w3, w4, area, at);
        lemma_names_kept(w4, w5, area, at);
        lemma_names_kept(w5, w6, area, at);
        lemma_names_kept(w6, *w, area, at);
        assert(names(w3.lines(), volume, vt));
        lemma_names_kept(w3, w4, volume, vt);
        lemma_names_kept(w4, w5, volume, vt);
        lemma_names_kept(w5, w6, volume, vt);
        lemma_names_kept(w6, *w, volume, vt);
        assert(names(w4.lines(), angle, gt));
        lemma_names_kept(w4, w5, angle, gt);
        lemma_names_kept(w5, w6, angle, gt);
        lemma_names_kept(w6, *w, angle, gt);
        assert(names(w5.lines(), units, units_text(length, area, volume, angle)));
        lemma_names_kept(w5, w6, units, units_text(length, area, volume, angle));
        lemma_names_kept(w6, *w, units, units_text(length, area, volume, angle));
        lemma_axis_kept(w6, *w, world, identity_placement());
        assert(names((*w).lines(), context, context_text(world)));
        assert(units_named((*w).lines(), context, units));
    }
    Ok((context, units))
}

/// The name an element of the spatial structure is written with, or `fallback`.
fn name_or(record: Option<&ElementRecord>, fallback: &str) -> (r: String)
    ensures
        r@ == match record {
            Some(e) => match e.name {
                Some(n) => n@,
                None => fallback@,
            },
            None => fallback@,
        },
{
    match record {
        Some(e) => match &e.name {
            Some(n) => owned(n.as_str()),
            None => owned(fallback),
        },
        None => owned(fallback),
    }
}

/// The elements of a class, in the model's order.
pub open spec fn of_class(l: Seq<ElementView>, c: IfcClass) -> Seq<ElementView> {
    l.filter(|e: ElementView| same_class(e.class, c))
}

/// The name of the first of `l`, or `fallback` when there is none or it has no name.
pub open spec fn first_name(l: Seq<ElementView>, fallback: Seq<char>) -> Seq<char> {
    if l.len() > 0 && l[0].name is Some {
        l[0].name->0@
    } else {
        fallback
    }
}

/// The placement of the first of `l`, or the identity when there is none.
pub open spec fn first_placement(l: Seq<ElementView>) -> Placement {
    if l.len() > 0 {
        l[0].placement
    } else {
        identity_placement()
    }
}

/// The body of a site or a building: its entity, identity, name, placement, and closing
/// arguments.
pub open spec fn spatial_text(entity: Seq<char>, g: Seq<char>, name: Seq<char>, placement: u64, tail: Seq<char>) -> Seq<char> {
    concat(seq![entity, step_string(g), ",$,"@, step_string(name), ",$,$,"@, reference(placement as nat), tail])
}

/// Entity `n` is the site or building written for the elements `l` of its class, placed
/// relative to `parent`: the first of them, or one synthesised.
pub open spec fn spatial_named(
    w: Seq<Seq<char>>,
    n: u64,
    entity: Seq<char>,
    tail: Seq<char>,
    l: Seq<ElementView>,
    fallback: Seq<char>,
    placement: u64,
    parent: Option<u64>,
) -> bool {
    &&& exists|g: Seq<char>|
        #![trigger spatial_text(entity, g, first_name(l, fallback), placement, tail)]
        names(w, n, spatial_text(entity, g, first_name(l, fallback), placement, tail)) && (l.len() > 0 ==> g
            == l[0].global_id@)
    &&& local_named(w, placement, first_placement(l), parent)
}

/// The site and the building, from the first of each in the model, or synthesised: the
/// site's number, the building's, and the building's placement's.
fn site_and_building(w: &mut Writer, ctx: &ExportContext, model: &Model) -> (r: Result<(u64, u64, u64), IfcError>)
    requires
        old(w).wf(),
        old(w).context() == *ctx,
    ensures
        stepped(*old(w), *final(w), r),
        r matches Ok((site, building, building_placement)) ==> exists|site_placement: u64|
            #![trigger local_named((*final(w)).lines(), site_placement, first_placement(of_class(model.listing(), IfcClass::Site)), None)]
            spatial_named(
                (*final(w)).lines(),
                site,
                "IFCSITE("@,
                ",$,$,.ELEMENT.,$,$,$,$,$)"@,
                of_class(model.listing(), IfcClass::Site),
                ctx.site_name@,
                site_placement,
                None,
            ) && spatial_named(
                (*final(w)).lines(),
                building,
                "IFCBUILDING("@,
                ",$,$,.ELEMENT.,$,$,$)"@,
                of_class(model.listing(), IfcClass::Building),
                ctx.building_name@,
                building_placement,
                Some(site_placement),
            ) && local_named((*final(w)).lines(), site_placement, first_placement(of_class(model.listing(), IfcClass::Site)), None),
{
    let buildings = model.by_class(&IfcClass::Building);
    let sites = model.by_class(&IfcClass::Site);
    let ghost sl = of_class(model.listing(), IfcClass::Site);
    let ghost bl = of_class(model.listing(), IfcClass::Building);
    proof {
        assert(sites@.map_values(|e: &ElementRecord| e@).len() == sites@.len());
        assert(buildings@.map_values(|e: &ElementRecord| e@).len() == buildings@.len());
        if sites.len() > 0 {
            assert(sites@.map_values(|e: &ElementRecord| e@)[0] == sites@[0]@);
        }
        if buildings.len() > 0 {
            assert(buildings@.map_values(|e: &ElementRecord| e@)[0] == buildings@[0]@);
        }
    }
    let first_site: Option<&ElementRecord> = if sites.len() > 0 {
        Some(sites[0])
    } else {
        None
    };
    let site_at = match first_site {
        Some(e) => e.placement,
        None => Placement::identity(),
    };
    assert(site_at == first_placement(sl));
    let site_placement = match local_placement(w, site_at, None) {
        Ok(n) => n,
        Err(e) => {
            return Err(e);
        },
    };
    let ghost w1 = *w;
    let site_id = match first_site {
        Some(e) => e.global_id.clone(),
        None => match w.derive("site") {
            Ok(g) => g,
            Err(e) => {
                return Err(e);
            },
        },
    };
    let site_name = name_or(first_site, ctx.site_name.as_str());
    assert(site_name@ == first_name(sl, ctx.site_name@));
    let (sg, sn, sp) = (guid(&site_id), text(site_name.as_str()), ref_text(site_placement));
    let site_parts = ["IFCSITE(", sg.as_str(), ",$,", sn.as_str(), ",$,$,", sp.as_str(), ",$,$,.ELEMENT.,$,$,$,$,$)"];
    let site_body = cat(&site_parts);
    assert(views(site_parts@) =~= seq![
        "IFCSITE("@,
        step_string(site_id@),
        ",$,"@,
        step_string(site_name@),
        ",$,$,"@,
        reference(site_placement as nat),
        ",$,$,.ELEMENT.,$,$,$,$,$)"@,
    ]);
    let ghost w2 = *w;
    let site = match w.emit(site_body) {
        Ok(n) => n,
        Err(e) => {
            return Err(e);
        },
    };
    let ghost w3 = *w;
    assert(names(w3.lines(), site, spatial_text("IFCSITE("@, site_id@, first_name(sl, ctx.site_name@), site_placement, ",$,$,.ELEMENT.,$,$,$,$,$)"@)));

    let first_building: Option<&ElementRecord> = if buildings.len() > 0 {
        Some(buildings[0])
    } else {
        None
    };
    let building_at = match first_building {
        Some(e) => e.placement,
        None => Placement::identity(),
    };
    assert(building_at == first_placement(bl));
    let building_placement = match local_placement(w, building_at, Some(site_placement)) {
        Ok(n) => n,
        Err(e) => {
            return Err(e);
        },
    };
    let ghost w4 = *w;
    let building_id = match first_building {
        Some(e) => e.global_id.clone(),
        None => match w.derive("building") {
            Ok(g) => g,
            Err(e) => {
                return Err(e);
            },
        },
    };
    let building_name = name_or(first_building, ctx.building_name.as_str());
    assert(building_name@ == first_name(bl, ctx.building_name@));
    let (bg, bn, bp) = (guid(&building_id), text(building_name.as_str()), ref_text(building_placement));
    let building_parts = ["IFCBUILDING(", bg.as_str(), ",$,", bn.as_str(), ",$,$,", bp.as_str(), ",$,$,.ELEMENT.,$,$,$)"];
    let building_body = cat(&building_parts);
    assert(views(building_parts@) =~= seq![
        "IFCBUILDING("@,
        step_string(building_id@),
        ",$,"@,
        step_string(building_name@),
        ",$,$,"@,
        reference(building_placement as nat),
        ",$,$,.ELEMENT.,$,$,$)"@,
    ]);
    let ghost w5 = *w;
    let building = match w.emit(building_body) {
        Ok(n) => n,
        Err(e) => {
            return Err(e);
        },
    };
    proof {
        let st = spatial_text("IFCSITE("@, site_id@, first_name(sl, ctx.site_name@), site_placement, ",$,$,.ELEMENT.,$,$,$,$,$)"@);
        lemma_names_kept(w3, w4, site, st);
        lemma_names_kept(w4, w5, site, st);
        lemma_names_kept(w5, *w, site, st);
        lemma_local_kept(w1, w2, site_placement, first_placement(sl), None);
        lemma_local_kept(w2, w3, site_placement, first_placement(sl), None);
        lemma_local_kept(w3, w4, site_placement, first_placement(sl), None);
        lemma_local_kept(w4, w5, site_placement, first_placement(sl), None);
        lemma_local_kept(w5, *w, site_placement, first_placement(sl), None);
        lemma_local_kept(w4, w5, building_placement, first_placement(bl), Some(site_placement));
        lemma_local_kept(w5, *w, building_placement, first_placement(bl), Some(site_placement));
        let bt = spatial_text("IFCBUILDING("@, building_id@, first_name(bl, ctx.building_name@), building_placement, ",$,$,.ELEMENT.,$,$,$)"@);
        assert(names((*w).lines(), building, bt));
        assert(spatial_named((*w).lines(), site, "IFCSITE("@, ",$,$,.ELEMENT.,$,$,$,$,$)"@, sl, ctx.site_name@, site_placement, None));
        assert(spatial_named((*w).lines(), building, "IFCBUILDING("@, ",$,$,.ELEMENT.,$,$,$)"@, bl, ctx.building_name@, building_placement, Some(site_placement)));
    }
    Ok((site, building, building_placement))
}

/// The body of a storey: identity, name, placement and elevation.
pub open spec fn storey_text(g: Seq<char>, name: Seq<char>, placement: u64, elevation: Seq<char>) -> Seq<char> {
    concat(
        seq![
            "IFCBUILDINGSTOREY("@,
            step_string(g),
            ",$,"@,
            step_string(name),
            ",$,$,"@,
            reference(placement as nat),
            ",$,$,.ELEMENT.,"@,
            elevation,
            ")"@,
        ],
    )
}

/// The written storeys: one per storey of `l`, by identity, or a single synthesised one when
/// `l` has none.
pub open spec fn storeys_named(w: Seq<Seq<char>>, l: Seq<ElementView>, storeys: Map<Seq<char>, u64>) -> bool {
    &&& exists|k: Seq<char>| #[trigger] storeys.contains_key(k)
    &&& l.len() == 0 ==> storeys.dom().len() == 1
    &&& forall|i: int|
        #![trigger l[i]]
        0 <= i < l.len() ==> storeys.contains_key(l[i].global_id@) && exists|n: Seq<char>, p: u64, z: Seq<char>|
            #![trigger storey_text(l[i].global_id@, n, p, z)]
            names(w, storeys[l[i].global_id@], storey_text(l[i].global_id@, n, p, z))
}

proof fn lemma_storeys_kept<'a>(before: Writer<'a>, after: Writer<'a>, l: Seq<ElementView>, storeys: Map<Seq<char>, u64>)
    requires
        extends(before, after),
        storeys_named(before.lines(), l, storeys),
    ensures
        storeys_named(after.lines(), l, storeys),
{
    assert forall|i: int| #![trigger l[i]] 0 <= i < l.len() implies storeys.contains_key(l[i].global_id@) && exists|n: Seq<char>, p: u64, z: Seq<char>|
        #![trigger storey_text(l[i].global_id@, n, p, z)]
        names(after.lines(), storeys[l[i].global_id@], storey_text(l[i].global_id@, n, p, z)) by {
        let (n, p, z) = choose|n: Seq<char>, p: u64, z: Seq<char>| #![trigger storey_text(l[i].global_id@, n, p, z)] names(before.lines(), storeys[l[i].global_id@], storey_text(l[i].global_id@, n, p, z));
        lemma_names_kept(before, after, storeys[l[i].global_id@], storey_text(l[i].global_id@, n, p, z));
    }
}

/// Every storey of the model, or one synthesised when it has none, each placed in the
/// building: the storeys' numbers and their placements' numbers, by storey identity.
fn storeys(w: &mut Writer, model: &Model, building_placement: u64) -> (r: Result<(TextMap<u64>, TextMap<u64>), IfcError>)
    requires
        old(w).wf(),
    ensures
        stepped(*old(w), *final(w), r),
        r matches Ok(s) ==> exists|k: Seq<char>| s.0@.contains_key(k),
        r matches Ok(s) ==> storeys_named((*final(w)).lines(), of_class(model.listing(), IfcClass::BuildingStorey), s.0@),
{
    let storeys = model.by_class(&IfcClass::BuildingStorey);
    let ghost sl = of_class(model.listing(), IfcClass::BuildingStorey);
    proof {
        assert(storeys@.map_values(|e: &ElementRecord| e@).len() == storeys@.len());
    }
    let mut storey_refs: TextMap<u64> = TextMap::new();
    let mut storey_placements: TextMap<u64> = TextMap::new();
    let ghost mut some_key: Seq<char> = Seq::empty();
    if storeys.len() == 0 {
        let placement = match local_placement(w, Placement::identity(), Some(building_placement)) {
            Ok(n) => n,
            Err(e) => {
                return Err(e);
            },
        };
        let id = match w.derive("storey") {
            Ok(g) => g,
            Err(e) => {
                return Err(e);
            },
        };
        let (g, p) = (guid(&id), ref_text(placement));
        let storey = match w.emit(
            cat(&["IFCBUILDINGSTOREY(", g.as_str(), ",$,'Level 00',$,$,", p.as_str(), ",$,$,.ELEMENT.,0.)"]),
        ) {
            Ok(n) => n,
            Err(e) => {
                return Err(e);
            },
        };
        storey_refs.insert(owned(id.as_str()), storey);
        storey_placements.insert(owned(id.as_str()), placement);
        proof {
            some_key = id@;
            assert(storey_refs@.dom() =~= set![id@]);
            assert(storey_refs@.dom().len() == 1);
        }
    } else {
        let mut i: usize = 0;
        while i < storeys.len()
            invariant
                i <= storeys.len(),
                storeys.len() > 0,
                storeys@.map_values(|e: &ElementRecord| e@) == sl,
                extends(*old(w), *w),
                i > 0 ==> storey_refs@.contains_key(some_key),
                forall|j: int|
                    #![trigger sl[j]]
                    0 <= j < i ==> storey_refs@.contains_key(sl[j].global_id@) && exists|n: Seq<char>, p: u64, z: Seq<char>|
                        #![trigger storey_text(sl[j].global_id@, n, p, z)]
                        names((*w).lines(), storey_refs@[sl[j].global_id@], storey_text(sl[j].global_id@, n, p, z)),
            decreases storeys.len() - i,
        {
            let s = storeys[i];
            assert(sl[i as int] == s@);
            let ghost before = *w;
            let ghost refs_before = storey_refs@;
            let placement = match local_placement(w, s.placement, Some(building_placement)) {
                Ok(n) => n,
                Err(e) => {
                    return Err(e);
                },
            };
            let name = name_or(Some(s), "Level");
            let (g, n, p, z) = (guid(&s.global_id), text(name.as_str()), ref_text(placement), step_real(s.placement.location[2]));
            let parts = [
                "IFCBUILDINGSTOREY(",
                g.as_str(),
                ",$,",
                n.as_str(),
                ",$,$,",
                p.as_str(),
                ",$,$,.ELEMENT.,",
                z.as_str(),
                ")",
            ];
            let body = cat(&parts);
            assert(views(parts@) =~= seq![
                "IFCBUILDINGSTOREY("@,
                step_string(s.global_id@),
                ",$,"@,
                step_string(name@),
                ",$,$,"@,
                reference(placement as nat),
                ",$,$,.ELEMENT.,"@,
                z@,
                ")"@,
            ]);
            let storey = match w.emit(body) {
                Ok(n) => n,
                Err(e) => {
                    return Err(e);
                },
            };
            storey_refs.insert(owned(s.global_id.as_str()), storey);
            storey_placements.insert(owned(s.global_id.as_str()), placement);
            proof {
                some_key = s.global_id@;
                assert(names((*w).lines(), storey, storey_text(s.global_id@, name@, placement, z@)));
                assert forall|j: int|
                    #![trigger sl[j]]
                    0 <= j < i + 1 implies storey_refs@.contains_key(sl[j].global_id@) && exists|n: Seq<char>, p: u64, z: Seq<char>|
                        #![trigger storey_text(sl[j].global_id@, n, p, z)]
                        names((*w).lines(), storey_refs@[sl[j].global_id@], storey_text(sl[j].global_id@, n, p, z)) by {
                    if j < i && sl[j].global_id@ != s.global_id@ {
                        let (n0, p0, z0) = choose|n: Seq<char>, p: u64, z: Seq<char>| #![trigger storey_text(sl[j].global_id@, n, p, z)] names(before.lines(), refs_before[sl[j].global_id@], storey_text(sl[j].global_id@, n, p, z));
                        lemma_names_kept(before, *w, refs_before[sl[j].global_id@], storey_text(sl[j].global_id@, n0, p0, z0));
                    } else {
                        assert(storey_refs@[sl[j].global_id@] == storey);
                        assert(names((*w).lines(), storey, storey_text(sl[j].global_id@, name@, placement, z@)));
                    }
                }
            }
            i += 1;
        }
    }
    let out: Result<(TextMap<u64>, TextMap<u64>), IfcError> = Ok((storey_refs, storey_placements));
    assert(out->Ok_0.0@.contains_key(some_key));
    out
}

/// The body of the project: identity, name, its representation context and its units.
pub open spec fn project_text(g: Seq<char>, name: Seq<char>, context: u64, units: u64) -> Seq<char> {
    concat(
        seq![
            "IFCPROJECT("@,
            step_string(g),
            ",$,"@,
            step_string(name),
            ",$,$,$,$,("@,
            reference(context as nat),
            "),"@,
            reference(units as nat),
            ")"@,
        ],
    )
}

/// The tail of an aggregation of `parts` under `whole`.
pub open spec fn aggregate_tail(whole: u64, parts: Seq<char>) -> Seq<char> {
    concat(seq![reference(whole as nat), ",("@, parts, ")"@])
}

/// The storeys' numbers, in the order of their identities.
pub open spec fn storey_numbers(items: Seq<(String, u64)>) -> Seq<u64> {
    items.map_values(|e: (String, u64)| e.1)
}

/// The spatial structure of a file for `ctx`: one project over the context and units, the
/// site and the building written for the model's first ones, the storeys, and the three
/// aggregations project to site, site to building, and building to the storeys `numbers`.
pub open spec fn frame_written(
    w: Seq<Seq<char>>,
    ctx: ExportContext,
    l: Seq<ElementView>,
    context: u64,
    units: u64,
    storeys: Map<Seq<char>, u64>,
    numbers: Seq<u64>,
) -> bool {
    &&& storeys_named(w, of_class(l, IfcClass::BuildingStorey), storeys)
    &&& exists|pj: u64, g: Seq<char>, site: u64, building: u64, sp: u64, bp: u64|
        #![trigger project_text(g, ctx.project_name@, context, units), aggregate_tail(pj, reference(site as nat)), spatial_named(w, building, "IFCBUILDING("@, ",$,$,.ELEMENT.,$,$,$)"@, of_class(l, IfcClass::Building), ctx.building_name@, bp, Some(sp))]
        names(w, pj, project_text(g, ctx.project_name@, context, units)) && spatial_named(
            w,
            site,
            "IFCSITE("@,
            ",$,$,.ELEMENT.,$,$,$,$,$)"@,
            of_class(l, IfcClass::Site),
            ctx.site_name@,
            sp,
            None,
        ) && spatial_named(
            w,
            building,
            "IFCBUILDING("@,
            ",$,$,.ELEMENT.,$,$,$)"@,
            of_class(l, IfcClass::Building),
            ctx.building_name@,
            bp,
            Some(sp),
        ) && related(w, "IFCRELAGGREGATES"@, aggregate_tail(pj, reference(site as nat))) && related(
            w,
            "IFCRELAGGREGATES"@,
            aggregate_tail(site, reference(building as nat)),
        ) && related(w, "IFCRELAGGREGATES"@, aggregate_tail(building, refs_text(numbers)))
}

proof fn lemma_spatial_kept<'a>(
    before: Writer<'a>,
    after: Writer<'a>,
    n: u64,
    entity: Seq<char>,
    tail: Seq<char>,
    l: Seq<ElementView>,
    fallback: Seq<char>,
    placement: u64,
    parent: Option<u64>,
)
    requires
        extends(before, after),
        spatial_named(before.lines(), n, entity, tail, l, fallback, placement, parent),
    ensures
        spatial_named(after.lines(), n, entity, tail, l, fallback, placement, parent),
{
    let g = choose|g: Seq<char>|
        #![trigger spatial_text(entity, g, first_name(l, fallback), placement, tail)]
        names(before.lines(), n, spatial_text(entity, g, first_name(l, fallback), placement, tail)) && (l.len() > 0 ==> g
            == l[0].global_id@);
    lemma_names_kept(before, after, n, spatial_text(entity, g, first_name(l, fallback), placement, tail));
    lemma_local_kept(before, after, placement, first_placement(l), parent);
}

proof fn lemma_frame_kept<'a>(
    before: Writer<'a>,
    after: Writer<'a>,
    ctx: ExportContext,
    l: Seq<ElementView>,
    context: u64,
    units: u64,
    storeys: Map<Seq<char>, u64>,
    numbers: Seq<u64>,
)
    requires
        extends(before, after),
        frame_written(before.lines(), ctx, l, context, units, storeys, numbers),
    ensures
        frame_written(after.lines(), ctx, l, context, units, storeys, numbers),
{
    lemma_storeys_kept(before, after, of_class(l, IfcClass::BuildingStorey), storeys);
    let (pj, g, site, building, sp, bp) = choose|pj: u64, g: Seq<char>, site: u64, building: u64, sp: u64, bp: u64|
        #![trigger project_text(g, ctx.project_name@, context, units), aggregate_tail(pj, reference(site as nat)), spatial_named(before.lines(), building, "IFCBUILDING("@, ",$,$,.ELEMENT.,$,$,$)"@, of_class(l, IfcClass::Building), ctx.building_name@, bp, Some(sp))]
        names(before.lines(), pj, project_text(g, ctx.project_name@, context, units)) && spatial_named(
            before.lines(),
            site,
            "IFCSITE("@,
            ",$,$,.ELEMENT.,$,$,$,$,$)"@,
            of_class(l, IfcClass::Site),
            ctx.site_name@,
            sp,
            None,
        ) && spatial_named(
            before.lines(),
            building,
            "IFCBUILDING("@,
            ",$,$,.ELEMENT.,$,$,$)"@,
            of_class(l, IfcClass::Building),
            ctx.building_name@,
            bp,
            Some(sp),
        ) && related(before.lines(), "IFCRELAGGREGATES"@, aggregate_tail(pj, reference(site as nat))) && related(
            before.lines(),
            "IFCRELAGGREGATES"@,
            aggregate_tail(site, reference(building as nat)),
        ) && related(before.lines(), "IFCRELAGGREGATES"@, aggregate_tail(building, refs_text(numbers)));
    lemma_names_kept(before, after, pj, project_text(g, ctx.project_name@, context, units));
    lemma_spatial_kept(before, after, site, "IFCSITE("@, ",$,$,.ELEMENT.,$,$,$,$,$)"@, of_class(l, IfcClass::Site), ctx.site_name@, sp, None);
    lemma_spatial_kept(before, after, building, "IFCBUILDING("@, ",$,$,.ELEMENT.,$,$,$)"@, of_class(l, IfcClass::Building), ctx.building_name@, bp, Some(sp));
    lemma_related_kept(before, after, "IFCRELAGGREGATES"@, aggregate_tail(pj, reference(site as nat)));
    lemma_related_kept(before, after, "IFCRELAGGREGATES"@, aggregate_tail(site, reference(building as nat)));
    lemma_related_kept(before, after, "IFCRELAGGREGATES"@, aggregate_tail(building, refs_text(numbers)));
}

proof fn lemma_extends_trans<'a>(a: Writer<'a>, b: Writer<'a>, c: Writer<'a>)
    requires
        extends(a, b),
        extends(b, c),
    ensures
        extends(a, c),
{
    assert forall|i: int| 0 <= i < a.lines().len() implies #[trigger] c.lines()[i] == a.lines()[i] by {
        assert(c.lines()[i] == b.lines()[i]);
    }
}

/// The pieces of the spatial structure, each written at some point of the export, make up the
/// frame of the finished file.
proof fn lemma_frame_assembled<'a>(
    w1: Writer<'a>,
    w2: Writer<'a>,
    w4: Writer<'a>,
    w5: Writer<'a>,
    w6: Writer<'a>,
    w: Writer<'a>,
    ctx: ExportContext,
    l: Seq<ElementView>,
    context: u64,
    units: u64,
    storeys: Map<Seq<char>, u64>,
    numbers: Seq<u64>,
    project: u64,
    g: Seq<char>,
    site: u64,
    building: u64,
    sp: u64,
    bp: u64,
)
    requires
        extends(w1, w),
        extends(w2, w),
        extends(w4, w),
        extends(w5, w),
        extends(w6, w),
        spatial_named(w1.lines(), site, "IFCSITE("@, ",$,$,.ELEMENT.,$,$,$,$,$)"@, of_class(l, IfcClass::Site), ctx.site_name@, sp, None),
        spatial_named(w1.lines(), building, "IFCBUILDING("@, ",$,$,.ELEMENT.,$,$,$)"@, of_class(l, IfcClass::Building), ctx.building_name@, bp, Some(sp)),
        storeys_named(w2.lines(), of_class(l, IfcClass::BuildingStorey), storeys),
        names(w4.lines(), project, project_text(g, ctx.project_name@, context, units)),
        related(w5.lines(), "IFCRELAGGREGATES"@, aggregate_tail(project, reference(site as nat))),
        related(w6.lines(), "IFCRELAGGREGATES"@, aggregate_tail(site, reference(building as nat))),
        related(w.lines(), "IFCRELAGGREGATES"@, aggregate_tail(building, refs_text(numbers))),
    ensures
        frame_written(w.lines(), ctx, l, context, units, storeys, numbers),
{
    lemma_spatial_kept(w1, w, site, "IFCSITE("@, ",$,$,.ELEMENT.,$,$,$,$,$)"@, of_class(l, IfcClass::Site), ctx.site_name@, sp, None);
    lemma_spatial_kept(w1, w, building, "IFCBUILDING("@, ",$,$,.ELEMENT.,$,$,$)"@, of_class(l, IfcClass::Building), ctx.building_name@, bp, Some(sp));
    lemma_storeys_kept(w2, w, of_class(l, IfcClass::BuildingStorey), storeys);
    lemma_names_kept(w4, w, project, project_text(g, ctx.project_name@, context, units));
    lemma_related_kept(w5, w, "IFCRELAGGREGATES"@, aggregate_tail(project, reference(site as nat)));
    lemma_related_kept(w6, w, "IFCRELAGGREGATES"@, aggregate_tail(site, reference(building as nat)));
}

/// The spatial structure: site, building and storeys, synthesising whichever the model lacks,
/// since a model authored from scratch has walls long before it has a site; then the project
/// and the aggregation between them. Returns the storeys' numbers and their placements'
/// numbers, by storey identity; there is always a storey.
#[verifier::spinoff_prover]
#[verifier::rlimit(100)]
fn structure(w: &mut Writer, ctx: &ExportContext, model: &Model, context: u64, units: u64) -> (r: Result<
    (TextMap<u64>, TextMap<u64>),
    IfcError,
>)
    requires
        old(w).wf(),
        old(w).context() == *ctx,
    ensures
        stepped(*old(w), *final(w), r),
        r matches Ok(s) ==> exists|k: Seq<char>| s.0@.contains_key(k),
        r matches Ok(s) ==> frame_written((*final(w)).lines(), *ctx, model.listing(), context, units, s.0@, storey_numbers(s.0.items())),
{
    let ghost l = model.listing();
    let (site, building, building_placement) = match site_and_building(w, ctx, model) {
        Ok(t) => t,
        Err(e) => {
            return Err(e);
        },
    };
    let ghost w1 = *w;
    let ghost sp = choose|site_placement: u64|
        #![trigger local_named(w1.lines(), site_placement, first_placement(of_class(l, IfcClass::Site)), None)]
        spatial_named(
            w1.lines(),
            site,
            "IFCSITE("@,
            ",$,$,.ELEMENT.,$,$,$,$,$)"@,
            of_class(l, IfcClass::Site),
            ctx.site_name@,
            site_placement,
            None,
        ) && spatial_named(
            w1.lines(),
            building,
            "IFCBUILDING("@,
            ",$,$,.ELEMENT.,$,$,$)"@,
            of_class(l, IfcClass::Building),
            ctx.building_name@,
            building_placement,
            Some(site_placement),
        ) && local_named(w1.lines(), site_placement, first_placement(of_class(l, IfcClass::Site)), None);
    let (storey_refs, storey_placements) = match storeys(w, model, building_placement) {
        Ok(t) => t,
        Err(e) => {
            return Err(e);
        },
    };
    let ghost w2 = *w;
    let project_id = match w.derive("project") {
        Ok(g) => g,
        Err(e) => {
            return Err(e);
        },
    };
    let (pg, pn, c, u) = (guid(&project_id), text(ctx.project_name.as_str()), ref_text(context), ref_text(units));
    let pparts = ["IFCPROJECT(", pg.as_str(), ",$,", pn.as_str(), ",$,$,$,$,(", c.as_str(), "),", u.as_str(), ")"];
    let pbody = cat(&pparts);
    assert(views(pparts@) =~= seq![
        "IFCPROJECT("@,
        step_string(project_id@),
        ",$,"@,
        step_string(ctx.project_name@),
        ",$,$,$,$,("@,
        reference(context as nat),
        "),"@,
        reference(units as nat),
        ")"@,
    ]);
    let ghost w3 = *w;
    let project = match w.emit(pbody) {
        Ok(n) => n,
        Err(e) => {
            return Err(e);
        },
    };
    let ghost w4 = *w;
    let (pr, si, bu) = (ref_text(project), ref_text(site), ref_text(building));
    let t1parts = [pr.as_str(), ",(", si.as_str(), ")"];
    let t1 = cat(&t1parts);
    assert(views(t1parts@) =~= seq![reference(project as nat), ",("@, reference(site as nat), ")"@]);
    match relationship(w, "IFCRELAGGREGATES", &t1) {
        Ok(_) => {},
        Err(e) => {
            return Err(e);
        },
    }
    let ghost w5 = *w;
    let t2parts = [si.as_str(), ",(", bu.as_str(), ")"];
    let t2 = cat(&t2parts);
    assert(views(t2parts@) =~= seq![reference(site as nat), ",("@, reference(building as nat), ")"@]);
    match relationship(w, "IFCRELAGGREGATES", &t2) {
        Ok(_) => {},
        Err(e) => {
            return Err(e);
        },
    }
    let ghost w6 = *w;
    let all = storey_refs.as_slice();
    let mut numbers: Vec<u64> = Vec::new();
    let mut k: usize = 0;
    while k < all.len()
        invariant
            k <= all.len(),
            numbers@ == storey_numbers(all@.take(k as int)),
        decreases all.len() - k,
    {
        numbers.push(all[k].1);
        proof {
            assert(storey_numbers(all@.take(k + 1)) =~= storey_numbers(all@.take(k as int)).push(all@[k as int].1));
        }
        k += 1;
    }
    assert(all@.take(all.len() as int) =~= all@);
    let listed = joined_refs(&numbers);
    let t3parts = [bu.as_str(), ",(", listed.as_str(), ")"];
    let t3 = cat(&t3parts);
    assert(views(t3parts@) =~= seq![reference(building as nat), ",("@, refs_text(numbers@), ")"@]);
    match relationship(w, "IFCRELAGGREGATES", &t3) {
        Ok(_) => {},
        Err(e) => {
            return Err(e);
        },
    }
    proof {
        let w7 = *w;
        assert(related(w7.lines(), "IFCRELAGGREGATES"@, aggregate_tail(building, refs_text(storey_numbers(storey_refs.items())))));
        lemma_extends_trans(w6, w6, w7);
        lemma_extends_trans(w5, w6, w7);
        lemma_extends_trans(w4, w5, w7);
        lemma_extends_trans(w3, w4, w7);
        lemma_extends_trans(w2, w3, w7);
        lemma_extends_trans(w1, w2, w7);
        lemma_frame_assembled(
            w1, w2, w4, w5, w6, w7, *ctx, l, context, units, storey_refs@, storey_numbers(storey_refs.items()),
            project, project_id@, site, building, sp, building_placement,
        );
    }
    Ok((storey_refs, storey_placements))
}

/// Entity `n` is the product `e`: its own local placement, and the product shape of its
/// representation in `context`, or `$` when it has none.
pub open spec fn product_written(w: Seq<Seq<char>>, n: u64, e: ElementView, context: u64) -> bool {
    exists|p: u64, sh: Seq<char>, parent: Option<u64>|
        #![trigger product_text(e, p as nat, sh), local_named(w, p, e.placement, parent)]
        names(w, n, product_text(e, p as nat, sh)) && local_named(w, p, e.placement, parent) && (e.representation is None
            ==> sh == "$"@) && (e.representation matches Some(rep) ==> exists|s: u64|
            #![trigger shape_named(w, s, rep, context)]
            sh == reference(s as nat) && shape_named(w, s, rep, context))
}

proof fn lemma_shape_kept<'a>(before: Writer<'a>, after: Writer<'a>, n: u64, rep: crate::representation::RepresentationModel, context: u64)
    requires
        extends(before, after),
        shape_named(before.lines(), n, rep, context),
    ensures
        shape_named(after.lines(), n, rep, context),
{
    let (sr, item) = choose|sr: u64, item: u64|
        #![trigger shape_rep_text(context, representation_kind(rep), item), names(before.lines(), n, product_shape_text(sr))]
        names(before.lines(), n, product_shape_text(sr)) && names(before.lines(), sr, shape_rep_text(context, representation_kind(rep), item))
            && item_written(before.lines(), item, rep);
    lemma_names_kept(before, after, n, product_shape_text(sr));
    lemma_names_kept(before, after, sr, shape_rep_text(context, representation_kind(rep), item));
    lemma_item_kept(before, after, item, rep);
}

proof fn lemma_product_written_kept<'a>(before: Writer<'a>, after: Writer<'a>, n: u64, e: ElementView, context: u64)
    requires
        extends(before, after),
        product_written(before.lines(), n, e, context),
    ensures
        product_written(after.lines(), n, e, context),
{
    let (p, sh, parent) = choose|p: u64, sh: Seq<char>, parent: Option<u64>|
        #![trigger product_text(e, p as nat, sh), local_named(before.lines(), p, e.placement, parent)]
        names(before.lines(), n, product_text(e, p as nat, sh)) && local_named(before.lines(), p, e.placement, parent) && (e.representation is None
            ==> sh == "$"@) && (e.representation matches Some(rep) ==> exists|s: u64|
            #![trigger shape_named(before.lines(), s, rep, context)]
            sh == reference(s as nat) && shape_named(before.lines(), s, rep, context));
    lemma_names_kept(before, after, n, product_text(e, p as nat, sh));
    lemma_local_kept(before, after, p, e.placement, parent);
    if let Some(rep) = e.representation {
        let s = choose|s: u64| #![trigger shape_named(before.lines(), s, rep, context)] sh == reference(s as nat) && shape_named(before.lines(), s, rep, context);
        lemma_shape_kept(before, after, s, rep, context);
    }
}

/// Every element of `l` outside the spatial structure is written, as the entity `refs` gives
/// for its identity, with its own placement and shape.
pub open spec fn products_ref(w: Seq<Seq<char>>, l: Seq<ElementView>, refs: Map<Seq<char>, u64>, context: u64) -> bool {
    forall|i: int|
        #![trigger l[i]]
        0 <= i < l.len() && !spatial(l[i].class) ==> refs.contains_key(l[i].global_id@) && product_written(
            w,
            refs[l[i].global_id@],
            l[i],
            context,
        )
}

proof fn lemma_products_ref_kept<'a>(before: Writer<'a>, after: Writer<'a>, l: Seq<ElementView>, refs: Map<Seq<char>, u64>, context: u64)
    requires
        extends(before, after),
        products_ref(before.lines(), l, refs, context),
    ensures
        products_ref(after.lines(), l, refs, context),
{
    assert forall|i: int| #![trigger l[i]] 0 <= i < l.len() && !spatial(l[i].class) implies refs.contains_key(l[i].global_id@)
        && product_written(after.lines(), refs[l[i].global_id@], l[i], context) by {
        lemma_product_written_kept(before, after, refs[l[i].global_id@], l[i], context);
    }
}

/// No opening of `l` is in any containment list: openings reach the spatial structure
/// through their host.
pub open spec fn openings_left_out(l: Seq<ElementView>, refs: Map<Seq<char>, u64>, contained: Map<Seq<char>, Vec<u64>>) -> bool {
    forall|i: int, k: Seq<char>|
        #![trigger l[i], contained[k]]
        0 <= i < l.len() && !spatial(l[i].class) && opening(l[i].class) && contained.contains_key(k) ==> !contained[k]@.contains(
            refs[l[i].global_id@],
        )
}

/// An opening: it reaches the spatial structure through its host.
pub open spec fn opening(c: IfcClass) -> bool {
    c is OpeningElement
}

/// Every product of `l` outside the spatial structure that is not an opening is in the list
/// `contained` keeps for some written storey.
pub open spec fn all_contained(l: Seq<ElementView>, refs: Map<Seq<char>, u64>, storeys: Map<Seq<char>, u64>, contained: Map<Seq<char>, Vec<u64>>) -> bool {
    forall|i: int|
        #![trigger l[i]]
        0 <= i < l.len() && !spatial(l[i].class) && !opening(l[i].class) ==> exists|k: Seq<char>|
            #![trigger contained[k]]
            storeys.contains_key(k) && contained.contains_key(k) && contained[k]@.contains(refs[l[i].global_id@])
}

/// One product: its local placement relative to `parent`, its shape, and the product itself.
#[verifier::spinoff_prover]
#[verifier::rlimit(100)]
fn write_product(w: &mut Writer, element: &ElementRecord, context: u64, parent: Option<u64>) -> (r: Result<u64, IfcError>)
    requires
        old(w).wf(),
    ensures
        extends(*old(w), *final(w)),
        r matches Ok(n) ==> product_written(final(w).lines(), n, element@, context) && old(w).lines().len() < n
            && product_listed(final(w).lines(), element@) && (element@.representation is Some ==> valid_model(
            element@.representation->0,
        )),
        r matches Err(e) ==> (e is Malformed && element@.representation is Some && !valid_model(element@.representation->0))
            || (e is Backend && exhausted(*final(w))),
{
    let placement = match local_placement(w, element.placement, parent) {
        Ok(n) => n,
        Err(e) => {
            return Err(e);
        },
    };
    let ghost w_placed = *w;
    let ghost mut shape_ref: u64 = 0;
    let shape_text = match &element.representation {
        Some(representation) => match shape(w, representation, context) {
            Ok(n) => {
                proof {
                    shape_ref = n;
                    assert(element@.representation == Some(representation@));
                    assert(shape_named(w.lines(), n, element@.representation->0, context));
                }
                ref_text(n)
            },
            Err(e) => {
                return Err(e);
            },
        },
        None => owned("$"),
    };
    let ghost w_shaped = *w;
    let entity = product(element, placement, shape_text.as_str());
    let id = match w.emit(entity) {
        Ok(n) => n,
        Err(e) => {
            return Err(e);
        },
    };
    proof {
        assert(w.lines()[id - 1] == entity_line(id as nat, product_text(element@, placement as nat, shape_text@)));
        assert(product_listed(w.lines(), element@));
        lemma_extends_trans(w_placed, w_shaped, *w);
        lemma_local_kept(w_placed, *w, placement, element.placement, parent);
        if let Some(rep) = element@.representation {
            lemma_shape_kept(w_shaped, *w, shape_ref, rep, context);
            assert(shape_text@ == reference(shape_ref as nat));
            assert(shape_named(w.lines(), shape_ref, rep, context));
        } else {
            assert(shape_text@ == "$"@);
        }
        assert(names(w.lines(), id, product_text(element@, placement as nat, shape_text@)));
        assert(local_named(w.lines(), placement, element@.placement, parent));
        assert(product_written(w.lines(), id, element@, context));
    }
    Ok(id)
}

/// A product's number names a line of the file.
proof fn lemma_written_in_range(w: Seq<Seq<char>>, n: u64, e: ElementView, context: u64)
    requires
        product_written(w, n, e, context),
    ensures
        1 <= n <= w.len(),
{
    let (p, sh, pa) = choose|p: u64, sh: Seq<char>, parent: Option<u64>|
        #![trigger product_text(e, p as nat, sh), local_named(w, p, e.placement, parent)]
        names(w, n, product_text(e, p as nat, sh)) && local_named(w, p, e.placement, parent) && (e.representation is None
            ==> sh == "$"@) && (e.representation matches Some(rep) ==> exists|s: u64|
            #![trigger shape_named(w, s, rep, context)]
            sh == reference(s as nat) && shape_named(w, s, rep, context));
}

/// What the products written so far have in the maps `refs` and `contained`.
pub open spec fn products_so_far(
    w: Seq<Seq<char>>,
    l: Seq<ElementView>,
    i: int,
    refs: Map<Seq<char>, u64>,
    storeys: Map<Seq<char>, u64>,
    contained: Map<Seq<char>, Vec<u64>>,
    context: u64,
) -> bool {
    &&& forall|j: int|
        #![trigger l[j]]
        0 <= j < i && !spatial(l[j].class) ==> refs.contains_key(l[j].global_id@) && product_written(
            w,
            refs[l[j].global_id@],
            l[j],
            context,
        )
    &&& forall|j: int|
        #![trigger l[j]]
        0 <= j < i && !spatial(l[j].class) && !opening(l[j].class) ==> exists|k: Seq<char>|
            #![trigger contained[k]]
            storeys.contains_key(k) && contained.contains_key(k) && contained[k]@.contains(refs[l[j].global_id@])
    &&& forall|k: Seq<char>, m: int|
        #![trigger contained[k]@[m]]
        contained.contains_key(k) && 0 <= m < contained[k]@.len() ==> contained[k]@[m] <= w.len()
    &&& forall|j: int, k: Seq<char>|
        #![trigger l[j], contained[k]]
        0 <= j < i && !spatial(l[j].class) && opening(l[j].class) && contained.contains_key(k) ==> !contained[k]@.contains(
            refs[l[j].global_id@],
        )
}

/// Recording product `i` as entity `id`, and filing it under storey `key` unless it is an
/// opening, keeps what the products written so far have in the maps.
proof fn lemma_product_recorded<'a>(
    before: Writer<'a>,
    after: Writer<'a>,
    l: Seq<ElementView>,
    i: int,
    refs: Map<Seq<char>, u64>,
    storeys: Map<Seq<char>, u64>,
    contained: Map<Seq<char>, Vec<u64>>,
    context: u64,
    id: u64,
    key: Seq<char>,
    refs2: Map<Seq<char>, u64>,
    contained2: Map<Seq<char>, Vec<u64>>,
)
    requires
        0 <= i < l.len(),
        !spatial(l[i].class),
        forall|j: int| 0 <= j < i ==> l[j].global_id@ != (#[trigger] l[i]).global_id@,
        products_so_far(before.lines(), l, i, refs, storeys, contained, context),
        extends(before, after),
        product_written(after.lines(), id, l[i], context),
        before.lines().len() < id,
        storeys.contains_key(key),
        refs2 == refs.insert(l[i].global_id@, id),
        opening(l[i].class) ==> contained2 == contained,
        !opening(l[i].class) ==> contained2 == contained.insert(key, contained2[key]) && contained2[key]@ == (if contained.contains_key(
            key,
        ) {
            contained[key]@
        } else {
            Seq::<u64>::empty()
        }).push(id),
    ensures
        products_so_far(after.lines(), l, i + 1, refs2, storeys, contained2, context),
{
    lemma_written_in_range(after.lines(), id, l[i], context);
    assert forall|j: int|
        #![trigger l[j]]
        0 <= j < i + 1 && !spatial(l[j].class) implies refs2.contains_key(l[j].global_id@) && product_written(
            after.lines(),
            refs2[l[j].global_id@],
            l[j],
            context,
        ) by {
        if j < i {
            assert(l[j].global_id@ != l[i].global_id@);
            lemma_product_written_kept(before, after, refs[l[j].global_id@], l[j], context);
        }
    }
    assert forall|j: int| #![trigger l[j]] 0 <= j < i && !spatial(l[j].class) implies refs[l[j].global_id@] < id by {
        lemma_written_in_range(before.lines(), refs[l[j].global_id@], l[j], context);
    }
    let old_list = if contained.contains_key(key) { contained[key]@ } else { Seq::<u64>::empty() };
    assert forall|j: int|
        #![trigger l[j]]
        0 <= j < i + 1 && !spatial(l[j].class) && !opening(l[j].class) implies exists|k: Seq<char>|
            #![trigger contained2[k]]
            storeys.contains_key(k) && contained2.contains_key(k) && contained2[k]@.contains(refs2[l[j].global_id@]) by {
        if j < i {
            assert(l[j].global_id@ != l[i].global_id@);
            let k = choose|k: Seq<char>| #![trigger contained[k]] storeys.contains_key(k) && contained.contains_key(k) && contained[k]@.contains(refs[l[j].global_id@]);
            let x = refs[l[j].global_id@];
            if !opening(l[i].class) && k == key {
                let m = choose|m: int| 0 <= m < contained[k]@.len() && contained[k]@[m] == x;
                assert(contained2[k]@[m] == x);
            }
            assert(contained2[k]@.contains(refs2[l[j].global_id@]));
        } else {
            assert(contained2[key]@[old_list.len() as int] == id);
        }
    }
    assert forall|k: Seq<char>, m: int|
        #![trigger contained2[k]@[m]]
        contained2.contains_key(k) && 0 <= m < contained2[k]@.len() implies contained2[k]@[m] <= after.lines().len() by {
        if !opening(l[i].class) && k == key {
            if m < old_list.len() {
                assert(contained[k]@[m] == old_list[m]);
            }
        }
    }
    assert forall|j: int, k: Seq<char>|
        #![trigger l[j], contained2[k]]
        0 <= j < i + 1 && !spatial(l[j].class) && opening(l[j].class) && contained2.contains_key(k) implies !contained2[k]@.contains(
            refs2[l[j].global_id@],
        ) by {
        if j < i {
            assert(l[j].global_id@ != l[i].global_id@);
            let x = refs[l[j].global_id@];
            if !opening(l[i].class) && k == key && contained2[k]@.contains(x) {
                let m = choose|m: int| 0 <= m < contained2[k]@.len() && contained2[k]@[m] == x;
                if m < old_list.len() {
                    assert(contained[k]@[m] == x);
                    assert(contained[k]@.contains(x));
                }
            }
        } else {
            if contained2[k]@.contains(id) {
                let m = choose|m: int| 0 <= m < contained2[k]@.len() && contained2[k]@[m] == id;
                assert(contained[k]@[m] <= before.lines().len());
            }
        }
    }
}

/// Every product outside the spatial structure, placed in its storey (the first storey when it
/// names none, or one that is not a storey), with its shape. Returns the products' numbers by
/// identity, and by storey the numbers of the products it contains; openings reach the spatial
/// structure through their host, not directly. A shape that would make an unreadable file
/// stops the export.
#[verifier::spinoff_prover]
#[verifier::rlimit(100)]
fn products(
    w: &mut Writer,
    model: &Model,
    context: u64,
    storey_refs: &TextMap<u64>,
    storey_placements: &TextMap<u64>,
    default_storey: &str,
) -> (r: Result<(TextMap<u64>, TextMap<Vec<u64>>), IfcError>)
    requires
        old(w).wf(),
        model.wf(),
        storey_refs@.contains_key(default_storey@),
    ensures
        extends(*old(w), *final(w)),
        r is Ok ==> shapes_valid(model.listing()) && products_listed(final(w).lines(), model.listing()),
        r matches Ok((refs, contained)) ==> products_ref((*final(w)).lines(), model.listing(), refs@, context)
            && all_contained(model.listing(), refs@, storey_refs@, contained@) && openings_left_out(
            model.listing(),
            refs@,
            contained@,
        ),
        r matches Err(e) ==> (e is Malformed && !shapes_valid(model.listing())) || (e is Backend && exhausted(
            *final(w),
        )),
{
    let elements = model.iter();
    let ghost l = model.listing();
    let mut element_refs: TextMap<u64> = TextMap::new();
    let mut contained: TextMap<Vec<u64>> = TextMap::new();
    let mut i: usize = 0;
    while i < elements.len()
        invariant
            i <= elements.len(),
            storey_refs@.contains_key(default_storey@),
            forall|a: int, b: int| 0 <= a < b < elements@.len() ==> seq_lt((#[trigger] elements@[a]).global_id@, (#[trigger] elements@[b]).global_id@),
            products_so_far(w.lines(), l, i as int, element_refs@, storey_refs@, contained@, context),
            elements@.map_values(|e: &ElementRecord| e@) == l,
            l == model.listing(),
            extends(*old(w), *w),
            forall|j: int|
                #![trigger l[j]]
                0 <= j < i && !spatial(l[j].class) ==> product_listed(w.lines(), l[j]) && (l[j].representation is Some
                    ==> valid_model(l[j].representation->0)),
        decreases elements.len() - i,
    {
        let element = elements[i];
        assert(l[i as int] == element@);
        if element.class.is_spatial() {
            i += 1;
            continue;
        }
        let ghost before = *w;
        let container = match &element.container {
            Some(c) => if storey_refs.contains_key(c.as_str()) {
                owned(c.as_str())
            } else {
                owned(default_storey)
            },
            None => owned(default_storey),
        };
        let parent = match storey_placements.get(container.as_str()) {
            Some(p) => Some(*p),
            None => None,
        };
        let id = match write_product(w, element, context, parent) {
            Ok(n) => n,
            Err(e) => {
                proof {
                    if e is Malformed {
                        assert(l[i as int].representation == element@.representation);
                    }
                }
                return Err(e);
            },
        };
        proof {
            assert forall|j: int| #![trigger l[j]] 0 <= j < i && !spatial(l[j].class) implies product_listed(
                w.lines(),
                l[j],
            ) by {
                lemma_product_kept(before, *w, l[j]);
            }
            assert forall|j: int| 0 <= j < i implies l[j].global_id@ != (#[trigger] l[i as int]).global_id@ by {
                assert(elements@[j]@ == l[j]);
                assert(seq_lt(elements@[j].global_id@, elements@[i as int].global_id@));
                crate::text::lemma_seq_lt_irreflexive(l[j].global_id@);
            }
        }
        let ghost refs_before = element_refs@;
        let ghost cont_before = contained@;
        element_refs.insert(owned(element.global_id.as_str()), id);
        let is_opening = match &element.class {
            IfcClass::OpeningElement => true,
            _ => false,
        };
        if !is_opening {
            let mut list = match contained.remove(container.as_str()) {
                Some(v) => v,
                None => Vec::new(),
            };
            let ghost old_list = list@;
            list.push(id);
            contained.insert(container, list);
            proof {
                assert(contained@ =~= cont_before.insert(container@, contained@[container@]));
                assert(old_list == (if cont_before.contains_key(container@) {
                    cont_before[container@]@
                } else {
                    Seq::<u64>::empty()
                }));
            }
        }
        proof {
            lemma_product_recorded(
                before, *w, l, i as int, refs_before, storey_refs@, cont_before, context, id, container@,
                element_refs@, contained@,
            );
        }
        i += 1;
    }
    Ok((element_refs, contained))
}


/// The tail of a containment: the contained products, then the storey.
pub open spec fn contained_tail(products: Seq<u64>, storey: u64) -> Seq<char> {
    concat(seq!["("@, refs_text(products), "),"@, reference(storey as nat)])
}

/// One `IfcRelContainedInSpatialStructure` per storey that contains something.
fn containment(w: &mut Writer, storey_refs: &TextMap<u64>, contained: &TextMap<Vec<u64>>) -> (r: Result<
    (),
    IfcError,
>)
    requires
        old(w).wf(),
    ensures
        stepped(*old(w), *final(w), r),
        r is Ok ==> forall|i: int|
            #![trigger contained.items()[i]]
            0 <= i < contained.items().len() && storey_refs@.contains_key(contained.items()[i].0@) ==> related(
                (*final(w)).lines(),
                "IFCRELCONTAINEDINSPATIALSTRUCTURE"@,
                contained_tail(contained.items()[i].1@, storey_refs@[contained.items()[i].0@]),
            ),
        r is Ok ==> storeys_contain((*final(w)).lines(), storey_refs@, contained@),
{
    let entries = contained.as_slice();
    let mut i: usize = 0;
    while i < entries.len()
        invariant
            i <= entries.len(),
            entries@ == contained.items(),
            extends(*old(w), *w),
            forall|j: int|
                #![trigger contained.items()[j]]
                0 <= j < i && storey_refs@.contains_key(contained.items()[j].0@) ==> related(
                    (*w).lines(),
                    "IFCRELCONTAINEDINSPATIALSTRUCTURE"@,
                    contained_tail(contained.items()[j].1@, storey_refs@[contained.items()[j].0@]),
                ),
        decreases entries.len() - i,
    {
        let entry = &entries[i];
        let ghost before = *w;
        match storey_refs.get(entry.0.as_str()) {
            Some(storey) => {
                let (list, st) = (joined_refs(&entry.1), ref_text(*storey));
                let parts = ["(", list.as_str(), "),", st.as_str()];
                let tail = cat(&parts);
                assert(views(parts@) =~= seq!["("@, refs_text(entry.1@), "),"@, reference(*storey as nat)]);
                match relationship(w, "IFCRELCONTAINEDINSPATIALSTRUCTURE", &tail) {
                    Ok(_) => {},
                    Err(e) => {
                        return Err(e);
                    },
                }
                proof {
                    assert forall|j: int|
                        #![trigger contained.items()[j]]
                        0 <= j < i && storey_refs@.contains_key(contained.items()[j].0@) implies related(
                            (*w).lines(),
                            "IFCRELCONTAINEDINSPATIALSTRUCTURE"@,
                            contained_tail(contained.items()[j].1@, storey_refs@[contained.items()[j].0@]),
                        ) by {
                        lemma_related_kept(before, *w, "IFCRELCONTAINEDINSPATIALSTRUCTURE"@, contained_tail(contained.items()[j].1@, storey_refs@[contained.items()[j].0@]));
                    }
                }
            },
            None => {},
        }
        i += 1;
    }
    proof {
        assert forall|k: Seq<char>|
            #![trigger contained@[k]]
            contained@.contains_key(k) && storey_refs@.contains_key(k) implies related(
                (*w).lines(),
                "IFCRELCONTAINEDINSPATIALSTRUCTURE"@,
                contained_tail(contained@[k]@, storey_refs@[k]),
            ) by {
            let j = choose|j: int| 0 <= j < contained.items().len() && #[trigger] contained.items()[j].0@ == k;
            assert(contained.items()[j].1 == contained@[k]);
        }
    }
    Ok(())
}

/// Every written storey that contains something relates it by one containment.
pub open spec fn storeys_contain(w: Seq<Seq<char>>, storeys: Map<Seq<char>, u64>, contained: Map<Seq<char>, Vec<u64>>) -> bool {
    forall|k: Seq<char>|
        #![trigger contained[k]]
        contained.contains_key(k) && storeys.contains_key(k) ==> related(
            w,
            "IFCRELCONTAINEDINSPATIALSTRUCTURE"@,
            contained_tail(contained[k]@, storeys[k]),
        )
}

proof fn lemma_storeys_contain_kept<'a>(before: Writer<'a>, after: Writer<'a>, storeys: Map<Seq<char>, u64>, contained: Map<Seq<char>, Vec<u64>>)
    requires
        extends(before, after),
        storeys_contain(before.lines(), storeys, contained),
    ensures
        storeys_contain(after.lines(), storeys, contained),
{
    assert forall|k: Seq<char>|
        #![trigger contained[k]]
        contained.contains_key(k) && storeys.contains_key(k) implies related(
            after.lines(),
            "IFCRELCONTAINEDINSPATIALSTRUCTURE"@,
            contained_tail(contained[k]@, storeys[k]),
        ) by {
        lemma_related_kept(before, after, "IFCRELCONTAINEDINSPATIALSTRUCTURE"@, contained_tail(contained[k]@, storeys[k]));
    }
}

proof fn lemma_sets_bound_kept<'a>(before: Writer<'a>, after: Writer<'a>, l: Seq<ElementView>, refs: Map<Seq<char>, u64>)
    requires
        extends(before, after),
        sets_bound(before.lines(), l, refs),
    ensures
        sets_bound(after.lines(), l, refs),
{
    assert forall|i: int, name: Seq<char>|
        #![trigger l[i].properties.contains_key(name)]
        0 <= i < l.len() && refs.contains_key(l[i].global_id@) && l[i].properties.contains_key(name)
            && l[i].properties[name].len() > 0 implies pset_bound(after.lines(), refs[l[i].global_id@], name) by {
        lemma_pset_kept(before, after, refs[l[i].global_id@], name);
    }
}

/// The tail of a relationship between two entities.
pub open spec fn pair_tail(a: u64, b: u64) -> Seq<char> {
    concat(seq![reference(a as nat), ","@, reference(b as nat)])
}

/// Every pair of `l` whose two ends were both written is related by `entity`.
pub open spec fn pairs_related(w: Seq<Seq<char>>, entity: Seq<char>, l: Seq<(Seq<char>, Seq<char>)>, refs: Map<Seq<char>, u64>) -> bool {
    forall|i: int|
        #![trigger l[i]]
        0 <= i < l.len() && refs.contains_key(l[i].0) && refs.contains_key(l[i].1) ==> related(
            w,
            entity,
            pair_tail(refs[l[i].0], refs[l[i].1]),
        )
}

/// The identities of a list of pairs.
pub open spec fn pair_views(all: Seq<(&GlobalId, &GlobalId)>) -> Seq<(Seq<char>, Seq<char>)> {
    all.map_values(|p: (&GlobalId, &GlobalId)| (p.0@, p.1@))
}

/// One relationship per pair whose two ends were both written, named `entity`.
fn pairs(w: &mut Writer, entity: &str, all: &Vec<(&GlobalId, &GlobalId)>, refs: &TextMap<u64>) -> (r: Result<
    (),
    IfcError,
>)
    requires
        old(w).wf(),
    ensures
        stepped(*old(w), *final(w), r),
        r is Ok ==> pairs_related((*final(w)).lines(), entity@, pair_views(all@), refs@),
{
    let ghost l = pair_views(all@);
    let mut i: usize = 0;
    while i < all.len()
        invariant
            i <= all.len(),
            l == pair_views(all@),
            extends(*old(w), *w),
            forall|j: int|
                #![trigger l[j]]
                0 <= j < i && refs@.contains_key(l[j].0) && refs@.contains_key(l[j].1) ==> related(
                    (*w).lines(),
                    entity@,
                    pair_tail(refs@[l[j].0], refs@[l[j].1]),
                ),
        decreases all.len() - i,
    {
        let (a, b) = all[i];
        let ghost before = *w;
        assert(l[i as int] == (a@, b@));
        match (refs.get(a.as_str()), refs.get(b.as_str())) {
            (Some(x), Some(y)) => {
                let (xt, yt) = (ref_text(*x), ref_text(*y));
                let parts = [xt.as_str(), ",", yt.as_str()];
                let tail = cat(&parts);
                assert(views(parts@) =~= seq![reference(*x as nat), ","@, reference(*y as nat)]);
                match relationship(w, entity, &tail) {
                    Ok(_) => {},
                    Err(e) => {
                        return Err(e);
                    },
                }
                proof {
                    assert forall|j: int|
                        #![trigger l[j]]
                        0 <= j < i && refs@.contains_key(l[j].0) && refs@.contains_key(l[j].1) implies related(
                            (*w).lines(),
                            entity@,
                            pair_tail(refs@[l[j].0], refs@[l[j].1]),
                        ) by {
                        lemma_related_kept(before, *w, entity@, pair_tail(refs@[l[j].0], refs@[l[j].1]));
                    }
                }
            },
            _ => {},
        }
        i += 1;
    }
    Ok(())
}

/// Every pair of `s` whose two ends were both written is related by `entity`.
pub open spec fn set_related(w: Seq<Seq<char>>, entity: Seq<char>, s: Set<(Seq<char>, Seq<char>)>, refs: Map<Seq<char>, u64>) -> bool {
    forall|p: (Seq<char>, Seq<char>)|
        #![trigger s.contains(p)]
        s.contains(p) && refs.contains_key(p.0) && refs.contains_key(p.1) ==> related(w, entity, pair_tail(refs[p.0], refs[p.1]))
}

proof fn lemma_set_related<'a>(w: Writer<'a>, entity: Seq<char>, all: Seq<(&GlobalId, &GlobalId)>, s: Set<(Seq<char>, Seq<char>)>, refs: Map<Seq<char>, u64>)
    requires
        pairs_related(w.lines(), entity, pair_views(all), refs),
        forall|p: (Seq<char>, Seq<char>)| #[trigger]
            s.contains(p) ==> exists|i: int| 0 <= i < all.len() && (#[trigger] all[i]).0@ == p.0 && all[i].1@ == p.1,
    ensures
        set_related(w.lines(), entity, s, refs),
{
    assert forall|p: (Seq<char>, Seq<char>)|
        #![trigger s.contains(p)]
        s.contains(p) && refs.contains_key(p.0) && refs.contains_key(p.1) implies related(w.lines(), entity, pair_tail(refs[p.0], refs[p.1])) by {
        let i = choose|i: int| 0 <= i < all.len() && (#[trigger] all[i]).0@ == p.0 && all[i].1@ == p.1;
        assert(pair_views(all)[i] == p);
    }
}

proof fn lemma_set_related_kept<'a>(before: Writer<'a>, after: Writer<'a>, entity: Seq<char>, s: Set<(Seq<char>, Seq<char>)>, refs: Map<Seq<char>, u64>)
    requires
        extends(before, after),
        set_related(before.lines(), entity, s, refs),
    ensures
        set_related(after.lines(), entity, s, refs),
{
    assert forall|p: (Seq<char>, Seq<char>)|
        #![trigger s.contains(p)]
        s.contains(p) && refs.contains_key(p.0) && refs.contains_key(p.1) implies related(after.lines(), entity, pair_tail(refs[p.0], refs[p.1])) by {
        lemma_related_kept(before, after, entity, pair_tail(refs[p.0], refs[p.1]));
    }
}

/// The voids and fills between written products, walking the relationship sets directly.
fn write_voids_and_fills(w: &mut Writer, model: &Model, refs: &TextMap<u64>) -> (r: Result<(), IfcError>)
    requires
        old(w).wf(),
        model.wf(),
    ensures
        stepped(*old(w), *final(w), r),
        r is Ok ==> set_related((*final(w)).lines(), "IFCRELVOIDSELEMENT"@, model@.state.voids, refs@) && set_related(
            (*final(w)).lines(),
            "IFCRELFILLSELEMENT"@,
            model@.state.fills,
            refs@,
        ),
{
    let voids = model.voids();
    match pairs(w, "IFCRELVOIDSELEMENT", &voids, refs) {
        Ok(_) => {},
        Err(e) => {
            return Err(e);
        },
    }
    let ghost w1 = *w;
    proof {
        lemma_set_related(w1, "IFCRELVOIDSELEMENT"@, voids@, model@.state.voids, refs@);
    }
    let fills = model.fills();
    let r = pairs(w, "IFCRELFILLSELEMENT", &fills, refs);
    proof {
        if r is Ok {
            lemma_set_related(*w, "IFCRELFILLSELEMENT"@, fills@, model@.state.fills, refs@);
            lemma_set_related_kept(w1, *w, "IFCRELVOIDSELEMENT"@, model@.state.voids, refs@);
        }
    }
    r
}

/// The body of a single-valued property.
pub open spec fn single_text(name: Seq<char>, value: PropertyValue) -> Seq<char> {
    concat(seq!["IFCPROPERTYSINGLEVALUE("@, step_string(name), ",$,"@, value_text(value), ",$)"@])
}

/// The body of a property set with identity `g`, named `name`, holding the properties `refs`.
pub open spec fn pset_text(g: Seq<char>, name: Seq<char>, refs: Seq<u64>) -> Seq<char> {
    concat(seq!["IFCPROPERTYSET("@, step_string(g), ",$,"@, step_string(name), ",$,("@, refs_text(refs), "))"@])
}

/// A property set named `name` is written and bound to entity `target`.
pub open spec fn pset_bound(w: Seq<Seq<char>>, target: u64, name: Seq<char>) -> bool {
    exists|pset: u64, g: Seq<char>, refs: Seq<u64>|
        #![trigger pset_text(g, name, refs), names(w, pset, pset_text(g, name, refs))]
        names(w, pset, pset_text(g, name, refs)) && related(
            w,
            "IFCRELDEFINESBYPROPERTIES"@,
            concat(seq!["("@, reference(target as nat), "),"@, reference(pset as nat)]),
        )
}

proof fn lemma_pset_kept<'a>(before: Writer<'a>, after: Writer<'a>, target: u64, name: Seq<char>)
    requires
        extends(before, after),
        pset_bound(before.lines(), target, name),
    ensures
        pset_bound(after.lines(), target, name),
{
    let (pset, g, refs) = choose|pset: u64, g: Seq<char>, refs: Seq<u64>|
        #![trigger pset_text(g, name, refs), names(before.lines(), pset, pset_text(g, name, refs))]
        names(before.lines(), pset, pset_text(g, name, refs)) && related(
            before.lines(),
            "IFCRELDEFINESBYPROPERTIES"@,
            concat(seq!["("@, reference(target as nat), "),"@, reference(pset as nat)]),
        );
    lemma_names_kept(before, after, pset, pset_text(g, name, refs));
    lemma_related_kept(before, after, "IFCRELDEFINESBYPROPERTIES"@, concat(seq!["("@, reference(target as nat), "),"@, reference(pset as nat)]));
}

/// One property set of a written product, unless it has no property: each property as a
/// single value, in the set's order, the set over them, and its binding to `target`.
fn property_set(w: &mut Writer, target: u64, set_name: &str, set: &PropertySet) -> (r: Result<(), IfcError>)
    requires
        old(w).wf(),
    ensures
        stepped(*old(w), *final(w), r),
        set@.len() == 0 ==> r is Ok && *final(w) == *old(w),
        r is Ok && set.properties.items().len() > 0 ==> exists|pset: u64, g: Seq<char>, refs: Seq<u64>|
            #![trigger names((*final(w)).lines(), pset, pset_text(g, set_name@, refs))]
            names((*final(w)).lines(), pset, pset_text(g, set_name@, refs)) && related(
                (*final(w)).lines(),
                "IFCRELDEFINESBYPROPERTIES"@,
                concat(seq!["("@, reference(target as nat), "),"@, reference(pset as nat)]),
            ) && refs.len() == set.properties.items().len() && forall|j: int|
                #![trigger refs[j]]
                0 <= j < refs.len() ==> names(
                    (*final(w)).lines(),
                    refs[j],
                    single_text(set.properties.items()[j].0@, set.properties.items()[j].1),
                ),
        r is Ok ==> (set@.len() > 0 ==> pset_bound((*final(w)).lines(), target, set_name@)),
{
    let properties = set.properties.as_slice();
    assert(set@.len() == set.properties.items().len());
    let mut property_refs: Vec<u64> = Vec::new();
    let mut i: usize = 0;
    while i < properties.len()
        invariant
            i <= properties.len(),
            properties@ == set.properties.items(),
            set@.len() == properties@.len(),
            extends(*old(w), *w),
            i == 0 ==> *w == *old(w),
            property_refs@.len() == i,
            forall|j: int|
                #![trigger property_refs@[j]]
                0 <= j < i ==> names((*w).lines(), property_refs@[j], single_text(properties@[j].0@, properties@[j].1)),
        decreases properties.len() - i,
    {
        let (n, v) = (text(properties[i].0.as_str()), ifc_value(&properties[i].1));
        let parts = ["IFCPROPERTYSINGLEVALUE(", n.as_str(), ",$,", v.as_str(), ",$)"];
        let body = cat(&parts);
        assert(views(parts@) =~= seq!["IFCPROPERTYSINGLEVALUE("@, step_string(properties@[i as int].0@), ",$,"@, value_text(properties@[i as int].1), ",$)"@]);
        let ghost before = *w;
        match w.emit(body) {
            Ok(k) => property_refs.push(k),
            Err(e) => {
                return Err(e);
            },
        }
        proof {
            assert forall|j: int| #![trigger property_refs@[j]] 0 <= j < i + 1 implies names((*w).lines(), property_refs@[j], single_text(properties@[j].0@, properties@[j].1)) by {
                if j < i {
                    lemma_names_kept(before, *w, property_refs@[j], single_text(properties@[j].0@, properties@[j].1));
                }
            }
        }
        i += 1;
    }
    if property_refs.len() == 0 {
        assert(set@.len() == 0);
        assert(*w == *old(w));
        return Ok(());
    }
    let ghost w1 = *w;
    let pset_id = match w.derive("pset") {
        Ok(g) => g,
        Err(e) => {
            return Err(e);
        },
    };
    let (g, n, list) = (guid(&pset_id), text(set_name), joined_refs(&property_refs));
    let parts = ["IFCPROPERTYSET(", g.as_str(), ",$,", n.as_str(), ",$,(", list.as_str(), "))"];
    let body = cat(&parts);
    assert(views(parts@) =~= seq!["IFCPROPERTYSET("@, step_string(pset_id@), ",$,"@, step_string(set_name@), ",$,("@, refs_text(property_refs@), "))"@]);
    let ghost w2 = *w;
    let pset = match w.emit(body) {
        Ok(k) => k,
        Err(e) => {
            return Err(e);
        },
    };
    let ghost w3 = *w;
    let (t, p) = (ref_text(target), ref_text(pset));
    let tparts = ["(", t.as_str(), "),", p.as_str()];
    let tail = cat(&tparts);
    assert(views(tparts@) =~= seq!["("@, reference(target as nat), "),"@, reference(pset as nat)]);
    match relationship(w, "IFCRELDEFINESBYPROPERTIES", &tail) {
        Ok(_) => {
            proof {
                let pt = pset_text(pset_id@, set_name@, property_refs@);
                assert(names(w3.lines(), pset, pt));
                lemma_names_kept(w3, *w, pset, pt);
                assert forall|j: int| #![trigger property_refs@[j]] 0 <= j < property_refs@.len() implies names((*w).lines(), property_refs@[j], single_text(set.properties.items()[j].0@, set.properties.items()[j].1)) by {
                    lemma_names_kept(w1, *w, property_refs@[j], single_text(properties@[j].0@, properties@[j].1));
                }
                assert(pset_bound((*w).lines(), target, set_name@));
            }
            Ok(())
        },
        Err(e) => Err(e),
    }
}

/// Every set of every written product is written and bound to the product.
pub open spec fn sets_bound(w: Seq<Seq<char>>, l: Seq<ElementView>, refs: Map<Seq<char>, u64>) -> bool {
    forall|i: int, name: Seq<char>|
        #![trigger l[i].properties.contains_key(name)]
        0 <= i < l.len() && refs.contains_key(l[i].global_id@) && l[i].properties.contains_key(name)
            && l[i].properties[name].len() > 0 ==> pset_bound(w, refs[l[i].global_id@], name)
}

/// The property sets of every written product.
fn write_property_sets(w: &mut Writer, model: &Model, refs: &TextMap<u64>) -> (r: Result<(), IfcError>)
    requires
        old(w).wf(),
        model.wf(),
    ensures
        stepped(*old(w), *final(w), r),
        r is Ok ==> sets_bound((*final(w)).lines(), model.listing(), refs@),
{
    let elements = model.iter();
    let ghost l = model.listing();
    let mut i: usize = 0;
    while i < elements.len()
        invariant
            i <= elements.len(),
            elements@.map_values(|e: &ElementRecord| e@) == l,
            l == model.listing(),
            extends(*old(w), *w),
            forall|k: int, name: Seq<char>|
                #![trigger l[k].properties.contains_key(name)]
                0 <= k < i && refs@.contains_key(l[k].global_id@) && l[k].properties.contains_key(name)
                    && l[k].properties[name].len() > 0 ==> pset_bound((*w).lines(), refs@[l[k].global_id@], name),
        decreases elements.len() - i,
    {
        let element = elements[i];
        assert(l[i as int] == element@);
        let ghost start = *w;
        match refs.get(element.global_id.as_str()) {
            Some(target) => {
                let sets = element.properties.iter();
                let mut j: usize = 0;
                while j < sets.len()
                    invariant
                        j <= sets.len(),
                        l[i as int] == element@,
                        l == model.listing(),
                        extends(*old(w), *w),
                        extends(start, *w),
                        sets@.len() == element.properties@.len(),
                        forall|m: int|
                            0 <= m < sets@.len() ==> element.properties@.contains_key((#[trigger] sets@[m]).0@)
                                && sets@[m].1@ == element.properties@[sets@[m].0@],
                        forall|k: Seq<char>| #[trigger]
                            element.properties@.contains_key(k) ==> exists|m: int| 0 <= m < sets@.len() && #[trigger] sets@[m].0@ == k,
                        forall|m: int| #![trigger sets@[m]] 0 <= m < j && sets@[m].1@.len() > 0 ==> pset_bound((*w).lines(), *target, sets@[m].0@),
                    decreases sets.len() - j,
                {
                    let ghost before = *w;
                    match property_set(w, *target, sets[j].0.as_str(), &sets[j].1) {
                        Ok(_) => {},
                        Err(e) => {
                            return Err(e);
                        },
                    }
                    proof {
                        assert forall|m: int| #![trigger sets@[m]] 0 <= m < j + 1 && sets@[m].1@.len() > 0 implies pset_bound((*w).lines(), *target, sets@[m].0@) by {
                            if m < j {
                                lemma_pset_kept(before, *w, *target, sets@[m].0@);
                            }
                        }
                    }
                    j += 1;
                }
                proof {
                    assert forall|name: Seq<char>|
                        #![trigger element@.properties.contains_key(name)]
                        element@.properties.contains_key(name) && element@.properties[name].len() > 0 implies pset_bound((*w).lines(), *target, name) by {
                        assert(element.properties@.contains_key(name));
                        let m = choose|m: int| 0 <= m < sets@.len() && #[trigger] sets@[m].0@ == name;
                        assert(sets@[m].1@ == element.properties@[name]);
                    }
                }
            },
            None => {},
        }
        proof {
            assert forall|k: int, name: Seq<char>|
                #![trigger l[k].properties.contains_key(name)]
                0 <= k < i + 1 && refs@.contains_key(l[k].global_id@) && l[k].properties.contains_key(name)
                    && l[k].properties[name].len() > 0 implies pset_bound((*w).lines(), refs@[l[k].global_id@], name) by {
                if k < i {
                    lemma_pset_kept(start, *w, refs@[l[k].global_id@], name);
                }
            }
        }
        i += 1;
    }
    Ok(())
}

/// The type entity of `t` is written and bound, among others, to entity `instance`.
pub open spec fn type_bound(w: Seq<Seq<char>>, t: ExportedType, instance: u64) -> bool {
    exists|n: u64, instances: Seq<u64>|
        #![trigger names(w, n, type_text(t)), refs_text(instances)]
        names(w, n, type_text(t)) && instances.contains(instance) && related(
            w,
            "IFCRELDEFINESBYTYPE"@,
            concat(seq!["("@, refs_text(instances), "),"@, reference(n as nat)]),
        )
}

proof fn lemma_type_kept<'a>(before: Writer<'a>, after: Writer<'a>, t: ExportedType, instance: u64)
    requires
        extends(before, after),
        type_bound(before.lines(), t, instance),
    ensures
        type_bound(after.lines(), t, instance),
{
    let (n, instances) = choose|n: u64, instances: Seq<u64>|
        #![trigger names(before.lines(), n, type_text(t)), refs_text(instances)]
        names(before.lines(), n, type_text(t)) && instances.contains(instance) && related(
            before.lines(),
            "IFCRELDEFINESBYTYPE"@,
            concat(seq!["("@, refs_text(instances), "),"@, reference(n as nat)]),
        );
    lemma_names_kept(before, after, n, type_text(t));
    lemma_related_kept(before, after, "IFCRELDEFINESBYTYPE"@, concat(seq!["("@, refs_text(instances), "),"@, reference(n as nat)]));
}

/// Element `e` is an instance of the exported type `t`.
pub open spec fn typed_by(e: ElementView, t: ExportedType) -> bool {
    e.type_ref matches Some(g) && g@ == t.global_id@
}

/// Every written instance of an exported type whose class has a type entity is bound to it.
pub open spec fn types_bound(w: Seq<Seq<char>>, types: Seq<ExportedType>, l: Seq<ElementView>, refs: Map<Seq<char>, u64>) -> bool {
    forall|k: int, i: int|
        #![trigger types[k], l[i]]
        0 <= k < types.len() && 0 <= i < l.len() && type_parts(types[k].class) is Some && typed_by(l[i], types[k])
            && refs.contains_key(l[i].global_id@) ==> type_bound(w, types[k], refs[l[i].global_id@])
}

/// The family types of the context that some written product is an instance of, each bound
/// to its instances: what carries the family system across to the receiving application.
fn write_types(w: &mut Writer, ctx: &ExportContext, model: &Model, refs: &TextMap<u64>) -> (r: Result<(), IfcError>)
    requires
        old(w).wf(),
        model.wf(),
    ensures
        stepped(*old(w), *final(w), r),
        r is Ok ==> types_bound((*final(w)).lines(), ctx.types@, model.listing(), refs@),
{
    let elements = model.iter();
    let ghost l = model.listing();
    let ghost types = ctx.types@;
    let mut k: usize = 0;
    while k < ctx.types.len()
        invariant
            k <= ctx.types.len(),
            types == ctx.types@,
            elements@.map_values(|e: &ElementRecord| e@) == l,
            l == model.listing(),
            extends(*old(w), *w),
            forall|kk: int, i: int|
                #![trigger types[kk], l[i]]
                0 <= kk < k && 0 <= i < l.len() && type_parts(types[kk].class) is Some && typed_by(l[i], types[kk])
                    && refs@.contains_key(l[i].global_id@) ==> type_bound((*w).lines(), types[kk], refs@[l[i].global_id@]),
        decreases ctx.types.len() - k,
    {
        let exported = &ctx.types[k];
        let ghost start = *w;
        let mut instances: Vec<u64> = Vec::new();
        let mut i: usize = 0;
        while i < elements.len()
            invariant
                i <= elements.len(),
                elements@.map_values(|e: &ElementRecord| e@) == l,
                *exported == types[k as int],
                forall|m: int|
                    #![trigger l[m]]
                    0 <= m < i && typed_by(l[m], *exported) && refs@.contains_key(l[m].global_id@) ==> instances@.contains(
                        refs@[l[m].global_id@],
                    ),
                instances@.len() <= i,
            decreases elements.len() - i,
        {
            let e = elements[i];
            assert(l[i as int] == e@);
            let typed = match &e.type_ref {
                Some(t) => str_eq(t.as_str(), exported.global_id.as_str()),
                None => false,
            };
            let ghost before_inst = instances@;
            if typed {
                match refs.get(e.global_id.as_str()) {
                    Some(n) => instances.push(*n),
                    None => {},
                }
            }
            proof {
                assert forall|m: int|
                    #![trigger l[m]]
                    0 <= m < i + 1 && typed_by(l[m], *exported) && refs@.contains_key(l[m].global_id@) implies instances@.contains(
                        refs@[l[m].global_id@],
                    ) by {
                    if m < i {
                        let x = refs@[l[m].global_id@];
                        assert(before_inst.contains(x));
                        let j = choose|j: int| 0 <= j < before_inst.len() && before_inst[j] == x;
                        assert(instances@[j] == x);
                    } else {
                        assert(typed);
                        assert(instances@.last() == refs@[l[m].global_id@]);
                        assert(instances@[instances@.len() - 1] == refs@[l[m].global_id@]);
                    }
                }
            }
            i += 1;
        }
        if instances.len() > 0 {
            match type_entity(w, exported) {
                Ok(Some(t)) => {
                    let ghost w1 = *w;
                    let (list, tt) = (joined_refs(&instances), ref_text(t));
                    let parts = ["(", list.as_str(), "),", tt.as_str()];
                    let tail = cat(&parts);
                    assert(views(parts@) =~= seq!["("@, refs_text(instances@), "),"@, reference(t as nat)]);
                    match relationship(w, "IFCRELDEFINESBYTYPE", &tail) {
                        Ok(_) => {},
                        Err(e) => {
                            return Err(e);
                        },
                    }
                    proof {
                        lemma_names_kept(w1, *w, t, type_text(*exported));
                        assert forall|m: int|
                            #![trigger l[m]]
                            0 <= m < l.len() && typed_by(l[m], *exported) && refs@.contains_key(l[m].global_id@) implies type_bound(
                                (*w).lines(),
                                *exported,
                                refs@[l[m].global_id@],
                            ) by {
                            assert(instances@.contains(refs@[l[m].global_id@]));
                            assert(names((*w).lines(), t, type_text(*exported)));
                            assert(refs_text(instances@) == refs_text(instances@));
                        }
                    }
                },
                Ok(None) => {},
                Err(e) => {
                    return Err(e);
                },
            }
        } else {
            proof {
                assert forall|m: int|
                    #![trigger l[m]]
                    0 <= m < l.len() && typed_by(l[m], *exported) && refs@.contains_key(l[m].global_id@) implies false by {
                    assert(instances@.contains(refs@[l[m].global_id@]));
                }
            }
        }
        proof {
            assert forall|kk: int, i: int|
                #![trigger types[kk], l[i]]
                0 <= kk < k + 1 && 0 <= i < l.len() && type_parts(types[kk].class) is Some && typed_by(l[i], types[kk])
                    && refs@.contains_key(l[i].global_id@) implies type_bound((*w).lines(), types[kk], refs@[l[i].global_id@]) by {
                if kk < k {
                    lemma_type_kept(start, *w, types[kk], refs@[l[i].global_id@]);
                } else {
                    assert(l[i] == l[i]);
                }
            }
        }
        k += 1;
    }
    Ok(())
}


/// The model's contents are written: every product outside the spatial structure, each one
/// that is not an opening in the containment of a written storey, every void and fill between
/// written products, every property set, and every bound type.
pub open spec fn contents_written(
    w: Seq<Seq<char>>,
    ctx: ExportContext,
    l: Seq<ElementView>,
    voids: Set<(Seq<char>, Seq<char>)>,
    fills: Set<(Seq<char>, Seq<char>)>,
    context: u64,
) -> bool {
    exists|refs: Map<Seq<char>, u64>, storeys: Map<Seq<char>, u64>, contained: Map<Seq<char>, Vec<u64>>|
        #![trigger products_ref(w, l, refs, context), storeys_contain(w, storeys, contained)]
        products_ref(w, l, refs, context) && all_contained(l, refs, storeys, contained) && openings_left_out(l, refs, contained)
            && storeys_contain(w, storeys, contained)
            && set_related(w, "IFCRELVOIDSELEMENT"@, voids, refs) && set_related(w, "IFCRELFILLSELEMENT"@, fills, refs)
            && sets_bound(w, l, refs) && types_bound(w, ctx.types@, l, refs)
}

proof fn lemma_units_kept<'a>(before: Writer<'a>, after: Writer<'a>, c: u64, u: u64)
    requires
        extends(before, after),
        units_named(before.lines(), c, u),
    ensures
        units_named(after.lines(), c, u),
{
    let (l, a, v, g, world) = choose|l: u64, a: u64, v: u64, g: u64, world: u64|
        #![trigger units_text(l, a, v, g), context_text(world)]
        names(before.lines(), l, "IFCSIUNIT(*,.LENGTHUNIT.,$,.METRE.)"@) && names(before.lines(), a, "IFCSIUNIT(*,.AREAUNIT.,$,.SQUARE_METRE.)"@)
            && names(before.lines(), v, "IFCSIUNIT(*,.VOLUMEUNIT.,$,.CUBIC_METRE.)"@) && names(
            before.lines(),
            g,
            "IFCSIUNIT(*,.PLANEANGLEUNIT.,$,.RADIAN.)"@,
        ) && names(before.lines(), u, units_text(l, a, v, g)) && axis_named(before.lines(), world, identity_placement()) && names(
            before.lines(),
            c,
            context_text(world),
        );
    lemma_names_kept(before, after, l, "IFCSIUNIT(*,.LENGTHUNIT.,$,.METRE.)"@);
    lemma_names_kept(before, after, a, "IFCSIUNIT(*,.AREAUNIT.,$,.SQUARE_METRE.)"@);
    lemma_names_kept(before, after, v, "IFCSIUNIT(*,.VOLUMEUNIT.,$,.CUBIC_METRE.)"@);
    lemma_names_kept(before, after, g, "IFCSIUNIT(*,.PLANEANGLEUNIT.,$,.RADIAN.)"@);
    lemma_names_kept(before, after, u, units_text(l, a, v, g));
    lemma_axis_kept(before, after, world, identity_placement());
    lemma_names_kept(before, after, c, context_text(world));
}

/// The whole model, after whatever the writer holds: units and context, the spatial structure,
/// every product, then containment, voids and fills, property sets and types.
///
/// Fails exactly when some product outside the spatial structure has a shape that would make
/// an unreadable file (`Malformed`), or once the writer is exhausted; on success every such
/// product is defined in the file.
pub fn write_model(w: &mut Writer, ctx: &ExportContext, model: &Model) -> (r: Result<(), IfcError>)
    requires
        old(w).wf(),
        old(w).context() == *ctx,
        model.wf(),
    ensures
        extends(*old(w), *final(w)),
        r is Ok ==> shapes_valid(model.listing()) && products_listed(final(w).lines(), model.listing()),
        r is Ok ==> exists|c: u64, u: u64| #![trigger units_named((*final(w)).lines(), c, u)] units_named((*final(w)).lines(), c, u),
        r is Ok ==> exists|c: u64, u: u64, storeys: Map<Seq<char>, u64>, numbers: Seq<u64>|
            #![trigger frame_written((*final(w)).lines(), *ctx, model.listing(), c, u, storeys, numbers)]
            units_named((*final(w)).lines(), c, u) && frame_written((*final(w)).lines(), *ctx, model.listing(), c, u, storeys, numbers)
                && contents_written((*final(w)).lines(), *ctx, model.listing(), model@.state.voids, model@.state.fills, c),
        r matches Err(e) ==> (e is Malformed && !shapes_valid(model.listing())) || (e is Backend && exhausted(
            *final(w),
        )),
{
    let (context, units) = match units_and_context(w) {
        Ok(t) => t,
        Err(e) => {
            return Err(e);
        },
    };
    let ghost w_units = *w;
    let (storey_refs, storey_placements) = match structure(w, ctx, model, context, units) {
        Ok(t) => t,
        Err(e) => {
            return Err(e);
        },
    };
    let ghost w_frame = *w;
    let storey_entries = storey_refs.as_slice();
    proof {
        let k = choose|k: Seq<char>| storey_refs@.contains_key(k);
        assert(storey_refs@.contains_key(k));
    }
    let default_storey = owned(storey_entries[0].0.as_str());
    let (element_refs, contained) = match products(
        w,
        model,
        context,
        &storey_refs,
        &storey_placements,
        default_storey.as_str(),
    ) {
        Ok(t) => t,
        Err(e) => {
            return Err(e);
        },
    };
    let ghost written = *w;
    match containment(w, &storey_refs, &contained) {
        Ok(_) => {},
        Err(e) => {
            return Err(e);
        },
    }
    let ghost w_cont = *w;
    match write_voids_and_fills(w, model, &element_refs) {
        Ok(_) => {},
        Err(e) => {
            return Err(e);
        },
    }
    let ghost w_pairs = *w;
    match write_property_sets(w, model, &element_refs) {
        Ok(_) => {},
        Err(e) => {
            return Err(e);
        },
    }
    let ghost w_sets = *w;
    match write_types(w, ctx, model, &element_refs) {
        Ok(_) => {},
        Err(e) => {
            return Err(e);
        },
    }
    proof {
        let l = model.listing();
        lemma_units_kept(w_units, *w, context, units);
        lemma_extends_trans(w_frame, written, *w);
        lemma_frame_kept(w_frame, *w, *ctx, l, context, units, storey_refs@, storey_numbers(storey_refs.items()));
        lemma_products_ref_kept(written, *w, l, element_refs@, context);
        lemma_storeys_contain_kept(w_cont, *w, storey_refs@, contained@);
        lemma_set_related_kept(w_pairs, *w, "IFCRELVOIDSELEMENT"@, model@.state.voids, element_refs@);
        lemma_set_related_kept(w_pairs, *w, "IFCRELFILLSELEMENT"@, model@.state.fills, element_refs@);
        lemma_sets_bound_kept(w_sets, *w, l, element_refs@);
        assert(contents_written((*w).lines(), *ctx, l, model@.state.voids, model@.state.fills, context));
        assert forall|i: int| #![trigger l[i]] 0 <= i < l.len() && !spatial(l[i].class) implies product_listed(
            w.lines(),
            l[i],
        ) by {
            lemma_product_kept(written, *w, l[i]);
        }
    }
    Ok(())
}


/// `bytes` is a file written for `ctx` that defines every product of `l` outside the spatial
/// structure: its text in UTF-8, stamped with the context's timestamp, or with some moment
/// when the context has none.
pub open spec fn exported(
    ctx: ExportContext,
    l: Seq<ElementView>,
    voids: Set<(Seq<char>, Seq<char>)>,
    fills: Set<(Seq<char>, Seq<char>)>,
    bytes: Seq<u8>,
) -> bool {
    exists|stamp: Seq<char>, lines: Seq<Seq<char>>|
        #![trigger file_text(ctx, stamp, lines)]
        {
            &&& bytes == encode_utf8(file_text(ctx, stamp, lines))
            &&& numbered_in_order(lines)
            &&& products_listed(lines, l)
            &&& ctx.timestamp matches Some(t) ==> stamp == t@
            &&& ctx.timestamp is None ==> exists|secs: i64| stamp == iso8601(secs as int)
            &&& exists|c: u64, u: u64, storeys: Map<Seq<char>, u64>, numbers: Seq<u64>|
                #![trigger frame_written(lines, ctx, l, c, u, storeys, numbers)]
                units_named(lines, c, u) && frame_written(lines, ctx, l, c, u, storeys, numbers) && contents_written(
                    lines,
                    ctx,
                    l,
                    voids,
                    fills,
                    c,
                )
        }
}

impl SpfBackend {
    /// Serialise the model as an IFC4 file.
    ///
    /// Only IFC4 is written; a model with a product whose shape would make an unreadable file
    /// is refused as `Malformed`, never written.
    pub fn write(&self, model: &Model, schema: IfcSchema) -> (r: Result<Vec<u8>, IfcError>)
        requires
            model.wf(),
        ensures
            !(schema is Ifc4) ==> r == Err::<Vec<u8>, IfcError>(
                IfcError::UnsupportedSchema { backend: "spf-writer", schema },
            ),
            r is Ok ==> shapes_valid(model.listing()),
            !shapes_valid(model.listing()) ==> r is Err,
            r matches Ok(bytes) ==> exported(
                self.context_spec(),
                model.listing(),
                model@.state.voids,
                model@.state.fills,
                bytes@,
            ),
            r matches Err(e) ==> (e is UnsupportedSchema && !(schema is Ifc4)) || (e is Malformed && !shapes_valid(
                model.listing(),
            )) || e is Backend,
    {
        match self.check_can_write(schema) {
            Ok(_) => {},
            Err(e) => {
                return Err(e);
            },
        }
        let ctx = self.context();
        let mut writer = Writer::new(ctx);
        match write_model(&mut writer, ctx, model) {
            Ok(_) => {},
            Err(e) => {
                return Err(e);
            },
        }
        let ghost lines = writer.lines();
        proof {
            writer.lemma_numbered();
        }
        let file = writer.finish();
        let bytes = file.as_str().as_bytes_vec();
        proof {
            let stamp = choose|stamp: Seq<char>| file@ == file_text(*ctx, stamp, lines) && (ctx.timestamp matches Some(t) ==> stamp == t@) && (ctx.timestamp is None ==> exists|secs: i64| stamp == iso8601(secs as int));
            assert(bytes@ == encode_utf8(file_text(*ctx, stamp, lines)));
        }
        Ok(bytes)
    }
}

}
