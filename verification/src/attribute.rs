//! STEP attribute values as the reader sees them, and the projection of those values onto
//! what the model holds: references, numbers, texts, and typed property values.
//!
//! Reals are `f64` bit patterns. Nothing here fails on a malformed value: a value that does
//! not have the expected shape reads as absent.

use vstd::prelude::*;
use crate::floatbits::{count_as_real, real_of_count};
use crate::property::PropertyValue;
use crate::recipe::texts;
use crate::text::{chars_of, owned, str_eq, string_between, to_ascii_uppercase, upper};

verus! {

/// One attribute of a decoded entity.
#[derive(Debug, PartialEq)]
pub enum Attribute {
    EntityRef(u32),
    Text(String),
    Integer(i64),
    Real(u64),
    /// A STEP binary literal, undecoded.
    Binary(String),
    Enum(String),
    List(Vec<Attribute>),
    /// A typed parameter such as `IFCLABEL('x')`: the upper-case type name and its value.
    Typed { name: String, value: Box<Attribute> },
    Null,
    Derived,
}

/// A decoded entity: its express id, its kind as far as the reader cares, its keyword, the
/// names of its attributes in schema order, and their values.
#[derive(Debug)]
pub struct Entity {
    pub id: u32,
    pub kind: EntityKind,
    pub keyword: String,
    pub names: Vec<String>,
    pub attributes: Vec<Attribute>,
}

/// The entity kinds the reader treats specially.
#[derive(Debug, Clone, Copy, PartialEq, Eq, Structural)]
pub enum EntityKind {
    ExtrudedAreaSolid,
    TriangulatedFaceSet,
    PolygonalFaceSet,
    ArbitraryClosedProfileDef,
    RectangleProfileDef,
    Polyline,
    PropertySet,
    PropertySingleValue,
    RelContainedInSpatialStructure,
    RelVoidsElement,
    RelFillsElement,
    RelDefinesByProperties,
    RelDefinesByType,
    Other,
}

/// Where `name` first occurs in `names`.
pub open spec fn name_index(names: Seq<Seq<char>>, name: Seq<char>) -> Option<int>
    decreases names.len(),
{
    if names.len() == 0 {
        None
    } else if names[0] == name {
        Some(0)
    } else {
        match name_index(names.drop_first(), name) {
            Some(i) => Some(i + 1),
            None => None,
        }
    }
}

/// The attribute called `name`, looked up by name in the entity's schema order and never by a
/// fixed position.
pub open spec fn attribute_at(e: Entity, name: Seq<char>) -> Option<Attribute> {
    match name_index(texts(e.names@), name) {
        Some(i) => if i < e.attributes@.len() {
            Some(e.attributes@[i])
        } else {
            None
        },
        None => None,
    }
}

/// A non-empty text attribute.
pub open spec fn text_at(e: Entity, name: Seq<char>) -> Option<Seq<char>> {
    match attribute_at(e, name) {
        Some(Attribute::Text(s)) => if s@.len() > 0 {
            Some(s@)
        } else {
            None
        },
        _ => None,
    }
}

/// The reference an attribute holds.
pub open spec fn ref_of(a: Attribute) -> Option<u32> {
    match a {
        Attribute::EntityRef(r) => Some(r),
        _ => None,
    }
}

/// The references among a list of attributes, in order.
pub open spec fn refs_among(items: Seq<Attribute>) -> Seq<u32>
    decreases items.len(),
{
    if items.len() == 0 {
        Seq::empty()
    } else {
        let rest = refs_among(items.drop_last());
        match items.last() {
            Attribute::EntityRef(r) => rest.push(r),
            _ => rest,
        }
    }
}

/// The references an attribute names: those in a list, or a single reference.
pub open spec fn ref_list_of(a: Attribute) -> Option<Seq<u32>> {
    match a {
        Attribute::List(items) => Some(refs_among(items@)),
        Attribute::EntityRef(r) => Some(seq![r]),
        _ => None,
    }
}

/// The bits of `v as i64`, the count a real truncates to, saturating at the ends and zero
/// for NaN.
pub uninterp spec fn count_of_real(v: u64) -> i64;

/// `glam::DVec2::as_i64vec2` on the first lane, which converts with Rust's `as i64`.
///
/// Claims only that the result is a function of the real, named `count_of_real`.
#[verifier::external_body]
fn real_as_count(v: u64) -> (r: i64)
    ensures
        r == count_of_real(v),
{
    bytemuck::cast::<[u64; 2], glam::DVec2>([v, 0]).as_i64vec2().x
}

/// A real read from an attribute: a real as it is, an integer as the nearest real.
pub open spec fn real_of(a: Attribute) -> Option<u64> {
    match a {
        Attribute::Real(f) => Some(f),
        Attribute::Integer(i) => Some(real_of_count(i)),
        _ => None,
    }
}

/// An integer read from an attribute: an integer as it is, a real truncated.
pub open spec fn integer_of_spec(a: Attribute) -> Option<i64> {
    match a {
        Attribute::Integer(i) => Some(i),
        Attribute::Real(f) => Some(count_of_real(f)),
        _ => None,
    }
}

/// The reals among a list of attributes, in order.
pub open spec fn reals_among(items: Seq<Attribute>) -> Seq<u64>
    decreases items.len(),
{
    if items.len() == 0 {
        Seq::empty()
    } else {
        let rest = reals_among(items.drop_last());
        match real_of(items.last()) {
            Some(f) => rest.push(f),
            None => rest,
        }
    }
}

/// A point read from a list attribute: two or three reals, a missing third read as zero.
pub open spec fn point_of_list(a: Attribute) -> Option<[u64; 3]> {
    match a {
        Attribute::List(items) => {
            let c = reals_among(items@);
            if c.len() < 2 {
                None
            } else if c.len() == 2 {
                Some([c[0], c[1], 0u64])
            } else {
                Some([c[0], c[1], c[2]])
            }
        },
        _ => None,
    }
}

/// `raw` without leading dots.
pub open spec fn strip_front_dots(s: Seq<char>) -> Seq<char>
    decreases s.len(),
{
    if s.len() > 0 && s[0] == '.' {
        strip_front_dots(s.drop_first())
    } else {
        s
    }
}

/// `raw` without trailing dots.
pub open spec fn strip_back_dots(s: Seq<char>) -> Seq<char>
    decreases s.len(),
{
    if s.len() > 0 && s.last() == '.' {
        strip_back_dots(s.drop_last())
    } else {
        s
    }
}

/// STEP writes booleans as the enumeration `.T.` / `.F.`: those, and `TRUE` / `FALSE` in any
/// case, are booleans; anything else is kept as text.
pub open spec fn boolean_or_text_spec(raw: Seq<char>) -> (Seq<char>, Option<bool>) {
    let u = upper(strip_back_dots(strip_front_dots(raw)));
    if u == "T"@ || u == "TRUE"@ {
        (raw, Some(true))
    } else if u == "F"@ || u == "FALSE"@ {
        (raw, Some(false))
    } else {
        (raw, None)
    }
}

/// Whether a property value is the boolean or text that `boolean_or_text_spec` reads `raw` as.
pub open spec fn reads_as(v: PropertyValue, raw: Seq<char>) -> bool {
    match boolean_or_text_spec(raw).1 {
        Some(b) => v == PropertyValue::Boolean(b),
        None => v matches PropertyValue::Text(t) && t@ == raw,
    }
}

/// The measure groups a typed value's name can fall in.
pub enum Measure {
    Logical,
    Length,
    Area,
    Volume,
    CountMeasure,
    IntegerValue,
    RealValue,
    Prose,
}

/// The group of an upper-cased type name.
pub open spec fn measure_of(u: Seq<char>) -> Measure {
    if u == "IFCBOOLEAN"@ || u == "IFCLOGICAL"@ {
        Measure::Logical
    } else if u == "IFCLENGTHMEASURE"@ || u == "IFCPOSITIVELENGTHMEASURE"@ || u == "IFCNONNEGATIVELENGTHMEASURE"@ {
        Measure::Length
    } else if u == "IFCAREAMEASURE"@ || u == "IFCPOSITIVEAREAMEASURE"@ {
        Measure::Area
    } else if u == "IFCVOLUMEMEASURE"@ {
        Measure::Volume
    } else if u == "IFCCOUNTMEASURE"@ {
        Measure::CountMeasure
    } else if u == "IFCINTEGER"@ {
        Measure::IntegerValue
    } else if u == "IFCREAL"@ || u == "IFCRATIOMEASURE"@ || u == "IFCNORMALISEDRATIOMEASURE"@
        || u == "IFCPOSITIVERATIOMEASURE"@ {
        Measure::RealValue
    } else {
        Measure::Prose
    }
}

/// Whether `v` is what a property value attribute reads as, keeping its measure type: a typed
/// value by its type name, a one-item list by its item, a bare text, integer, real or enum by
/// its kind. `None` means the attribute does not read as a property value.
pub open spec fn property_reading(a: Attribute, v: Option<PropertyValue>) -> bool
    decreases a, 0int,
{
    match a {
        Attribute::List(items) => if items@.len() >= 2 {
            match items@[0] {
                Attribute::Text(t) => typed_reading(t@, items@[1], v),
                _ => v is None,
            }
        } else if items@.len() == 1 {
            property_reading(items@[0], v)
        } else {
            v is None
        },
        Attribute::Typed { name, value } => typed_reading(name@, *value, v),
        Attribute::Text(s) => v == Some(PropertyValue::Text(s)),
        Attribute::Integer(i) => v == Some(PropertyValue::Integer(i)),
        Attribute::Real(f) => v == Some(PropertyValue::Real(f)),
        Attribute::Enum(e) => v matches Some(x) && reads_as(x, e@),
        _ => v is None,
    }
}

/// Whether `v` is what a value typed by `constructor` reads as: booleans and logicals from an
/// enumeration, lengths, areas, volumes and reals from a real, counts and integers from an
/// integer; anything else as prose, or as the value would read untyped.
pub open spec fn typed_reading(constructor: Seq<char>, value: Attribute, v: Option<PropertyValue>) -> bool
    decreases value, 1int,
{
    match measure_of(upper(constructor)) {
        Measure::Logical => match value {
            Attribute::Enum(e) => v matches Some(x) && reads_as(x, e@),
            _ => v is None,
        },
        Measure::Length => v == (match real_of(value) {
            Some(f) => Some(PropertyValue::Length(f)),
            None => None,
        }),
        Measure::Area => v == (match real_of(value) {
            Some(f) => Some(PropertyValue::Area(f)),
            None => None,
        }),
        Measure::Volume => v == (match real_of(value) {
            Some(f) => Some(PropertyValue::Volume(f)),
            None => None,
        }),
        Measure::CountMeasure => v == (match integer_of_spec(value) {
            Some(i) => Some(PropertyValue::Count(i)),
            None => None,
        }),
        Measure::IntegerValue => v == (match integer_of_spec(value) {
            Some(i) => Some(PropertyValue::Integer(i)),
            None => None,
        }),
        Measure::RealValue => v == (match real_of(value) {
            Some(f) => Some(PropertyValue::Real(f)),
            None => None,
        }),
        Measure::Prose => match value {
            Attribute::Text(s) => v == Some(PropertyValue::Text(s)),
            Attribute::Enum(e) => v matches Some(x) && reads_as(x, e@),
            other => property_reading(other, v),
        },
    }
}

/// A name's first position lies within the list.
proof fn lemma_name_index_range(names: Seq<Seq<char>>, name: Seq<char>)
    ensures
        name_index(names, name) matches Some(i) ==> 0 <= i < names.len(),
    decreases names.len(),
{
    if names.len() > 0 {
        lemma_name_index_range(names.drop_first(), name);
    }
}

/// Where `name` first occurs among `names`.
fn index_of_name(names: &Vec<String>, name: &str) -> (r: Option<usize>)
    ensures
        match r {
            Some(j) => name_index(texts(names@), name@) == Some(j as int),
            None => name_index(texts(names@), name@) is None,
        },
{
    let mut i: usize = 0;
    assert(texts(names@).skip(0) =~= texts(names@));
    while i < names.len()
        invariant
            i <= names.len(),
            name_index(texts(names@), name@) == (match name_index(texts(names@).skip(i as int), name@) {
                Some(j) => Some(j + i),
                None => None,
            }),
        decreases names.len() - i,
    {
        assert(texts(names@).skip(i as int).drop_first() =~= texts(names@).skip(i + 1));
        if str_eq(names[i].as_str(), name) {
            return Some(i);
        }
        i += 1;
    }
    None
}

/// Look an attribute up by name.
pub fn attr<'e>(entity: &'e Entity, name: &str) -> (r: Option<&'e Attribute>)
    ensures
        match attribute_at(*entity, name@) {
            Some(a) => r matches Some(x) && *x == a,
            None => r is None,
        },
{
    proof {
        lemma_name_index_range(texts(entity.names@), name@);
    }
    match index_of_name(&entity.names, name) {
        Some(i) => if i < entity.attributes.len() {
            Some(&entity.attributes[i])
        } else {
            None
        },
        None => None,
    }
}

/// A non-empty text attribute, by name.
pub fn string_attr(entity: &Entity, name: &str) -> (r: Option<String>)
    ensures
        match text_at(*entity, name@) {
            Some(t) => r matches Some(s) && s@ == t,
            None => r is None,
        },
{
    match attr(entity, name) {
        Some(a) => match a {
            Attribute::Text(s) => {
                let empty = str_eq(s.as_str(), "");
                proof {
                    reveal_strlit("");
                    if s@.len() == 0 {
                        assert(s@ =~= ""@);
                    }
                }
                if empty {
                    None
                } else {
                    Some(s.clone())
                }
            },
            _ => None,
        },
        None => None,
    }
}

/// The reference an attribute holds.
pub fn as_ref(value: &Attribute) -> (r: Option<u32>)
    ensures
        r == ref_of(*value),
{
    match value {
        Attribute::EntityRef(r) => Some(*r),
        _ => None,
    }
}

/// The references an attribute names.
pub fn as_ref_list(value: &Attribute) -> (r: Option<Vec<u32>>)
    ensures
        match ref_list_of(*value) {
            Some(s) => r matches Some(v) && v@ == s,
            None => r is None,
        },
{
    match value {
        Attribute::List(items) => {
            let mut out: Vec<u32> = Vec::new();
            let mut i: usize = 0;
            while i < items.len()
                invariant
                    i <= items.len(),
                    out@ == refs_among(items@.take(i as int)),
                decreases items.len() - i,
            {
                proof {
                    assert(items@.take(i + 1).drop_last() =~= items@.take(i as int));
                }
                match &items[i] {
                    Attribute::EntityRef(r) => out.push(*r),
                    _ => {},
                }
                i += 1;
            }
            proof {
                assert(items@.take(items.len() as int) =~= items@);
            }
            Some(out)
        },
        Attribute::EntityRef(r) => {
            let mut out: Vec<u32> = Vec::new();
            out.push(*r);
            assert(out@ =~= seq![*r]);
            Some(out)
        },
        _ => None,
    }
}

/// A real, read from a real or an integer.
pub fn float_of(value: &Attribute) -> (r: Option<u64>)
    ensures
        r == real_of(*value),
{
    match value {
        Attribute::Real(f) => Some(*f),
        Attribute::Integer(i) => Some(count_as_real(*i)),
        _ => None,
    }
}

/// An integer, read from an integer or a real.
pub fn integer_of(value: &Attribute) -> (r: Option<i64>)
    ensures
        r == integer_of_spec(*value),
{
    match value {
        Attribute::Integer(i) => Some(*i),
        Attribute::Real(f) => Some(real_as_count(*f)),
        _ => None,
    }
}

/// The reals among a list of attributes.
pub fn reals_in(items: &Vec<Attribute>) -> (r: Vec<u64>)
    ensures
        r@ == reals_among(items@),
{
    let mut out: Vec<u64> = Vec::new();
    let mut i: usize = 0;
    while i < items.len()
        invariant
            i <= items.len(),
            out@ == reals_among(items@.take(i as int)),
        decreases items.len() - i,
    {
        proof {
            assert(items@.take(i + 1).drop_last() =~= items@.take(i as int));
        }
        match float_of(&items[i]) {
            Some(f) => out.push(f),
            None => {},
        }
        i += 1;
    }
    proof {
        assert(items@.take(items.len() as int) =~= items@);
    }
    out
}

/// A point from a list of two or three reals.
pub fn point_from(value: &Attribute) -> (r: Option<[u64; 3]>)
    ensures
        r == point_of_list(*value),
{
    match value {
        Attribute::List(items) => {
            let c = reals_in(items);
            if c.len() < 2 {
                None
            } else if c.len() == 2 {
                Some([c[0], c[1], 0u64])
            } else {
                Some([c[0], c[1], c[2]])
            }
        },
        _ => None,
    }
}

/// A point attribute, by name.
pub fn coordinates(entity: &Entity, name: &str) -> (r: Option<[u64; 3]>)
    ensures
        r == (match attribute_at(*entity, name@) {
            Some(a) => point_of_list(a),
            None => None,
        }),
{
    match attr(entity, name) {
        Some(a) => point_from(a),
        None => None,
    }
}

/// Read a STEP boolean enumeration, or keep the raw text.
pub fn boolean_or_text(raw: &str) -> (r: PropertyValue)
    ensures
        reads_as(r, raw@),
{
    let cs = chars_of(raw);
    let mut lo: usize = 0;
    assert(cs@.skip(0) =~= cs@);
    while lo < cs.len() && cs[lo] == '.'
        invariant
            lo <= cs.len(),
            strip_front_dots(cs@) == strip_front_dots(cs@.skip(lo as int)),
        decreases cs.len() - lo,
    {
        assert(cs@.skip(lo as int).drop_first() =~= cs@.skip(lo + 1));
        lo += 1;
    }
    let mut hi: usize = cs.len();
    assert(cs@.skip(lo as int) =~= cs@.subrange(lo as int, cs.len() as int));
    while hi > lo && cs[hi - 1] == '.'
        invariant
            lo <= hi <= cs.len(),
            strip_back_dots(cs@.skip(lo as int)) == strip_back_dots(cs@.subrange(lo as int, hi as int)),
        decreases hi - lo,
    {
        assert(cs@.subrange(lo as int, hi as int).drop_last() =~= cs@.subrange(lo as int, hi - 1));
        hi -= 1;
    }
    let core = string_between(&cs, lo, hi);
    let u = to_ascii_uppercase(core.as_str());
    let s = u.as_str();
    if str_eq(s, "T") || str_eq(s, "TRUE") {
        PropertyValue::Boolean(true)
    } else if str_eq(s, "F") || str_eq(s, "FALSE") {
        PropertyValue::Boolean(false)
    } else {
        PropertyValue::Text(owned(raw))
    }
}

/// An `IfcValue` in a property, keeping its measure type.
///
/// A length and a bare real are not interchangeable, and collapsing them loses information
/// the exporter needs to write the file back correctly.
pub fn property_value(value: &Attribute) -> (r: Option<PropertyValue>)
    ensures
        property_reading(*value, r),
    decreases value, 0int,
{
    match value {
        Attribute::List(items) => {
            if items.len() >= 2 {
                match &items[0] {
                    Attribute::Text(t) => typed_property(t.as_str(), &items[1]),
                    _ => None,
                }
            } else if items.len() == 1 {
                property_value(&items[0])
            } else {
                None
            }
        },
        Attribute::Typed { name, value } => typed_property(name.as_str(), &**value),
        Attribute::Text(s) => Some(PropertyValue::Text(s.clone())),
        Attribute::Integer(i) => Some(PropertyValue::Integer(*i)),
        Attribute::Real(f) => Some(PropertyValue::Real(*f)),
        Attribute::Enum(e) => Some(boolean_or_text(e.as_str())),
        _ => None,
    }
}

/// A value under a typed constructor, read by the constructor's name.
pub fn typed_property(constructor: &str, value: &Attribute) -> (r: Option<PropertyValue>)
    ensures
        typed_reading(constructor@, *value, r),
    decreases value, 1int,
{
    let u = to_ascii_uppercase(constructor);
    let s = u.as_str();
    if str_eq(s, "IFCBOOLEAN") || str_eq(s, "IFCLOGICAL") {
        match value {
            Attribute::Enum(e) => Some(boolean_or_text(e.as_str())),
            _ => None,
        }
    } else if str_eq(s, "IFCLENGTHMEASURE") || str_eq(s, "IFCPOSITIVELENGTHMEASURE") || str_eq(
        s,
        "IFCNONNEGATIVELENGTHMEASURE",
    ) {
        match float_of(value) {
            Some(f) => Some(PropertyValue::Length(f)),
            None => None,
        }
    } else if str_eq(s, "IFCAREAMEASURE") || str_eq(s, "IFCPOSITIVEAREAMEASURE") {
        match float_of(value) {
            Some(f) => Some(PropertyValue::Area(f)),
            None => None,
        }
    } else if str_eq(s, "IFCVOLUMEMEASURE") {
        match float_of(value) {
            Some(f) => Some(PropertyValue::Volume(f)),
            None => None,
        }
    } else if str_eq(s, "IFCCOUNTMEASURE") {
        match integer_of(value) {
            Some(i) => Some(PropertyValue::Count(i)),
            None => None,
        }
    } else if str_eq(s, "IFCINTEGER") {
        match integer_of(value) {
            Some(i) => Some(PropertyValue::Integer(i)),
            None => None,
        }
    } else if str_eq(s, "IFCREAL") || str_eq(s, "IFCRATIOMEASURE") || str_eq(s, "IFCNORMALISEDRATIOMEASURE")
        || str_eq(s, "IFCPOSITIVERATIOMEASURE") {
        match float_of(value) {
            Some(f) => Some(PropertyValue::Real(f)),
            None => None,
        }
    } else {
        match value {
            Attribute::Text(t) => Some(PropertyValue::Text(t.clone())),
            Attribute::Enum(e) => Some(boolean_or_text(e.as_str())),
            other => property_value(other),
        }
    }
}

}
