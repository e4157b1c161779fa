//! Reading IFC into the semantic model: the projection layer between `ifc-lite-core`'s
//! decoded entities and the model's elements and commands.
//!
//! Imported IFC is untrusted input. Nothing here fails on a malformed file: every problem
//! becomes an [`ImportWarning`] and the import continues. Identities are decoded by
//! `ifc-lite-core`, whose answers this module takes as they come; what it does with them is
//! stated exactly.

use vstd::prelude::*;
use crate::attribute::{
    as_ref, as_ref_list, attr, coordinates, float_of, integer_of, property_value, real_of, ref_list_of, ref_of,
    string_attr, attribute_at, text_at, Attribute, Entity, EntityKind,
};
use crate::backend::{ImportReport, ImportWarning};
use crate::command::{CommandView, ModelCommand};
use crate::element::{clone_id_opt, ElementRecord, ElementView, IfcClass, Placement};
use crate::floatbits::{nan, neg, negate, negative, ONE};
use crate::id::{valid_id, GlobalId};
use crate::model::{counters_at_most, lemma_step_counters, step, Model, ModelState};
use crate::property::PropertyValue;
use crate::reader::{class_of, native_class, IfcLiteBackend};
use crate::text::upper;
use crate::representation::Representation;
use crate::schema::{detected, IfcSchema};
use crate::backend::IfcError;
use crate::text::{owned, push_str, str_eq};
use crate::textmap::TextMap;
use ifc_lite_core::AttributeValue;
use std::collections::BTreeMap;

verus! {

#[verifier::external_type_specification]
#[verifier::external_body]
pub struct ExEntityScanner<'a>(ifc_lite_core::EntityScanner<'a>);

#[verifier::external_type_specification]
#[verifier::external_body]
pub struct ExEntityDecoder<'a>(ifc_lite_core::EntityDecoder<'a>);

#[verifier::external_type_specification]
#[verifier::external_body]
pub struct ExDecodedEntity(ifc_lite_core::DecodedEntity);

#[verifier::external_type_specification]
#[verifier::external_body]
pub struct ExIfcType(ifc_lite_core::IfcType);

#[verifier::external_type_specification]
#[verifier::external_body]
pub struct ExAttributeValue(ifc_lite_core::AttributeValue);

/// The records of the data section that a scanner finds, in file order: express id and keyword.
pub uninterp spec fn records(bytes: Seq<u8>) -> Seq<(u32, Seq<char>)>;

/// The records a scanner has yet to return.
pub uninterp spec fn scanner_rest(s: ifc_lite_core::EntityScanner<'_>) -> Seq<(u32, Seq<char>)>;

/// The schema type a keyword names.
pub uninterp spec fn keyword_type(k: Seq<char>) -> ifc_lite_core::IfcType;

/// Whether a schema type is a product.
pub uninterp spec fn product_type(t: ifc_lite_core::IfcType) -> bool;

/// `ifc_lite_core::EntityScanner::new`: a scanner over the data section. Claims that what it
/// will return is a function of the bytes, named `records`, and that there are no more
/// records than bytes, each starting at its own `#`. It only records the bytes and a start
/// position (scanner.rs, `new`), so it returns on any input.
#[verifier::external_body]
fn scanner_for<'a>(bytes: &'a [u8]) -> (r: ifc_lite_core::EntityScanner<'a>)
    ensures
        scanner_rest(r) == records(bytes@),
        scanner_rest(r).len() <= bytes@.len(),
{
    ifc_lite_core::EntityScanner::new(bytes)
}

/// `ifc_lite_core::EntityScanner::next_entity`: the next record's express id and keyword.
/// Claims that it returns the first record the scanner has yet to return and moves past it,
/// and `None` once there is none. Malformed records are
/// skipped and noted rather than refused (scanner.rs, `next_entity`, which keeps
/// `malformed_record_starts`), and the end of the bytes gives `None`.
#[verifier::external_body]
fn next_entity(scanner: &mut ifc_lite_core::EntityScanner<'_>) -> (r: Option<(u32, String)>)
    ensures
        scanner_rest(*old(scanner)).len() == 0 ==> r is None && scanner_rest(*final(scanner)) == scanner_rest(*old(scanner)),
        scanner_rest(*old(scanner)).len() > 0 ==> (r matches Some((id, k)) && (id, k@) == scanner_rest(*old(scanner))[0])
            && scanner_rest(*final(scanner)) == scanner_rest(*old(scanner)).drop_first(),
{
    match scanner.next_entity() {
        Some((id, keyword, _, _)) => Some((id, keyword.to_string())),
        None => None,
    }
}

/// The bytes a decoder reads.
pub uninterp spec fn decoder_source(d: ifc_lite_core::EntityDecoder<'_>) -> Seq<u8>;

/// What decoding the record with an express id from some bytes gives, `None` where there is no
/// such record or it does not parse.
pub uninterp spec fn decoded(bytes: Seq<u8>, id: u32) -> Option<ifc_lite_core::DecodedEntity>;

/// `ifc_lite_core::EntityDecoder::new`: a decoder over the bytes, which indexes them on first
/// use. Claims that it reads these bytes.
#[verifier::external_body]
fn decoder_for<'a>(bytes: &'a [u8]) -> (r: ifc_lite_core::EntityDecoder<'a>)
    ensures
        decoder_source(r) == bytes@,
{
    ifc_lite_core::EntityDecoder::new(bytes)
}

/// `ifc_lite_core::EntityDecoder::decode_by_id`, with its error dropped.
///
/// Claims that the result is a function of the decoder's bytes and the id, named `decoded`,
/// and that the decoder still reads the same bytes. The decoder's cache and index only
/// remember what those bytes give; a missing id or a record that does not parse is an `Err`
/// (decoder.rs, `decode_by_id` and `decode_at`), not a panic.
#[verifier::external_body]
fn decode_by_id(decoder: &mut ifc_lite_core::EntityDecoder<'_>, id: u32) -> (r: Option<ifc_lite_core::DecodedEntity>)
    ensures
        decoder_source(*final(decoder)) == decoder_source(*old(decoder)),
        r == decoded(decoder_source(*old(decoder)), id),
{
    decoder.decode_by_id(id).ok()
}

/// `ifc_lite_core::IfcType::from_str`: the schema type a keyword names; a function of the
/// keyword, named `keyword_type`.
#[verifier::external_body]
fn type_of_keyword(keyword: &str) -> (r: ifc_lite_core::IfcType)
    ensures
        r == keyword_type(keyword@),
{
    ifc_lite_core::IfcType::from_str(keyword)
}

/// `ifc_lite_core::IfcType::is_subtype_of(IfcProduct)`: whether the type is a product; a
/// function of the type, named `product_type`.
#[verifier::external_body]
fn is_product(t: &ifc_lite_core::IfcType) -> (r: bool)
    ensures
        r == product_type(*t),
{
    t.is_subtype_of(ifc_lite_core::IfcType::IfcProduct)
}

/// The kind of entity a keyword names: one the reader treats specially, or `Other`.
pub open spec fn keyword_kind(k: Seq<char>) -> EntityKind {
    if k == "IFCEXTRUDEDAREASOLID"@ {
        EntityKind::ExtrudedAreaSolid
    } else if k == "IFCTRIANGULATEDFACESET"@ {
        EntityKind::TriangulatedFaceSet
    } else if k == "IFCPOLYGONALFACESET"@ {
        EntityKind::PolygonalFaceSet
    } else if k == "IFCARBITRARYCLOSEDPROFILEDEF"@ {
        EntityKind::ArbitraryClosedProfileDef
    } else if k == "IFCRECTANGLEPROFILEDEF"@ {
        EntityKind::RectangleProfileDef
    } else if k == "IFCPOLYLINE"@ {
        EntityKind::Polyline
    } else if k == "IFCPROPERTYSET"@ {
        EntityKind::PropertySet
    } else if k == "IFCPROPERTYSINGLEVALUE"@ {
        EntityKind::PropertySingleValue
    } else if k == "IFCRELCONTAINEDINSPATIALSTRUCTURE"@ {
        EntityKind::RelContainedInSpatialStructure
    } else if k == "IFCRELVOIDSELEMENT"@ {
        EntityKind::RelVoidsElement
    } else if k == "IFCRELFILLSELEMENT"@ {
        EntityKind::RelFillsElement
    } else if k == "IFCRELDEFINESBYPROPERTIES"@ {
        EntityKind::RelDefinesByProperties
    } else if k == "IFCRELDEFINESBYTYPE"@ {
        EntityKind::RelDefinesByType
    } else {
        EntityKind::Other
    }
}

/// The kind of entity a keyword names.
fn kind_of_keyword(k: &str) -> (r: EntityKind)
    ensures
        r == keyword_kind(k@),
{
    if str_eq(k, "IFCEXTRUDEDAREASOLID") {
        EntityKind::ExtrudedAreaSolid
    } else if str_eq(k, "IFCTRIANGULATEDFACESET") {
        EntityKind::TriangulatedFaceSet
    } else if str_eq(k, "IFCPOLYGONALFACESET") {
        EntityKind::PolygonalFaceSet
    } else if str_eq(k, "IFCARBITRARYCLOSEDPROFILEDEF") {
        EntityKind::ArbitraryClosedProfileDef
    } else if str_eq(k, "IFCRECTANGLEPROFILEDEF") {
        EntityKind::RectangleProfileDef
    } else if str_eq(k, "IFCPOLYLINE") {
        EntityKind::Polyline
    } else if str_eq(k, "IFCPROPERTYSET") {
        EntityKind::PropertySet
    } else if str_eq(k, "IFCPROPERTYSINGLEVALUE") {
        EntityKind::PropertySingleValue
    } else if str_eq(k, "IFCRELCONTAINEDINSPATIALSTRUCTURE") {
        EntityKind::RelContainedInSpatialStructure
    } else if str_eq(k, "IFCRELVOIDSELEMENT") {
        EntityKind::RelVoidsElement
    } else if str_eq(k, "IFCRELFILLSELEMENT") {
        EntityKind::RelFillsElement
    } else if str_eq(k, "IFCRELDEFINESBYPROPERTIES") {
        EntityKind::RelDefinesByProperties
    } else if str_eq(k, "IFCRELDEFINESBYTYPE") {
        EntityKind::RelDefinesByType
    } else {
        EntityKind::Other
    }
}

/// The keyword of a schema type.
pub uninterp spec fn type_keyword(t: ifc_lite_core::IfcType) -> Seq<char>;

/// The attribute names of a schema type, in schema order.
pub uninterp spec fn type_names(t: ifc_lite_core::IfcType) -> Seq<Seq<char>>;

/// The schema type of a decoded entity.
pub uninterp spec fn entity_type(e: ifc_lite_core::DecodedEntity) -> ifc_lite_core::IfcType;

/// The attributes of a decoded entity, converted one for one.
pub uninterp spec fn entity_attributes(e: ifc_lite_core::DecodedEntity) -> Seq<Attribute>;

/// `ifc_lite_core::IfcType::as_str`: the type's keyword. Claims it is a function of the type,
/// named `type_keyword`.
#[verifier::external_body]
fn keyword_of(t: &ifc_lite_core::IfcType) -> (r: String)
    ensures
        r@ == type_keyword(*t),
{
    t.as_str().to_string()
}

/// `ifc_lite_core::IfcType::attribute_names`: the type's attributes in schema order. Claims
/// they are a function of the type, named `type_names`.
#[verifier::external_body]
fn names_of(t: &ifc_lite_core::IfcType) -> (r: Vec<String>)
    ensures
        r@.map_values(|n: String| n@) == type_names(*t),
{
    t.attribute_names().iter().map(|n| n.to_string()).collect()
}

/// The `ifc_type` field of a decoded entity, named `entity_type`.
#[verifier::external_body]
fn type_of_entity(e: &ifc_lite_core::DecodedEntity) -> (r: ifc_lite_core::IfcType)
    ensures
        r == entity_type(*e),
{
    e.ifc_type.clone()
}

/// The `attributes` field of a decoded entity, each value converted one for one; named
/// `entity_attributes`.
#[verifier::external_body]
fn attributes_of(e: &ifc_lite_core::DecodedEntity) -> (r: Vec<Attribute>)
    ensures
        r@ == entity_attributes(*e),
{
    e.attributes.iter().map(attribute_of).collect()
}

/// An `ifc_lite_core::AttributeValue` as an [`Attribute`], variant for variant, reals by
/// their bits.
#[verifier::external_body]
fn attribute_of(v: &AttributeValue) -> (r: Attribute) {
    match v {
        AttributeValue::EntityRef(r) => Attribute::EntityRef(*r),
        AttributeValue::String(s) => Attribute::Text(s.clone()),
        AttributeValue::Integer(i) => Attribute::Integer(*i),
        AttributeValue::Float(f) => Attribute::Real(f.to_bits()),
        AttributeValue::Binary(s) => Attribute::Binary(s.clone()),
        AttributeValue::Enum(e) => Attribute::Enum(e.clone()),
        AttributeValue::List(items) => Attribute::List(items.iter().map(attribute_of).collect()),
        AttributeValue::Typed { name, value } => Attribute::Typed { name: name.to_string(), value: Box::new(attribute_of(value)) },
        AttributeValue::Null => Attribute::Null,
        AttributeValue::Derived => Attribute::Derived,
    }
}

/// What `String::from_utf8_lossy` makes of some bytes.
pub uninterp spec fn lossy_text(bytes: Seq<u8>) -> Seq<char>;

/// `String::from_utf8_lossy`, owned.
///
/// Claims only that the text is a function of the bytes, named `lossy_text`.
#[verifier::external_body]
fn lossy(bytes: &[u8]) -> (r: String)
    ensures
        r@ == lossy_text(bytes@),
{
    String::from_utf8_lossy(bytes).into_owned()
}

/// `e` is the library's form of the decoded record `d` with express id `id`.
pub open spec fn entity_of(e: Entity, id: u32, d: ifc_lite_core::DecodedEntity) -> bool {
    &&& e.id == id
    &&& e.keyword@ == type_keyword(entity_type(d))
    &&& e.kind == keyword_kind(e.keyword@)
    &&& e.names@.map_values(|n: String| n@) == type_names(entity_type(d))
    &&& e.attributes@ == entity_attributes(d)
}

/// `r` is what decoding `id` from `bytes` gives, in the library's form.
pub open spec fn decodes_as(bytes: Seq<u8>, id: u32, r: Option<Entity>) -> bool {
    match decoded(bytes, id) {
        None => r is None,
        Some(d) => r matches Some(e) && entity_of(e, id, d),
    }
}

/// Decode one entity, by express id.
fn decode(decoder: &mut ifc_lite_core::EntityDecoder<'_>, id: u32) -> (r: Option<Entity>)
    ensures
        r matches Some(e) ==> e.id == id && e.kind == keyword_kind(e.keyword@),
        decodes_as(decoder_source(*old(decoder)), id, r),
        decoder_source(*final(decoder)) == decoder_source(*old(decoder)),
{
    match decode_by_id(decoder, id) {
        Some(d) => {
            let t = type_of_entity(&d);
            let keyword = keyword_of(&t);
            Some(Entity {
                id,
                kind: kind_of_keyword(keyword.as_str()),
                keyword,
                names: names_of(&t),
                attributes: attributes_of(&d),
            })
        },
        None => None,
    }
}

/// How far the head of a file is read for its schema.
pub const HEAD_BYTES: usize = 8192;

/// The head of a file, as text.
pub fn head_text(bytes: &[u8]) -> (r: String)
    ensures
        r@ == lossy_text(bytes@.take(if bytes@.len() < 8192 { bytes@.len() as int } else { 8192 })),
{
    let n = if bytes.len() < HEAD_BYTES { bytes.len() } else { HEAD_BYTES };
    let mut head: Vec<u8> = Vec::new();
    let mut i: usize = 0;
    while i < n
        invariant
            i <= n <= bytes.len(),
            head@ == bytes@.take(i as int),
        decreases n - i,
    {
        head.push(bytes[i]);
        proof {
            assert(head@ =~= bytes@.take(i + 1));
        }
        i += 1;
    }
    lossy(head.as_slice())
}

/// The relationships the reader applies, by the entity kind that expresses them.
pub open spec fn is_relationship(k: EntityKind) -> bool {
    k is RelContainedInSpatialStructure || k is RelVoidsElement || k is RelFillsElement
        || k is RelDefinesByProperties || k is RelDefinesByType
}

/// The product records among some records, as express id and keyword.
pub open spec fn product_records(rs: Seq<(u32, Seq<char>)>) -> Seq<(u32, Seq<char>)> {
    rs.filter(|x: (u32, Seq<char>)| product_type(keyword_type(x.1)))
}

/// The kind of relationship a record that is not a product expresses.
pub open spec fn record_kind(x: (u32, Seq<char>)) -> EntityKind {
    keyword_kind(type_keyword(keyword_type(x.1)))
}

/// The relationship records among some records, with the kind each expresses.
pub open spec fn relationship_records(rs: Seq<(u32, Seq<char>)>) -> Seq<(u32, EntityKind)> {
    rs.filter(|x: (u32, Seq<char>)| !product_type(keyword_type(x.1)) && is_relationship(record_kind(x))).map_values(
        |x: (u32, Seq<char>)| (x.0, record_kind(x)),
    )
}

/// Pass one: classify. Products become elements; relationships are noted for later, because
/// a relationship can only be applied once both ends exist: the file's product records and
/// its relationship records, each in file order.
fn classify(bytes: &[u8]) -> (r: (Vec<(u32, String)>, Vec<(u32, EntityKind)>))
    ensures
        forall|i: int| 0 <= i < r.1@.len() ==> is_relationship((#[trigger] r.1@[i]).1),
        r.0@.map_values(|p: (u32, String)| (p.0, p.1@)) == product_records(records(bytes@)),
        r.1@ == relationship_records(records(bytes@)),
{
    let ghost all = records(bytes@);
    let mut products: Vec<(u32, String)> = Vec::new();
    let mut relationships: Vec<(u32, EntityKind)> = Vec::new();
    let mut scanner = scanner_for(bytes);
    let mut seen: usize = 0;
    proof {
        reveal(Seq::filter);
        assert(all.take(0) =~= Seq::<(u32, Seq<char>)>::empty());
        assert(product_records(all.take(0)) =~= Seq::<(u32, Seq<char>)>::empty());
        assert(relationship_records(all.take(0)) =~= Seq::<(u32, EntityKind)>::empty());
        assert(products@.map_values(|p: (u32, String)| (p.0, p.1@)) =~= Seq::<(u32, Seq<char>)>::empty());
    }
    loop
        invariant_except_break
            seen <= bytes.len(),
            all == records(bytes@),
            all.len() <= bytes@.len(),
            seen <= all.len(),
            scanner_rest(scanner) == all.skip(seen as int),
            forall|i: int| 0 <= i < relationships@.len() ==> is_relationship((#[trigger] relationships@[i]).1),
            products@.map_values(|p: (u32, String)| (p.0, p.1@)) == product_records(all.take(seen as int)),
            relationships@ == relationship_records(all.take(seen as int)),
        ensures
            forall|i: int| 0 <= i < relationships@.len() ==> is_relationship((#[trigger] relationships@[i]).1),
            products@.map_values(|p: (u32, String)| (p.0, p.1@)) == product_records(all),
            relationships@ == relationship_records(all),
        decreases bytes.len() - seen,
    {
        if seen >= bytes.len() {
            proof {
                assert(all.take(seen as int) =~= all);
            }
            break;
        }
        let ghost pre = all.take(seen as int);
        match next_entity(&mut scanner) {
            None => {
                proof {
                    assert(all.take(seen as int) =~= all);
                }
                break;
            },
            Some((id, keyword)) => {
                let ghost rec = all[seen as int];
                assert(all.take(seen + 1) =~= pre.push(rec));
                let t = type_of_keyword(keyword.as_str());
                let ghost old_p = products@;
                let ghost old_r = relationships@;
                proof {
                    pre.lemma_filter_push(rec, |x: (u32, Seq<char>)| product_type(keyword_type(x.1)));
                    pre.lemma_filter_push(rec, |x: (u32, Seq<char>)| !product_type(keyword_type(x.1)) && is_relationship(record_kind(x)));
                }
                if is_product(&t) {
                    products.push((id, keyword));
                    proof {
                        assert(products@.map_values(|p: (u32, String)| (p.0, p.1@)) =~= old_p.map_values(|p: (u32, String)| (p.0, p.1@)).push(rec));
                        assert(relationship_records(pre.push(rec)) =~= relationship_records(pre));
                    }
                } else {
                    let k = kind_of_keyword(keyword_of(&t).as_str());
                    match k {
                        EntityKind::RelContainedInSpatialStructure | EntityKind::RelVoidsElement
                        | EntityKind::RelFillsElement | EntityKind::RelDefinesByProperties
                        | EntityKind::RelDefinesByType => {
                            relationships.push((id, k));
                            proof {
                                assert(relationship_records(pre.push(rec)) =~= relationship_records(pre).push((id, k)));
                            }
                        },
                        _ => {
                            proof {
                                assert(relationship_records(pre.push(rec)) =~= relationship_records(pre));
                            }
                        },
                    }
                }
            },
        }
        seen += 1;
        proof {
            assert(all.skip(seen as int) =~= all.skip(seen - 1).drop_first());
        }
    }
    (products, relationships)
}

/// An identity's characters are ASCII, one byte each.
proof fn lemma_valid_id_bytes(s: &str)
    requires
        valid_id(s@),
    ensures
        s.len() == 22,
{
    assert(vstd::string::is_ascii(s)) by {
        assert forall|i: int| 0 <= i < s@.len() implies '\0' <= #[trigger] s@[i] <= '\u{7f}' by {
            assert(crate::id::digit_value(s@[i]) is Some);
        }
    }
    vstd::string::is_ascii_spec_bytes(s);
}

/// The identity an element gets from the raw `GlobalId` it was read with, given the
/// identities already taken: the raw one when it is valid and new; a fresh one, with a
/// warning, when it is taken or invalid; a fresh one, quietly, when there was none.
pub fn choose_identity(
    raw: Option<String>,
    seen: &mut TextMap<bool>,
    warnings: &mut Vec<ImportWarning>,
) -> (r: GlobalId)
    ensures
        valid_id(r@),
        match raw {
            None => final(seen)@ == old(seen)@ && final(warnings)@ == old(warnings)@,
            Some(s) => if valid_id(s@) && !old(seen)@.contains_key(s@) {
                &&& r@ == s@
                &&& final(seen)@.dom() == old(seen)@.dom().insert(s@)
                &&& final(warnings)@ == old(warnings)@
            } else if valid_id(s@) {
                &&& final(seen)@.dom() == old(seen)@.dom().insert(r@)
                &&& final(warnings)@.len() == old(warnings)@.len() + 1
                &&& final(warnings)@.drop_last() == old(warnings)@
                &&& final(warnings)@.last() matches ImportWarning::DuplicateGlobalId(d) && d@ == s@
            } else {
                &&& final(seen)@.dom() == old(seen)@.dom().insert(r@)
                &&& final(warnings)@.len() == old(warnings)@.len() + 1
                &&& final(warnings)@.drop_last() == old(warnings)@
                &&& final(warnings)@.last() matches ImportWarning::InvalidGlobalId { raw: w, replacement }
                    && w == s && replacement == r
            },
        },
{
    match raw {
        None => GlobalId::new(),
        Some(s) => match {
            let t = s.as_str();
            proof {
                if valid_id(t@) {
                    lemma_valid_id_bytes(t);
                }
            }
            GlobalId::parse(t)
        } {
            Ok(parsed) => {
                if !seen.contains_key(parsed.as_str()) {
                    seen.insert(owned(parsed.as_str()), true);
                    proof {
                        assert(seen@.dom() =~= old(seen)@.dom().insert(s@));
                    }
                    parsed
                } else {
                    // Common in files assembled from other files. Keeping both matters more
                    // than keeping the identity, so the second gets a fresh one.
                    warnings.push(ImportWarning::DuplicateGlobalId(parsed));
                    let fresh = GlobalId::new();
                    seen.insert(owned(fresh.as_str()), true);
                    proof {
                        assert(seen@.dom() =~= old(seen)@.dom().insert(fresh@));
                        assert(warnings@.drop_last() =~= old(warnings)@);
                    }
                    fresh
                }
            },
            Err(_) => {
                let replacement = GlobalId::new();
                let kept = replacement.clone();
                warnings.push(ImportWarning::InvalidGlobalId { raw: s, replacement: kept });
                seen.insert(owned(replacement.as_str()), true);
                proof {
                    assert(seen@.dom() =~= old(seen)@.dom().insert(replacement@));
                    assert(warnings@.drop_last() =~= old(warnings)@);
                }
                replacement
            },
        },
    }
}


/// A command a relationship asks for, and the warning its refusal raises, if any.
#[derive(Debug)]
pub struct Planned {
    pub command: ModelCommand,
    pub on_refusal: Option<ImportWarning>,
}

/// The identities of those of `refs` that have one, in order.
pub open spec fn known(refs: Seq<u32>, ids: Map<u32, GlobalId>) -> Seq<GlobalId>
    decreases refs.len(),
{
    if refs.len() == 0 {
        Seq::empty()
    } else {
        let rest = known(refs.drop_last(), ids);
        if ids.contains_key(refs.last()) {
            rest.push(ids[refs.last()])
        } else {
            rest
        }
    }
}

/// The entity ids of product records.
pub open spec fn record_ids(ps: Seq<(u32, String)>) -> Seq<u32> {
    ps.map_values(|p: (u32, String)| p.0)
}

proof fn lemma_known_len(refs: Seq<u32>, ids: Map<u32, GlobalId>)
    ensures
        known(refs, ids).len() <= refs.len(),
    decreases refs.len(),
{
    if refs.len() > 0 {
        lemma_known_len(refs.drop_last(), ids);
    }
}

/// The references an attribute names, or none.
pub open spec fn refs_at(e: Entity, name: Seq<char>) -> Seq<u32> {
    match attribute_at(e, name) {
        Some(a) => match ref_list_of(a) {
            Some(s) => s,
            None => Seq::empty(),
        },
        None => Seq::empty(),
    }
}

/// The reference an attribute holds.
pub open spec fn ref_at(e: Entity, name: Seq<char>) -> Option<u32> {
    match attribute_at(e, name) {
        Some(a) => ref_of(a),
        None => None,
    }
}

/// A dangling-reference warning about `element` under `relationship`.
pub open spec fn dangling(w: ImportWarning, element: GlobalId, relationship: Seq<char>) -> bool {
    w matches ImportWarning::DanglingReference { element: x, relationship: r } && x == element && r@ == relationship
}

/// `IfcRelContainedInSpatialStructure`: every related element that has an identity is put in
/// the relating structure, if that has one; a refusal is a dangling reference.
pub open spec fn containment_planned(plan: Seq<Planned>, e: Entity, ids: Map<u32, GlobalId>) -> bool {
    match ref_at(e, "RelatingStructure"@) {
        Some(s) => if ids.contains_key(s) {
            let targets = known(refs_at(e, "RelatedElements"@), ids);
            &&& plan.len() == targets.len()
            &&& forall|i: int| 0 <= i < plan.len() ==> (#[trigger] plan[i]).command@ == (CommandView::AssignContainer {
                global_id: targets[i],
                container: Some(ids[s]),
            }) && (plan[i].on_refusal matches Some(w) && dangling(w, targets[i], "IfcRelContainedInSpatialStructure"@))
        } else {
            plan.len() == 0
        },
        None => plan.len() == 0,
    }
}

/// A relationship between two entities: when both have identities, the one command joining
/// them, refused as a dangling reference from the first.
pub open spec fn pair_planned(
    plan: Seq<Planned>,
    a: Option<u32>,
    b: Option<u32>,
    ids: Map<u32, GlobalId>,
    voids: bool,
) -> bool {
    match (a, b) {
        (Some(x), Some(y)) => if ids.contains_key(x) && ids.contains_key(y) {
            &&& plan.len() == 1
            &&& plan[0].command@ == (if voids {
                CommandView::AddVoid { host: ids[x], opening: ids[y] }
            } else {
                CommandView::AddFill { opening: ids[x], filler: ids[y] }
            })
            &&& plan[0].on_refusal matches Some(w) && dangling(
                w,
                ids[x],
                if voids { "IfcRelVoidsElement"@ } else { "IfcRelFillsElement"@ },
            )
        } else {
            plan.len() == 0
        },
        _ => plan.len() == 0,
    }
}

/// `IfcRelDefinesByType`: every related object that has an identity is given the type; a
/// refusal raises nothing.
pub open spec fn typing_planned(plan: Seq<Planned>, e: Entity, ids: Map<u32, GlobalId>, type_ref: GlobalId) -> bool {
    let targets = known(refs_at(e, "RelatedObjects"@), ids);
    &&& plan.len() == targets.len()
    &&& forall|i: int| 0 <= i < plan.len() ==> (#[trigger] plan[i]).command@ == (CommandView::AssignType {
        global_id: targets[i],
        type_ref: Some(type_ref),
    }) && plan[i].on_refusal is None
}

/// A dangling-reference warning.
fn dangling_warning(element: &GlobalId, relationship: &str) -> (r: ImportWarning)
    ensures
        dangling(r, *element, relationship@),
{
    ImportWarning::DanglingReference { element: element.clone(), relationship: owned(relationship) }
}

/// The identity an entity was given, if any.
fn identity(ids: &BTreeMap<u32, GlobalId>, id: u32) -> (r: Option<GlobalId>)
    ensures
        match r {
            Some(g) => ids@.contains_key(id) && g == ids@[id],
            None => !ids@.contains_key(id),
        },
{
    broadcast use vstd::laws_cmp::group_laws_cmp;
    match ids.get(&id) {
        Some(g) => Some(g.clone()),
        None => None,
    }
}

/// The identities of those of `refs` that have one.
fn known_ids(refs: &Vec<u32>, ids: &BTreeMap<u32, GlobalId>) -> (r: Vec<GlobalId>)
    ensures
        r@ == known(refs@, ids@),
{
    let mut out: Vec<GlobalId> = Vec::new();
    let mut i: usize = 0;
    while i < refs.len()
        invariant
            i <= refs.len(),
            out@ == known(refs@.take(i as int), ids@),
        decreases refs.len() - i,
    {
        proof {
            assert(refs@.take(i + 1).drop_last() =~= refs@.take(i as int));
        }
        match identity(ids, refs[i]) {
            Some(g) => out.push(g),
            None => {},
        }
        i += 1;
    }
    proof {
        assert(refs@.take(refs.len() as int) =~= refs@);
    }
    out
}

/// The references a named attribute holds, or none.
fn refs_named(e: &Entity, name: &str) -> (r: Vec<u32>)
    ensures
        r@ == refs_at(*e, name@),
{
    match attr(e, name) {
        Some(a) => match as_ref_list(a) {
            Some(v) => v,
            None => Vec::new(),
        },
        None => Vec::new(),
    }
}

/// The reference a named attribute holds.
fn ref_named(e: &Entity, name: &str) -> (r: Option<u32>)
    ensures
        r == ref_at(*e, name@),
{
    match attr(e, name) {
        Some(a) => as_ref(a),
        None => None,
    }
}

/// What `IfcRelContainedInSpatialStructure` asks of the model.
pub fn plan_containment(e: &Entity, ids: &BTreeMap<u32, GlobalId>) -> (r: Vec<Planned>)
    ensures
        containment_planned(r@, *e, ids@),
{
    let mut plan: Vec<Planned> = Vec::new();
    let structure = match ref_named(e, "RelatingStructure") {
        Some(s) => s,
        None => {
            return plan;
        },
    };
    let container = match identity(ids, structure) {
        Some(c) => c,
        None => {
            return plan;
        },
    };
    let targets = known_ids(&refs_named(e, "RelatedElements"), ids);
    let mut i: usize = 0;
    while i < targets.len()
        invariant
            i <= targets.len(),
            plan@.len() == i,
            forall|j: int| 0 <= j < i ==> (#[trigger] plan@[j]).command@ == (CommandView::AssignContainer {
                global_id: targets@[j],
                container: Some(container),
            }) && (plan@[j].on_refusal matches Some(w) && dangling(w, targets@[j], "IfcRelContainedInSpatialStructure"@)),
        decreases targets.len() - i,
    {
        plan.push(Planned {
            command: ModelCommand::AssignContainer { global_id: targets[i].clone(), container: Some(container.clone()) },
            on_refusal: Some(dangling_warning(&targets[i], "IfcRelContainedInSpatialStructure")),
        });
        i += 1;
    }
    plan
}

/// What `IfcRelVoidsElement` or `IfcRelFillsElement` asks of the model.
pub fn plan_pair(a: Option<u32>, b: Option<u32>, ids: &BTreeMap<u32, GlobalId>, voids: bool) -> (r: Vec<Planned>)
    ensures
        pair_planned(r@, a, b, ids@, voids),
{
    let mut plan: Vec<Planned> = Vec::new();
    match (a, b) {
        (Some(x), Some(y)) => {
            match (identity(ids, x), identity(ids, y)) {
                (Some(first), Some(second)) => {
                    let command = if voids {
                        ModelCommand::AddVoid { host: first.clone(), opening: second }
                    } else {
                        ModelCommand::AddFill { opening: first.clone(), filler: second }
                    };
                    let warning = if voids {
                        dangling_warning(&first, "IfcRelVoidsElement")
                    } else {
                        dangling_warning(&first, "IfcRelFillsElement")
                    };
                    plan.push(Planned { command, on_refusal: Some(warning) });
                },
                _ => {},
            }
        },
        _ => {},
    }
    plan
}

/// What `IfcRelDefinesByType` asks of the model, given the type's identity.
pub fn plan_typing(e: &Entity, ids: &BTreeMap<u32, GlobalId>, type_ref: &GlobalId) -> (r: Vec<Planned>)
    ensures
        typing_planned(r@, *e, ids@, *type_ref),
{
    let mut plan: Vec<Planned> = Vec::new();
    let targets = known_ids(&refs_named(e, "RelatedObjects"), ids);
    let mut i: usize = 0;
    while i < targets.len()
        invariant
            i <= targets.len(),
            plan@.len() == i,
            forall|j: int| 0 <= j < i ==> (#[trigger] plan@[j]).command@ == (CommandView::AssignType {
                global_id: targets@[j],
                type_ref: Some(*type_ref),
            }) && plan@[j].on_refusal is None,
        decreases targets.len() - i,
    {
        plan.push(Planned {
            command: ModelCommand::AssignType { global_id: targets[i].clone(), type_ref: Some(type_ref.clone()) },
            on_refusal: None,
        });
        i += 1;
    }
    plan
}


/// The state after each command in turn, each refused one leaving the state as it was.
pub open spec fn settle(s: ModelState, cs: Seq<CommandView>) -> ModelState
    decreases cs.len(),
{
    if cs.len() == 0 {
        s
    } else {
        let next = match step(s, cs[0]) {
            Ok(a) => a.state,
            Err(_) => s,
        };
        settle(next, cs.drop_first())
    }
}

/// The warnings raised by the refused commands of a plan, in order.
pub open spec fn refusals(s: ModelState, plan: Seq<Planned>) -> Seq<ImportWarning>
    decreases plan.len(),
{
    if plan.len() == 0 {
        Seq::empty()
    } else {
        match step(s, plan[0].command@) {
            Ok(a) => refusals(a.state, plan.drop_first()),
            Err(_) => match plan[0].on_refusal {
                Some(w) => seq![w] + refusals(s, plan.drop_first()),
                None => refusals(s, plan.drop_first()),
            },
        }
    }
}

/// The commands of a plan.
pub open spec fn commands_of(plan: Seq<Planned>) -> Seq<CommandView> {
    plan.map_values(|p: Planned| p.command@)
}

/// Whether a command creates an element whose counters are past `b`.
pub open spec fn creates_past(c: CommandView, b: int) -> bool {
    c matches CommandView::CreateElement { element } && (element.representation_revision > b
        || element.semantic_revision > b)
}



/// The floating-point work reading needs that is the model's own: a placement's matrix built
/// from its axes, a placement recovered from a matrix, and half of a dimension. Matrices are
/// column-major `f64` bit patterns.
pub trait PlacementMath {
    /// The matrix of `Placement::new(location, axis, reference)`.
    fn frame(&self, location: [u64; 3], axis: [u64; 3], reference: [u64; 3]) -> [u64; 16];

    /// The placement a matrix describes.
    fn placement_of(&self, matrix: [u64; 16]) -> Placement;

    /// `x * 0.5`.
    fn half(&self, x: u64) -> u64;
}

/// The identity matrix.
pub open spec fn identity_matrix() -> [u64; 16] {
    [ONE, 0, 0, 0, 0, ONE, 0, 0, 0, 0, ONE, 0, 0, 0, 0, ONE]
}

fn unit_matrix() -> (r: [u64; 16])
    ensures
        r == identity_matrix(),
{
    [ONE, 0, 0, 0, 0, ONE, 0, 0, 0, 0, ONE, 0, 0, 0, 0, ONE]
}

/// The product of two matrices, as `glam::DMat4`'s `*` computes it, up to the sign and
/// payload of an entry that comes out NaN.
pub uninterp spec fn matrix_product(a: Seq<u64>, b: Seq<u64>) -> Seq<u64>;

/// The inverse of a matrix, as `glam::DMat4::inverse` computes it, up to the sign and payload
/// of an entry that comes out NaN.
pub uninterp spec fn matrix_inverse(a: Seq<u64>) -> Seq<u64>;

/// A vector under a matrix's linear part, as `glam::DMat4::transform_vector3` computes it, up
/// to the sign and payload of a lane that comes out NaN.
pub uninterp spec fn vector_under(m: Seq<u64>, v: Seq<u64>) -> Seq<u64>;

/// `r` agrees with the named result `s` on its first `n` lanes, up to NaN bits: a lane is NaN
/// exactly where the named one is, and equal to it where it is a number.
pub open spec fn agrees(r: Seq<u64>, s: Seq<u64>, n: int) -> bool {
    forall|i: int| 0 <= i < n ==> nan(#[trigger] r[i]) == nan(s[i]) && (!nan(s[i]) ==> r[i] == s[i])
}

/// `glam::DMat4 * glam::DMat4`, on bit patterns.
///
/// Claims that each entry is the one named by `matrix_product` where that entry is a number,
/// and that an entry is NaN exactly where the named one is; the bits of a NaN entry are left
/// open, as IEEE-754 leaves them.
#[verifier::external_body]
fn product(a: [u64; 16], b: [u64; 16]) -> (r: [u64; 16])
    ensures
        agrees(r@, matrix_product(a@, b@), 16),
{
    bytemuck::cast::<glam::DMat4, [u64; 16]>(
        bytemuck::cast::<[u64; 16], glam::DMat4>(a) * bytemuck::cast::<[u64; 16], glam::DMat4>(b),
    )
}

/// `glam::DMat4::inverse`, on bit patterns.
///
/// Claims that each entry is the one named by `matrix_inverse` where that entry is a number,
/// and that an entry is NaN exactly where the named one is. A singular matrix gives entries
/// that are infinite or NaN rather than a panic: glam asserts only under its `glam-assert`
/// features, which this crate does not turn on.
#[verifier::external_body]
fn inverse(a: [u64; 16]) -> (r: [u64; 16])
    ensures
        agrees(r@, matrix_inverse(a@), 16),
{
    bytemuck::cast::<glam::DMat4, [u64; 16]>(bytemuck::cast::<[u64; 16], glam::DMat4>(a).inverse())
}

/// `glam::DMat4::transform_vector3`, on bit patterns.
///
/// Claims that each lane is the one named by `vector_under` where that lane is a number, and
/// that a lane is NaN exactly where the named one is.
#[verifier::external_body]
fn transform_vector(m: [u64; 16], v: [u64; 3]) -> (r: [u64; 3])
    ensures
        agrees(r@, vector_under(m@, v@), 3),
{
    bytemuck::cast::<glam::DVec3, [u64; 3]>(
        bytemuck::cast::<[u64; 16], glam::DMat4>(m).transform_vector3(bytemuck::cast::<[u64; 3], glam::DVec3>(v)),
    )
}

/// An `IfcPropertySingleValue` with a name and a readable nominal value, as its name and value.
pub fn single_value(e: &Entity) -> (r: Option<(String, PropertyValue)>)
    ensures
        match r {
            Some((n, v)) => e.kind is PropertySingleValue && crate::attribute::text_at(*e, "Name"@) == Some(n@)
                && (attribute_at(*e, "NominalValue"@) matches Some(a) && crate::attribute::property_reading(a, Some(v))),
            None => !(e.kind is PropertySingleValue) || crate::attribute::text_at(*e, "Name"@) is None || (match attribute_at(
                *e,
                "NominalValue"@,
            ) {
                Some(a) => crate::attribute::property_reading(a, None),
                None => true,
            }),
        },
{
    match e.kind {
        EntityKind::PropertySingleValue => {},
        _ => {
            return None;
        },
    }
    let name = match string_attr(e, "Name") {
        Some(n) => n,
        None => {
            return None;
        },
    };
    match attr(e, "NominalValue") {
        Some(a) => match property_value(a) {
            Some(v) => Some((name, v)),
            None => None,
        },
        None => None,
    }
}

/// Every property of a set on every object that has an identity, object by object; a refusal
/// raises nothing.
pub open spec fn properties_planned(
    plan: Seq<Planned>,
    targets: Seq<GlobalId>,
    set: String,
    values: Seq<(String, PropertyValue)>,
) -> bool {
    &&& plan.len() == targets.len() * values.len()
    &&& forall|k: int| 0 <= k < plan.len() ==> (#[trigger] plan[k]).command@ is SetProperty
    &&& forall|i: int, j: int| 0 <= i < targets.len() && 0 <= j < values.len() ==> {
        &&& (#[trigger] plan[i * values.len() + j]).command@ == (CommandView::SetProperty {
            global_id: targets[i],
            set: set,
            name: values[j].0,
            value: Some(values[j].1),
        })
        &&& plan[i * values.len() + j].on_refusal is None
    }
}

/// Row-major positions of earlier rows come before the current row.
proof fn lemma_index_below(a: int, b: int, i: int, n: int)
    by (nonlinear_arith)
    requires
        0 <= a < i,
        0 <= b < n,
    ensures
        0 <= a * n + b < i * n,
{
}

/// What `IfcRelDefinesByProperties` asks of the model, once the set is read.
pub fn plan_properties(
    targets: &Vec<GlobalId>,
    set: &String,
    values: &Vec<(String, PropertyValue)>,
) -> (r: Vec<Planned>)
    requires
        targets@.len() * values@.len() <= usize::MAX,
    ensures
        properties_planned(r@, targets@, *set, values@),
{
    let mut plan: Vec<Planned> = Vec::new();
    let n = values.len();
    let mut i: usize = 0;
    while i < targets.len()
        invariant
            i <= targets.len(),
            n == values@.len(),
            targets@.len() * n <= usize::MAX,
            plan@.len() == i * n,
            forall|k: int| 0 <= k < plan@.len() ==> (#[trigger] plan@[k]).command@ is SetProperty,
            forall|a: int, b: int| 0 <= a < i && 0 <= b < n ==> {
                &&& (#[trigger] plan@[a * n + b]).command@ == (CommandView::SetProperty {
                    global_id: targets@[a],
                    set: *set,
                    name: values@[b].0,
                    value: Some(values@[b].1),
                })
                &&& plan@[a * n + b].on_refusal is None
            },
        decreases targets.len() - i,
    {
        let mut j: usize = 0;
        while j < n
            invariant
                i < targets.len(),
                j <= n,
                n == values@.len(),
                targets@.len() * n <= usize::MAX,
                plan@.len() == i * n + j,
                forall|k: int| 0 <= k < plan@.len() ==> (#[trigger] plan@[k]).command@ is SetProperty,
                forall|a: int, b: int| 0 <= a < i && 0 <= b < n ==> {
                    &&& (#[trigger] plan@[a * n + b]).command@ == (CommandView::SetProperty {
                        global_id: targets@[a],
                        set: *set,
                        name: values@[b].0,
                        value: Some(values@[b].1),
                    })
                    &&& plan@[a * n + b].on_refusal is None
                },
                forall|b: int| 0 <= b < j ==> {
                    &&& (#[trigger] plan@[i * n + b]).command@ == (CommandView::SetProperty {
                        global_id: targets@[i as int],
                        set: *set,
                        name: values@[b].0,
                        value: Some(values@[b].1),
                    })
                    &&& plan@[i * n + b].on_refusal is None
                },
            decreases n - j,
        {
            proof {
                assert((i + 1) * n == i * n + n) by (nonlinear_arith);
                assert(i * n + j < targets@.len() * n) by (nonlinear_arith)
                    requires
                        i < targets@.len(),
                        j < n,
                ;
            }
            let ghost before = plan@;
            plan.push(Planned {
                command: ModelCommand::SetProperty {
                    global_id: targets[i].clone(),
                    set: set.clone(),
                    name: values[j].0.clone(),
                    value: Some(values[j].1.clone()),
                },
                on_refusal: None,
            });
            proof {
                assert forall|a: int, b: int| 0 <= a < i && 0 <= b < n implies #[trigger] plan@[a * n + b] == before[a * n + b] by {
                    lemma_index_below(a, b, i as int, n as int);
                }
            }
            j += 1;
        }
        proof {
            assert((i + 1) * n == i * n + n) by (nonlinear_arith);
            assert forall|a: int, b: int| 0 <= a < i + 1 && 0 <= b < n implies {
                &&& (#[trigger] plan@[a * n + b]).command@ == (CommandView::SetProperty {
                    global_id: targets@[a],
                    set: *set,
                    name: values@[b].0,
                    value: Some(values@[b].1),
                })
                &&& plan@[a * n + b].on_refusal is None
            } by {
                if a == i {
                } else {
                }
            }
        }
        i += 1;
    }
    plan
}


/// The zero-based index a one-based IFC index names, as `(i - 1) as u32` computes it.
pub open spec fn corner(v: i64) -> u32 {
    (v - 1) as u32
}

fn corner_of(v: i64) -> (r: u32)
    ensures
        r == corner(v),
{
    let w: i128 = v as i128 - 1;
    #[verifier::truncate]
    (w as u32)
}

/// The integers among a list of attributes, in order.
pub open spec fn integers_among(items: Seq<Attribute>) -> Seq<i64>
    decreases items.len(),
{
    if items.len() == 0 {
        Seq::empty()
    } else {
        let rest = integers_among(items.drop_last());
        match crate::attribute::integer_of_spec(items.last()) {
            Some(i) => rest.push(i),
            None => rest,
        }
    }
}

fn integers_in(items: &Vec<Attribute>) -> (r: Vec<i64>)
    ensures
        r@ == integers_among(items@),
{
    let mut out: Vec<i64> = Vec::new();
    let mut i: usize = 0;
    while i < items.len()
        invariant
            i <= items.len(),
            out@ == integers_among(items@.take(i as int)),
        decreases items.len() - i,
    {
        proof {
            assert(items@.take(i + 1).drop_last() =~= items@.take(i as int));
        }
        match integer_of(&items[i]) {
            Some(v) => out.push(v),
            None => {},
        }
        i += 1;
    }
    proof {
        assert(items@.take(items.len() as int) =~= items@);
    }
    out
}

/// The faces a list of one-based index triples gives over `n` vertices: each triple with
/// three integers becomes a face, kept only when every corner names a vertex.
pub open spec fn triangle_faces(ts: Seq<Attribute>, n: int) -> Seq<[u32; 3]>
    decreases ts.len(),
{
    if ts.len() == 0 {
        Seq::empty()
    } else {
        let rest = triangle_faces(ts.drop_last(), n);
        match ts.last() {
            Attribute::List(c) => {
                let v = integers_among(c@);
                if v.len() >= 3 {
                    let f = [corner(v[0]), corner(v[1]), corner(v[2])];
                    if f[0] < n && f[1] < n && f[2] < n {
                        rest.push(f)
                    } else {
                        rest
                    }
                } else {
                    rest
                }
            },
            _ => rest,
        }
    }
}

fn faces_of_triangles(ts: &Vec<Attribute>, n: usize) -> (r: Vec<[u32; 3]>)
    ensures
        r@ == triangle_faces(ts@, n as int),
{
    let mut out: Vec<[u32; 3]> = Vec::new();
    let mut i: usize = 0;
    while i < ts.len()
        invariant
            i <= ts.len(),
            out@ == triangle_faces(ts@.take(i as int), n as int),
        decreases ts.len() - i,
    {
        proof {
            assert(ts@.take(i + 1).drop_last() =~= ts@.take(i as int));
        }
        match &ts[i] {
            Attribute::List(c) => {
                let v = integers_in(c);
                if v.len() >= 3 {
                    let f = [corner_of(v[0]), corner_of(v[1]), corner_of(v[2])];
                    if (f[0] as usize) < n && (f[1] as usize) < n && (f[2] as usize) < n {
                        out.push(f);
                    }
                }
            },
            _ => {},
        }
        i += 1;
    }
    proof {
        assert(ts@.take(ts.len() as int) =~= ts@);
    }
    out
}

/// The vertex loop of a polygonal face over `n` vertices: its integers, made zero-based,
/// keeping those that name a vertex.
pub open spec fn face_loop(items: Seq<Attribute>, n: int) -> Seq<u32>
    decreases items.len(),
{
    if items.len() == 0 {
        Seq::empty()
    } else {
        let rest = face_loop(items.drop_last(), n);
        match crate::attribute::integer_of_spec(items.last()) {
            Some(v) => if corner(v) < n {
                rest.push(corner(v))
            } else {
                rest
            },
            None => rest,
        }
    }
}

/// A convex fan over a loop: the first vertex with each consecutive pair after it.
pub open spec fn fan(l: Seq<u32>) -> Seq<[u32; 3]> {
    if l.len() < 3 {
        Seq::empty()
    } else {
        Seq::new((l.len() - 2) as nat, |k: int| [l[0], l[k + 1], l[k + 2]])
    }
}

fn loop_of(items: &Vec<Attribute>, n: usize) -> (r: Vec<u32>)
    ensures
        r@ == face_loop(items@, n as int),
{
    let mut out: Vec<u32> = Vec::new();
    let mut i: usize = 0;
    while i < items.len()
        invariant
            i <= items.len(),
            out@ == face_loop(items@.take(i as int), n as int),
        decreases items.len() - i,
    {
        proof {
            assert(items@.take(i + 1).drop_last() =~= items@.take(i as int));
        }
        match integer_of(&items[i]) {
            Some(v) => {
                let c = corner_of(v);
                if (c as usize) < n {
                    out.push(c);
                }
            },
            None => {},
        }
        i += 1;
    }
    proof {
        assert(items@.take(items.len() as int) =~= items@);
    }
    out
}

/// Append the fan over a loop to `faces`.
fn push_fan(l: &Vec<u32>, faces: &mut Vec<[u32; 3]>)
    ensures
        final(faces)@ == old(faces)@ + fan(l@),
{
    let mut i: usize = 1;
    let ghost start = faces@;
    if l.len() < 3 {
        assert(faces@ =~= start + fan(l@));
        return;
    }
    while i + 1 < l.len()
        invariant
            1 <= i < l.len(),
            l@.len() >= 3,
            faces@ == start + fan(l@).take(i - 1),
        decreases l.len() - i,
    {
        faces.push([l[0], l[i], l[i + 1]]);
        proof {
            assert(fan(l@).take(i as int) =~= fan(l@).take(i - 1).push([l@[0], l@[i as int], l@[i + 1]]));
        }
        i += 1;
    }
    proof {
        assert(fan(l@).take(i - 1) =~= fan(l@));
    }
}

/// The points of a list of coordinate rows: each row with three reals becomes a point.
pub open spec fn row_points(rows: Seq<Attribute>) -> Seq<[u64; 3]>
    decreases rows.len(),
{
    if rows.len() == 0 {
        Seq::empty()
    } else {
        let rest = row_points(rows.drop_last());
        match rows.last() {
            Attribute::List(values) => {
                let c = crate::attribute::reals_among(values@);
                if c.len() >= 3 {
                    rest.push([c[0], c[1], c[2]])
                } else {
                    rest
                }
            },
            _ => rest,
        }
    }
}

fn points_of_rows(rows: &Vec<Attribute>) -> (r: Vec<[u64; 3]>)
    ensures
        r@ == row_points(rows@),
{
    let mut out: Vec<[u64; 3]> = Vec::new();
    let mut i: usize = 0;
    while i < rows.len()
        invariant
            i <= rows.len(),
            out@ == row_points(rows@.take(i as int)),
        decreases rows.len() - i,
    {
        proof {
            assert(rows@.take(i + 1).drop_last() =~= rows@.take(i as int));
        }
        match &rows[i] {
            Attribute::List(values) => {
                let c = crate::attribute::reals_in(values);
                if c.len() >= 3 {
                    out.push([c[0], c[1], c[2]]);
                }
            },
            _ => {},
        }
        i += 1;
    }
    proof {
        assert(rows@.take(rows.len() as int) =~= rows@);
    }
    out
}

/// The same items, last first.
fn reversed(v: Vec<Planned>) -> (r: Vec<Planned>)
    ensures
        r@ == v@.reverse(),
{
    let ghost original = v@;
    let mut from = v;
    let mut out: Vec<Planned> = Vec::new();
    while from.len() > 0
        invariant
            from@.len() + out@.len() == original.len(),
            from@ == original.take(from@.len() as int),
            out@ == original.skip(from@.len() as int).reverse(),
        decreases from.len(),
    {
        let ghost n = from@.len();
        let x = from.pop().unwrap();
        out.push(x);
        proof {
            assert(from@ =~= original.take(n - 1));
            assert(out@ =~= original.skip(n - 1).reverse());
        }
    }
    proof {
        assert(original.skip(0) =~= original);
    }
    out
}

/// The state of one import: the decoder, what has been said about the file, and the
/// identities given to its entities so that relationships can be resolved afterwards.
pub struct Reader<'a> {
    decoder: ifc_lite_core::EntityDecoder<'a>,
    bytes: &'a [u8],
    schema: IfcSchema,
    warnings: Vec<ImportWarning>,
    /// Entity id to the identity given to it.
    identities: BTreeMap<u32, GlobalId>,
    /// Entity id to its `IfcLocalPlacement`.
    placements: BTreeMap<u32, u32>,
    /// World transforms already composed, by placement entity.
    world_cache: BTreeMap<u32, [u64; 16]>,
    /// Entity names met without a native class, with how often.
    unsupported: TextMap<usize>,
    /// The largest counter the model carried when the import began.
    floor: u64,
    /// The model's revision when the import began.
    start: u64,
}

impl<'a> Reader<'a> {
    /// Every counter is within the floor plus one for each command accepted since the start,
    /// which is what lets each command be applied without overflowing one.
    pub closed spec fn fits(&self, m: crate::model::ModelView) -> bool {
        &&& m.revision >= self.start
        &&& counters_at_most(m.state, self.floor + (m.revision - self.start))
    }

    /// The bytes the reader decodes.
    pub closed spec fn source(&self) -> Seq<u8> {
        decoder_source(self.decoder)
    }

    /// The warnings raised so far.
    pub closed spec fn raised(&self) -> Seq<ImportWarning> {
        self.warnings@
    }

    /// Whether `n` more commands can be taken.
    pub closed spec fn room(&self, m: crate::model::ModelView, n: int) -> bool {
        &&& m.revision + n < u64::MAX
        &&& self.floor + (m.revision - self.start) + n + 1 < u64::MAX
    }

    /// Apply one command for the file. A refusal raises its warning, if it has one. A model
    /// whose counters could overflow takes nothing more, which no real import reaches.
    fn apply(&mut self, model: &mut Model, command: ModelCommand, on_refusal: Option<ImportWarning>) -> (r: bool)
        requires
            old(model).wf(),
            old(self).fits(old(model)@),
            !creates_past(command@, old(self).floor as int),
        ensures
            final(self).source() == old(self).source(),
            final(model).wf(),
            final(self).fits(final(model)@),
            final(self).floor == old(self).floor,
            final(self).start == old(self).start,
            final(self).identities == old(self).identities,
            final(self).placements == old(self).placements,
            final(model)@.revision >= old(model)@.revision,
            old(self).room(old(model)@, 1) ==> match step(old(model)@.state, command@) {
                Ok(a) => r && final(model)@.state == a.state && final(model)@.revision == old(model)@.revision + 1
                    && final(self).raised() == old(self).raised(),
                Err(_) => !r && final(model)@ == old(model)@ && final(self).raised() == old(self).raised()
                    + (match on_refusal {
                    Some(w) => seq![w],
                    None => Seq::empty(),
                }),
            },
    {
        let rev = model.revision();
        if rev == u64::MAX || (self.floor as u128) + ((rev - self.start) as u128) + 2 >= (u64::MAX as u128) {
            return false;
        }
        proof {
            let b = self.floor + (rev - self.start);
            model.lemma_wf();
            lemma_step_counters(model@.state, command@, b);
        }
        match model.apply(command) {
            Ok(_) => true,
            Err(_) => {
                match on_refusal {
                    Some(w) => {
                        self.warnings.push(w);
                        proof {
                            assert(self.warnings@ =~= old(self).warnings@ + seq![w]);
                        }
                    },
                    None => {
                        assert(self.warnings@ =~= old(self).warnings@ + Seq::<ImportWarning>::empty());
                    },
                }
                false
            },
        }
    }

    /// Apply a plan, command by command; each refusal raises its warning.
    fn apply_plan(&mut self, model: &mut Model, plan: Vec<Planned>)
        requires
            old(model).wf(),
            old(self).fits(old(model)@),
            forall|i: int| 0 <= i < plan@.len() ==> !creates_past((#[trigger] plan@[i]).command@, old(self).floor as int),
        ensures
            final(self).source() == old(self).source(),
            final(model).wf(),
            final(self).fits(final(model)@),
            final(self).floor == old(self).floor,
            final(self).start == old(self).start,
            final(self).identities == old(self).identities,
            final(self).placements == old(self).placements,
            final(model)@.revision >= old(model)@.revision,
            old(self).room(old(model)@, plan@.len() as int) ==> {
                &&& final(model)@.state == settle(old(model)@.state, commands_of(plan@))
                &&& final(model)@.revision <= old(model)@.revision + plan@.len()
                &&& final(self).raised() == old(self).raised() + refusals(old(model)@.state, plan@)
            },
    {
        let ghost s0 = model@.state;
        let ghost w0 = self.warnings@;
        let ghost roomy = self.room(model@, plan@.len() as int);
        let ghost all = plan@;
        let total = plan.len();
        let mut rest = reversed(plan);
        let mut i: usize = 0;
        proof {
            assert(commands_of(all).skip(0) =~= commands_of(all));
            assert(all.skip(0) =~= all);
            assert(rest@ =~= all.reverse());
        }
        while rest.len() > 0
            invariant
                self.source() == old(self).source(),
                model.wf(),
                self.fits(model@),
                self.floor == old(self).floor,
                self.start == old(self).start,
                self.identities == old(self).identities,
                self.placements == old(self).placements,
                model@.revision >= old(model)@.revision,
                i + rest@.len() == all.len(),
                all.len() == total,
                rest@ == all.skip(i as int).reverse(),
                forall|q: int| 0 <= q < all.len() ==> !creates_past((#[trigger] all[q]).command@, self.floor as int),
                roomy ==> model@.revision <= old(model)@.revision + i,
                roomy == old(self).room(old(model)@, all.len() as int),
                roomy ==> settle(s0, commands_of(all)) == settle(model@.state, commands_of(all.skip(i as int))),
                roomy ==> w0 + refusals(s0, all) == self.warnings@ + refusals(model@.state, all.skip(i as int)),
            decreases rest.len(),
        {
            let ghost before_state = model@.state;
            let ghost before_warnings = self.warnings@;
            let next = rest.pop().unwrap();
            proof {
                assert(all.skip(i as int)[0] == all[i as int]);
                assert(next == all[i as int]);
                assert(all.skip(i as int).drop_first() =~= all.skip(i + 1));
                assert(commands_of(all.skip(i as int)).drop_first() =~= commands_of(all.skip(i + 1)));
                assert(commands_of(all.skip(i as int))[0] == next.command@);
                assert(rest@ =~= all.skip(i + 1).reverse());
            }
            self.apply(model, next.command, next.on_refusal);
            proof {
                if roomy {
                    assert(old(self).room(old(model)@, all.len() as int));
                    match step(before_state, all[i as int].command@) {
                        Ok(a) => {},
                        Err(_) => {
                            assert(self.warnings@ + refusals(model@.state, all.skip(i + 1)) =~= before_warnings
                                + refusals(before_state, all.skip(i as int)));
                        },
                    }
                }
            }
            i += 1;
        }
        proof {
            assert(all.skip(i as int) =~= Seq::<Planned>::empty());
            assert(commands_of(all.skip(i as int)) =~= Seq::<CommandView>::empty());
            if roomy {
                assert(w0 + refusals(s0, all) =~= self.warnings@);
            }
        }
    }
}


/// The head a file's schema is read from.
pub open spec fn head_of(bytes: Seq<u8>) -> Seq<char> {
    lossy_text(bytes.take(if bytes.len() < 8192 { bytes.len() as int } else { 8192 }))
}

/// How deep an `IfcLocalPlacement` chain may nest before it is treated as a cycle.
pub const MAX_PLACEMENT_DEPTH: usize = 64;

/// `z`.
fn unit_z() -> (r: [u64; 3])
    ensures
        r == [0u64, 0u64, ONE],
{
    [0u64, 0u64, ONE]
}

/// `x`.
fn unit_x() -> (r: [u64; 3])
    ensures
        r == [ONE, 0u64, 0u64],
{
    [ONE, 0u64, 0u64]
}

impl<'a> Reader<'a> {
    /// Open a file, reading its schema from the head; a file whose schema cannot be read is
    /// refused.
    fn new(bytes: &'a [u8], model: &Model) -> (r: Result<Self, IfcError>)
        requires
            model.wf(),
        ensures
            match r {
                Ok(rd) => rd.fits(model@) && rd.raised().len() == 0 && detected(head_of(bytes@)) == Some(rd.schema)
                    && rd.source() == bytes@ && rd.bytes@ == bytes@ && rd.identities@ == Map::<u32, GlobalId>::empty()
                    && forall|n: int| #[trigger] import_room(model@, n) ==> rd.room(model@, n),
                Err(e) => detected(head_of(bytes@)) is None && e == IfcError::UnknownSchema,
            },
    {
        let head = head_text(bytes);
        let schema = match IfcSchema::detect(head.as_str()) {
            Ok(s) => s,
            Err(e) => {
                return Err(e);
            },
        };
        let floor = model.max_counter();
        let start = model.revision();
        Ok(Reader {
            decoder: decoder_for(bytes),
            bytes,
            schema,
            warnings: Vec::new(),
            identities: BTreeMap::new(),
            placements: BTreeMap::new(),
            world_cache: BTreeMap::new(),
            unsupported: TextMap::new(),
            floor,
            start,
        })
    }

    /// Count one more entity the model has no native class for.
    fn count_unsupported(&mut self, name: String)
        ensures
            final(self).source() == old(self).source(),
            final(self).floor == old(self).floor,
            final(self).start == old(self).start,
            final(self).warnings == old(self).warnings,
            final(self).identities == old(self).identities,
            final(self).unsupported@ == old(self).unsupported@.insert(
                name@,
                if !old(self).unsupported@.contains_key(name@) {
                    1
                } else if old(self).unsupported@[name@] < usize::MAX {
                    (old(self).unsupported@[name@] + 1) as usize
                } else {
                    usize::MAX
                },
            ),
    {
        let c = match self.unsupported.get(name.as_str()) {
            Some(c) => *c,
            None => 0,
        };
        let next = if c < usize::MAX { c + 1 } else { c };
        self.unsupported.insert(name, next);
    }

    /// The entity's keyword with a note on what it was met as.
    fn noted(keyword: &String, note: &str) -> (r: String)
        ensures
            r@ == keyword@ + note@,
    {
        let mut s = keyword.clone();
        push_str(&mut s, note);
        s
    }

    fn decode(&mut self, id: u32) -> (r: Option<Entity>)
        ensures
            final(self).floor == old(self).floor,
            final(self).start == old(self).start,
            final(self).warnings == old(self).warnings,
            final(self).identities == old(self).identities,
            r matches Some(e) ==> e.id == id && e.kind == keyword_kind(e.keyword@),
            decodes_as(old(self).source(), id, r),
            final(self).source() == old(self).source(),
            final(self).unsupported == old(self).unsupported,
    {
        decode(&mut self.decoder, id)
    }

    /// The `IfcLocalPlacement` a product names.
    fn placement_ref(&mut self, id: u32) -> (r: Option<u32>)
        ensures
            final(self).source() == old(self).source(),
            final(self).floor == old(self).floor,
            final(self).start == old(self).start,
            final(self).warnings == old(self).warnings,
            final(self).identities == old(self).identities,
            r matches Some(p) ==> exists|e: Entity|
                #![trigger attribute_at(e, "ObjectPlacement"@)]
                e.id == id && (attribute_at(e, "ObjectPlacement"@) matches Some(a) && ref_of(a) == Some(p)),
    {
        let e = match self.decode(id) {
            Some(e) => e,
            None => {
                return None;
            },
        };
        match attr(&e, "ObjectPlacement") {
            Some(a) => as_ref(a),
            None => None,
        }
    }

    /// The coordinates of the entity a named attribute refers to.
    fn referenced_coordinates(&mut self, e: &Entity, name: &str, field: &str) -> (r: Option<[u64; 3]>)
        ensures
            final(self).source() == old(self).source(),
            final(self).floor == old(self).floor,
            final(self).start == old(self).start,
            final(self).warnings == old(self).warnings,
            final(self).identities == old(self).identities,
            !(attribute_at(*e, name@) matches Some(Attribute::EntityRef(_))) ==> r is None,
    {
        let reference = match attr(e, name) {
            Some(Attribute::EntityRef(r)) => *r,
            _ => {
                return None;
            },
        };
        match self.decode(reference) {
            Some(target) => coordinates(&target, field),
            None => None,
        }
    }

    /// The matrix of an `IfcAxis2Placement3D`, its absent parts the identity's.
    fn axis_placement<G: PlacementMath>(&mut self, id: u32, geometry: &G) -> (r: [u64; 16])
        ensures
            final(self).source() == old(self).source(),
            final(self).floor == old(self).floor,
            final(self).start == old(self).start,
            final(self).warnings == old(self).warnings,
            final(self).identities == old(self).identities,
    {
        let e = match self.decode(id) {
            Some(e) => e,
            None => {
                return unit_matrix();
            },
        };
        let location = match self.referenced_coordinates(&e, "Location", "Coordinates") {
            Some(p) => p,
            None => [0u64, 0u64, 0u64],
        };
        let axis = match self.referenced_coordinates(&e, "Axis", "DirectionRatios") {
            Some(d) => d,
            None => unit_z(),
        };
        let reference = match self.referenced_coordinates(&e, "RefDirection", "DirectionRatios") {
            Some(d) => d,
            None => unit_x(),
        };
        geometry.frame(location, axis, reference)
    }

    /// The world transform of an `IfcLocalPlacement`, by walking its chain. A chain deeper
    /// than [`MAX_PLACEMENT_DEPTH`] is cut there, so a self-referential file cannot make the
    /// walk endless.
    fn local_placement<G: PlacementMath>(&mut self, id: u32, depth: usize, geometry: &G) -> (r: [u64; 16])
        ensures
            final(self).source() == old(self).source(),
            final(self).floor == old(self).floor,
            final(self).start == old(self).start,
            final(self).warnings == old(self).warnings,
            final(self).identities == old(self).identities,
            depth > MAX_PLACEMENT_DEPTH ==> r == identity_matrix(),
            depth <= MAX_PLACEMENT_DEPTH && old(self).world_cache@.contains_key(id) ==> r == old(self).world_cache@[id],
        decreases MAX_PLACEMENT_DEPTH + 1 - depth,
    {
        broadcast use vstd::laws_cmp::group_laws_cmp;
        if depth > MAX_PLACEMENT_DEPTH {
            return unit_matrix();
        }
        match self.world_cache.get(&id) {
            Some(cached) => {
                return *cached;
            },
            None => {},
        }
        let e = match self.decode(id) {
            Some(e) => e,
            None => {
                return unit_matrix();
            },
        };
        let relative = match attr(&e, "RelativePlacement") {
            Some(Attribute::EntityRef(r)) => self.axis_placement(*r, geometry),
            _ => unit_matrix(),
        };
        let parent = match attr(&e, "PlacementRelTo") {
            Some(Attribute::EntityRef(r)) => self.local_placement(*r, depth + 1, geometry),
            _ => unit_matrix(),
        };
        let result = product(parent, relative);
        self.world_cache.insert(id, result);
        result
    }

    /// The world transform of a product.
    fn world_transform<G: PlacementMath>(&mut self, product_id: u32, geometry: &G) -> (r: [u64; 16])
        ensures
            final(self).source() == old(self).source(),
            final(self).floor == old(self).floor,
            final(self).start == old(self).start,
            final(self).warnings == old(self).warnings,
            final(self).identities == old(self).identities,
            !old(self).placements@.contains_key(product_id) ==> r == identity_matrix(),
    {
        broadcast use vstd::laws_cmp::group_laws_cmp;
        match self.placements.get(&product_id) {
            Some(p) => {
                let p = *p;
                self.local_placement(p, 0, geometry)
            },
            None => unit_matrix(),
        }
    }

    /// The points of a `Coordinates` point list.
    fn point_list(&mut self, item: &Entity) -> (r: Option<Vec<[u64; 3]>>)
        ensures
            final(self).source() == old(self).source(),
            final(self).floor == old(self).floor,
            final(self).start == old(self).start,
            final(self).warnings == old(self).warnings,
            final(self).identities == old(self).identities,
            r matches Some(v) ==> v@.len() > 0,
            !(attribute_at(*item, "Coordinates"@) matches Some(a) && ref_of(a) is Some) ==> r is None,
    {
        let list_ref = match attr(item, "Coordinates") {
            Some(a) => match as_ref(a) {
                Some(r) => r,
                None => {
                    return None;
                },
            },
            None => {
                return None;
            },
        };
        let list = match self.decode(list_ref) {
            Some(l) => l,
            None => {
                return None;
            },
        };
        let vertices = match attr(&list, "CoordList") {
            Some(Attribute::List(rows)) => points_of_rows(rows),
            _ => {
                return None;
            },
        };
        if vertices.len() == 0 {
            None
        } else {
            Some(vertices)
        }
    }

    /// `IfcTriangulatedFaceSet`, the dominant case in real files.
    fn triangulated(&mut self, item: &Entity) -> (r: Option<Representation>)
        ensures
            final(self).source() == old(self).source(),
            final(self).floor == old(self).floor,
            final(self).start == old(self).start,
            final(self).warnings == old(self).warnings,
            final(self).identities == old(self).identities,
            !(attribute_at(*item, "CoordIndex"@) matches Some(Attribute::List(_))) ==> r is None,
            r matches Some(rep) ==> rep matches Representation::TriangulatedFaceSet { vertices, faces } && vertices@.len()
                > 0 && faces@.len() > 0 && (attribute_at(*item, "CoordIndex"@) matches Some(Attribute::List(ts))
                && faces@ == triangle_faces(ts@, vertices@.len() as int)),
    {
        let vertices = match self.point_list(item) {
            Some(v) => v,
            None => {
                return None;
            },
        };
        let faces = match attr(item, "CoordIndex") {
            Some(Attribute::List(triangles)) => faces_of_triangles(triangles, vertices.len()),
            _ => {
                return None;
            },
        };
        if faces.len() == 0 {
            None
        } else {
            Some(Representation::TriangulatedFaceSet { vertices, faces })
        }
    }

    /// `IfcPolygonalFaceSet`: n-gon faces, fanned into triangles.
    fn polygonal(&mut self, item: &Entity) -> (r: Option<Representation>)
        ensures
            final(self).source() == old(self).source(),
            final(self).floor == old(self).floor,
            final(self).start == old(self).start,
            final(self).warnings == old(self).warnings,
            final(self).identities == old(self).identities,
            !(attribute_at(*item, "Faces"@) matches Some(a) && ref_list_of(a) is Some) ==> r is None,
            r matches Some(rep) ==> rep matches Representation::TriangulatedFaceSet { vertices, faces } && vertices@.len()
                > 0 && faces@.len() > 0,
    {
        let vertices = match self.point_list(item) {
            Some(v) => v,
            None => {
                return None;
            },
        };
        let face_refs = match attr(item, "Faces") {
            Some(a) => match as_ref_list(a) {
                Some(v) => v,
                None => {
                    return None;
                },
            },
            None => {
                return None;
            },
        };
        let mut faces: Vec<[u32; 3]> = Vec::new();
        let mut i: usize = 0;
        while i < face_refs.len()
            invariant
                self.source() == old(self).source(),
                i <= face_refs.len(),
                self.floor == old(self).floor,
                self.start == old(self).start,
                self.warnings == old(self).warnings,
                self.identities == old(self).identities,
            decreases face_refs.len() - i,
        {
            match self.decode(face_refs[i]) {
                Some(face) => match attr(&face, "CoordIndex") {
                    Some(Attribute::List(indices)) => {
                        let l = loop_of(indices, vertices.len());
                        push_fan(&l, &mut faces);
                    },
                    _ => {},
                },
                None => {},
            }
            i += 1;
        }
        if faces.len() == 0 {
            None
        } else {
            Some(Representation::TriangulatedFaceSet { vertices, faces })
        }
    }

    /// The profile forms the model can express; anything else is left to degrade.
    fn profile<G: PlacementMath>(&mut self, e: &Entity, geometry: &G) -> (r: Option<Vec<[u64; 2]>>)
        ensures
            final(self).source() == old(self).source(),
            final(self).floor == old(self).floor,
            final(self).start == old(self).start,
            final(self).warnings == old(self).warnings,
            final(self).identities == old(self).identities,
            !(e.kind is ArbitraryClosedProfileDef || e.kind is RectangleProfileDef) ==> r is None,
            e.kind is ArbitraryClosedProfileDef && !(attribute_at(*e, "OuterCurve"@) matches Some(a) && ref_of(a) is Some)
                ==> r is None,
            e.kind is RectangleProfileDef && !(attribute_at(*e, "XDim"@) matches Some(a) && real_of(a) is Some) ==> r is None,
            e.kind is RectangleProfileDef && !(attribute_at(*e, "YDim"@) matches Some(a) && real_of(a) is Some) ==> r is None,
            e.kind is RectangleProfileDef && r is Some ==> (r matches Some(p) && p@ == seq![
                [neg(p@[2][0]), neg(p@[2][1])],
                [p@[2][0], neg(p@[2][1])],
                [p@[2][0], p@[2][1]],
                [neg(p@[2][0]), p@[2][1]],
            ]),
    {
        match e.kind {
            EntityKind::ArbitraryClosedProfileDef => {
                let curve_ref = match attr(e, "OuterCurve") {
                    Some(a) => match as_ref(a) {
                        Some(r) => r,
                        None => {
                            return None;
                        },
                    },
                    None => {
                        return None;
                    },
                };
                let curve = match self.decode(curve_ref) {
                    Some(c) => c,
                    None => {
                        return None;
                    },
                };
                match curve.kind {
                    EntityKind::Polyline => {},
                    _ => {
                        self.count_unsupported(Self::noted(&curve.keyword, " (profile curve)"));
                        return None;
                    },
                }
                let points = match attr(&curve, "Points") {
                    Some(a) => match as_ref_list(a) {
                        Some(v) => v,
                        None => {
                            return None;
                        },
                    },
                    None => {
                        return None;
                    },
                };
                let mut profile: Vec<[u64; 2]> = Vec::new();
                let mut i: usize = 0;
                while i < points.len()
                    invariant
                        self.source() == old(self).source(),
                        i <= points.len(),
                        self.floor == old(self).floor,
                        self.start == old(self).start,
                        self.warnings == old(self).warnings,
                        self.identities == old(self).identities,
                    decreases points.len() - i,
                {
                    let point = match self.decode(points[i]) {
                        Some(p) => p,
                        None => {
                            return None;
                        },
                    };
                    match coordinates(&point, "Coordinates") {
                        Some(c) => profile.push([c[0], c[1]]),
                        None => {
                            return None;
                        },
                    }
                    i += 1;
                }
                let n = profile.len();
                if n > 1 && profile[0][0] == profile[n - 1][0] && profile[0][1] == profile[n - 1][1] {
                    profile.pop();
                }
                Some(profile)
            },
            EntityKind::RectangleProfileDef => {
                let x = match attr(e, "XDim") {
                    Some(a) => match float_of(a) {
                        Some(v) => geometry.half(v),
                        None => {
                            return None;
                        },
                    },
                    None => {
                        return None;
                    },
                };
                let y = match attr(e, "YDim") {
                    Some(a) => match float_of(a) {
                        Some(v) => geometry.half(v),
                        None => {
                            return None;
                        },
                    },
                    None => {
                        return None;
                    },
                };
                let mut profile: Vec<[u64; 2]> = Vec::new();
                profile.push([negate(x), negate(y)]);
                profile.push([x, negate(y)]);
                profile.push([x, y]);
                profile.push([negate(x), y]);
                Some(profile)
            },
            _ => {
                self.count_unsupported(Self::noted(&e.keyword, " (profile)"));
                None
            },
        }
    }

    /// `IfcExtrudedAreaSolid`, the case that stays parametric and editable.
    fn swept_solid<G: PlacementMath>(&mut self, item: &Entity, geometry: &G) -> (r: Option<Representation>)
        ensures
            final(self).source() == old(self).source(),
            final(self).floor == old(self).floor,
            final(self).start == old(self).start,
            final(self).warnings == old(self).warnings,
            final(self).identities == old(self).identities,
            !(attribute_at(*item, "Depth"@) matches Some(a) && real_of(a) is Some) ==> r is None,
            !(attribute_at(*item, "SweptArea"@) matches Some(a) && ref_of(a) is Some) ==> r is None,
            r matches Some(rep) ==> rep is ExtrudedAreaSolid && (attribute_at(*item, "Depth"@) matches Some(a)
                && real_of(a) matches Some(d) && rep->ExtrudedAreaSolid_depth == (if negative(d) {
                neg(d)
            } else {
                d
            })),
    {
        let depth = match attr(item, "Depth") {
            Some(a) => match float_of(a) {
                Some(d) => d,
                None => {
                    return None;
                },
            },
            None => {
                return None;
            },
        };
        let direction = match self.referenced_coordinates(item, "ExtrudedDirection", "DirectionRatios") {
            Some(d) => d,
            None => unit_z(),
        };
        let profile_ref = match attr(item, "SweptArea") {
            Some(a) => match as_ref(a) {
                Some(r) => r,
                None => {
                    return None;
                },
            },
            None => {
                return None;
            },
        };
        let profile_entity = match self.decode(profile_ref) {
            Some(p) => p,
            None => {
                return None;
            },
        };
        let profile = match self.profile(&profile_entity, geometry) {
            Some(p) => p,
            None => {
                return None;
            },
        };
        // The solid's own Position offsets the profile within the element.
        let position = match attr(item, "Position") {
            Some(a) => match as_ref(a) {
                Some(r) => self.axis_placement(r, geometry),
                None => unit_matrix(),
            },
            None => unit_matrix(),
        };
        let oriented = transform_vector(position, direction);
        Some(Representation::extrusion(profile, oriented, depth))
    }
}


/// Settling one more command settles it after the rest.
proof fn lemma_settle_push(s: ModelState, cs: Seq<CommandView>, c: CommandView)
    ensures
        settle(s, cs.push(c)) == settle(settle(s, cs), seq![c]),
    decreases cs.len(),
{
    if cs.len() == 0 {
        assert(cs.push(c) =~= seq![c]);
    } else {
        let next = match step(s, cs[0]) {
            Ok(a) => a.state,
            Err(_) => s,
        };
        assert(cs.push(c).drop_first() =~= cs.drop_first().push(c));
        lemma_settle_push(next, cs.drop_first(), c);
    }
}

/// The commands set a placement on each of `targets`, one each, in order.
pub open spec fn placed(cs: Seq<CommandView>, targets: Seq<GlobalId>) -> bool {
    &&& cs.len() == targets.len()
    &&& forall|k: int| 0 <= k < cs.len() ==> ((#[trigger] cs[k]) matches CommandView::SetPlacement { global_id, .. } && global_id == targets[k])
}

/// What `single_value` reads from an entity: a name and a readable nominal value, or nothing.
pub open spec fn single_read(e: Entity, got: Option<(String, PropertyValue)>) -> bool {
    match got {
        Some((n, v)) => e.kind is PropertySingleValue && crate::attribute::text_at(e, "Name"@) == Some(n@) && (attribute_at(
            e,
            "NominalValue"@,
        ) matches Some(a) && crate::attribute::property_reading(a, Some(v))),
        None => !(e.kind is PropertySingleValue) || crate::attribute::text_at(e, "Name"@) is None || (match attribute_at(
            e,
            "NominalValue"@,
        ) {
            Some(a) => crate::attribute::property_reading(a, None),
            None => true,
        }),
    }
}

/// `values` are the single values read, in order, from the property records `refs` of
/// `bytes`: a record that does not decode, or holds no readable single value, gives none.
pub open spec fn values_read(bytes: Seq<u8>, refs: Seq<u32>, values: Seq<(String, PropertyValue)>) -> bool
    decreases refs.len(),
{
    if refs.len() == 0 {
        values.len() == 0
    } else {
        match decoded(bytes, refs.last()) {
            None => values_read(bytes, refs.drop_last(), values),
            Some(d) => exists|e: Entity, got: Option<(String, PropertyValue)>|
                #![trigger entity_of(e, refs.last(), d), single_read(e, got)]
                entity_of(e, refs.last(), d) && single_read(e, got) && match got {
                    Some(v) => values.len() > 0 && values.last() == v && values_read(bytes, refs.drop_last(), values.drop_last()),
                    None => values_read(bytes, refs.drop_last(), values),
                },
        }
    }
}

/// The name a property set is written under: its own, or `Pset`.
pub open spec fn set_name_of(e: Entity) -> Seq<char> {
    match crate::attribute::text_at(e, "Name"@) {
        Some(t) => t,
        None => "Pset"@,
    }
}

/// What a property definition `def` related to `objects` plans, read from `bytes` with the
/// identities `ids`: where it decodes as a property set with a property list, each single value
/// read from the list set on each related object that has an identity.
pub open spec fn pset_planned(
    bytes: Seq<u8>,
    def: u32,
    objects: Seq<u32>,
    ids: Map<u32, GlobalId>,
    plan: Seq<Planned>,
) -> bool {
    match decoded(bytes, def) {
        None => plan.len() == 0,
        Some(d) => exists|e: Entity|
            #![trigger entity_of(e, def, d)]
            entity_of(e, def, d) && if e.kind is PropertySet && (attribute_at(e, "HasProperties"@) matches Some(a)
                && ref_list_of(a) is Some) {
                let props = ref_list_of(attribute_at(e, "HasProperties"@)->0)->0;
                exists|set: String, values: Seq<(String, PropertyValue)>|
                    #![trigger values_read(bytes, props, values), set@]
                    set@ == set_name_of(e) && values_read(bytes, props, values) && (known(objects, ids).len()
                        * values.len() <= usize::MAX ==> properties_planned(plan, known(objects, ids), set, values))
                        && (known(objects, ids).len() * values.len() > usize::MAX ==> plan.len() == 0)
            } else {
                plan.len() == 0
            },
    }
}

/// Every command sets a property.
pub open spec fn only_sets_properties(cs: Seq<CommandView>) -> bool {
    forall|k: int| 0 <= k < cs.len() ==> (#[trigger] cs[k]) is SetProperty
}

/// The command a relationship of kind `k` applies: containment assigns a container, a void or
/// a fill adds one, typing assigns a type, a property definition sets properties.
pub open spec fn kind_command(k: EntityKind, c: CommandView) -> bool {
    match k {
        EntityKind::RelContainedInSpatialStructure => c is AssignContainer,
        EntityKind::RelVoidsElement => c is AddVoid,
        EntityKind::RelFillsElement => c is AddFill,
        EntityKind::RelDefinesByType => c is AssignType,
        EntityKind::RelDefinesByProperties => c is SetProperty,
        _ => false,
    }
}

/// What a containment, a void or a fill relationship plans for its entity `e`.
pub open spec fn relation_planned(k: EntityKind, plan: Seq<Planned>, e: Entity, ids: Map<u32, GlobalId>) -> bool {
    match k {
        EntityKind::RelContainedInSpatialStructure => containment_planned(plan, e, ids),
        EntityKind::RelVoidsElement => pair_planned(
            plan,
            ref_at(e, "RelatingBuildingElement"@),
            ref_at(e, "RelatedOpeningElement"@),
            ids,
            true,
        ),
        EntityKind::RelFillsElement => pair_planned(
            plan,
            ref_at(e, "RelatingOpeningElement"@),
            ref_at(e, "RelatedBuildingElement"@),
            ids,
            false,
        ),
        _ => false,
    }
}

/// The entity names a body by reference.
pub open spec fn body_referenced(e: Entity) -> bool {
    attribute_at(e, "Representation"@) matches Some(a) && ref_of(a) is Some
}

/// How the element of the product record `(id, keyword)` of `bytes` is made: a record that does
/// not decode makes none; one that does makes an element of the keyword's class, named and
/// typed by object as the record is, in no container, of no type object, at revision zero;
/// its body `failed` exactly when the record names one and the element has none.
pub open spec fn product_made(bytes: Seq<u8>, id: u32, keyword: Seq<char>, made: Option<ElementView>, failed: bool) -> bool {
    match decoded(bytes, id) {
        None => made is None && !failed,
        Some(d) => made matches Some(el) && exists|e: Entity|
            #![trigger entity_of(e, id, d)]
            entity_of(e, id, d) && (failed <==> (body_referenced(e) && el.representation is None)) && text_named(el.name, text_at(e, "Name"@)) && text_named(
                el.object_type,
                text_at(e, "ObjectType"@),
            ) && (native_class(upper(keyword)) matches Some(c) ==> el.class == c) && (native_class(upper(keyword)) is None
                ==> el.class is Other) && el.container is None && el.type_ref is None && el.representation_revision == 0
                && el.semantic_revision == 0,
    }
}

/// The creations of the elements made, in order.
pub open spec fn creations(made: Seq<Option<ElementView>>) -> Seq<CommandView>
    decreases made.len(),
{
    if made.len() == 0 {
        Seq::empty()
    } else {
        creations(made.drop_last()) + match made.last() {
            Some(el) => seq![CommandView::CreateElement { element: el }],
            None => Seq::empty(),
        }
    }
}

/// The identities after those of the elements made from the product records `ids` are added.
pub open spec fn identities_made(start: Map<u32, GlobalId>, ids: Seq<u32>, made: Seq<Option<ElementView>>) -> Map<
    u32,
    GlobalId,
>
    decreases made.len(),
{
    if made.len() == 0 || ids.len() == 0 {
        start
    } else {
        let before = identities_made(start, ids.drop_last(), made.drop_last());
        match made.last() {
            Some(el) => before.insert(ids.last(), el.global_id),
            None => before,
        }
    }
}

/// How many of `flags` are set.
pub open spec fn count_set(flags: Seq<bool>) -> nat
    decreases flags.len(),
{
    if flags.len() == 0 {
        0
    } else {
        count_set(flags.drop_last()) + if flags.last() {
            1nat
        } else {
            0nat
        }
    }
}

/// How many of the commands the model accepts, each taken in the state the earlier ones left.
pub open spec fn accepted(s: ModelState, cs: Seq<CommandView>) -> nat
    decreases cs.len(),
{
    if cs.len() == 0 {
        0
    } else {
        match step(s, cs[0]) {
            Ok(a) => 1 + accepted(a.state, cs.drop_first()),
            Err(_) => accepted(s, cs.drop_first()),
        }
    }
}

/// The commands of each plan, one plan after another.
pub open spec fn flattened(plans: Seq<Seq<Planned>>) -> Seq<CommandView>
    decreases plans.len(),
{
    if plans.len() == 0 {
        Seq::empty()
    } else {
        flattened(plans.drop_last()) + commands_of(plans.last())
    }
}

/// What the relationship record `id` of kind `kind` in `bytes` plans, with the identities `ids`
/// before and `after` it: a containment, a void or a fill as `relation_planned` says; a typing
/// gives its type object an identity (kept where it had one) and assigns it to each related
/// object; a property definition sets its properties; anything else plans nothing.
pub open spec fn record_planned(
    bytes: Seq<u8>,
    id: u32,
    kind: EntityKind,
    ids: Map<u32, GlobalId>,
    after: Map<u32, GlobalId>,
    plan: Seq<Planned>,
) -> bool {
    match decoded(bytes, id) {
        None => plan.len() == 0 && after == ids,
        Some(d) => exists|e: Entity|
            #![trigger entity_of(e, id, d)]
            entity_of(e, id, d) && match kind {
                EntityKind::RelContainedInSpatialStructure | EntityKind::RelVoidsElement
                | EntityKind::RelFillsElement => after == ids && relation_planned(kind, plan, e, ids),
                EntityKind::RelDefinesByType => match ref_at(e, "RelatingType"@) {
                    None => plan.len() == 0 && after == ids,
                    Some(o) => after == ids.insert(o, after[o]) && (ids.contains_key(o) ==> after[o] == ids[o])
                        && typing_planned(plan, e, after, after[o]),
                },
                EntityKind::RelDefinesByProperties => after == ids && match ref_at(e, "RelatingPropertyDefinition"@) {
                    None => plan.len() == 0,
                    Some(def) => pset_planned(bytes, def, refs_at(e, "RelatedObjects"@), ids, plan),
                },
                _ => plan.len() == 0 && after == ids,
            },
    }
}

/// The whole of what reading `bytes` plans, starting from the identities `ids`: `made[k]` is
/// the element made for the `k`-th product record, `failed[k]` whether its body could not be
/// read, `places` the placements set, and `plans[j]` what the `j`-th
/// relationship record plans between the identities `idss[j]` and `idss[j + 1]`, the first
/// being those of the elements made.
pub open spec fn import_planned(
    bytes: Seq<u8>,
    ids: Map<u32, GlobalId>,
    made: Seq<Option<ElementView>>,
    failed: Seq<bool>,
    places: Seq<CommandView>,
    plans: Seq<Seq<Planned>>,
    idss: Seq<Map<u32, GlobalId>>,
) -> bool {
    let products = product_records(records(bytes));
    let relations = relationship_records(records(bytes));
    &&& made.len() == products.len()
    &&& failed.len() == products.len()
    &&& forall|k: int| 0 <= k < products.len() ==> product_made(bytes, products[k].0, products[k].1, #[trigger] made[k], failed[k])
    &&& placed(places, known(products.map_values(|p: (u32, Seq<char>)| p.0), idss[0]))
    &&& plans.len() == relations.len()
    &&& idss.len() == relations.len() + 1
    &&& idss[0] == identities_made(ids, products.map_values(|p: (u32, Seq<char>)| p.0), made)
    &&& forall|j: int| 0 <= j < relations.len() ==> record_planned(bytes, relations[j].0, relations[j].1, idss[j], idss[j + 1], #[trigger] plans[j])
}

/// Every command reading `bytes` applies, in order: the creations, the placements, then each
/// relationship's plan.
pub open spec fn import_commands(made: Seq<Option<ElementView>>, places: Seq<CommandView>, plans: Seq<Seq<Planned>>) -> Seq<CommandView> {
    creations(made) + places + flattened(plans)
}

proof fn lemma_settle_append(s: ModelState, a: Seq<CommandView>, b: Seq<CommandView>)
    ensures
        settle(s, a + b) == settle(settle(s, a), b),
    decreases b.len(),
{
    if b.len() == 0 {
        assert(a + b =~= a);
    } else {
        lemma_settle_append(s, a, b.drop_last());
        assert(a + b =~= (a + b.drop_last()).push(b.last()));
        assert(b =~= b.drop_last().push(b.last()));
        lemma_settle_push(s, a + b.drop_last(), b.last());
        lemma_settle_push(settle(s, a), b.drop_last(), b.last());
    }
}

proof fn lemma_accepted_push(s: ModelState, cs: Seq<CommandView>, c: CommandView)
    ensures
        accepted(s, cs.push(c)) == accepted(s, cs) + match step(settle(s, cs), c) {
            Ok(_) => 1nat,
            Err(_) => 0nat,
        },
    decreases cs.len(),
{
    if cs.len() == 0 {
        assert(cs.push(c).drop_first() =~= Seq::<CommandView>::empty());
        assert(cs.push(c)[0] == c);
        assert(settle(s, cs) == s);
        assert(accepted(s, cs) == 0);
        reveal_with_fuel(accepted, 2);
    } else {
        let next = match step(s, cs[0]) {
            Ok(a) => a.state,
            Err(_) => s,
        };
        assert(cs.push(c).drop_first() =~= cs.drop_first().push(c));
        assert(cs.push(c)[0] == cs[0]);
        assert(settle(s, cs) == settle(next, cs.drop_first()));
        lemma_accepted_push(next, cs.drop_first(), c);
    }
}

/// Room on a model in view `m` for `n` commands of an import: its revision and its counters
/// can each go up by `n` without overflowing. Every model a person could build has it.
pub open spec fn import_room(m: crate::model::ModelView, n: int) -> bool {
    &&& m.revision + n < u64::MAX
    &&& exists|b: int| 0 <= b && #[trigger] counters_at_most(m.state, b) && b + n + 1 < u64::MAX
}

/// One more of `k` in a count of unsupported entities, saturating.
pub open spec fn bumped_count(m: Map<Seq<char>, usize>, k: Seq<char>) -> usize {
    if !m.contains_key(k) {
        1
    } else if m[k] < usize::MAX {
        (m[k] + 1) as usize
    } else {
        usize::MAX
    }
}

/// The warning that an element's geometry failed, for a reason.
pub open spec fn failure_warning(element: GlobalId, reason: String) -> ImportWarning {
    ImportWarning::GeometryFailed { element, reason }
}

/// `field` holds the text `t`, or nothing where there is none.
pub open spec fn text_named(field: Option<String>, t: Option<Seq<char>>) -> bool {
    match t {
        Some(x) => field matches Some(f) && f@ == x,
        None => field is None,
    }
}

/// Every command is one a relationship of kind `k` applies.
pub open spec fn only_kind(k: EntityKind, cs: Seq<CommandView>) -> bool {
    forall|i: int| 0 <= i < cs.len() ==> kind_command(k, #[trigger] cs[i])
}

impl<'a> Reader<'a> {
    /// Read the body representation, if there is one the model understands.
    ///
    /// `(None, false)` means the element legitimately has no geometry, a storey or a site.
    /// `(None, true)` means it had geometry that could not be read: the element keeps its
    /// semantics and loses its shape, never the other way around.
    fn representation<G: PlacementMath>(&mut self, e: &Entity, global_id: &GlobalId, geometry: &G) -> (r: (
        Option<Representation>,
        bool,
    ))
        ensures
            final(self).source() == old(self).source(),
            final(self).floor == old(self).floor,
            final(self).start == old(self).start,
            final(self).identities == old(self).identities,
            r.0 matches Some(x) ==> crate::representation::valid_model(x@),
            r.0 is Some ==> !r.1,
            !body_referenced(*e) ==> r == (None::<Representation>, false),
            body_referenced(*e) ==> (r.1 <==> r.0 is None),
            !r.1 ==> final(self).raised() == old(self).raised(),
            r.1 ==> (exists|reason: String|
                #![trigger failure_warning(*global_id, reason)]
                final(self).raised() == old(self).raised().push(failure_warning(*global_id, reason)))
                || (final(self).raised() == old(self).raised() && exists|k: Seq<char>|
                #![trigger final(self).unsupported@[k]]
                final(self).unsupported@ == old(self).unsupported@.insert(k, bumped_count(old(self).unsupported@, k))),
    {
        let shape_ref = match attr(e, "Representation") {
            Some(a) => match as_ref(a) {
                Some(r) => r,
                None => {
                    return (None, false);
                },
            },
            None => {
                return (None, false);
            },
        };
        let shape = match self.decode(shape_ref) {
            Some(s) => s,
            None => {
                return self.unreadable(global_id, "the body could not be read");
            },
        };
        let candidates = match attr(&shape, "Representations") {
            Some(a) => match as_ref_list(a) {
                Some(v) => v,
                None => {
                    return self.unreadable(global_id, "the body could not be read");
                },
            },
            None => {
                return self.unreadable(global_id, "the body could not be read");
            },
        };
        // Prefer the body: a file often carries an axis and a footprint too, and importing a
        // wall's centre line as its solid would be quietly absurd.
        let mut chosen: Option<Entity> = None;
        let mut body = false;
        let mut i: usize = 0;
        while i < candidates.len() && !body
            invariant
                self.source() == old(self).source(),
                i <= candidates.len(),
                self.floor == old(self).floor,
                self.start == old(self).start,
                self.identities == old(self).identities,
                self.warnings == old(self).warnings,
                self.unsupported == old(self).unsupported,
            decreases candidates.len() - i,
        {
            match self.decode(candidates[i]) {
                Some(candidate) => {
                    let is_body = match string_attr(&candidate, "RepresentationIdentifier") {
                        Some(id) => str_eq(id.as_str(), "Body"),
                        None => false,
                    };
                    if is_body {
                        chosen = Some(candidate);
                        body = true;
                    } else if chosen.is_none() {
                        chosen = Some(candidate);
                    }
                },
                None => {},
            }
            i += 1;
        }
        let shape_representation = match chosen {
            Some(c) => c,
            None => {
                return self.unreadable(global_id, "the body could not be read");
            },
        };
        let items = match attr(&shape_representation, "Items") {
            Some(a) => match as_ref_list(a) {
                Some(v) => v,
                None => {
                    return self.unreadable(global_id, "the body could not be read");
                },
            },
            None => {
                return self.unreadable(global_id, "the body could not be read");
            },
        };
        if items.len() == 0 {
            return self.unreadable(global_id, "the body could not be read");
        }
        let item = match self.decode(items[0]) {
            Some(it) => it,
            None => {
                return self.unreadable(global_id, "the body could not be read");
            },
        };
        let mut counted = false;
        let result = match item.kind {
            EntityKind::ExtrudedAreaSolid => self.swept_solid(&item, geometry),
            EntityKind::TriangulatedFaceSet => self.triangulated(&item),
            EntityKind::PolygonalFaceSet => self.polygonal(&item),
            _ => {
                let note = Self::noted(&item.keyword, " (geometry)");
                let ghost key = note@;
                self.count_unsupported(note);
                assert(self.unsupported@ == old(self).unsupported@.insert(key, bumped_count(old(self).unsupported@, key)));
                assert(self.unsupported@[key] == bumped_count(old(self).unsupported@, key));
                counted = true;
                None
            },
        };
        match result {
            Some(representation) => {
                if representation.is_valid() {
                    (Some(representation), false)
                } else {
                    self.unreadable(global_id, "representation failed validation")
                }
            },
            None => if counted {
                (None, true)
            } else {
                self.unreadable(global_id, "the body could not be read")
            },
        }
    }

    /// An element's body that could not be read: a warning, and the failure to count.
    fn unreadable(&mut self, global_id: &GlobalId, why: &str) -> (r: (Option<Representation>, bool))
        ensures
            final(self).source() == old(self).source(),
            r == (None::<Representation>, true),
            final(self).floor == old(self).floor,
            final(self).start == old(self).start,
            final(self).identities == old(self).identities,
            final(self).unsupported == old(self).unsupported,
            exists|reason: String|
                #![trigger failure_warning(*global_id, reason)]
                final(self).raised() == old(self).raised().push(failure_warning(*global_id, reason)),
    {
        let reason = owned(why);
        let ghost rv = reason;
        self.warnings.push(ImportWarning::GeometryFailed { element: global_id.clone(), reason });
        assert(self.raised() == old(self).raised().push(failure_warning(*global_id, rv)));
        (None, true)
    }

    /// Build one element: its identity, its class, its name and type label, and its body.
    /// Returns the record and whether its geometry could not be read.
    fn element<G: PlacementMath>(&mut self, id: u32, keyword: &str, seen: &mut TextMap<bool>, geometry: &G) -> (r: Option<
        (ElementRecord, bool),
    >)
        ensures
            final(self).source() == old(self).source(),
            final(self).floor == old(self).floor,
            final(self).start == old(self).start,
            final(self).identities == old(self).identities,
            r matches Some((el, _)) ==> el.representation_revision == 0 && el.semantic_revision == 0,
            r matches Some((el, failed)) ==> (native_class(upper(keyword@)) matches Some(c) ==> el.class == c) && (
            native_class(upper(keyword@)) is None ==> el.class is Other) && el.container is None && el.type_ref is None
                && (el.representation is Some ==> !failed && crate::representation::valid_model(
                el.representation->0@,
            )),
            decoded(old(self).source(), id) is None <==> r is None,
            r matches Some((el, failed)) ==> decoded(old(self).source(), id) is Some && exists|e: Entity|
                #![trigger entity_of(e, id, decoded(old(self).source(), id)->0)]
                entity_of(e, id, decoded(old(self).source(), id)->0) && text_named(el.name, text_at(e, "Name"@))
                    && text_named(el.object_type, text_at(e, "ObjectType"@)) && (failed <==> (body_referenced(e)
                    && el.representation is None)),
    {
        let e = match self.decode(id) {
            Some(e) => e,
            None => {
                return None;
            },
        };
        let global_id = choose_identity(string_attr(&e, "GlobalId"), seen, &mut self.warnings);
        let class = class_of(keyword);
        match class {
            IfcClass::Other(_) => {
                self.count_unsupported(owned(keyword));
            },
            _ => {},
        }
        let mut element = ElementRecord::new(global_id.clone(), class);
        element.name = string_attr(&e, "Name");
        element.object_type = string_attr(&e, "ObjectType");
        let (representation, failed) = self.representation(&e, &global_id, geometry);
        element.representation = representation;
        Some((element, failed))
    }

    /// A stable identity for a type object, taken from its own `GlobalId` where it has a valid
    /// one: type objects are not products, so every instance must point at the same thing.
    fn type_identity(&mut self, entity_id: u32) -> (r: GlobalId)
        ensures
            final(self).source() == old(self).source(),
            final(self).floor == old(self).floor,
            final(self).start == old(self).start,
            final(self).warnings == old(self).warnings,
            final(self).identities@ == old(self).identities@.insert(entity_id, r),
            old(self).identities@.contains_key(entity_id) ==> r == old(self).identities@[entity_id],
    {
        broadcast use vstd::laws_cmp::group_laws_cmp;
        match identity(&self.identities, entity_id) {
            Some(g) => {
                proof {
                    assert(self.identities@.insert(entity_id, g) =~= self.identities@);
                }
                return g;
            },
            None => {},
        }
        let parsed = match self.decode(entity_id) {
            Some(e) => match string_attr(&e, "GlobalId") {
                Some(raw) => match GlobalId::parse(raw.as_str()) {
                    Ok(g) => Some(g),
                    Err(_) => None,
                },
                None => None,
            },
            None => None,
        };
        let chosen = match parsed {
            Some(g) => g,
            None => GlobalId::default(),
        };
        self.identities.insert(entity_id, chosen.clone());
        chosen
    }

    /// `IfcRelDefinesByProperties`: each single value of a property set lands on each related
    /// object that has an identity.
    fn property_set(&mut self, model: &mut Model, definition: u32, objects: &Vec<u32>)
        requires
            old(model).wf(),
            old(self).fits(old(model)@),
        ensures
            final(self).source() == old(self).source(),
            final(model).wf(),
            final(self).fits(final(model)@),
            final(self).floor == old(self).floor,
            final(self).start == old(self).start,
            final(self).identities == old(self).identities,
            exists|cs: Seq<CommandView>| #[trigger] only_sets_properties(cs) && (old(self).room(old(model)@, cs.len() as int) ==> final(model)@.state == settle(old(model)@.state, cs)),
            exists|plan: Seq<Planned>|
                #![trigger pset_planned(old(self).source(), definition, objects@, old(self).identities@, plan)]
                pset_planned(old(self).source(), definition, objects@, old(self).identities@, plan) && (old(self).room(
                    old(model)@,
                    plan.len() as int,
                ) ==> final(model)@.state == settle(old(model)@.state, commands_of(plan)) && final(model)@.revision
                    <= old(model)@.revision + plan.len()),
    {
        proof {
            assert(settle(model@.state, Seq::<CommandView>::empty()) == model@.state);
            assert(only_sets_properties(Seq::<CommandView>::empty()));
            assert(commands_of(Seq::<Planned>::empty()) =~= Seq::<CommandView>::empty());
        }
        let ghost src = self.source();
        let ghost nothing = Seq::<Planned>::empty();
        let set = match self.decode(definition) {
            Some(s) => s,
            None => {
                proof {
                    assert(pset_planned(src, definition, objects@, self.identities@, nothing));
                }
                return;
            },
        };
        proof {
            assert(entity_of(set, definition, decoded(src, definition)->0));
        }
        match set.kind {
            EntityKind::PropertySet => {},
            _ => {
                proof {
                    assert(pset_planned(src, definition, objects@, self.identities@, nothing));
                }
                return;
            },
        }
        let set_name = match string_attr(&set, "Name") {
            Some(n) => n,
            None => owned("Pset"),
        };
        let properties = match attr(&set, "HasProperties") {
            Some(a) => match as_ref_list(a) {
                Some(v) => v,
                None => {
                    proof {
                        assert(pset_planned(src, definition, objects@, self.identities@, nothing));
                    }
                    return;
                },
            },
            None => {
                proof {
                    assert(pset_planned(src, definition, objects@, self.identities@, nothing));
                }
                return;
            },
        };
        let mut values: Vec<(String, PropertyValue)> = Vec::new();
        let mut i: usize = 0;
        proof {
            assert(properties@.take(0) =~= Seq::<u32>::empty());
        }
        while i < properties.len()
            invariant
                i <= properties.len(),
                self.floor == old(self).floor,
                self.start == old(self).start,
                self.identities == old(self).identities,
                self.fits(model@),
                self.source() == src,
                values_read(src, properties@.take(i as int), values@),
            decreases properties.len() - i,
        {
            let ghost pre = properties@.take(i as int);
            let ghost old_values = values@;
            assert(properties@.take(i + 1).drop_last() =~= pre);
            assert(properties@.take(i + 1).last() == properties@[i as int]);
            match self.decode(properties[i]) {
                Some(p) => {
                    let got = single_value(&p);
                    proof {
                        assert(entity_of(p, properties@[i as int], decoded(src, properties@[i as int])->0));
                        assert(single_read(p, got));
                    }
                    match got {
                        Some(v) => {
                            values.push(v);
                            proof {
                                assert(values@.drop_last() =~= old_values);
                            }
                        },
                        None => {},
                    }
                },
                None => {},
            }
            i += 1;
        }
        assert(properties@.take(properties@.len() as int) =~= properties@);
        let targets = known_ids(objects, &self.identities);
        proof {
            assert(set_name@ == set_name_of(set));
            assert(properties@ == ref_list_of(attribute_at(set, "HasProperties"@)->0)->0);
        }
        if targets.len() > 0 && values.len() > usize::MAX / targets.len() {
            proof {
                let t: int = targets@.len() as int;
                let v: int = values@.len() as int;
                let m: int = usize::MAX as int;
                assert(t * v > m) by (nonlinear_arith)
                    requires
                        v > m / t,
                        t > 0,
                ;
                assert(values_read(src, properties@, values@));
                assert(pset_planned(src, definition, objects@, self.identities@, nothing));
            }
            return;
        }
        proof {
            if targets@.len() > 0 {
                let t: int = targets@.len() as int;
                let v: int = values@.len() as int;
                let m: int = usize::MAX as int;
                assert(t * v <= m) by (nonlinear_arith)
                    requires
                        v <= m / t,
                        t > 0,
                ;
            }
        }
        let plan = plan_properties(&targets, &set_name, &values);
        let ghost cs = commands_of(plan@);
        proof {
            assert forall|k: int| 0 <= k < cs.len() implies (#[trigger] cs[k]) is SetProperty by {
                assert(plan@[k].command@ is SetProperty);
            }
            assert(model@ == old(model)@);
        }
        self.apply_plan(model, plan);
        assert(old(self).room(old(model)@, cs.len() as int) ==> model@.state == settle(old(model)@.state, cs));
        assert(forall|k: int| 0 <= k < cs.len() ==> (#[trigger] cs[k]) is SetProperty);
        assert(only_sets_properties(cs));
        proof {
            assert(values_read(src, properties@, values@));
            assert(properties_planned(plan@, known(objects@, old(self).identities@), set_name, values@));
            assert(pset_planned(src, definition, objects@, old(self).identities@, plan@));
        }
    }

    /// Apply one relationship.
    fn relationship<G: PlacementMath>(&mut self, model: &mut Model, id: u32, kind: EntityKind, geometry: &G)
        requires
            old(model).wf(),
            old(self).fits(old(model)@),
        ensures
            final(self).source() == old(self).source(),
            final(model).wf(),
            final(self).fits(final(model)@),
            final(self).floor == old(self).floor,
            final(self).start == old(self).start,
            !is_relationship(kind) ==> final(model)@ == old(model)@,
            exists|cs: Seq<CommandView>| #[trigger] only_kind(kind, cs) && (old(self).room(old(model)@, cs.len() as int)
                ==> final(model)@.state == settle(old(model)@.state, cs)),
            decoded(old(self).source(), id) is None ==> final(model)@ == old(model)@,
            decoded(old(self).source(), id) is Some && (kind is RelContainedInSpatialStructure
                || kind is RelVoidsElement || kind is RelFillsElement) ==> exists|e: Entity, plan: Seq<Planned>|
                #![trigger entity_of(e, id, decoded(old(self).source(), id)->0), commands_of(plan)]
                entity_of(e, id, decoded(old(self).source(), id)->0) && relation_planned(kind, plan, e, old(self).identities@) && (old(self).room(
                    old(model)@,
                    plan.len() as int,
                ) ==> final(model)@.state == settle(old(model)@.state, commands_of(plan))),
            decoded(old(self).source(), id) is Some && kind is RelDefinesByType ==> exists|e: Entity|
                #![trigger entity_of(e, id, decoded(old(self).source(), id)->0)]
                entity_of(e, id, decoded(old(self).source(), id)->0) && (ref_at(e, "RelatingType"@) is None ==> final(model)@ == old(model)@) && (ref_at(
                    e,
                    "RelatingType"@,
                ) matches Some(o) ==> final(self).identities@.contains_key(o) && exists|plan: Seq<Planned>|
                    #![trigger commands_of(plan)]
                    typing_planned(plan, e, final(self).identities@, final(self).identities@[o]) && (old(self).room(
                        old(model)@,
                        plan.len() as int,
                    ) ==> final(model)@.state == settle(old(model)@.state, commands_of(plan)))),
            decoded(old(self).source(), id) is Some && kind is RelDefinesByProperties ==> exists|e: Entity|
                #![trigger entity_of(e, id, decoded(old(self).source(), id)->0)]
                entity_of(e, id, decoded(old(self).source(), id)->0) && (ref_at(e, "RelatingPropertyDefinition"@) is None
                    ==> final(model)@ == old(model)@) && (ref_at(e, "RelatingPropertyDefinition"@) matches Some(def)
                    ==> exists|plan: Seq<Planned>|
                    #![trigger pset_planned(old(self).source(), def, refs_at(e, "RelatedObjects"@), old(self).identities@, plan)]
                    pset_planned(old(self).source(), def, refs_at(e, "RelatedObjects"@), old(self).identities@, plan) && (old(
                        self,
                    ).room(old(model)@, plan.len() as int) ==> final(model)@.state == settle(
                        old(model)@.state,
                        commands_of(plan),
                    ))),
            exists|plan: Seq<Planned>|
                #![trigger record_planned(old(self).source(), id, kind, old(self).identities@, final(self).identities@, plan)]
                record_planned(old(self).source(), id, kind, old(self).identities@, final(self).identities@, plan) && (old(
                    self,
                ).room(old(model)@, plan.len() as int) ==> final(model)@.state == settle(old(model)@.state, commands_of(plan))
                    && final(model)@.revision <= old(model)@.revision + plan.len()),
    {
        let ghost nothing = Seq::<Planned>::empty();
        proof {
            assert(settle(model@.state, Seq::<CommandView>::empty()) == model@.state);
            assert(only_kind(kind, Seq::<CommandView>::empty()));
            assert(commands_of(nothing) =~= Seq::<CommandView>::empty());
        }
        let e = match self.decode(id) {
            Some(e) => e,
            None => {
                assert(record_planned(old(self).source(), id, kind, old(self).identities@, self.identities@, nothing));
                return;
            },
        };
        proof {
            assert(entity_of(e, id, decoded(old(self).source(), id)->0));
        }
        match kind {
            EntityKind::RelContainedInSpatialStructure => {
                let plan = plan_containment(&e, &self.identities);
                let ghost pv = plan@;
                let ghost cs = commands_of(plan@);
                proof {
                    assert forall|i: int| 0 <= i < cs.len() implies kind_command(kind, #[trigger] cs[i]) by {
                        assert(plan@[i].command@ is AssignContainer);
                    }
                }
                self.apply_plan(model, plan);
                assert(only_kind(kind, cs));
                assert(relation_planned(kind, pv, e, old(self).identities@));
                assert(commands_of(pv) == cs);
                assert(record_planned(old(self).source(), id, kind, old(self).identities@, self.identities@, pv));
            },
            EntityKind::RelVoidsElement => {
                let plan = plan_pair(
                    ref_named(&e, "RelatingBuildingElement"),
                    ref_named(&e, "RelatedOpeningElement"),
                    &self.identities,
                    true,
                );
                let ghost pv = plan@;
                let ghost cs = commands_of(plan@);
                proof {
                    assert forall|i: int| 0 <= i < cs.len() implies kind_command(kind, #[trigger] cs[i]) by {
                        assert(plan@[i].command@ is AddVoid);
                    }
                }
                self.apply_plan(model, plan);
                assert(only_kind(kind, cs));
                assert(relation_planned(kind, pv, e, old(self).identities@));
                assert(commands_of(pv) == cs);
                assert(record_planned(old(self).source(), id, kind, old(self).identities@, self.identities@, pv));
            },
            EntityKind::RelFillsElement => {
                let plan = plan_pair(
                    ref_named(&e, "RelatingOpeningElement"),
                    ref_named(&e, "RelatedBuildingElement"),
                    &self.identities,
                    false,
                );
                let ghost pv = plan@;
                let ghost cs = commands_of(plan@);
                proof {
                    assert forall|i: int| 0 <= i < cs.len() implies kind_command(kind, #[trigger] cs[i]) by {
                        assert(plan@[i].command@ is AddFill);
                    }
                }
                self.apply_plan(model, plan);
                assert(only_kind(kind, cs));
                assert(relation_planned(kind, pv, e, old(self).identities@));
                assert(commands_of(pv) == cs);
                assert(record_planned(old(self).source(), id, kind, old(self).identities@, self.identities@, pv));
            },
            EntityKind::RelDefinesByType => {
                let type_object = match ref_named(&e, "RelatingType") {
                    Some(t) => t,
                    None => {
                        assert(record_planned(old(self).source(), id, kind, old(self).identities@, self.identities@, nothing));
                        return;
                    },
                };
                let type_ref = self.type_identity(type_object);
                let plan = plan_typing(&e, &self.identities, &type_ref);
                let ghost pv = plan@;
                let ghost ids_now = self.identities@;
                let ghost cs = commands_of(plan@);
                proof {
                    assert forall|i: int| 0 <= i < cs.len() implies kind_command(kind, #[trigger] cs[i]) by {
                        assert(plan@[i].command@ is AssignType);
                    }
                }
                self.apply_plan(model, plan);
                assert(only_kind(kind, cs));
                assert(self.identities@ == ids_now);
                assert(typing_planned(pv, e, self.identities@, self.identities@[type_object]));
                assert(commands_of(pv) == cs);
                assert(record_planned(old(self).source(), id, kind, old(self).identities@, self.identities@, pv));
            },
            EntityKind::RelDefinesByProperties => {
                let definition = match ref_named(&e, "RelatingPropertyDefinition") {
                    Some(d) => d,
                    None => {
                        assert(record_planned(old(self).source(), id, kind, old(self).identities@, self.identities@, nothing));
                        return;
                    },
                };
                let objects = refs_named(&e, "RelatedObjects");
                let ghost before = *self;
                self.property_set(model, definition, &objects);
                proof {
                    assert(before.source() == old(self).source());
                    assert(before.identities@ == old(self).identities@);
                    assert(forall|n: int| #[trigger] before.room(old(model)@, n) == old(self).room(old(model)@, n));
                    let plan = choose|plan: Seq<Planned>|
                        #![trigger pset_planned(before.source(), definition, objects@, before.identities@, plan)]
                        pset_planned(before.source(), definition, objects@, before.identities@, plan) && (before.room(
                            old(model)@,
                            plan.len() as int,
                        ) ==> model@.state == settle(old(model)@.state, commands_of(plan)) && model@.revision
                            <= old(model)@.revision + plan.len());
                    assert(pset_planned(old(self).source(), definition, refs_at(e, "RelatedObjects"@), old(self).identities@, plan));
                    assert(entity_of(e, id, decoded(old(self).source(), id)->0));
                    assert(record_planned(old(self).source(), id, kind, old(self).identities@, self.identities@, plan));
                    let cs = choose|cs: Seq<CommandView>| #[trigger] only_sets_properties(cs) && (old(self).room(old(model)@, cs.len() as int) ==> model@.state == settle(old(model)@.state, cs));
                    assert forall|i: int| 0 <= i < cs.len() implies kind_command(kind, #[trigger] cs[i]) by {
                        assert(cs[i] is SetProperty);
                    }
                    assert(only_kind(kind, cs));
                }
            },
            _ => {
                assert(record_planned(old(self).source(), id, kind, old(self).identities@, self.identities@, nothing));
            },
        }
    }
}


impl<'a> Reader<'a> {
    /// Pass three: express each element's placement relative to its container.
    ///
    /// IFC nests placements; the model stores one placement per element, relative to what
    /// contains it. Composing to world and dividing by the container's world transform is
    /// right both for a file this library wrote and for one with assemblies inside storeys.
    fn resolve_placements<G: PlacementMath>(
        &mut self,
        model: &mut Model,
        products: &Vec<(u32, String)>,
        containers: &TextMap<u32>,
        geometry: &G,
    )
        requires
            old(model).wf(),
            old(self).fits(old(model)@),
        ensures
            final(model).wf(),
            final(self).fits(final(model)@),
            final(self).floor == old(self).floor,
            final(self).start == old(self).start,
            final(self).identities == old(self).identities,
            final(self).source() == old(self).source(),
            exists|cs: Seq<CommandView>|
                #[trigger] placed(cs, known(record_ids(products@), old(self).identities@)) && (old(
                    self,
                ).room(old(model)@, cs.len() as int) ==> final(model)@.state == settle(old(model)@.state, cs)
                    && final(model)@.revision <= old(model)@.revision + cs.len()),
    {
        let ghost mut cs: Seq<CommandView> = Seq::empty();
        let ghost pids = record_ids(products@);
        proof {
            assert(settle(model@.state, cs) == model@.state);
            assert(pids.take(0) =~= Seq::<u32>::empty());
        }
        let mut i: usize = 0;
        while i < products.len()
            invariant
                self.source() == old(self).source(),
                i <= products.len(),
                model.wf(),
                self.fits(model@),
                self.floor == old(self).floor,
                self.start == old(self).start,
                self.identities == old(self).identities,
                pids == record_ids(products@),
                placed(cs, known(pids.take(i as int), self.identities@)),
                cs.len() <= i,
                model@.revision >= old(model)@.revision,
                old(self).room(old(model)@, cs.len() as int) ==> model@.state == settle(old(model)@.state, cs)
                    && model@.revision <= old(model)@.revision + cs.len(),
            decreases products.len() - i,
        {
            let id = products[i].0;
            proof {
                assert(pids[i as int] == id);
                assert(pids.take(i + 1).drop_last() =~= pids.take(i as int));
                assert(pids.take(i + 1).last() == id);
                assert(known(pids.take(i as int), self.identities@).len() <= i) by {
                    lemma_known_len(pids.take(i as int), self.identities@);
                }
            }
            match identity(&self.identities, id) {
                Some(global_id) => {
                    let world = self.world_transform(id, geometry);
                    let container = match model.get(&global_id) {
                        Some(e) => clone_id_opt(&e.container),
                        None => None,
                    };
                    let container_world = match container {
                        Some(c) => match containers.get(c.as_str()) {
                            Some(entity) => {
                                let entity = *entity;
                                self.world_transform(entity, geometry)
                            },
                            None => unit_matrix(),
                        },
                        None => unit_matrix(),
                    };
                    let relative = product(inverse(container_world), world);
                    let placement = geometry.placement_of(relative);
                    let command = ModelCommand::SetPlacement { global_id, placement };
                    let ghost c = command@;
                    let ghost before = model@;
                    self.apply(model, command, None);
                    proof {
                        lemma_settle_push(old(model)@.state, cs, c);
                        assert(settle(before.state, seq![c]) == match step(before.state, c) {
                            Ok(a) => a.state,
                            Err(_) => before.state,
                        }) by {
                            reveal_with_fuel(settle, 2);
                            assert(seq![c].drop_first() =~= Seq::<CommandView>::empty());
                        }
                        let ghost next = cs.push(c);
                        let ghost targets = known(pids.take(i + 1), self.identities@);
                        assert(targets == known(pids.take(i as int), self.identities@).push(global_id));
                        assert forall|k: int| 0 <= k < next.len() implies ((#[trigger] next[k]) matches CommandView::SetPlacement { global_id, .. } && global_id == targets[k]) by {
                            if k < cs.len() {
                                assert(next[k] == cs[k]);
                            }
                        }
                        if old(self).room(old(model)@, next.len() as int) {
                            assert(old(self).room(old(model)@, cs.len() as int));
                            assert(self.room(before, 1));
                        }
                        cs = next;
                    }
                },
                None => {
                    assert(known(pids.take(i + 1), self.identities@) == known(pids.take(i as int), self.identities@));
                },
            }
            i += 1;
        }
        proof {
            assert(pids.take(i as int) =~= pids);
        }
    }

    /// Room for `a + n` more commands leaves room for `a` now, and for `n` once at most `a`
    /// more were accepted, for any reader with the same counters.
    proof fn lemma_room_split(&self, other: &Self, m0: crate::model::ModelView, m1: crate::model::ModelView, a: int, n: int)
        requires
            self.floor == other.floor,
            self.start == other.start,
            self.room(m0, a + n),
            m1.revision <= m0.revision + a,
            0 <= a,
            0 <= n,
        ensures
            self.room(m0, a),
            other.room(m0, a),
            other.room(m1, n),
    {
    }

    /// The four passes: classify, create elements, resolve placements, apply relationships;
    /// then report what was met without a native class.
    ///
    /// The model ends as the commands planned from the file leave it, each refused one leaving
    /// it as it was; the report counts the elements the model accepted and the bodies that could
    /// not be read.
    fn read_into<G: PlacementMath>(self, model: &mut Model, geometry: &G) -> (r: ImportReport)
        requires
            old(model).wf(),
            self.fits(old(model)@),
            self.bytes@ == self.source(),
        ensures
            final(model).wf(),
            r.schema == self.schema,
            exists|
                made: Seq<Option<ElementView>>,
                failed: Seq<bool>,
                places: Seq<CommandView>,
                plans: Seq<Seq<Planned>>,
                idss: Seq<Map<u32, GlobalId>>,
            |
                #![trigger import_planned(self.source(), self.identities@, made, failed, places, plans, idss)]
                import_planned(self.source(), self.identities@, made, failed, places, plans, idss)
                    && r.geometry_failures == count_set(failed) && (self.room(
                    old(model)@,
                    import_commands(made, places, plans).len() as int,
                ) ==> final(model)@.state == settle(old(model)@.state, import_commands(made, places, plans))
                    && r.elements == accepted(old(model)@.state, creations(made))),
    {
        let schema = self.schema;
        let ghost me = self;
        let ghost src = self.source();
        let ghost ids0 = self.identities@;
        let ghost m0 = model@;
        let ghost s0 = model@.state;
        let mut reader = self;
        let (products, relationships) = classify(reader.bytes);
        let ghost prods = product_records(records(src));
        let ghost pids = prods.map_values(|p: (u32, Seq<char>)| p.0);
        let ghost mut made: Seq<Option<ElementView>> = Seq::empty();
        let ghost mut failed: Seq<bool> = Seq::empty();
        proof {
            assert(products@.map_values(|p: (u32, String)| (p.0, p.1@)) == prods);
            assert(pids.take(0) =~= Seq::<u32>::empty());
            assert(creations(made) =~= Seq::<CommandView>::empty());
            assert(settle(s0, creations(made)) == s0);
        }
        let mut geometry_failures: usize = 0;
        let mut created: usize = 0;
        let mut seen: TextMap<bool> = TextMap::new();
        let mut containers: TextMap<u32> = TextMap::new();
        let mut i: usize = 0;
        while i < products.len()
            invariant
                i <= products.len(),
                model.wf(),
                reader.fits(model@),
                reader.source() == src,
                reader.floor == me.floor,
                reader.start == me.start,
                products@.map_values(|p: (u32, String)| (p.0, p.1@)) == prods,
                pids == prods.map_values(|p: (u32, Seq<char>)| p.0),
                made.len() == i,
                failed.len() == i,
                forall|k: int| 0 <= k < i ==> product_made(src, prods[k].0, prods[k].1, #[trigger] made[k], failed[k]),
                created <= i,
                geometry_failures <= i,
                geometry_failures == count_set(failed),
                reader.identities@ == identities_made(ids0, pids.take(i as int), made),
                me.room(m0, creations(made).len() as int) ==> model@.state == settle(s0, creations(made))
                    && model@.revision <= m0.revision + creations(made).len() && created == accepted(s0, creations(made)),
            decreases products.len() - i,
        {
            let id = products[i].0;
            let ghost before_model = model@;
            let ghost before_made = made;
            let ghost before_failed = failed;
            let ghost cs = creations(made);
            proof {
                assert(prods[i as int] == (products@[i as int].0, products@[i as int].1@));
                assert(pids[i as int] == id);
                assert(pids.take(i + 1).drop_last() =~= pids.take(i as int));
                assert(pids.take(i + 1).last() == id);
            }
            match reader.element(id, products[i].1.as_str(), &mut seen, geometry) {
                Some((element, bad)) => {
                    let ghost ev = element@;
                    if bad {
                        geometry_failures += 1;
                    }
                    reader.identities.insert(id, element.global_id.clone());
                    containers.insert(owned(element.global_id.as_str()), id);
                    match reader.placement_ref(id) {
                        Some(p) => {
                            reader.placements.insert(id, p);
                        },
                        None => {},
                    }
                    let ghost before_reader = reader;
                    let ghost c = CommandView::CreateElement { element: ev };
                    proof {
                        made = made.push(Some(ev));
                        failed = failed.push(bad);
                        assert(made.drop_last() =~= before_made);
                        assert(failed.drop_last() =~= before_failed);
                        assert(creations(made) =~= cs.push(c));
                        if me.room(m0, creations(made).len() as int) {
                            me.lemma_room_split(&before_reader, m0, before_model, cs.len() as int, 1);
                        }
                    }
                    let accepted_now = reader.apply(model, ModelCommand::CreateElement { element: Box::new(element) }, None);
                    if accepted_now {
                        created += 1;
                    }
                    proof {
                        lemma_settle_push(s0, cs, c);
                        lemma_accepted_push(s0, cs, c);
                        assert(settle(before_model.state, seq![c]) == match step(before_model.state, c) {
                            Ok(a) => a.state,
                            Err(_) => before_model.state,
                        }) by {
                            reveal_with_fuel(settle, 2);
                            assert(seq![c].drop_first() =~= Seq::<CommandView>::empty());
                        }
                        assert(forall|k: int| 0 <= k < i ==> made[k] == before_made[k]);
                        assert(forall|k: int| 0 <= k < i ==> failed[k] == before_failed[k]);
                        assert(product_made(src, prods[i as int].0, prods[i as int].1, made[i as int], failed[i as int]));
                    }
                },
                None => {
                    proof {
                        made = made.push(None);
                        failed = failed.push(false);
                        assert(made.drop_last() =~= before_made);
                        assert(failed.drop_last() =~= before_failed);
                        assert(creations(made) =~= cs);
                        assert(forall|k: int| 0 <= k < i ==> made[k] == before_made[k]);
                        assert(forall|k: int| 0 <= k < i ==> failed[k] == before_failed[k]);
                    }
                },
            }
            i += 1;
        }
        proof {
            assert(pids.take(i as int) =~= pids);
            assert(record_ids(products@) =~= pids) by {
                assert forall|k: int| 0 <= k < pids.len() implies record_ids(products@)[k] == pids[k] by {
                    assert(prods[k] == (products@[k].0, products@[k].1@));
                }
            }
        }
        let ghost m1 = model@;
        let ghost r1 = reader;
        reader.resolve_placements(model, &products, &containers, geometry);
        let ghost places = choose|cs: Seq<CommandView>|
            #[trigger] placed(cs, known(record_ids(products@), r1.identities@)) && (r1.room(
                m1,
                cs.len() as int,
            ) ==> model@.state == settle(m1.state, cs) && model@.revision <= m1.revision + cs.len());
        let ghost m2 = model@;
        let ghost ids_rel = reader.identities@;
        let ghost mut plans: Seq<Seq<Planned>> = Seq::empty();
        let ghost mut idss: Seq<Map<u32, GlobalId>> = seq![reader.identities@];
        proof {
            assert(flattened(plans) =~= Seq::<CommandView>::empty());
            assert(settle(m2.state, flattened(plans)) == m2.state);
        }
        let mut k: usize = 0;
        while k < relationships.len()
            invariant
                k <= relationships.len(),
                model.wf(),
                reader.fits(model@),
                reader.source() == src,
                reader.floor == me.floor,
                reader.start == me.start,
                relationships@ == relationship_records(records(src)),
                plans.len() == k,
                idss.len() == k + 1,
                idss[0] == ids_rel,
                idss[k as int] == reader.identities@,
                forall|j: int|
                    0 <= j < k ==> record_planned(src, relationships@[j].0, relationships@[j].1, idss[j], idss[j + 1], #[trigger] plans[j]),
                me.room(m2, flattened(plans).len() as int) ==> model@.state == settle(m2.state, flattened(plans))
                    && model@.revision <= m2.revision + flattened(plans).len(),
            decreases relationships.len() - k,
        {
            let ghost before_model = model@;
            let ghost before_reader = reader;
            let ghost before_plans = plans;
            let ghost before_idss = idss;
            reader.relationship(model, relationships[k].0, relationships[k].1, geometry);
            proof {
                let plan = choose|plan: Seq<Planned>|
                    #![trigger record_planned(before_reader.source(), relationships@[k as int].0, relationships@[k as int].1, before_reader.identities@, reader.identities@, plan)]
                    record_planned(before_reader.source(), relationships@[k as int].0, relationships@[k as int].1, before_reader.identities@, reader.identities@, plan) && (before_reader.room(before_model, plan.len() as int)
                        ==> model@.state == settle(before_model.state, commands_of(plan)) && model@.revision
                        <= before_model.revision + plan.len());
                let fl = flattened(before_plans);
                plans = plans.push(plan);
                idss = idss.push(reader.identities@);
                assert(plans.drop_last() =~= before_plans);
                assert(flattened(plans) == fl + commands_of(plan));
                if me.room(m2, flattened(plans).len() as int) {
                    me.lemma_room_split(&before_reader, m2, before_model, fl.len() as int, commands_of(plan).len() as int);
                    lemma_settle_append(m2.state, fl, commands_of(plan));
                }
                assert(forall|j: int| 0 <= j < k ==> plans[j] == before_plans[j]);
                assert(forall|j: int| 0 <= j <= k ==> idss[j] == before_idss[j]);
            }
            k += 1;
        }
        let ghost creates = creations(made);
        proof {
            let all = import_commands(made, places, plans);
            assert(all == (creates + places) + flattened(plans));
            if me.room(m0, all.len() as int) {
                me.lemma_room_split(&r1, m0, m1, creates.len() as int, (places.len() + flattened(plans).len()) as int);
                r1.lemma_room_split(&me, m1, m2, places.len() as int, flattened(plans).len() as int);
                lemma_settle_append(s0, creates, places);
                lemma_settle_append(s0, creates + places, flattened(plans));
            }
            assert(import_planned(src, ids0, made, failed, places, plans, idss));
        }
        let entries = reader.unsupported.as_slice();
        let mut warnings = reader.warnings;
        let mut j: usize = 0;
        while j < entries.len()
            invariant
                j <= entries.len(),
            decreases entries.len() - j,
        {
            warnings.push(ImportWarning::UnsupportedEntity { entity: entries[j].0.clone(), count: entries[j].1 });
            j += 1;
        }
        ImportReport { schema, elements: created, warnings, geometry_failures }
    }
}

/// Read an IFC file into the model, appending to whatever is already there.
///
/// A file whose schema cannot be read from its head is refused and the model left as it was.
/// Otherwise the import always completes: every problem in the file becomes a warning in the
/// report, and the model stays consistent. What it did is what `imported` says: one element
/// made for each product record that decodes, a placement set on each, then each
/// relationship record's plan, the model ending as those commands leave it, and the report
/// counting the elements accepted and the bodies that could not be read.
pub fn read_ifc<G: PlacementMath>(bytes: &[u8], model: &mut Model, geometry: &G) -> (r: Result<ImportReport, IfcError>)
    requires
        old(model).wf(),
    ensures
        final(model).wf(),
        match r {
            Ok(report) => detected(head_of(bytes@)) == Some(report.schema) && imported(bytes@, old(model)@, final(model)@, report),
            Err(e) => detected(head_of(bytes@)) is None && e == IfcError::UnknownSchema && *final(model) == *old(model),
        },
{
    let reader = match Reader::new(bytes, model) {
        Ok(rd) => rd,
        Err(e) => {
            return Err(e);
        },
    };
    let ghost rd = reader;
    let report = reader.read_into(model, geometry);
    proof {
        let (made, failed, places, plans, idss) = choose|
            made: Seq<Option<ElementView>>,
            failed: Seq<bool>,
            places: Seq<CommandView>,
            plans: Seq<Seq<Planned>>,
            idss: Seq<Map<u32, GlobalId>>,
        |
            #![trigger import_planned(rd.source(), rd.identities@, made, failed, places, plans, idss)]
            import_planned(rd.source(), rd.identities@, made, failed, places, plans, idss)
                && report.geometry_failures == count_set(failed) && (rd.room(
                old(model)@,
                import_commands(made, places, plans).len() as int,
            ) ==> model@.state == settle(old(model)@.state, import_commands(made, places, plans))
                && report.elements == accepted(old(model)@.state, creations(made)));
        assert(import_room(old(model)@, import_commands(made, places, plans).len() as int) ==> rd.room(
            old(model)@,
            import_commands(made, places, plans).len() as int,
        ));
        assert(imported_by(bytes@, old(model)@, model@, report, made, failed, places, plans, idss));
    }
    Ok(report)
}

/// What reading `bytes` into a model in view `before` did, given the elements made, the bodies
/// that failed, the placements set and the relationship plans: all is as `import_planned` says,
/// the report counts the failed bodies, and, where the model had room for every command, it
/// ends as they leave it and the report counts the creations it accepted.
pub open spec fn imported_by(
    bytes: Seq<u8>,
    before: crate::model::ModelView,
    after: crate::model::ModelView,
    report: ImportReport,
    made: Seq<Option<ElementView>>,
    failed: Seq<bool>,
    places: Seq<CommandView>,
    plans: Seq<Seq<Planned>>,
    idss: Seq<Map<u32, GlobalId>>,
) -> bool {
    &&& import_planned(bytes, Map::empty(), made, failed, places, plans, idss)
    &&& report.geometry_failures == count_set(failed)
    &&& import_room(before, import_commands(made, places, plans).len() as int) ==> {
        &&& after.state == settle(before.state, import_commands(made, places, plans))
        &&& report.elements == accepted(before.state, creations(made))
    }
}

/// Reading `bytes` into a model in view `before` left it in view `after` with `report`, as
/// `imported_by` says for some elements made, failed bodies, placements and relationship plans.
pub open spec fn imported(bytes: Seq<u8>, before: crate::model::ModelView, after: crate::model::ModelView, report: ImportReport) -> bool {
    exists|
        made: Seq<Option<ElementView>>,
        failed: Seq<bool>,
        places: Seq<CommandView>,
        plans: Seq<Seq<Planned>>,
        idss: Seq<Map<u32, GlobalId>>,
    |
        #![trigger imported_by(bytes, before, after, report, made, failed, places, plans, idss)]
        imported_by(bytes, before, after, report, made, failed, places, plans, idss)
}


impl IfcLiteBackend {
    /// Read a file into the model, appending to whatever is already there: [`read_ifc`].
    pub fn read<G: PlacementMath>(&self, bytes: &[u8], model: &mut Model, geometry: &G) -> (r: Result<
        ImportReport,
        IfcError,
    >)
        requires
            old(model).wf(),
        ensures
            final(model).wf(),
            match r {
                Ok(report) => detected(head_of(bytes@)) == Some(report.schema) && imported(
                    bytes@,
                    old(model)@,
                    final(model)@,
                    report,
                ),
                Err(e) => detected(head_of(bytes@)) is None && e == IfcError::UnknownSchema && *final(model) == *old(
                    model,
                ),
            },
    {
        read_ifc(bytes, model, geometry)
    }

    /// The reader writes nothing.
    pub fn write(&self, model: &Model, schema: IfcSchema) -> (r: Result<Vec<u8>, IfcError>)
        ensures
            r == Err::<Vec<u8>, IfcError>(IfcError::ReadOnlyBackend { backend: "ifc-lite" }),
    {
        Err(IfcError::ReadOnlyBackend { backend: "ifc-lite" })
    }
}

}
