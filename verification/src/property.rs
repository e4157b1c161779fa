//! Property sets.
//!
//! Backed by a sorted map rather than a hash map: export must be byte-reproducible for a given
//! revision, so iteration order is key order.

use vstd::prelude::*;
use crate::text::seq_lt;
use crate::floatbits::{count_as_real, real_of_count};
use crate::textmap::{keys_of, strictly_sorted, view_values, Duplicate, TextMap};

verus! {

/// A single property value.
///
/// The measure variants carry their IFC measure type because a length and a bare real export
/// differently and compare differently. Reals and measures are `f64` bit patterns.
#[derive(Debug, PartialEq)]
pub enum PropertyValue {
    Text(String),
    Integer(i64),
    Real(u64),
    Boolean(bool),
    /// `IfcLengthMeasure`, in metres.
    Length(u64),
    /// `IfcAreaMeasure`, in square metres.
    Area(u64),
    /// `IfcVolumeMeasure`, in cubic metres.
    Volume(u64),
    /// `IfcCountMeasure`.
    Count(i64),
}

impl Clone for PropertyValue {
    fn clone(&self) -> (r: Self)
        ensures
            r == *self,
    {
        match self {
            PropertyValue::Text(s) => PropertyValue::Text(s.clone()),
            PropertyValue::Integer(v) => PropertyValue::Integer(*v),
            PropertyValue::Real(v) => PropertyValue::Real(*v),
            PropertyValue::Boolean(v) => PropertyValue::Boolean(*v),
            PropertyValue::Length(v) => PropertyValue::Length(*v),
            PropertyValue::Area(v) => PropertyValue::Area(*v),
            PropertyValue::Volume(v) => PropertyValue::Volume(*v),
            PropertyValue::Count(v) => PropertyValue::Count(*v),
        }
    }
}

impl View for PropertyValue {
    type V = PropertyValue;

    open spec fn view(&self) -> PropertyValue {
        *self
    }
}

impl Duplicate for PropertyValue {
    fn duplicate(&self) -> (r: Self) {
        self.clone()
    }
}

/// The IFC measure type name of a value.
pub open spec fn measure_type(v: PropertyValue) -> Seq<char> {
    match v {
        PropertyValue::Text(_) => "IfcText"@,
        PropertyValue::Integer(_) => "IfcInteger"@,
        PropertyValue::Real(_) => "IfcReal"@,
        PropertyValue::Boolean(_) => "IfcBoolean"@,
        PropertyValue::Length(_) => "IfcLengthMeasure"@,
        PropertyValue::Area(_) => "IfcAreaMeasure"@,
        PropertyValue::Volume(_) => "IfcVolumeMeasure"@,
        PropertyValue::Count(_) => "IfcCountMeasure"@,
    }
}

impl PropertyValue {
    /// The numeric value, as `f64` bits, where one exists: a count converted to the nearest
    /// `f64`, a real or a measure as it is; `None` for text and boolean.
    pub fn as_f64(&self) -> (r: Option<u64>)
        ensures
            r == (match *self {
                PropertyValue::Integer(v) | PropertyValue::Count(v) => Some(real_of_count(v)),
                PropertyValue::Real(v) | PropertyValue::Length(v) | PropertyValue::Area(v) | PropertyValue::Volume(v) => Some(v),
                PropertyValue::Text(_) | PropertyValue::Boolean(_) => None::<u64>,
            }),
    {
        match self {
            PropertyValue::Integer(v) | PropertyValue::Count(v) => Some(count_as_real(*v)),
            PropertyValue::Real(v) | PropertyValue::Length(v) | PropertyValue::Area(v) | PropertyValue::Volume(v) => Some(*v),
            PropertyValue::Text(_) | PropertyValue::Boolean(_) => None,
        }
    }

    /// The IFC measure type name, for export.
    pub fn ifc_type(&self) -> (r: &'static str)
        ensures
            r@ == measure_type(*self),
    {
        match self {
            PropertyValue::Text(_) => "IfcText",
            PropertyValue::Integer(_) => "IfcInteger",
            PropertyValue::Real(_) => "IfcReal",
            PropertyValue::Boolean(_) => "IfcBoolean",
            PropertyValue::Length(_) => "IfcLengthMeasure",
            PropertyValue::Area(_) => "IfcAreaMeasure",
            PropertyValue::Volume(_) => "IfcVolumeMeasure",
            PropertyValue::Count(_) => "IfcCountMeasure",
        }
    }
}

/// One `IfcPropertySet`.
#[derive(Debug, PartialEq)]
pub struct PropertySet {
    pub properties: TextMap<PropertyValue>,
}

impl View for PropertySet {
    type V = Map<Seq<char>, PropertyValue>;

    open spec fn view(&self) -> Map<Seq<char>, PropertyValue> {
        self.properties@
    }
}

impl Duplicate for PropertySet {
    fn duplicate(&self) -> (r: Self) {
        let properties = self.properties.duplicate_map();
        assert(properties@ =~= self.properties@);
        PropertySet { properties }
    }
}

impl Clone for PropertySet {
    fn clone(&self) -> (r: Self)
        ensures
            r@ == self@,
    {
        self.duplicate()
    }
}

impl Default for PropertySet {
    fn default() -> (r: Self)
        ensures
            r@ == Map::<Seq<char>, PropertyValue>::empty(),
    {
        PropertySet { properties: TextMap::new() }
    }
}

/// Every property set on an element, by set name, then property name.
pub type PropertySetsModel = Map<Seq<char>, Map<Seq<char>, PropertyValue>>;

/// All property sets on an element, keyed by set name (`Pset_WallCommon`, and so on).
#[derive(Debug, PartialEq)]
pub struct PropertySets {
    sets: TextMap<PropertySet>,
}

/// No set is present without a property in it.
pub open spec fn no_empty_sets(m: PropertySetsModel) -> bool {
    forall|k: Seq<char>| #[trigger] m.contains_key(k) ==> m[k].len() > 0
}

/// The map of sets, and each set in it, is finite.
pub open spec fn finite_sets(m: PropertySetsModel) -> bool {
    &&& m.dom().finite()
    &&& forall|k: Seq<char>| #[trigger] m.contains_key(k) ==> m[k].dom().finite()
}

/// The value of property `name` in set `set`, if there is one.
pub open spec fn lookup(m: PropertySetsModel, set: Seq<char>, name: Seq<char>) -> Option<PropertyValue> {
    if m.contains_key(set) && m[set].contains_key(name) {
        Some(m[set][name])
    } else {
        None
    }
}

/// What [`PropertySets::set`] leaves: `Some` stores the value, creating the set if needed;
/// `None` removes the property and drops the set once it holds nothing.
pub open spec fn assign(
    m: PropertySetsModel,
    set: Seq<char>,
    name: Seq<char>,
    value: Option<PropertyValue>,
) -> PropertySetsModel {
    match value {
        Some(v) => {
            let inner = if m.contains_key(set) {
                m[set]
            } else {
                Map::empty()
            };
            m.insert(set, inner.insert(name, v))
        },
        None => {
            if !m.contains_key(set) {
                m
            } else if m[set].remove(name).len() == 0 {
                m.remove(set)
            } else {
                m.insert(set, m[set].remove(name))
            }
        },
    }
}

/// The number of properties over a listing of sets.
pub open spec fn count_properties(l: Seq<(Seq<char>, Map<Seq<char>, PropertyValue>)>) -> nat
    decreases l.len(),
{
    if l.len() == 0 {
        0
    } else {
        count_properties(l.drop_last()) + l.last().1.len()
    }
}

impl View for PropertySets {
    type V = PropertySetsModel;

    closed spec fn view(&self) -> PropertySetsModel {
        view_values(self.sets@)
    }
}

impl PropertySets {
    #[verifier::type_invariant]
    closed spec fn sets_not_empty(&self) -> bool {
        forall|k: Seq<char>| #[trigger] self.sets@.contains_key(k) ==> self.sets@[k]@.len() > 0
    }

    /// The sets in name order, each with its properties.
    pub closed spec fn listing(&self) -> Seq<(Seq<char>, Map<Seq<char>, PropertyValue>)> {
        self.sets.items().map_values(|e: (String, PropertySet)| (e.0@, e.1@))
    }

    /// Always true: no set is empty, and every map involved is finite.
    pub fn is_well_formed(&self) -> (r: bool)
        ensures
            r,
            no_empty_sets(self@),
            finite_sets(self@),
    {
        proof {
            use_type_invariant(self);
        }
        let entries = self.sets.as_slice();
        proof {
            assert forall|k: Seq<char>| #[trigger] self@.contains_key(k) implies self@[k].dom().finite() by {
                self.sets@[k].properties.lemma_finite();
            }
            assert(self@.dom() =~= self.sets@.dom());
            self.sets.lemma_finite();
        }
        true
    }

    pub fn new() -> (r: Self)
        ensures
            r@ == PropertySetsModel::empty(),
    {
        let r = PropertySets { sets: TextMap::new() };
        assert(r@ =~= PropertySetsModel::empty());
        r
    }

    pub fn get(&self, set: &str, name: &str) -> (r: Option<&PropertyValue>)
        ensures
            r matches Some(v) ==> lookup(self@, set@, name@) == Some(*v),
            r is None ==> lookup(self@, set@, name@) is None,
    {
        match self.sets.get(set) {
            Some(s) => s.properties.get(name),
            None => None,
        }
    }

    /// Set or clear a property. `None` removes it, and removes the set once it is empty so
    /// that set-then-unset leaves no trace — which is what makes command inversion exact.
    ///
    /// Returns the previous value, which is what the inverse command is built from.
    pub fn set(&mut self, set: &str, name: &str, value: Option<PropertyValue>) -> (r: Option<PropertyValue>)
        ensures
            final(self)@ == assign(old(self)@, set@, name@, value),
            r == lookup(old(self)@, set@, name@),
    {
        proof { use_type_invariant(&*self); }
        let ghost m = self@;
        let mut sets = TextMap::new();
        std::mem::swap(&mut sets, &mut self.sets);
        assert(view_values(sets@) == m);
        let r = match value {
            Some(v) => {
                let (mut ps, existed) = match sets.remove(set) {
                    Some(ps) => (ps, true),
                    None => (PropertySet::default(), false),
                };
                assert(ps@ == (if m.contains_key(set@) { m[set@] } else { Map::empty() }));
                let previous = ps.properties.insert(crate::text::owned(name), v);
                let ghost inner = ps@;
                proof {
                    ps.properties.lemma_finite();
                    assert(inner.dom().contains(name@));
                }
                sets.insert(crate::text::owned(set), ps);
                proof {
                    assert(view_values(sets@) =~= assign(m, set@, name@, Some(v)));
                    assert(inner.contains_key(name@));
                }
                previous
            },
            None => {
                match sets.remove(set) {
                    None => {
                        assert(view_values(sets@) =~= m);
                        None
                    },
                    Some(mut ps) => {
                        let previous = ps.properties.remove(name);
                        if !ps.properties.is_empty() {
                            sets.insert(crate::text::owned(set), ps);
                            assert(view_values(sets@) =~= assign(m, set@, name@, None));
                        } else {
                            assert(view_values(sets@) =~= assign(m, set@, name@, None));
                        }
                        previous
                    },
                }
            },
        };
        assert forall|k: Seq<char>| #[trigger] sets@.contains_key(k) implies sets@[k]@.len() > 0 by {
            assert(view_values(sets@).contains_key(k));
        }
        self.sets = sets;
        r
    }

    /// The set names, in order.
    pub fn set_names(&self) -> (r: Vec<&str>)
        ensures
            r@.len() == self@.len(),
            forall|i: int| 0 <= i < r@.len() ==> self@.contains_key(#[trigger] r@[i]@),
            forall|i: int, j: int| 0 <= i < j < r@.len() ==> seq_lt(#[trigger] r@[i]@, #[trigger] r@[j]@),
    {
        proof { use_type_invariant(self); }
        let entries = self.sets.as_slice();
        let mut out: Vec<&str> = Vec::new();
        let mut i: usize = 0;
        while i < entries.len()
            invariant
                entries@ == self.sets.items(),
                self.sets.items_describe_view(),
                i <= entries.len(),
                out@.len() == i,
                forall|j: int| 0 <= j < i ==> (#[trigger] out@[j])@ == entries@[j].0@,
            decreases entries.len() - i,
        {
            out.push(entries[i].0.as_str());
            i += 1;
        }
        proof {
            let ks = keys_of(self.sets.items());
            assert forall|i: int, j: int| 0 <= i < j < out@.len() implies seq_lt(#[trigger] out@[i]@, #[trigger] out@[j]@) by {
                assert(ks[i] == out@[i]@ && ks[j] == out@[j]@);
            }
            assert(self@.dom() =~= self.sets@.dom());
        }
        out
    }

    /// The sets with their names, in order.
    pub fn iter(&self) -> (r: &[(String, PropertySet)])
        ensures
            r@.len() == self@.len(),
            forall|i: int|
                0 <= i < r@.len() ==> self@.contains_key((#[trigger] r@[i]).0@) && r@[i].1@
                    == self@[r@[i].0@],
            forall|i: int, j: int| 0 <= i < j < r@.len() ==> seq_lt(#[trigger] r@[i].0@, #[trigger] r@[j].0@),
            r@.map_values(|e: (String, PropertySet)| (e.0@, e.1@)) == self.listing(),
            forall|k: Seq<char>| #[trigger]
                self@.contains_key(k) ==> exists|i: int| 0 <= i < r@.len() && #[trigger] r@[i].0@ == k,
    {
        let r = self.sets.as_slice();
        proof {
            assert forall|k: Seq<char>| #[trigger] self@.contains_key(k) implies exists|i: int| 0 <= i < r@.len() && #[trigger] r@[i].0@ == k by {
                assert(self.sets@.contains_key(k));
            }
            let ks = keys_of(self.sets.items());
            assert forall|i: int, j: int| 0 <= i < j < r@.len() implies seq_lt(#[trigger] r@[i].0@, #[trigger] r@[j].0@) by {
                assert(ks[i] == r@[i].0@ && ks[j] == r@[j].0@);
            }
            assert(self@.dom() =~= self.sets@.dom());
            assert(r@.map_values(|e: (String, PropertySet)| (e.0@, e.1@)) =~= self.listing());
        }
        r
    }

    pub fn is_empty(&self) -> (r: bool)
        ensures
            r == (self@.len() == 0),
    {
        assert(self@.dom() =~= self.sets@.dom());
        self.sets.is_empty()
    }

    /// The number of properties over all sets.
    pub fn len(&self) -> (r: usize)
        requires
            count_properties(self.listing()) <= usize::MAX,
        ensures
            r == count_properties(self.listing()),
    {
        let entries = self.sets.as_slice();
        let mut total: usize = 0;
        let mut i: usize = 0;
        while i < entries.len()
            invariant
                entries@ == self.sets.items(),
                self.listing().len() == entries.len(),
                count_properties(self.listing()) <= usize::MAX,
                i <= entries.len(),
                total == count_properties(self.listing().take(i as int)),
            decreases entries.len() - i,
        {
            proof {
                let l = self.listing();
                assert(l.take(i + 1).drop_last() =~= l.take(i as int));
                lemma_count_prefix(l, i + 1);
            }
            total = total + entries[i].1.properties.len();
            i += 1;
        }
        assert(self.listing().take(entries.len() as int) =~= self.listing());
        total
    }
}

/// A prefix holds no more properties than the whole listing.
proof fn lemma_count_prefix(l: Seq<(Seq<char>, Map<Seq<char>, PropertyValue>)>, n: int)
    requires
        0 <= n <= l.len(),
    ensures
        count_properties(l.take(n)) <= count_properties(l),
    decreases l.len() - n,
{
    if n < l.len() {
        lemma_count_prefix(l, n + 1);
        assert(l.take(n + 1).drop_last() =~= l.take(n));
    } else {
        assert(l.take(n) =~= l);
    }
}

impl Duplicate for PropertySets {
    fn duplicate(&self) -> (r: Self) {
        proof { use_type_invariant(self); }
        let sets = self.sets.duplicate_map();
        PropertySets { sets }
    }
}

impl Clone for PropertySets {
    fn clone(&self) -> (r: Self)
        ensures
            r@ == self@,
    {
        self.duplicate()
    }
}

impl Default for PropertySets {
    fn default() -> (r: Self)
        ensures
            r@ == PropertySetsModel::empty(),
    {
        Self::new()
    }
}

/// A set property reads back as what was written; a cleared one reads back as absent.
pub proof fn lemma_read_after_write(m: PropertySetsModel, set: Seq<char>, name: Seq<char>, value: Option<PropertyValue>)
    ensures
        lookup(assign(m, set, name, value), set, name) == value,
{
    if value is None && m.contains_key(set) {
        let rest = m[set].remove(name);
        if rest.len() != 0 {
            assert(!rest.contains_key(name));
        }
    }
}

/// Writing one property leaves every other property as it was.
pub proof fn lemma_write_is_local(
    m: PropertySetsModel,
    set: Seq<char>,
    name: Seq<char>,
    value: Option<PropertyValue>,
    other_set: Seq<char>,
    other_name: Seq<char>,
)
    requires
        finite_sets(m),
        other_set != set || other_name != name,
    ensures
        lookup(assign(m, set, name, value), other_set, other_name) == lookup(m, other_set, other_name),
{
    if value is None && m.contains_key(set) && other_set == set {
        let rest = m[set].remove(name);
        if rest.len() == 0 && m[set].contains_key(other_name) {
            assert(rest.contains_key(other_name));
            rest.dom().lemma_len0_is_empty();
        }
    }
}

/// Setting a property and then setting it back to what it was restores every set exactly:
/// what [`PropertySets::set`] returns is the inverse of the change it made.
pub proof fn lemma_set_then_restore(m: PropertySetsModel, set: Seq<char>, name: Seq<char>, value: Option<PropertyValue>)
    requires
        no_empty_sets(m),
        finite_sets(m),
    ensures
        assign(assign(m, set, name, value), set, name, lookup(m, set, name)) == m,
{
    let m1 = assign(m, set, name, value);
    let m2 = assign(m1, set, name, lookup(m, set, name));
    match value {
        Some(v) => {
            if lookup(m, set, name) is Some {
                assert(m2[set] =~= m[set]);
                assert(m2 =~= m);
            } else if m.contains_key(set) {
                assert(m1[set].remove(name) =~= m[set]);
                assert(m2 =~= m);
            } else {
                assert(m1[set].remove(name) =~= Map::<Seq<char>, PropertyValue>::empty());
                assert(m2 =~= m);
            }
        },
        None => {
            if !m.contains_key(set) {
                assert(m2 =~= m);
            } else if !m[set].contains_key(name) {
                assert(m[set].remove(name) =~= m[set]);
                assert(m1 =~= m);
                assert(m2 =~= m);
            } else {
                let rest = m[set].remove(name);
                if rest.len() == 0 {
                    rest.dom().lemma_len0_is_empty();
                    assert(m[set] =~= Map::<Seq<char>, PropertyValue>::empty().insert(name, m[set][name]));
                } else {
                    assert(rest.insert(name, m[set][name]) =~= m[set]);
                }
                assert(m2 =~= m);
            }
        },
    }
}

/// Sets left by [`PropertySets::set`] keep the shape every value of the type has.
pub proof fn lemma_assign_keeps_shape(m: PropertySetsModel, set: Seq<char>, name: Seq<char>, value: Option<PropertyValue>)
    requires
        no_empty_sets(m),
        finite_sets(m),
    ensures
        no_empty_sets(assign(m, set, name, value)),
        finite_sets(assign(m, set, name, value)),
{
    let m1 = assign(m, set, name, value);
    if value is Some {
        let inner = if m.contains_key(set) { m[set] } else { Map::empty() };
        assert(inner.dom().finite());
        assert(inner.insert(name, value->0).contains_key(name));
        assert(inner.insert(name, value->0).dom().contains(name));
    }
}

}
