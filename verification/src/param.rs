//! Family parameters: typed values with defaults, scoped to the type or the instance, and the
//! bag they resolve into.
//!
//! Lengths, angles and numbers are `f64` bit patterns.

use vstd::prelude::*;
use crate::family::{param_type_name, FamilyError, FamilyErrorView, ParamScope, ParamType};
use crate::floatbits::{count_as_real, finite, is_finite, is_less, less, real_of_count, INFINITY, NEG_INFINITY};
use crate::text::owned;
use crate::textmap::{keys_of, strictly_sorted, Duplicate, TextMap};

verus! {

/// A parameter value.
#[derive(Debug, PartialEq)]
pub enum ParamValue {
    Length(u64),
    Angle(u64),
    Count(i64),
    Number(u64),
    Text(String),
    Boolean(bool),
    Material(String),
}

impl Clone for ParamValue {
    fn clone(&self) -> (r: Self)
        ensures
            r == *self,
    {
        match self {
            ParamValue::Length(v) => ParamValue::Length(*v),
            ParamValue::Angle(v) => ParamValue::Angle(*v),
            ParamValue::Count(v) => ParamValue::Count(*v),
            ParamValue::Number(v) => ParamValue::Number(*v),
            ParamValue::Text(s) => ParamValue::Text(s.clone()),
            ParamValue::Boolean(b) => ParamValue::Boolean(*b),
            ParamValue::Material(s) => ParamValue::Material(s.clone()),
        }
    }
}

impl View for ParamValue {
    type V = ParamValue;

    open spec fn view(&self) -> ParamValue {
        *self
    }
}

impl Duplicate for ParamValue {
    fn duplicate(&self) -> (r: Self) {
        self.clone()
    }
}

/// The kind of a value.
pub open spec fn kind_of(v: ParamValue) -> ParamType {
    match v {
        ParamValue::Length(_) => ParamType::Length,
        ParamValue::Angle(_) => ParamType::Angle,
        ParamValue::Count(_) => ParamType::Count,
        ParamValue::Number(_) => ParamType::Number,
        ParamValue::Text(_) => ParamType::Text,
        ParamValue::Boolean(_) => ParamType::Boolean,
        ParamValue::Material(_) => ParamType::Material,
    }
}

/// The numeric reading of a value: its bits, or the nearest `f64` to a count; nothing for
/// text, booleans and materials.
pub open spec fn numeric(v: ParamValue) -> Option<u64> {
    match v {
        ParamValue::Length(x) => Some(x),
        ParamValue::Angle(x) => Some(x),
        ParamValue::Number(x) => Some(x),
        ParamValue::Count(c) => Some(real_of_count(c)),
        _ => None,
    }
}

impl ParamValue {
    pub fn param_type(&self) -> (r: ParamType)
        ensures
            r == kind_of(*self),
    {
        match self {
            ParamValue::Length(_) => ParamType::Length,
            ParamValue::Angle(_) => ParamType::Angle,
            ParamValue::Count(_) => ParamType::Count,
            ParamValue::Number(_) => ParamType::Number,
            ParamValue::Text(_) => ParamType::Text,
            ParamValue::Boolean(_) => ParamType::Boolean,
            ParamValue::Material(_) => ParamType::Material,
        }
    }

    /// Numeric view, for expression evaluation.
    pub fn as_f64(&self) -> (r: Option<u64>)
        ensures
            r == numeric(*self),
    {
        match self {
            ParamValue::Length(v) => Some(*v),
            ParamValue::Angle(v) => Some(*v),
            ParamValue::Number(v) => Some(*v),
            ParamValue::Count(c) => Some(count_as_real(*c)),
            _ => None,
        }
    }
}

/// A parameter declaration. Bounds are inclusive and ignored for non-numeric kinds.
#[derive(Debug, PartialEq)]
pub struct ParamDef {
    pub name: String,
    pub param_type: ParamType,
    pub default: ParamValue,
    pub scope: ParamScope,
    pub min: Option<u64>,
    pub max: Option<u64>,
    pub description: Option<String>,
}

impl Clone for ParamDef {
    fn clone(&self) -> (r: Self)
        ensures
            r == *self,
    {
        ParamDef {
            name: self.name.clone(),
            param_type: self.param_type,
            default: self.default.clone(),
            scope: self.scope,
            min: self.min,
            max: self.max,
            description: match &self.description {
                Some(d) => Some(d.clone()),
                None => None,
            },
        }
    }
}

/// A bound, or the given infinity where there is none.
pub open spec fn bound_or(b: Option<u64>, otherwise: u64) -> u64 {
    match b {
        Some(v) => v,
        None => otherwise,
    }
}

/// What checking `value` against `def` finds wrong, if anything: a kind that differs from
/// the declaration, else a numeric reading that is not finite or lies outside the inclusive
/// bounds (an absent bound is the matching infinity).
pub open spec fn validation(def: ParamDef, value: ParamValue) -> Option<FamilyErrorView> {
    if kind_of(value) != def.param_type {
        Some(FamilyErrorView::TypeMismatch {
            name: def.name@,
            expected: param_type_name(def.param_type),
            actual: param_type_name(kind_of(value)),
        })
    } else {
        match numeric(value) {
            Some(v) => {
                let lo = bound_or(def.min, NEG_INFINITY);
                let hi = bound_or(def.max, INFINITY);
                if !finite(v) || less(v, lo) || less(hi, v) {
                    Some(FamilyErrorView::OutOfRange { name: def.name@, value: v, min: lo, max: hi })
                } else {
                    None
                }
            },
            None => None,
        }
    }
}

impl ParamDef {
    /// A declaration whose kind is the default's.
    pub fn new(name: &str, default: ParamValue, scope: ParamScope) -> (r: Self)
        ensures
            r.name@ == name@,
            r.param_type == kind_of(default),
            r.default == default,
            r.scope == scope,
            r.min is None,
            r.max is None,
            r.description is None,
    {
        let param_type = default.param_type();
        ParamDef { name: owned(name), param_type, default, scope, min: None, max: None, description: None }
    }

    /// A type-scoped length, the most common declaration by far.
    pub fn length(name: &str, default: u64) -> (r: Self)
        ensures
            r.name@ == name@,
            r.param_type == ParamType::Length,
            r.default == ParamValue::Length(default),
            r.scope == ParamScope::Type,
            r.min is None,
            r.max is None,
            r.description is None,
    {
        Self::new(name, ParamValue::Length(default), ParamScope::Type)
    }

    /// An instance-scoped length.
    pub fn instance_length(name: &str, default: u64) -> (r: Self)
        ensures
            r.name@ == name@,
            r.param_type == ParamType::Length,
            r.default == ParamValue::Length(default),
            r.scope == ParamScope::Instance,
            r.min is None,
            r.max is None,
            r.description is None,
    {
        Self::new(name, ParamValue::Length(default), ParamScope::Instance)
    }

    pub fn with_range(self, min: u64, max: u64) -> (r: Self)
        ensures
            r == (ParamDef { min: Some(min), max: Some(max), ..self }),
    {
        let mut s = self;
        s.min = Some(min);
        s.max = Some(max);
        s
    }

    pub fn described(self, description: &str) -> (r: Self)
        ensures
            r == (ParamDef { description: r.description, ..self }),
            r.description matches Some(d) && d@ == description@,
    {
        let mut s = self;
        s.description = Some(owned(description));
        s
    }

    /// Check a candidate value against this declaration.
    pub fn validate(&self, value: &ParamValue) -> (r: Result<(), FamilyError>)
        ensures
            match r {
                Ok(()) => validation(*self, *value) is None,
                Err(e) => validation(*self, *value) == Some(e@),
            },
    {
        let kind = value.param_type();
        if kind != self.param_type {
            return Err(FamilyError::TypeMismatch {
                name: self.name.clone(),
                expected: self.param_type.name(),
                actual: kind.name(),
            });
        }
        match value.as_f64() {
            Some(v) => {
                let lo = match self.min {
                    Some(m) => m,
                    None => NEG_INFINITY,
                };
                let hi = match self.max {
                    Some(m) => m,
                    None => INFINITY,
                };
                if !is_finite(v) || is_less(v, lo) || is_less(hi, v) {
                    return Err(FamilyError::OutOfRange { name: self.name.clone(), value: v, min: lo, max: hi });
                }
                Ok(())
            },
            None => Ok(()),
        }
    }
}

/// A resolved set of parameter values, in name order so that export and hashing are stable.
#[derive(Debug, PartialEq)]
pub struct ParamBag {
    values: TextMap<ParamValue>,
}

impl View for ParamBag {
    type V = Map<Seq<char>, ParamValue>;

    closed spec fn view(&self) -> Map<Seq<char>, ParamValue> {
        self.values@
    }
}

/// What looking `name` up as a number in `m` gives: the numeric reading, or which of the two
/// authoring mistakes it was.
pub open spec fn number_in(m: Map<Seq<char>, ParamValue>, name: Seq<char>) -> Result<u64, FamilyErrorView> {
    if !m.contains_key(name) {
        Err(FamilyErrorView::UnknownParameter(name))
    } else {
        match numeric(m[name]) {
            Some(v) => Ok(v),
            None => Err(FamilyErrorView::NotNumeric(name)),
        }
    }
}

/// The map that pairs make when each is inserted in turn: a later pair wins over an earlier
/// one with the same name.
pub open spec fn pairs_map(pairs: Seq<(String, ParamValue)>) -> Map<Seq<char>, ParamValue>
    decreases pairs.len(),
{
    if pairs.len() == 0 {
        Map::empty()
    } else {
        pairs_map(pairs.drop_last()).insert(pairs.last().0@, pairs.last().1)
    }
}

impl ParamBag {
    /// The entries, in name order.
    pub closed spec fn entries(&self) -> Seq<(String, ParamValue)> {
        self.values.items()
    }

    /// Entries are in strictly increasing name order, and each is what the bag holds.
    pub open spec fn entries_describe_view(&self) -> bool {
        &&& strictly_sorted(keys_of(self.entries()))
        &&& forall|i: int| 0 <= i < self.entries().len() ==> self@.contains_key(#[trigger] self.entries()[i].0@)
                && self@[self.entries()[i].0@] == self.entries()[i].1
        &&& forall|k: Seq<char>| #[trigger] self@.contains_key(k) ==> exists|i: int|
                0 <= i < self.entries().len() && #[trigger] self.entries()[i].0@ == k
        &&& self@.len() == self.entries().len()
    }

    pub fn new() -> (r: Self)
        ensures
            r@ == Map::<Seq<char>, ParamValue>::empty(),
            r.entries().len() == 0,
    {
        ParamBag { values: TextMap::new() }
    }

    pub fn insert(&mut self, name: &str, value: ParamValue)
        ensures
            final(self)@ == old(self)@.insert(name@, value),
    {
        self.values.insert(owned(name), value);
    }

    /// A bag of the pairs, each inserted in turn.
    pub fn from_pairs(pairs: Vec<(String, ParamValue)>) -> (r: Self)
        ensures
            r@ == pairs_map(pairs@),
    {
        let mut bag = ParamBag::new();
        let mut i: usize = 0;
        while i < pairs.len()
            invariant
                i <= pairs.len(),
                bag@ == pairs_map(pairs@.take(i as int)),
            decreases pairs.len() - i,
        {
            let (name, value) = (&pairs[i].0, pairs[i].1.clone());
            bag.insert(name.as_str(), value);
            assert(pairs@.take(i + 1).drop_last() =~= pairs@.take(i as int));
            i += 1;
        }
        assert(pairs@.take(pairs.len() as int) =~= pairs@);
        bag
    }

    pub fn get(&self, name: &str) -> (r: Option<&ParamValue>)
        ensures
            match r {
                Some(v) => self@.contains_key(name@) && *v == self@[name@],
                None => !self@.contains_key(name@),
            },
    {
        self.values.get(name)
    }

    /// Numeric lookup for expression evaluation, telling "no such parameter" apart from "that
    /// parameter is not a number".
    pub fn number(&self, name: &str) -> (r: Result<u64, FamilyError>)
        ensures
            match r {
                Ok(v) => number_in(self@, name@) == Ok::<u64, FamilyErrorView>(v),
                Err(e) => number_in(self@, name@) == Err::<u64, FamilyErrorView>(e@),
            },
    {
        match self.values.get(name) {
            None => Err(FamilyError::UnknownParameter(owned(name))),
            Some(v) => match v.as_f64() {
                Some(x) => Ok(x),
                None => Err(FamilyError::NotNumeric(owned(name))),
            },
        }
    }

    pub fn len(&self) -> (r: usize)
        ensures
            r == self@.len(),
    {
        self.values.len()
    }

    pub fn is_empty(&self) -> (r: bool)
        ensures
            r == (self@.len() == 0),
    {
        self.values.is_empty()
    }

    /// Every entry, in name order.
    pub fn iter(&self) -> (r: &[(String, ParamValue)])
        ensures
            r@ == self.entries(),
            self.entries_describe_view(),
    {
        self.values.as_slice()
    }
}

impl Clone for ParamBag {
    fn clone(&self) -> (r: Self)
        ensures
            r@ == self@,
    {
        let values = self.values.duplicate_map();
        proof {
            assert forall|k: Seq<char>| #[trigger] values@.contains_key(k) implies values@[k] == self.values@[k] by {
                assert(values@[k]@ == self.values@[k]@);
            }
            assert(values@ =~= self.values@);
        }
        ParamBag { values }
    }
}

impl Default for ParamBag {
    fn default() -> (r: Self)
        ensures
            r@ == Map::<Seq<char>, ParamValue>::empty(),
    {
        Self::new()
    }
}


/// A numeric value that is not finite is refused whatever the bounds, so even an unbounded
/// parameter rejects NaN and infinity.
pub proof fn lemma_non_finite_is_refused(def: ParamDef, value: ParamValue)
    requires
        kind_of(value) == def.param_type,
        numeric(value) matches Some(x) && !finite(x),
    ensures
        validation(def, value) matches Some(FamilyErrorView::OutOfRange { .. }),
{
}

/// Bounds are inclusive: a finite value equal to either bound, and within the other, passes.
pub proof fn lemma_bounds_are_inclusive(def: ParamDef, value: ParamValue)
    requires
        kind_of(value) == def.param_type,
        numeric(value) matches Some(x) && finite(x) && (def.min == Some(x) || def.max == Some(x))
            && !less(x, bound_or(def.min, NEG_INFINITY)) && !less(bound_or(def.max, INFINITY), x),
    ensures
        validation(def, value) is None,
{
}

/// A value of another kind is refused, naming both kinds.
pub proof fn lemma_wrong_kind_is_refused(def: ParamDef, value: ParamValue)
    requires
        kind_of(value) != def.param_type,
    ensures
        validation(def, value) == Some(FamilyErrorView::TypeMismatch {
            name: def.name@,
            expected: param_type_name(def.param_type),
            actual: param_type_name(kind_of(value)),
        }),
{
}


}
