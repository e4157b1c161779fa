//! The model store.
//!
//! Holds elements and their relationships, applies commands, and maintains the revision and
//! undo history. Validation happens before mutation, so a rejected command leaves the model
//! untouched.
//!
//! What a command does is stated once, as [`step`] on a [`ModelState`]; [`Model::apply`],
//! [`Model::undo`] and [`Model::redo`] are proved to do exactly that.

use vstd::prelude::*;
use crate::command::{clone_ids, invalidates, CommandError, CommandOutcome, CommandView, ErrorView, ModelCommand};
use crate::element::{
    class_name, hosts_openings, same_class, spatial, translated_location, BoundingBox, ElementRecord, ElementView, IfcClass,
    Placement,
};
use crate::floatbits::neg3;
use crate::id::GlobalId;
use crate::property::{assign, finite_sets, lookup, no_empty_sets, PropertyValue};
use crate::representation::{valid_model, Representation, RepresentationModel};
use crate::text::{owned, push_str, seq_lt};
use crate::textmap::{keys_of, view_values, Duplicate, TextMap};

verus! {

/// The relationship name of openings cutting hosts.
pub const REL_VOIDS: &'static str = "IfcRelVoidsElement";

/// The relationship name of doors and windows filling openings.
pub const REL_FILLS: &'static str = "IfcRelFillsElement";

/// The relationship name of spatial containment.
pub const REL_CONTAINED: &'static str = "IfcRelContainedInSpatialStructure";

/// The relationship name of type assignment.
pub const REL_TYPE: &'static str = "IfcRelDefinesByType";

/// The elements and relationships of a model, as mathematical values.
pub struct ModelState {
    /// Every element, by the text of its identity.
    pub elements: Map<Seq<char>, ElementView>,
    /// `(host, opening)`.
    pub voids: Set<(Seq<char>, Seq<char>)>,
    /// `(opening, filler)`.
    pub fills: Set<(Seq<char>, Seq<char>)>,
}

/// What a command that was accepted produced.
pub struct Applied {
    pub state: ModelState,
    /// The command that undoes it.
    pub inverse: CommandView,
    /// Elements whose state changed.
    pub changed: Seq<GlobalId>,
}

pub open spec fn present(s: ModelState, g: GlobalId) -> bool {
    s.elements.contains_key(g@)
}

/// Whether an optional reference names the element with text `k`.
pub open spec fn refers(o: Option<GlobalId>, k: Seq<char>) -> bool {
    o matches Some(x) && x@ == k
}

/// `s` with the element at `k` replaced.
pub open spec fn update(s: ModelState, k: Seq<char>, e: ElementView) -> ModelState {
    ModelState { elements: s.elements.insert(k, e), ..s }
}

/// `s` with the representation revision of the element at `k` bumped, if there is one.
pub open spec fn bump_representation(s: ModelState, k: Seq<char>) -> ModelState {
    if s.elements.contains_key(k) {
        let e = s.elements[k];
        update(s, k, ElementView { representation_revision: (e.representation_revision + 1) as u64, ..e })
    } else {
        s
    }
}

/// Why a container reference would be refused: it must name an existing spatial element.
pub open spec fn container_error(s: ModelState, c: Option<GlobalId>) -> Option<ErrorView> {
    match c {
        None => None,
        Some(x) => if !present(s, x) {
            Some(ErrorView::UnknownElement(x))
        } else if !spatial(s.elements[x@].class) {
            Some(ErrorView::NotSpatial(x))
        } else {
            None
        },
    }
}

/// Whether some pair has `k` on either side.
pub open spec fn involves(pairs: Set<(Seq<char>, Seq<char>)>, k: Seq<char>) -> bool {
    exists|p: (Seq<char>, Seq<char>)| #[trigger] pairs.contains(p) && (p.0 == k || p.1 == k)
}

/// Whether some element is contained in `k`.
pub open spec fn contains_something(elements: Map<Seq<char>, ElementView>, k: Seq<char>) -> bool {
    exists|j: Seq<char>| #[trigger] elements.contains_key(j) && refers(elements[j].container, k)
}

/// Whether some element is typed by `k`.
pub open spec fn types_something(elements: Map<Seq<char>, ElementView>, k: Seq<char>) -> bool {
    exists|j: Seq<char>| #[trigger] elements.contains_key(j) && refers(elements[j].type_ref, k)
}

/// Why an element could not be deleted: something still refers to it.
pub open spec fn reference_error(s: ModelState, g: GlobalId) -> Option<ErrorView> {
    if involves(s.voids, g@) {
        Some(ErrorView::StillReferenced { global_id: g, relationship: REL_VOIDS@ })
    } else if involves(s.fills, g@) {
        Some(ErrorView::StillReferenced { global_id: g, relationship: REL_FILLS@ })
    } else if contains_something(s.elements, g@) {
        Some(ErrorView::StillReferenced { global_id: g, relationship: REL_CONTAINED@ })
    } else if types_something(s.elements, g@) {
        Some(ErrorView::StillReferenced { global_id: g, relationship: REL_TYPE@ })
    } else {
        None
    }
}

/// Why `opening` could not cut `host`.
pub open spec fn void_error(s: ModelState, host: GlobalId, opening: GlobalId) -> Option<ErrorView> {
    if host@ == opening@ {
        Some(ErrorView::SelfReference(host))
    } else if !present(s, host) {
        Some(ErrorView::UnknownElement(host))
    } else if !hosts_openings(s.elements[host@].class) {
        Some(ErrorView::NotAHost { host, class: class_name(s.elements[host@].class) })
    } else if !present(s, opening) {
        Some(ErrorView::UnknownElement(opening))
    } else if !(s.elements[opening@].class is OpeningElement) {
        Some(ErrorView::NotAnOpening(opening))
    } else {
        None
    }
}

/// Why `filler` could not fill `opening`.
pub open spec fn fill_error(s: ModelState, opening: GlobalId, filler: GlobalId) -> Option<ErrorView> {
    if opening@ == filler@ {
        Some(ErrorView::SelfReference(opening))
    } else if !present(s, opening) {
        Some(ErrorView::UnknownElement(opening))
    } else if !(s.elements[opening@].class is OpeningElement) {
        Some(ErrorView::NotAnOpening(opening))
    } else if !present(s, filler) {
        Some(ErrorView::UnknownElement(filler))
    } else {
        None
    }
}

/// What applying one command to a model does: the error it is refused with, or the state it
/// leaves, the command that undoes it, and the elements it changed.
pub open spec fn step(s: ModelState, c: CommandView) -> Result<Applied, ErrorView> {
    match c {
        CommandView::CreateElement { element } => {
            if present(s, element.global_id) {
                Err(ErrorView::DuplicateElement(element.global_id))
            } else if let Some(e) = container_error(s, element.container) {
                Err(e)
            } else {
                Ok(Applied {
                    state: update(s, element.global_id@, element),
                    inverse: CommandView::DeleteElement { global_id: element.global_id },
                    changed: seq![element.global_id],
                })
            }
        },
        CommandView::DeleteElement { global_id } => {
            if !present(s, global_id) {
                Err(ErrorView::UnknownElement(global_id))
            } else if let Some(e) = reference_error(s, global_id) {
                Err(e)
            } else {
                Ok(Applied {
                    state: ModelState { elements: s.elements.remove(global_id@), ..s },
                    inverse: CommandView::CreateElement { element: s.elements[global_id@] },
                    changed: seq![global_id],
                })
            }
        },
        CommandView::SetName { global_id, name } => {
            if !present(s, global_id) {
                Err(ErrorView::UnknownElement(global_id))
            } else {
                let e = s.elements[global_id@];
                Ok(Applied {
                    state: update(
                        s,
                        global_id@,
                        ElementView { name, semantic_revision: (e.semantic_revision + 1) as u64, ..e },
                    ),
                    inverse: CommandView::SetName { global_id, name: e.name },
                    changed: seq![global_id],
                })
            }
        },
        CommandView::SetProperty { global_id, set, name, value } => {
            if !present(s, global_id) {
                Err(ErrorView::UnknownElement(global_id))
            } else {
                let e = s.elements[global_id@];
                Ok(Applied {
                    state: update(
                        s,
                        global_id@,
                        ElementView {
                            properties: assign(e.properties, set@, name@, value),
                            semantic_revision: (e.semantic_revision + 1) as u64,
                            ..e
                        },
                    ),
                    inverse: CommandView::SetProperty {
                        global_id,
                        set,
                        name,
                        value: lookup(e.properties, set@, name@),
                    },
                    changed: seq![global_id],
                })
            }
        },
        CommandView::MoveElement { global_id, delta } => {
            if !present(s, global_id) {
                Err(ErrorView::UnknownElement(global_id))
            } else {
                let e = s.elements[global_id@];
                Ok(Applied {
                    state: update(
                        s,
                        global_id@,
                        ElementView {
                            placement: Placement {
                                location: translated_location(e.placement.location, delta),
                                ..e.placement
                            },
                            representation_revision: (e.representation_revision + 1) as u64,
                            ..e
                        },
                    ),
                    inverse: CommandView::MoveElement { global_id, delta: neg3(delta) },
                    changed: seq![global_id],
                })
            }
        },
        CommandView::SetPlacement { global_id, placement } => {
            if !present(s, global_id) {
                Err(ErrorView::UnknownElement(global_id))
            } else {
                let e = s.elements[global_id@];
                Ok(Applied {
                    state: update(
                        s,
                        global_id@,
                        ElementView {
                            placement,
                            representation_revision: (e.representation_revision + 1) as u64,
                            ..e
                        },
                    ),
                    inverse: CommandView::SetPlacement { global_id, placement: e.placement },
                    changed: seq![global_id],
                })
            }
        },
        CommandView::AssignContainer { global_id, container } => {
            if !present(s, global_id) {
                Err(ErrorView::UnknownElement(global_id))
            } else if refers(container, global_id@) {
                Err(ErrorView::SelfReference(global_id))
            } else if let Some(e) = container_error(s, container) {
                Err(e)
            } else {
                let e = s.elements[global_id@];
                Ok(Applied {
                    state: update(
                        s,
                        global_id@,
                        ElementView { container, semantic_revision: (e.semantic_revision + 1) as u64, ..e },
                    ),
                    inverse: CommandView::AssignContainer { global_id, container: e.container },
                    changed: seq![global_id],
                })
            }
        },
        CommandView::SetRepresentation { global_id, representation } => {
            if representation matches Some(r) && !valid_model(r) {
                Err(ErrorView::InvalidRepresentation(global_id))
            } else if !present(s, global_id) {
                Err(ErrorView::UnknownElement(global_id))
            } else {
                let e = s.elements[global_id@];
                Ok(Applied {
                    state: update(
                        s,
                        global_id@,
                        ElementView {
                            representation,
                            representation_revision: (e.representation_revision + 1) as u64,
                            ..e
                        },
                    ),
                    inverse: CommandView::SetRepresentation { global_id, representation: e.representation },
                    changed: seq![global_id],
                })
            }
        },
        CommandView::AssignType { global_id, type_ref } => {
            if refers(type_ref, global_id@) {
                Err(ErrorView::SelfReference(global_id))
            } else if !present(s, global_id) {
                Err(ErrorView::UnknownElement(global_id))
            } else {
                let e = s.elements[global_id@];
                Ok(Applied {
                    state: update(
                        s,
                        global_id@,
                        ElementView { type_ref, semantic_revision: (e.semantic_revision + 1) as u64, ..e },
                    ),
                    inverse: CommandView::AssignType { global_id, type_ref: e.type_ref },
                    changed: seq![global_id],
                })
            }
        },
        CommandView::AddVoid { host, opening } => {
            if let Some(e) = void_error(s, host, opening) {
                Err(e)
            } else if s.voids.contains((host@, opening@)) {
                Err(ErrorView::RelationshipExists { relationship: REL_VOIDS@, a: host, b: opening })
            } else {
                Ok(Applied {
                    state: bump_representation(
                        bump_representation(ModelState { voids: s.voids.insert((host@, opening@)), ..s }, host@),
                        opening@,
                    ),
                    inverse: CommandView::RemoveVoid { host, opening },
                    changed: seq![host, opening],
                })
            }
        },
        CommandView::RemoveVoid { host, opening } => {
            if !s.voids.contains((host@, opening@)) {
                Err(ErrorView::NoSuchRelationship { relationship: REL_VOIDS@, a: host, b: opening })
            } else {
                Ok(Applied {
                    state: bump_representation(
                        bump_representation(ModelState { voids: s.voids.remove((host@, opening@)), ..s }, host@),
                        opening@,
                    ),
                    inverse: CommandView::AddVoid { host, opening },
                    changed: seq![host, opening],
                })
            }
        },
        CommandView::AddFill { opening, filler } => {
            if let Some(e) = fill_error(s, opening, filler) {
                Err(e)
            } else if s.fills.contains((opening@, filler@)) {
                Err(ErrorView::RelationshipExists { relationship: REL_FILLS@, a: opening, b: filler })
            } else {
                Ok(Applied {
                    state: bump_representation(ModelState { fills: s.fills.insert((opening@, filler@)), ..s }, filler@),
                    inverse: CommandView::RemoveFill { opening, filler },
                    changed: seq![opening, filler],
                })
            }
        },
        CommandView::RemoveFill { opening, filler } => {
            if !s.fills.contains((opening@, filler@)) {
                Err(ErrorView::NoSuchRelationship { relationship: REL_FILLS@, a: opening, b: filler })
            } else {
                Ok(Applied {
                    state: bump_representation(ModelState { fills: s.fills.remove((opening@, filler@)), ..s }, filler@),
                    inverse: CommandView::AddFill { opening, filler },
                    changed: seq![opening, filler],
                })
            }
        },
    }
}

/// The consistency every model keeps: each element is stored under its own identity;
/// relationships join existing, distinct elements of the right classes; containers exist and
/// are spatial; and property sets have the shape `PropertySets` gives them.
pub open spec fn state_wf(s: ModelState) -> bool {
    &&& s.elements.dom().finite()
    &&& forall|k: Seq<char>| #[trigger] s.elements.contains_key(k) ==> s.elements[k].global_id@ == k
    &&& forall|p: (Seq<char>, Seq<char>)| #[trigger]
        s.voids.contains(p) ==> {
            &&& p.0 != p.1
            &&& s.elements.contains_key(p.0)
            &&& s.elements.contains_key(p.1)
            &&& hosts_openings(s.elements[p.0].class)
            &&& s.elements[p.1].class is OpeningElement
        }
    &&& forall|p: (Seq<char>, Seq<char>)| #[trigger]
        s.fills.contains(p) ==> {
            &&& p.0 != p.1
            &&& s.elements.contains_key(p.0)
            &&& s.elements.contains_key(p.1)
            &&& s.elements[p.0].class is OpeningElement
        }
    &&& forall|k: Seq<char>| #[trigger]
        s.elements.contains_key(k) ==> (s.elements[k].container matches Some(c) ==> {
            &&& c@ != k
            &&& s.elements.contains_key(c@)
            &&& spatial(s.elements[c@].class)
        })
    &&& forall|k: Seq<char>| #[trigger]
        s.elements.contains_key(k) ==> no_empty_sets(s.elements[k].properties) && finite_sets(
            s.elements[k].properties,
        )
}

/// No counter the next command could bump is at its limit.
pub open spec fn counters_fit(s: ModelState) -> bool {
    forall|k: Seq<char>| #[trigger]
        s.elements.contains_key(k) ==> s.elements[k].representation_revision < u64::MAX
            && s.elements[k].semantic_revision < u64::MAX
}

/// The pairs a relationship table holds.
pub open spec fn pairs_of(m: Map<Seq<char>, (GlobalId, GlobalId)>) -> Set<(Seq<char>, Seq<char>)> {
    Set::new(|p: (Seq<char>, Seq<char>)| m.contains_key(p.0 + p.1) && m[p.0 + p.1].0@ == p.0 && m[p.0 + p.1].1@ == p.1)
}

/// Each pair is stored under the text of its two identities, one after the other.
pub open spec fn pairs_keyed(m: Map<Seq<char>, (GlobalId, GlobalId)>) -> bool {
    forall|k: Seq<char>| #[trigger]
        m.contains_key(k) ==> k == m[k].0@ + m[k].1@ && m[k].0@.len() == 22 && m[k].1@.len() == 22
}

/// Splitting a concatenation at the length of its first part gives the parts back.
proof fn lemma_concat_split(a: Seq<char>, b: Seq<char>, c: Seq<char>, d: Seq<char>)
    requires
        a + b == c + d,
        a.len() == c.len(),
    ensures
        a == c,
        b == d,
{
    assert((a + b).subrange(0, a.len() as int) =~= a);
    assert((c + d).subrange(0, c.len() as int) =~= c);
    assert((a + b).subrange(a.len() as int, (a + b).len() as int) =~= b);
    assert((c + d).subrange(c.len() as int, (c + d).len() as int) =~= d);
}

/// A pair is in a keyed table exactly when its key is.
proof fn lemma_pair_member(m: Map<Seq<char>, (GlobalId, GlobalId)>, a: Seq<char>, b: Seq<char>)
    requires
        pairs_keyed(m),
        a.len() == 22,
        b.len() == 22,
    ensures
        pairs_of(m).contains((a, b)) <==> m.contains_key(a + b),
{
    if m.contains_key(a + b) {
        let v = m[a + b];
        lemma_concat_split(v.0@, v.1@, a, b);
    }
}

/// Adding a pair under its key adds it to the set of pairs.
proof fn lemma_pairs_insert(m: Map<Seq<char>, (GlobalId, GlobalId)>, v: (GlobalId, GlobalId))
    requires
        pairs_keyed(m),
        v.0@.len() == 22,
        v.1@.len() == 22,
    ensures
        pairs_keyed(m.insert(v.0@ + v.1@, v)),
        pairs_of(m.insert(v.0@ + v.1@, v)) == pairs_of(m).insert((v.0@, v.1@)),
{
    let n = m.insert(v.0@ + v.1@, v);
    assert forall|p: (Seq<char>, Seq<char>)| pairs_of(n).contains(p) <==> pairs_of(m).insert((v.0@, v.1@)).contains(p) by {
        if p.0 + p.1 == v.0@ + v.1@ {
            assert(n[p.0 + p.1] == v);
            if pairs_of(m).contains(p) {
                lemma_concat_split(p.0, p.1, v.0@, v.1@);
            }
        }
    }
    assert(pairs_of(n) =~= pairs_of(m).insert((v.0@, v.1@)));
}

/// Removing a pair's key removes it from the set of pairs.
proof fn lemma_pairs_remove(m: Map<Seq<char>, (GlobalId, GlobalId)>, a: Seq<char>, b: Seq<char>)
    requires
        pairs_keyed(m),
        a.len() == 22,
        b.len() == 22,
    ensures
        pairs_keyed(m.remove(a + b)),
        pairs_of(m.remove(a + b)) == pairs_of(m).remove((a, b)),
{
    let n = m.remove(a + b);
    assert forall|p: (Seq<char>, Seq<char>)| pairs_of(n).contains(p) <==> pairs_of(m).remove((a, b)).contains(p) by {
        if pairs_of(m).contains(p) && p.0 + p.1 == a + b {
            lemma_concat_split(p.0, p.1, a, b);
        }
    }
    assert(pairs_of(n) =~= pairs_of(m).remove((a, b)));
}

/// The text two identities are stored under as a pair.
fn pair_key(a: &GlobalId, b: &GlobalId) -> (r: String)
    ensures
        r@ == a@ + b@,
{
    let mut key = owned(a.as_str());
    push_str(&mut key, b.as_str());
    key
}

/// The elements and relationship tables, without history.
#[derive(Debug)]
struct Store {
    elements: TextMap<ElementRecord>,
    voids: TextMap<(GlobalId, GlobalId)>,
    fills: TextMap<(GlobalId, GlobalId)>,
}

/// What a command did to a store: what [`step`] says, or nothing at all on refusal.
pub open spec fn settles(
    s: ModelState,
    c: CommandView,
    t: ModelState,
    r: Result<(ModelCommand, Vec<GlobalId>), CommandError>,
) -> bool {
    match step(s, c) {
        Ok(a) => r matches Ok(x) && t == a.state && x.0@ == a.inverse && x.1@ == a.changed,
        Err(e) => r matches Err(x) && x@ == e,
    }
}

impl Store {
    spec fn state(&self) -> ModelState {
        ModelState {
            elements: view_values(self.elements@),
            voids: pairs_of(self.voids@),
            fills: pairs_of(self.fills@),
        }
    }

    spec fn wf(&self) -> bool {
        &&& pairs_keyed(self.voids@)
        &&& pairs_keyed(self.fills@)
        &&& state_wf(self.state())
    }

    fn new() -> (r: Self)
        ensures
            r.wf(),
            r.state().elements == Map::<Seq<char>, ElementView>::empty(),
            r.state().voids == Set::<(Seq<char>, Seq<char>)>::empty(),
            r.state().fills == Set::<(Seq<char>, Seq<char>)>::empty(),
    {
        let r = Store { elements: TextMap::new(), voids: TextMap::new(), fills: TextMap::new() };
        assert(r.state().elements =~= Map::<Seq<char>, ElementView>::empty());
        assert(r.state().voids =~= Set::<(Seq<char>, Seq<char>)>::empty());
        assert(r.state().fills =~= Set::<(Seq<char>, Seq<char>)>::empty());
        r
    }

    fn get(&self, id: &GlobalId) -> (r: Option<&ElementRecord>)
        ensures
            r matches Some(e) ==> present(self.state(), *id) && e@ == self.state().elements[id@],
            r is None ==> !present(self.state(), *id),
    {
        self.elements.get(id.as_str())
    }

    fn require_element(&self, id: &GlobalId) -> (r: Result<&ElementRecord, CommandError>)
        ensures
            r matches Ok(e) ==> present(self.state(), *id) && e@ == self.state().elements[id@],
            r matches Err(x) ==> !present(self.state(), *id) && x@ == ErrorView::UnknownElement(*id),
    {
        match self.elements.get(id.as_str()) {
            Some(e) => Ok(e),
            None => Err(CommandError::UnknownElement(id.clone())),
        }
    }

    /// Take the element at `id` out of the table.
    fn take(&mut self, id: &GlobalId) -> (r: ElementRecord)
        requires
            present(old(self).state(), *id),
        ensures
            final(self).elements@ == old(self).elements@.remove(id@),
            r == old(self).elements@[id@],
            final(self).voids == old(self).voids,
            final(self).fills == old(self).fills,
    {
        self.elements.remove(id.as_str()).unwrap()
    }

    /// Put an element back under `id`.
    fn put(&mut self, id: &GlobalId, e: ElementRecord)
        ensures
            final(self).elements@ == old(self).elements@.insert(id@, e),
            final(self).voids == old(self).voids,
            final(self).fills == old(self).fills,
    {
        self.elements.insert(owned(id.as_str()), e);
    }

    fn require_spatial(&self, id: &GlobalId) -> (r: Result<(), CommandError>)
        ensures
            r is Ok <==> container_error(self.state(), Some(*id)) is None,
            r matches Err(x) ==> container_error(self.state(), Some(*id)) == Some(x@),
    {
        let element = self.require_element(id)?;
        if element.class.is_spatial() {
            Ok(())
        } else {
            Err(CommandError::NotSpatial(id.clone()))
        }
    }

    /// Bump the representation revision of the element at `id`, if there is one.
    fn bump(&mut self, id: &GlobalId)
        requires
            old(self).wf(),
            present(old(self).state(), *id) ==> old(self).state().elements[id@].representation_revision < u64::MAX,
        ensures
            final(self).wf(),
            final(self).state() == bump_representation(old(self).state(), id@),
            final(self).voids == old(self).voids,
            final(self).fills == old(self).fills,
    {
        if self.elements.contains_key(id.as_str()) {
            let ghost s = self.state();
            let mut e = self.take(id);
            e.representation_revision = e.representation_revision + 1;
            let ghost ev = e@;
            self.put(id, e);
            proof {
                assert(self.state().elements =~= s.elements.insert(id@, ev));
                lemma_update_keeps_wf(s, id@, ev);
            }
        }
    }

    /// Whether anything still refers to `id`.
    fn require_unreferenced(&self, id: &GlobalId) -> (r: Result<(), CommandError>)
        requires
            self.wf(),
        ensures
            r is Ok <==> reference_error(self.state(), *id) is None,
            r matches Err(x) ==> reference_error(self.state(), *id) == Some(x@),
    {
        if pair_mentions(&self.voids, id) {
            return Err(CommandError::StillReferenced { global_id: id.clone(), relationship: REL_VOIDS });
        }
        if pair_mentions(&self.fills, id) {
            return Err(CommandError::StillReferenced { global_id: id.clone(), relationship: REL_FILLS });
        }
        let es = self.elements.as_slice();
        let mut i: usize = 0;
        while i < es.len()
            invariant
                es@ == self.elements.items(),
                self.elements.items_describe_view(),
                i <= es.len(),
                forall|j: int| 0 <= j < i ==> !refers((#[trigger] es@[j]).1.container, id@),
                !involves(self.state().voids, id@),
                !involves(self.state().fills, id@),
            decreases es.len() - i,
        {
            if mentions(&es[i].1.container, id) {
                proof {
                    assert(self.state().elements.contains_key(es@[i as int].0@));
                    assert(contains_something(self.state().elements, id@));
                }
                return Err(CommandError::StillReferenced { global_id: id.clone(), relationship: REL_CONTAINED });
            }
            i += 1;
        }
        proof {
            assert forall|k: Seq<char>| #[trigger] self.state().elements.contains_key(k) implies !refers(
                self.state().elements[k].container,
                id@,
            ) by {
                let j = choose|j: int| 0 <= j < self.elements.items().len() && #[trigger] self.elements.items()[j].0@ == k;
                assert(es@[j].1 == self.elements@[k]);
            }
        }
        let mut i: usize = 0;
        while i < es.len()
            invariant
                es@ == self.elements.items(),
                self.elements.items_describe_view(),
                i <= es.len(),
                forall|j: int| 0 <= j < i ==> !refers((#[trigger] es@[j]).1.type_ref, id@),
                !involves(self.state().voids, id@),
                !involves(self.state().fills, id@),
                !contains_something(self.state().elements, id@),
            decreases es.len() - i,
        {
            if mentions(&es[i].1.type_ref, id) {
                proof {
                    assert(self.state().elements.contains_key(es@[i as int].0@));
                    assert(types_something(self.state().elements, id@));
                }
                return Err(CommandError::StillReferenced { global_id: id.clone(), relationship: REL_TYPE });
            }
            i += 1;
        }
        proof {
            assert forall|k: Seq<char>| #[trigger] self.state().elements.contains_key(k) implies !refers(
                self.state().elements[k].type_ref,
                id@,
            ) by {
                let j = choose|j: int| 0 <= j < self.elements.items().len() && #[trigger] self.elements.items()[j].0@ == k;
                assert(es@[j].1 == self.elements@[k]);
            }
        }
        Ok(())
    }

    fn validate_void(&self, host: &GlobalId, opening: &GlobalId) -> (r: Result<(), CommandError>)
        ensures
            r is Ok <==> void_error(self.state(), *host, *opening) is None,
            r matches Err(x) ==> void_error(self.state(), *host, *opening) == Some(x@),
    {
        if host == opening {
            return Err(CommandError::SelfReference(host.clone()));
        }
        let host_element = match self.require_element(host) {
            Ok(e) => e,
            Err(e) => return Err(e),
        };
        if !host_element.class.can_host_openings() {
            let name = owned(host_element.class.ifc_name());
            return Err(CommandError::NotAHost { host: host.clone(), class: name });
        }
        let opening_element = match self.require_element(opening) {
            Ok(e) => e,
            Err(e) => return Err(e),
        };
        if !matches!(opening_element.class, IfcClass::OpeningElement) {
            return Err(CommandError::NotAnOpening(opening.clone()));
        }
        Ok(())
    }

    fn validate_fill(&self, opening: &GlobalId, filler: &GlobalId) -> (r: Result<(), CommandError>)
        ensures
            r is Ok <==> fill_error(self.state(), *opening, *filler) is None,
            r matches Err(x) ==> fill_error(self.state(), *opening, *filler) == Some(x@),
    {
        if opening == filler {
            return Err(CommandError::SelfReference(opening.clone()));
        }
        let opening_element = match self.require_element(opening) {
            Ok(e) => e,
            Err(e) => return Err(e),
        };
        if !matches!(opening_element.class, IfcClass::OpeningElement) {
            return Err(CommandError::NotAnOpening(opening.clone()));
        }
        match self.require_element(filler) {
            Ok(_) => Ok(()),
            Err(e) => Err(e),
        }
    }
}

impl Store {
    fn create(&mut self, element: ElementRecord) -> (r: Result<(ModelCommand, Vec<GlobalId>), CommandError>)
        requires
            old(self).wf(),
        ensures
            final(self).wf(),
            settles(old(self).state(), CommandView::CreateElement { element: element@ }, final(self).state(), r),
            r is Err ==> *final(self) == *old(self),
    {
        let id = element.global_id.clone();
        if self.elements.contains_key(id.as_str()) {
            return Err(CommandError::DuplicateElement(id));
        }
        if let Some(container) = &element.container {
            match self.require_spatial(container) {
                Ok(()) => {},
                Err(e) => return Err(e),
            }
        }
        let _ = element.properties.is_well_formed();
        let _ = id.is_valid();
        let ghost s = self.state();
        let ghost ev = element@;
        self.put(&id, element);
        proof {
            assert(self.state().elements =~= s.elements.insert(id@, ev));
            assert(self.state() == update(s, id@, ev));
            lemma_insert_keeps_wf(s, ev);
        }
        Ok((ModelCommand::DeleteElement { global_id: id.clone() }, one(id)))
    }

    fn delete(&mut self, global_id: GlobalId) -> (r: Result<(ModelCommand, Vec<GlobalId>), CommandError>)
        requires
            old(self).wf(),
        ensures
            final(self).wf(),
            settles(old(self).state(), CommandView::DeleteElement { global_id }, final(self).state(), r),
            r is Err ==> *final(self) == *old(self),
    {
        match self.require_element(&global_id) {
            Ok(_) => {},
            Err(e) => return Err(e),
        }
        match self.require_unreferenced(&global_id) {
            Ok(()) => {},
            Err(e) => return Err(e),
        }
        let ghost s = self.state();
        let element = self.take(&global_id);
        proof {
            assert(self.state().elements =~= s.elements.remove(global_id@));
            lemma_remove_keeps_wf(s, global_id@);
        }
        Ok((ModelCommand::CreateElement { element: Box::new(element) }, one(global_id)))
    }

    fn set_name(&mut self, global_id: GlobalId, name: Option<String>) -> (r: Result<(ModelCommand, Vec<GlobalId>), CommandError>)
        requires
            old(self).wf(),
            counters_fit(old(self).state()),
        ensures
            final(self).wf(),
            settles(old(self).state(), CommandView::SetName { global_id, name }, final(self).state(), r),
            r is Err ==> *final(self) == *old(self),
    {
        match self.require_element(&global_id) {
            Ok(_) => {},
            Err(e) => return Err(e),
        }
        let ghost s = self.state();
        let mut e = self.take(&global_id);
        let mut previous = name;
        std::mem::swap(&mut e.name, &mut previous);
        e.semantic_revision = e.semantic_revision + 1;
        let ghost ev = e@;
        self.put(&global_id, e);
        proof {
            assert(self.state().elements =~= s.elements.insert(global_id@, ev));
            lemma_update_keeps_wf(s, global_id@, ev);
        }
        Ok((ModelCommand::SetName { global_id: global_id.clone(), name: previous }, one(global_id)))
    }

    fn set_property(
        &mut self,
        global_id: GlobalId,
        set: String,
        name: String,
        value: Option<PropertyValue>,
    ) -> (r: Result<(ModelCommand, Vec<GlobalId>), CommandError>)
        requires
            old(self).wf(),
            counters_fit(old(self).state()),
        ensures
            final(self).wf(),
            settles(old(self).state(), CommandView::SetProperty { global_id, set, name, value }, final(self).state(), r),
            r is Err ==> *final(self) == *old(self),
    {
        match self.require_element(&global_id) {
            Ok(_) => {},
            Err(e) => return Err(e),
        }
        let ghost s = self.state();
        let mut e = self.take(&global_id);
        let previous = e.properties.set(set.as_str(), name.as_str(), value);
        e.semantic_revision = e.semantic_revision + 1;
        let ghost ev = e@;
        self.put(&global_id, e);
        proof {
            assert(self.state().elements =~= s.elements.insert(global_id@, ev));
            crate::property::lemma_assign_keeps_shape(s.elements[global_id@].properties, set@, name@, value);
            lemma_update_keeps_wf(s, global_id@, ev);
        }
        Ok((ModelCommand::SetProperty { global_id: global_id.clone(), set, name, value: previous }, one(global_id)))
    }

    fn move_element(&mut self, global_id: GlobalId, delta: [u64; 3]) -> (r: Result<(ModelCommand, Vec<GlobalId>), CommandError>)
        requires
            old(self).wf(),
            counters_fit(old(self).state()),
        ensures
            final(self).wf(),
            settles(old(self).state(), CommandView::MoveElement { global_id, delta }, final(self).state(), r),
            r is Err ==> *final(self) == *old(self),
    {
        match self.require_element(&global_id) {
            Ok(_) => {},
            Err(e) => return Err(e),
        }
        let ghost s = self.state();
        let mut e = self.take(&global_id);
        e.placement = e.placement.translated(delta);
        e.representation_revision = e.representation_revision + 1;
        let ghost ev = e@;
        self.put(&global_id, e);
        proof {
            assert(self.state().elements =~= s.elements.insert(global_id@, ev));
            lemma_update_keeps_wf(s, global_id@, ev);
        }
        Ok((ModelCommand::MoveElement { global_id: global_id.clone(), delta: crate::floatbits::negate3(delta) }, one(global_id)))
    }

    fn set_placement(&mut self, global_id: GlobalId, placement: Placement) -> (r: Result<(ModelCommand, Vec<GlobalId>), CommandError>)
        requires
            old(self).wf(),
            counters_fit(old(self).state()),
        ensures
            final(self).wf(),
            settles(old(self).state(), CommandView::SetPlacement { global_id, placement }, final(self).state(), r),
            r is Err ==> *final(self) == *old(self),
    {
        match self.require_element(&global_id) {
            Ok(_) => {},
            Err(e) => return Err(e),
        }
        let ghost s = self.state();
        let mut e = self.take(&global_id);
        let previous = e.placement;
        e.placement = placement;
        e.representation_revision = e.representation_revision + 1;
        let ghost ev = e@;
        self.put(&global_id, e);
        proof {
            assert(self.state().elements =~= s.elements.insert(global_id@, ev));
            lemma_update_keeps_wf(s, global_id@, ev);
        }
        Ok((ModelCommand::SetPlacement { global_id: global_id.clone(), placement: previous }, one(global_id)))
    }

    fn assign_container(&mut self, global_id: GlobalId, container: Option<GlobalId>) -> (r: Result<(ModelCommand, Vec<GlobalId>), CommandError>)
        requires
            old(self).wf(),
            counters_fit(old(self).state()),
        ensures
            final(self).wf(),
            settles(old(self).state(), CommandView::AssignContainer { global_id, container }, final(self).state(), r),
            r is Err ==> *final(self) == *old(self),
    {
        match self.require_element(&global_id) {
            Ok(_) => {},
            Err(e) => return Err(e),
        }
        if let Some(c) = &container {
            if *c == global_id {
                return Err(CommandError::SelfReference(global_id));
            }
            match self.require_spatial(c) {
                Ok(()) => {},
                Err(e) => return Err(e),
            }
        }
        let ghost s = self.state();
        let mut e = self.take(&global_id);
        let mut previous = container;
        std::mem::swap(&mut e.container, &mut previous);
        e.semantic_revision = e.semantic_revision + 1;
        let ghost ev = e@;
        self.put(&global_id, e);
        proof {
            assert(self.state().elements =~= s.elements.insert(global_id@, ev));
            lemma_recontain_keeps_wf(s, global_id@, ev);
        }
        Ok((ModelCommand::AssignContainer { global_id: global_id.clone(), container: previous }, one(global_id)))
    }

    fn set_representation(
        &mut self,
        global_id: GlobalId,
        representation: Option<Box<Representation>>,
    ) -> (r: Result<(ModelCommand, Vec<GlobalId>), CommandError>)
        requires
            old(self).wf(),
            counters_fit(old(self).state()),
        ensures
            final(self).wf(),
            settles(
                old(self).state(),
                CommandView::SetRepresentation {
                    global_id,
                    representation: match representation {
                        Some(x) => Some(x@),
                        None => None,
                    },
                },
                final(self).state(),
                r,
            ),
            r is Err ==> *final(self) == *old(self),
    {
        if let Some(x) = &representation {
            if !x.is_valid() {
                return Err(CommandError::InvalidRepresentation(global_id));
            }
        }
        match self.require_element(&global_id) {
            Ok(_) => {},
            Err(e) => return Err(e),
        }
        let ghost s = self.state();
        let mut e = self.take(&global_id);
        let mut previous = match representation {
            Some(x) => Some(*x),
            None => None,
        };
        std::mem::swap(&mut e.representation, &mut previous);
        e.representation_revision = e.representation_revision + 1;
        let ghost ev = e@;
        self.put(&global_id, e);
        proof {
            assert(self.state().elements =~= s.elements.insert(global_id@, ev));
            lemma_update_keeps_wf(s, global_id@, ev);
        }
        let inverse = match previous {
            Some(x) => Some(Box::new(x)),
            None => None,
        };
        Ok((ModelCommand::SetRepresentation { global_id: global_id.clone(), representation: inverse }, one(global_id)))
    }

    fn assign_type(&mut self, global_id: GlobalId, type_ref: Option<GlobalId>) -> (r: Result<(ModelCommand, Vec<GlobalId>), CommandError>)
        requires
            old(self).wf(),
            counters_fit(old(self).state()),
        ensures
            final(self).wf(),
            settles(old(self).state(), CommandView::AssignType { global_id, type_ref }, final(self).state(), r),
            r is Err ==> *final(self) == *old(self),
    {
        if mentions(&type_ref, &global_id) {
            return Err(CommandError::SelfReference(global_id));
        }
        match self.require_element(&global_id) {
            Ok(_) => {},
            Err(e) => return Err(e),
        }
        let ghost s = self.state();
        let mut e = self.take(&global_id);
        let mut previous = type_ref;
        std::mem::swap(&mut e.type_ref, &mut previous);
        e.semantic_revision = e.semantic_revision + 1;
        let ghost ev = e@;
        self.put(&global_id, e);
        proof {
            assert(self.state().elements =~= s.elements.insert(global_id@, ev));
            lemma_update_keeps_wf(s, global_id@, ev);
        }
        Ok((ModelCommand::AssignType { global_id: global_id.clone(), type_ref: previous }, one(global_id)))
    }

    fn add_void(&mut self, host: GlobalId, opening: GlobalId) -> (r: Result<(ModelCommand, Vec<GlobalId>), CommandError>)
        requires
            old(self).wf(),
            counters_fit(old(self).state()),
        ensures
            final(self).wf(),
            settles(old(self).state(), CommandView::AddVoid { host, opening }, final(self).state(), r),
            r is Err ==> *final(self) == *old(self),
    {
        match self.validate_void(&host, &opening) {
            Ok(()) => {},
            Err(e) => return Err(e),
        }
        let _ = host.is_valid();
        let _ = opening.is_valid();
        let key = pair_key(&host, &opening);
        proof { lemma_pair_member(self.voids@, host@, opening@); }
        if self.voids.contains_key(key.as_str()) {
            return Err(CommandError::RelationshipExists { relationship: REL_VOIDS, a: host, b: opening });
        }
        let ghost s = self.state();
        let pair = (host.clone(), opening.clone());
        proof { lemma_pairs_insert(self.voids@, pair); }
        self.voids.insert(key, pair);
        proof {
            assert(self.state() == ModelState { voids: s.voids.insert((host@, opening@)), ..s });
            lemma_add_void_keeps_wf(s, host@, opening@);
        }
        self.bump(&host);
        self.bump(&opening);
        Ok((ModelCommand::RemoveVoid { host: host.clone(), opening: opening.clone() }, two(host, opening)))
    }

    fn remove_void(&mut self, host: GlobalId, opening: GlobalId) -> (r: Result<(ModelCommand, Vec<GlobalId>), CommandError>)
        requires
            old(self).wf(),
            counters_fit(old(self).state()),
        ensures
            final(self).wf(),
            settles(old(self).state(), CommandView::RemoveVoid { host, opening }, final(self).state(), r),
            r is Err ==> *final(self) == *old(self),
    {
        let _ = host.is_valid();
        let _ = opening.is_valid();
        let key = pair_key(&host, &opening);
        proof { lemma_pair_member(self.voids@, host@, opening@); }
        if !self.voids.contains_key(key.as_str()) {
            return Err(CommandError::NoSuchRelationship { relationship: REL_VOIDS, a: host, b: opening });
        }
        let ghost s = self.state();
        proof { lemma_pairs_remove(self.voids@, host@, opening@); }
        self.voids.remove(key.as_str());
        proof {
            assert(self.state() == ModelState { voids: s.voids.remove((host@, opening@)), ..s });
            lemma_remove_pair_keeps_wf(s, host@, opening@);
        }
        self.bump(&host);
        self.bump(&opening);
        Ok((ModelCommand::AddVoid { host: host.clone(), opening: opening.clone() }, two(host, opening)))
    }

    fn add_fill(&mut self, opening: GlobalId, filler: GlobalId) -> (r: Result<(ModelCommand, Vec<GlobalId>), CommandError>)
        requires
            old(self).wf(),
            counters_fit(old(self).state()),
        ensures
            final(self).wf(),
            settles(old(self).state(), CommandView::AddFill { opening, filler }, final(self).state(), r),
            r is Err ==> *final(self) == *old(self),
    {
        match self.validate_fill(&opening, &filler) {
            Ok(()) => {},
            Err(e) => return Err(e),
        }
        let _ = opening.is_valid();
        let _ = filler.is_valid();
        let key = pair_key(&opening, &filler);
        proof { lemma_pair_member(self.fills@, opening@, filler@); }
        if self.fills.contains_key(key.as_str()) {
            return Err(CommandError::RelationshipExists { relationship: REL_FILLS, a: opening, b: filler });
        }
        let ghost s = self.state();
        let pair = (opening.clone(), filler.clone());
        proof { lemma_pairs_insert(self.fills@, pair); }
        self.fills.insert(key, pair);
        proof {
            assert(self.state() == ModelState { fills: s.fills.insert((opening@, filler@)), ..s });
            lemma_add_fill_keeps_wf(s, opening@, filler@);
        }
        self.bump(&filler);
        Ok((ModelCommand::RemoveFill { opening: opening.clone(), filler: filler.clone() }, two(opening, filler)))
    }

    fn remove_fill(&mut self, opening: GlobalId, filler: GlobalId) -> (r: Result<(ModelCommand, Vec<GlobalId>), CommandError>)
        requires
            old(self).wf(),
            counters_fit(old(self).state()),
        ensures
            final(self).wf(),
            settles(old(self).state(), CommandView::RemoveFill { opening, filler }, final(self).state(), r),
            r is Err ==> *final(self) == *old(self),
    {
        let _ = opening.is_valid();
        let _ = filler.is_valid();
        let key = pair_key(&opening, &filler);
        proof { lemma_pair_member(self.fills@, opening@, filler@); }
        if !self.fills.contains_key(key.as_str()) {
            return Err(CommandError::NoSuchRelationship { relationship: REL_FILLS, a: opening, b: filler });
        }
        let ghost s = self.state();
        proof { lemma_pairs_remove(self.fills@, opening@, filler@); }
        self.fills.remove(key.as_str());
        proof {
            assert(self.state() == ModelState { fills: s.fills.remove((opening@, filler@)), ..s });
            lemma_remove_fill_keeps_wf(s, opening@, filler@);
        }
        self.bump(&filler);
        Ok((ModelCommand::AddFill { opening: opening.clone(), filler: filler.clone() }, two(opening, filler)))
    }
}

/// Inserting a new element whose container exists and is spatial keeps a model consistent.
proof fn lemma_insert_keeps_wf(s: ModelState, e: ElementView)
    requires
        state_wf(s),
        !s.elements.contains_key(e.global_id@),
        container_error(s, e.container) is None,
        no_empty_sets(e.properties),
        finite_sets(e.properties),
    ensures
        state_wf(update(s, e.global_id@, e)),
{
    let t = update(s, e.global_id@, e);
    let k = e.global_id@;
    assert forall|p: (Seq<char>, Seq<char>)| #[trigger] t.voids.contains(p) implies {
        &&& p.0 != p.1
        &&& t.elements.contains_key(p.0)
        &&& t.elements.contains_key(p.1)
        &&& hosts_openings(t.elements[p.0].class)
        &&& t.elements[p.1].class is OpeningElement
    } by {
        assert(s.voids.contains(p));
    }
    assert forall|p: (Seq<char>, Seq<char>)| #[trigger] t.fills.contains(p) implies {
        &&& p.0 != p.1
        &&& t.elements.contains_key(p.0)
        &&& t.elements.contains_key(p.1)
        &&& t.elements[p.0].class is OpeningElement
    } by {
        assert(s.fills.contains(p));
    }
    assert forall|j: Seq<char>| #[trigger] t.elements.contains_key(j) implies (t.elements[j].container matches Some(c) ==> {
        &&& c@ != j
        &&& t.elements.contains_key(c@)
        &&& spatial(t.elements[c@].class)
    }) by {
        if j != k {
            assert(s.elements.contains_key(j));
            if let Some(c) = t.elements[j].container {
                assert(s.elements.contains_key(c@));
            }
        }
    }
}

/// Removing an element nothing refers to keeps a model consistent.
proof fn lemma_remove_keeps_wf(s: ModelState, k: Seq<char>)
    requires
        state_wf(s),
        s.elements.contains_key(k),
        !involves(s.voids, k),
        !involves(s.fills, k),
        !contains_something(s.elements, k),
    ensures
        state_wf(ModelState { elements: s.elements.remove(k), ..s }),
{
    let t = ModelState { elements: s.elements.remove(k), ..s };
    assert forall|p: (Seq<char>, Seq<char>)| #[trigger] t.voids.contains(p) implies {
        &&& p.0 != p.1
        &&& t.elements.contains_key(p.0)
        &&& t.elements.contains_key(p.1)
        &&& hosts_openings(t.elements[p.0].class)
        &&& t.elements[p.1].class is OpeningElement
    } by {
        assert(s.voids.contains(p));
    }
    assert forall|p: (Seq<char>, Seq<char>)| #[trigger] t.fills.contains(p) implies {
        &&& p.0 != p.1
        &&& t.elements.contains_key(p.0)
        &&& t.elements.contains_key(p.1)
        &&& t.elements[p.0].class is OpeningElement
    } by {
        assert(s.fills.contains(p));
    }
    assert forall|j: Seq<char>| #[trigger] t.elements.contains_key(j) implies (t.elements[j].container matches Some(c) ==> {
        &&& c@ != j
        &&& t.elements.contains_key(c@)
        &&& spatial(t.elements[c@].class)
    }) by {
        assert(s.elements.contains_key(j));
        if let Some(c) = t.elements[j].container {
            assert(s.elements.contains_key(c@));
            assert(c@ != k);
        }
    }
}

/// Moving an element into an existing spatial container other than itself keeps a model
/// consistent.
proof fn lemma_recontain_keeps_wf(s: ModelState, k: Seq<char>, e: ElementView)
    requires
        state_wf(s),
        s.elements.contains_key(k),
        e.global_id@ == k,
        e.class == s.elements[k].class,
        e.properties == s.elements[k].properties,
        !refers(e.container, k),
        container_error(s, e.container) is None,
    ensures
        state_wf(update(s, k, e)),
{
    let t = update(s, k, e);
    assert(t.elements.dom() =~= s.elements.dom());
    assert forall|j: Seq<char>| #[trigger] t.elements.contains_key(j) implies (t.elements[j].container matches Some(c) ==> {
        &&& c@ != j
        &&& t.elements.contains_key(c@)
        &&& spatial(t.elements[c@].class)
    }) by {
        if j != k {
            assert(t.elements[j] == s.elements[j]);
        }
        if let Some(c) = t.elements[j].container {
            assert(s.elements.contains_key(c@));
        }
    }
}

/// Adding a void that passed validation keeps a model consistent.
proof fn lemma_add_void_keeps_wf(s: ModelState, h: Seq<char>, o: Seq<char>)
    requires
        state_wf(s),
        h != o,
        s.elements.contains_key(h),
        s.elements.contains_key(o),
        hosts_openings(s.elements[h].class),
        s.elements[o].class is OpeningElement,
    ensures
        state_wf(ModelState { voids: s.voids.insert((h, o)), ..s }),
{
}

/// Adding a fill that passed validation keeps a model consistent.
proof fn lemma_add_fill_keeps_wf(s: ModelState, o: Seq<char>, f: Seq<char>)
    requires
        state_wf(s),
        o != f,
        s.elements.contains_key(o),
        s.elements.contains_key(f),
        s.elements[o].class is OpeningElement,
    ensures
        state_wf(ModelState { fills: s.fills.insert((o, f)), ..s }),
{
}

/// Removing a void keeps a model consistent.
proof fn lemma_remove_pair_keeps_wf(s: ModelState, a: Seq<char>, b: Seq<char>)
    requires
        state_wf(s),
    ensures
        state_wf(ModelState { voids: s.voids.remove((a, b)), ..s }),
{
}

/// Removing a fill keeps a model consistent.
proof fn lemma_remove_fill_keeps_wf(s: ModelState, a: Seq<char>, b: Seq<char>)
    requires
        state_wf(s),
    ensures
        state_wf(ModelState { fills: s.fills.remove((a, b)), ..s }),
{
}

/// A list of one identity.
fn one(a: GlobalId) -> (r: Vec<GlobalId>)
    ensures
        r@ == seq![a],
{
    let r = vec![a];
    assert(r@ =~= seq![a]);
    r
}

/// A list of two identities.
fn two(a: GlobalId, b: GlobalId) -> (r: Vec<GlobalId>)
    ensures
        r@ == seq![a, b],
{
    let r = vec![a, b];
    assert(r@ =~= seq![a, b]);
    r
}

/// Whether an optional reference names `id`.
fn mentions(o: &Option<GlobalId>, id: &GlobalId) -> (r: bool)
    ensures
        r == refers(*o, id@),
{
    match o {
        Some(x) => x == id,
        None => false,
    }
}

/// Whether some pair in a keyed table has `id` on either side.
fn pair_mentions(table: &TextMap<(GlobalId, GlobalId)>, id: &GlobalId) -> (r: bool)
    requires
        pairs_keyed(table@),
    ensures
        r == involves(pairs_of(table@), id@),
{
    let es = table.as_slice();
    let mut i: usize = 0;
    while i < es.len()
        invariant
            es@ == table.items(),
            table.items_describe_view(),
            pairs_keyed(table@),
            i <= es.len(),
            forall|j: int| 0 <= j < i ==> !((#[trigger] es@[j]).1.0@ == id@ || es@[j].1.1@ == id@),
        decreases es.len() - i,
    {
        let e = &es[i];
        if e.1.0 == *id || e.1.1 == *id {
            proof {
                let k = es@[i as int].0@;
                assert(table@.contains_key(k));
                let v = table@[k];
                lemma_pair_member(table@, v.0@, v.1@);
                assert(pairs_of(table@).contains((v.0@, v.1@)));
            }
            return true;
        }
        i += 1;
    }
    proof {
        assert forall|p: (Seq<char>, Seq<char>)| #[trigger] pairs_of(table@).contains(p) implies !(p.0 == id@ || p.1 == id@) by {
            let k = p.0 + p.1;
            let j = choose|j: int| 0 <= j < table.items().len() && #[trigger] table.items()[j].0@ == k;
            assert(es@[j].1 == table@[k]);
        }
    }
    false
}

/// Changing an element's name, properties, placement, geometry, typing or counters keeps a
/// model consistent, as long as its properties keep their shape.
proof fn lemma_update_keeps_wf(s: ModelState, k: Seq<char>, e: ElementView)
    requires
        state_wf(s),
        s.elements.contains_key(k),
        e.global_id@ == k,
        e.class == s.elements[k].class,
        e.container == s.elements[k].container,
        no_empty_sets(e.properties),
        finite_sets(e.properties),
    ensures
        state_wf(update(s, k, e)),
{
    let t = update(s, k, e);
    assert(t.elements.dom() =~= s.elements.dom());
    assert forall|j: Seq<char>| #[trigger] t.elements.contains_key(j) implies (t.elements[j].container matches Some(c) ==> {
        &&& c@ != j
        &&& t.elements.contains_key(c@)
        &&& spatial(t.elements[c@].class)
    }) by {
        if j != k {
            assert(t.elements[j] == s.elements[j]);
        }
        if let Some(c) = t.elements[j].container {
            assert(s.elements.contains_key(c@));
        }
    }
}


impl Duplicate for ElementRecord {
    fn duplicate(&self) -> (r: Self) {
        self.clone()
    }
}

impl Duplicate for (GlobalId, GlobalId) {
    fn duplicate(&self) -> (r: Self) {
        (self.0.clone(), self.1.clone())
    }
}

impl Store {
    fn duplicate(&self) -> (r: Self)
        ensures
            self.wf() ==> r.wf(),
            r.state() == self.state(),
    {
        let elements = self.elements.duplicate_map();
        let voids = self.voids.duplicate_map();
        let fills = self.fills.duplicate_map();
        let r = Store { elements, voids, fills };
        proof {
            assert forall|k: Seq<char>| #[trigger] r.voids@.contains_key(k) implies r.voids@[k].0@ == self.voids@[k].0@
                && r.voids@[k].1@ == self.voids@[k].1@ by {
                assert(r.voids@[k]@ == self.voids@[k]@);
            }
            assert forall|k: Seq<char>| #[trigger] r.fills@.contains_key(k) implies r.fills@[k].0@ == self.fills@[k].0@
                && r.fills@[k].1@ == self.fills@[k].1@ by {
                assert(r.fills@[k]@ == self.fills@[k]@);
            }
            assert(r.state().voids =~= self.state().voids);
            assert(r.state().fills =~= self.state().fills);
        }
        r
    }

    /// Validate, mutate, and produce the inverse.
    fn execute(&mut self, command: ModelCommand) -> (r: Result<(ModelCommand, Vec<GlobalId>), CommandError>)
        requires
            old(self).wf(),
            counters_fit(old(self).state()),
        ensures
            final(self).wf(),
            settles(old(self).state(), command@, final(self).state(), r),
            r is Err ==> *final(self) == *old(self),
    {
        match command {
            ModelCommand::CreateElement { element } => self.create(*element),
            ModelCommand::DeleteElement { global_id } => self.delete(global_id),
            ModelCommand::SetName { global_id, name } => self.set_name(global_id, name),
            ModelCommand::SetProperty { global_id, set, name, value } => self.set_property(global_id, set, name, value),
            ModelCommand::MoveElement { global_id, delta } => self.move_element(global_id, delta),
            ModelCommand::SetPlacement { global_id, placement } => self.set_placement(global_id, placement),
            ModelCommand::AssignContainer { global_id, container } => self.assign_container(global_id, container),
            ModelCommand::SetRepresentation { global_id, representation } => self.set_representation(global_id, representation),
            ModelCommand::AssignType { global_id, type_ref } => self.assign_type(global_id, type_ref),
            ModelCommand::AddVoid { host, opening } => self.add_void(host, opening),
            ModelCommand::RemoveVoid { host, opening } => self.remove_void(host, opening),
            ModelCommand::AddFill { opening, filler } => self.add_fill(opening, filler),
            ModelCommand::RemoveFill { opening, filler } => self.remove_fill(opening, filler),
        }
    }
}

/// One entry in the audit trail.
#[derive(Debug, PartialEq)]
pub struct Revision {
    pub number: u64,
    pub command: ModelCommand,
    pub changed: Vec<GlobalId>,
}

/// What a [`Revision`] records.
pub struct RevisionView {
    pub number: u64,
    pub command: CommandView,
    pub changed: Seq<GlobalId>,
}

impl View for Revision {
    type V = RevisionView;

    open spec fn view(&self) -> RevisionView {
        RevisionView { number: self.number, command: self.command@, changed: self.changed@ }
    }
}

impl Clone for Revision {
    fn clone(&self) -> (r: Self)
        ensures
            r@ == self@,
    {
        Revision { number: self.number, command: self.command.clone(), changed: clone_ids(&self.changed) }
    }
}

/// The views of a list of commands.
pub open spec fn command_views(v: Seq<ModelCommand>) -> Seq<CommandView> {
    v.map_values(|c: ModelCommand| c@)
}

/// The views of a list of revisions.
pub open spec fn revision_views(v: Seq<Revision>) -> Seq<RevisionView> {
    v.map_values(|r: Revision| r@)
}

/// A model: its state, its revision, its audit trail, and its undo and redo stacks.
pub struct ModelView {
    pub state: ModelState,
    pub revision: u64,
    pub history: Seq<RevisionView>,
    /// Inverses of the commands that can be undone, the next one last.
    pub undo: Seq<CommandView>,
    /// Commands that can be redone, the next one last.
    pub redo: Seq<CommandView>,
}

/// The elements whose geometry a command made stale: all it changed, or none.
pub open spec fn invalidated(c: CommandView, changed: Seq<GlobalId>) -> Seq<GlobalId> {
    if invalidates(c) {
        changed
    } else {
        Seq::empty()
    }
}

/// The semantic model.
///
/// Iteration is in identity order throughout, so that export from a given revision is
/// reproducible.
#[derive(Debug)]
pub struct Model {
    store: Store,
    revision: u64,
    history: Vec<Revision>,
    undo_stack: Vec<ModelCommand>,
    redo_stack: Vec<ModelCommand>,
}

impl View for Model {
    type V = ModelView;

    closed spec fn view(&self) -> ModelView {
        ModelView {
            state: self.store.state(),
            revision: self.revision,
            history: revision_views(self.history@),
            undo: command_views(self.undo_stack@),
            redo: command_views(self.redo_stack@),
        }
    }
}

impl Model {
    /// The model is consistent: see [`state_wf`].
    pub closed spec fn wf(&self) -> bool {
        self.store.wf()
    }

    pub proof fn lemma_wf(&self)
        requires
            self.wf(),
        ensures
            state_wf(self@.state),
    {
    }

    pub fn new() -> (r: Self)
        ensures
            r.wf(),
            r@.state.elements == Map::<Seq<char>, ElementView>::empty(),
            r@.state.voids == Set::<(Seq<char>, Seq<char>)>::empty(),
            r@.state.fills == Set::<(Seq<char>, Seq<char>)>::empty(),
            r@.revision == 0,
            r@.history.len() == 0,
            r@.undo.len() == 0,
            r@.redo.len() == 0,
    {
        Model {
            store: Store::new(),
            revision: 0,
            history: Vec::new(),
            undo_stack: Vec::new(),
            redo_stack: Vec::new(),
        }
    }

    /// Run a command and build its outcome; the stacks and the audit trail are left to the
    /// caller, which is what lets `undo` and `redo` reuse it.
    fn execute(&mut self, command: ModelCommand) -> (r: Result<CommandOutcome, CommandError>)
        requires
            old(self).wf(),
            counters_fit(old(self)@.state),
            old(self)@.revision < u64::MAX,
        ensures
            final(self).wf(),
            final(self).history == old(self).history,
            final(self).undo_stack == old(self).undo_stack,
            final(self).redo_stack == old(self).redo_stack,
            match step(old(self)@.state, command@) {
                Ok(a) => r matches Ok(o) && final(self)@.state == a.state && final(self)@.revision
                    == old(self)@.revision + 1 && o.revision == final(self)@.revision && o.inverse@
                    == a.inverse && o.changed@ == a.changed && o.geometry_invalidated@ == invalidated(
                    command@,
                    a.changed,
                ),
                Err(e) => r matches Err(x) && x@ == e && *final(self) == *old(self),
            },
    {
        let invalidates = command.invalidates_geometry();
        let ghost c = command@;
        match self.store.execute(command) {
            Err(e) => Err(e),
            Ok((inverse, changed)) => {
                self.revision = self.revision + 1;
                let geometry_invalidated = if invalidates {
                    clone_ids(&changed)
                } else {
                    Vec::new()
                };
                assert(geometry_invalidated@ =~= invalidated(c, changed@));
                Ok(CommandOutcome { revision: self.revision, inverse, changed, geometry_invalidated })
            },
        }
    }

    /// Apply a command, recording it for undo.
    ///
    /// A refused command leaves the model exactly as it was. An accepted one advances the
    /// revision by one, is recorded in the history, pushes its inverse for undo, and discards
    /// anything that could have been redone.
    pub fn apply(&mut self, command: ModelCommand) -> (r: Result<CommandOutcome, CommandError>)
        requires
            old(self).wf(),
            counters_fit(old(self)@.state),
            old(self)@.revision < u64::MAX,
        ensures
            final(self).wf(),
            match step(old(self)@.state, command@) {
                Ok(a) => r matches Ok(o) && final(self)@.state == a.state && final(self)@.revision
                    == old(self)@.revision + 1 && final(self)@.undo == old(self)@.undo.push(a.inverse)
                    && final(self)@.redo == Seq::<CommandView>::empty() && final(self)@.history
                    == old(self)@.history.push(
                    RevisionView { number: final(self)@.revision, command: command@, changed: a.changed },
                ) && o.revision == final(self)@.revision && o.inverse@ == a.inverse && o.changed@
                    == a.changed && o.geometry_invalidated@ == invalidated(command@, a.changed),
                Err(e) => r matches Err(x) && x@ == e && *final(self) == *old(self),
            },
    {
        let copy = command.clone();
        match self.execute(command) {
            Err(e) => Err(e),
            Ok(outcome) => {
                self.undo_stack.push(outcome.inverse.clone());
                self.redo_stack = Vec::new();
                self.history.push(Revision { number: outcome.revision, command: copy, changed: clone_ids(&outcome.changed) });
                proof {
                    assert(command_views(self.undo_stack@) =~= command_views(old(self).undo_stack@).push(outcome.inverse@));
                    assert(command_views(self.redo_stack@) =~= Seq::<CommandView>::empty());
                    assert(revision_views(self.history@) =~= revision_views(old(self).history@).push(
                        RevisionView { number: self.revision, command: copy@, changed: outcome.changed@ },
                    ));
                }
                Ok(outcome)
            },
        }
    }

    /// Undo the most recent command that has not been undone.
    ///
    /// Runs the recorded inverse; on success the inverse of *that* is pushed for redo. If the
    /// inverse is refused the stacks stay as they were, so no step is ever lost.
    pub fn undo(&mut self) -> (r: Result<CommandOutcome, CommandError>)
        requires
            old(self).wf(),
            counters_fit(old(self)@.state),
            old(self)@.revision < u64::MAX,
        ensures
            final(self).wf(),
            old(self)@.undo.len() == 0 ==> (r matches Err(x) && x@ == ErrorView::NothingToUndo && final(self)@
                == old(self)@),
            old(self)@.undo.len() > 0 ==> match step(old(self)@.state, old(self)@.undo.last()) {
                Ok(a) => r matches Ok(o) && final(self)@.state == a.state && final(self)@.revision
                    == old(self)@.revision + 1 && final(self)@.undo == old(self)@.undo.drop_last()
                    && final(self)@.redo == old(self)@.redo.push(a.inverse) && final(self)@.history
                    == old(self)@.history.push(
                    RevisionView {
                        number: final(self)@.revision,
                        command: old(self)@.undo.last(),
                        changed: a.changed,
                    },
                ) && o.revision == final(self)@.revision && o.inverse@ == a.inverse && o.changed@
                    == a.changed && o.geometry_invalidated@ == invalidated(old(self)@.undo.last(), a.changed),
                Err(e) => r matches Err(x) && x@ == e && final(self)@ == old(self)@,
            },
    {
        let inverse = match self.undo_stack.pop() {
            Some(c) => c,
            None => return Err(CommandError::NothingToUndo),
        };
        proof {
            assert(command_views(self.undo_stack@) =~= command_views(old(self).undo_stack@).drop_last());
            assert(inverse@ == command_views(old(self).undo_stack@).last());
        }
        let copy = inverse.clone();
        match self.execute(inverse) {
            Ok(outcome) => {
                self.redo_stack.push(outcome.inverse.clone());
                self.history.push(Revision { number: outcome.revision, command: copy, changed: clone_ids(&outcome.changed) });
                proof {
                    assert(command_views(self.redo_stack@) =~= command_views(old(self).redo_stack@).push(outcome.inverse@));
                    assert(revision_views(self.history@) =~= revision_views(old(self).history@).push(
                        RevisionView { number: self.revision, command: copy@, changed: outcome.changed@ },
                    ));
                }
                Ok(outcome)
            },
            Err(e) => {
                self.undo_stack.push(copy);
                proof {
                    assert(command_views(self.undo_stack@) =~= command_views(old(self).undo_stack@));
                }
                Err(e)
            },
        }
    }

    /// Redo the most recently undone command.
    pub fn redo(&mut self) -> (r: Result<CommandOutcome, CommandError>)
        requires
            old(self).wf(),
            counters_fit(old(self)@.state),
            old(self)@.revision < u64::MAX,
        ensures
            final(self).wf(),
            old(self)@.redo.len() == 0 ==> (r matches Err(x) && x@ == ErrorView::NothingToRedo && final(self)@
                == old(self)@),
            old(self)@.redo.len() > 0 ==> match step(old(self)@.state, old(self)@.redo.last()) {
                Ok(a) => r matches Ok(o) && final(self)@.state == a.state && final(self)@.revision
                    == old(self)@.revision + 1 && final(self)@.redo == old(self)@.redo.drop_last()
                    && final(self)@.undo == old(self)@.undo.push(a.inverse) && final(self)@.history
                    == old(self)@.history.push(
                    RevisionView {
                        number: final(self)@.revision,
                        command: old(self)@.redo.last(),
                        changed: a.changed,
                    },
                ) && o.revision == final(self)@.revision && o.inverse@ == a.inverse && o.changed@
                    == a.changed && o.geometry_invalidated@ == invalidated(old(self)@.redo.last(), a.changed),
                Err(e) => r matches Err(x) && x@ == e && final(self)@ == old(self)@,
            },
    {
        let command = match self.redo_stack.pop() {
            Some(c) => c,
            None => return Err(CommandError::NothingToRedo),
        };
        proof {
            assert(command_views(self.redo_stack@) =~= command_views(old(self).redo_stack@).drop_last());
            assert(command@ == command_views(old(self).redo_stack@).last());
        }
        let copy = command.clone();
        match self.execute(command) {
            Ok(outcome) => {
                self.undo_stack.push(outcome.inverse.clone());
                self.history.push(Revision { number: outcome.revision, command: copy, changed: clone_ids(&outcome.changed) });
                proof {
                    assert(command_views(self.undo_stack@) =~= command_views(old(self).undo_stack@).push(outcome.inverse@));
                    assert(revision_views(self.history@) =~= revision_views(old(self).history@).push(
                        RevisionView { number: self.revision, command: copy@, changed: outcome.changed@ },
                    ));
                }
                Ok(outcome)
            },
            Err(e) => {
                self.redo_stack.push(copy);
                proof {
                    assert(command_views(self.redo_stack@) =~= command_views(old(self).redo_stack@));
                }
                Err(e)
            },
        }
    }
}


/// Lexicographic order on pairs of identities: first parts, then second parts.
pub open spec fn pair_before(a: (Seq<char>, Seq<char>), b: (Seq<char>, Seq<char>)) -> bool {
    seq_lt(a.0, b.0) || (a.0 == b.0 && seq_lt(a.1, b.1))
}

/// The pairs of a keyed table, in table order.
fn pairs_in_order(table: &TextMap<(GlobalId, GlobalId)>) -> (r: Vec<(&GlobalId, &GlobalId)>)
    requires
        pairs_keyed(table@),
    ensures
        forall|i: int| 0 <= i < r@.len() ==> pairs_of(table@).contains(((#[trigger] r@[i]).0@, r@[i].1@)),
        forall|p: (Seq<char>, Seq<char>)| #[trigger]
            pairs_of(table@).contains(p) ==> exists|i: int| 0 <= i < r@.len() && (#[trigger] r@[i]).0@ == p.0 && r@[i].1@ == p.1,
        forall|i: int, j: int| 0 <= i < j < r@.len() ==> pair_before(((#[trigger] r@[i]).0@, r@[i].1@), ((#[trigger] r@[j]).0@, r@[j].1@)),
{
    let es = table.as_slice();
    let mut out: Vec<(&GlobalId, &GlobalId)> = Vec::new();
    let mut i: usize = 0;
    while i < es.len()
        invariant
            es@ == table.items(),
            table.items_describe_view(),
            pairs_keyed(table@),
            i <= es.len(),
            out@.len() == i,
            forall|j: int| 0 <= j < i ==> (#[trigger] out@[j]).0 == &es@[j].1.0 && out@[j].1 == &es@[j].1.1,
        decreases es.len() - i,
    {
        let e = &es[i];
        out.push((&e.1.0, &e.1.1));
        i += 1;
    }
    proof {
        let ks = keys_of(table.items());
        assert forall|j: int| 0 <= j < out@.len() implies pairs_of(table@).contains(((#[trigger] out@[j]).0@, out@[j].1@)) by {
            let k = es@[j].0@;
            assert(table@.contains_key(k));
            lemma_pair_member(table@, table@[k].0@, table@[k].1@);
        }
        assert forall|p: (Seq<char>, Seq<char>)| #[trigger] pairs_of(table@).contains(p) implies exists|j: int|
            0 <= j < out@.len() && (#[trigger] out@[j]).0@ == p.0 && out@[j].1@ == p.1 by {
            let k = p.0 + p.1;
            let j = choose|j: int| 0 <= j < table.items().len() && #[trigger] table.items()[j].0@ == k;
            assert(es@[j].1 == table@[k]);
            assert(out@[j].0@ == p.0);
        }
        assert forall|a: int, b: int| 0 <= a < b < out@.len() implies pair_before(((#[trigger] out@[a]).0@, out@[a].1@), ((#[trigger] out@[b]).0@, out@[b].1@)) by {
            assert(seq_lt(ks[a], ks[b]));
            let ka = es@[a].0@;
            let kb = es@[b].0@;
            assert(table@.contains_key(ka) && table@.contains_key(kb));
            crate::text::lemma_seq_lt_concat(out@[a].0@, out@[a].1@, out@[b].0@, out@[b].1@);
        }
    }
    out
}

/// The second parts of the pairs in a keyed table whose first part is `first`, in order.
fn seconds_of<'a>(table: &'a TextMap<(GlobalId, GlobalId)>, first: &GlobalId) -> (r: Vec<&'a GlobalId>)
    requires
        pairs_keyed(table@),
    ensures
        forall|i: int| 0 <= i < r@.len() ==> pairs_of(table@).contains((first@, (#[trigger] r@[i])@)),
        forall|p: (Seq<char>, Seq<char>)| #[trigger]
            pairs_of(table@).contains(p) && p.0 == first@ ==> exists|i: int| 0 <= i < r@.len() && (#[trigger] r@[i])@ == p.1,
        forall|i: int, j: int| 0 <= i < j < r@.len() ==> seq_lt((#[trigger] r@[i])@, (#[trigger] r@[j])@),
{
    let all = pairs_in_order(table);
    let mut out: Vec<&GlobalId> = Vec::new();
    let ghost mut idx: Seq<int> = Seq::empty();
    let mut i: usize = 0;
    while i < all.len()
        invariant
            i <= all.len(),
            out@.len() == idx.len(),
            forall|m: int| 0 <= m < idx.len() ==> 0 <= #[trigger] idx[m] < i,
            forall|m: int| 0 <= m < idx.len() ==> all@[#[trigger] idx[m]].0@ == first@ && all@[idx[m]].1 == out@[m],
            forall|a: int, b: int| 0 <= a < b < idx.len() ==> #[trigger] idx[a] < #[trigger] idx[b],
            forall|j: int| 0 <= j < i && (#[trigger] all@[j]).0@ == first@ ==> exists|m: int| 0 <= m < idx.len() && idx[m] == j,
        decreases all.len() - i,
    {
        let p = all[i];
        if p.0 == first {
            let ghost old_out = out@;
            out.push(p.1);
            proof {
                let old_idx = idx;
                idx = idx.push(i as int);
                assert forall|m: int| 0 <= m < idx.len() implies all@[#[trigger] idx[m]].0@ == first@ && all@[idx[m]].1 == out@[m] by {
                    if m < old_idx.len() {
                        assert(out@[m] == old_out[m]);
                        assert(idx[m] == old_idx[m]);
                    } else {
                        assert(idx[m] == i);
                    }
                }
                assert forall|j: int| 0 <= j < i + 1 && (#[trigger] all@[j]).0@ == first@ implies exists|m: int| 0 <= m < idx.len() && idx[m] == j by {
                    if j == i {
                        assert(idx[idx.len() - 1] == j);
                    } else {
                        let m = choose|m: int| 0 <= m < old_idx.len() && old_idx[m] == j;
                        assert(idx[m] == j);
                    }
                }
            }
        }
        i += 1;
    }
    proof {
        assert forall|m: int| 0 <= m < out@.len() implies pairs_of(table@).contains((first@, (#[trigger] out@[m])@)) by {
            assert(pairs_of(table@).contains((all@[idx[m]].0@, all@[idx[m]].1@)));
        }
        assert forall|q: (Seq<char>, Seq<char>)| #[trigger] pairs_of(table@).contains(q) && q.0 == first@ implies exists|m: int| 0 <= m < out@.len() && (#[trigger] out@[m])@ == q.1 by {
            let j = choose|j: int| 0 <= j < all@.len() && (#[trigger] all@[j]).0@ == q.0 && all@[j].1@ == q.1;
            let m = choose|m: int| 0 <= m < idx.len() && idx[m] == j;
            assert(out@[m]@ == q.1);
        }
        assert forall|a: int, b: int| 0 <= a < b < out@.len() implies seq_lt((#[trigger] out@[a])@, (#[trigger] out@[b])@) by {
            assert(idx[a] < idx[b]);
            assert(pair_before((all@[idx[a]].0@, all@[idx[a]].1@), (all@[idx[b]].0@, all@[idx[b]].1@)));
            crate::text::lemma_seq_lt_irreflexive(first@);
        }
    }
    out
}

impl Model {
    /// The elements in identity order, as values.
    pub closed spec fn listing(&self) -> Seq<ElementView> {
        self.store.elements.items().map_values(|e: (String, ElementRecord)| e.1@)
    }

    pub fn get(&self, id: &GlobalId) -> (r: Option<&ElementRecord>)
        ensures
            r matches Some(e) ==> present(self@.state, *id) && e@ == self@.state.elements[id@],
            r is None ==> !present(self@.state, *id),
    {
        self.store.get(id)
    }

    pub fn contains(&self, id: &GlobalId) -> (r: bool)
        ensures
            r == present(self@.state, *id),
    {
        self.store.elements.contains_key(id.as_str())
    }

    pub fn len(&self) -> (r: usize)
        ensures
            r == self@.state.elements.len(),
    {
        assert(self@.state.elements.dom() =~= self.store.elements@.dom());
        self.store.elements.len()
    }

    pub fn is_empty(&self) -> (r: bool)
        ensures
            r == (self@.state.elements.len() == 0),
    {
        assert(self@.state.elements.dom() =~= self.store.elements@.dom());
        self.store.elements.is_empty()
    }

    /// Every element, in identity order.
    pub fn iter(&self) -> (r: Vec<&ElementRecord>)
        requires
            self.wf(),
        ensures
            r@.map_values(|e: &ElementRecord| e@) == self.listing(),
            r@.len() == self@.state.elements.len(),
            forall|i: int| 0 <= i < r@.len() ==> self@.state.elements.contains_key((#[trigger] r@[i]).global_id@)
                && self@.state.elements[r@[i].global_id@] == r@[i]@,
            forall|i: int, j: int| 0 <= i < j < r@.len() ==> seq_lt((#[trigger] r@[i]).global_id@, (#[trigger] r@[j]).global_id@),
            forall|k: Seq<char>| #[trigger] self@.state.elements.contains_key(k) ==> exists|i: int|
                0 <= i < r@.len() && (#[trigger] r@[i]).global_id@ == k,
    {
        let es = self.store.elements.as_slice();
        let mut out: Vec<&ElementRecord> = Vec::new();
        let mut i: usize = 0;
        while i < es.len()
            invariant
                es@ == self.store.elements.items(),
                i <= es.len(),
                out@.len() == i,
                forall|j: int| 0 <= j < i ==> (#[trigger] out@[j]) == &es@[j].1,
            decreases es.len() - i,
        {
            out.push(&es[i].1);
            i += 1;
        }
        proof {
            assert(out@.map_values(|e: &ElementRecord| e@) =~= self.listing());
            assert(self@.state.elements.dom() =~= self.store.elements@.dom());
            let ks = keys_of(self.store.elements.items());
            assert forall|j: int| 0 <= j < out@.len() implies self@.state.elements.contains_key((#[trigger] out@[j]).global_id@)
                && self@.state.elements[out@[j].global_id@] == out@[j]@ by {
                let k = es@[j].0@;
                assert(self.store.elements@.contains_key(k));
                assert(self@.state.elements.contains_key(k));
            }
            assert forall|a: int, b: int| 0 <= a < b < out@.len() implies seq_lt((#[trigger] out@[a]).global_id@, (#[trigger] out@[b]).global_id@) by {
                assert(seq_lt(ks[a], ks[b]));
                assert(self@.state.elements.contains_key(es@[a].0@));
                assert(self@.state.elements.contains_key(es@[b].0@));
            }
            assert forall|k: Seq<char>| #[trigger] self@.state.elements.contains_key(k) implies exists|i: int|
                0 <= i < out@.len() && (#[trigger] out@[i]).global_id@ == k by {
                assert(self.store.elements@.contains_key(k));
                let j = choose|j: int| 0 <= j < self.store.elements.items().len() && #[trigger] self.store.elements.items()[j].0@ == k;
                assert(out@[j] == &es@[j].1);
                assert(self@.state.elements[k] == es@[j].1@);
            }
        }
        out
    }

    pub fn revision(&self) -> (r: u64)
        ensures
            r == self@.revision,
    {
        self.revision
    }

    /// The audit trail, oldest first.
    pub fn history(&self) -> (r: &[Revision])
        ensures
            revision_views(r@) == self@.history,
    {
        self.history.as_slice()
    }

    pub fn can_undo(&self) -> (r: bool)
        ensures
            r == (self@.undo.len() > 0),
    {
        self.undo_stack.len() > 0
    }

    pub fn can_redo(&self) -> (r: bool)
        ensures
            r == (self@.redo.len() > 0),
    {
        self.redo_stack.len() > 0
    }

    /// Elements of a class, in identity order.
    pub fn by_class(&self, class: &IfcClass) -> (r: Vec<&ElementRecord>)
        ensures
            r@.map_values(|e: &ElementRecord| e@) == self.listing().filter(|e: ElementView| same_class(e.class, *class)),
    {
        let es = self.store.elements.as_slice();
        let mut out: Vec<&ElementRecord> = Vec::new();
        let mut i: usize = 0;
        let ghost pred = |e: ElementView| same_class(e.class, *class);
        while i < es.len()
            invariant
                es@ == self.store.elements.items(),
                i <= es.len(),
                pred == (|e: ElementView| same_class(e.class, *class)),
                out@.map_values(|e: &ElementRecord| e@) == self.listing().take(i as int).filter(pred),
            decreases es.len() - i,
        {
            let e = &es[i].1;
            proof {
                let l = self.listing();
                assert(l.take(i + 1).drop_last() =~= l.take(i as int));
                reveal(Seq::filter);
            }
            if e.class.same_as(class) {
                out.push(e);
            }
            proof {
                let l = self.listing();
                assert(out@.map_values(|e: &ElementRecord| e@) =~= l.take(i + 1).filter(pred));
            }
            i += 1;
        }
        assert(self.listing().take(es.len() as int) =~= self.listing());
        out
    }

    /// Elements contained in a spatial structure element, in identity order.
    pub fn contained_in(&self, container: &GlobalId) -> (r: Vec<&ElementRecord>)
        ensures
            r@.map_values(|e: &ElementRecord| e@) == self.listing().filter(|e: ElementView| refers(e.container, container@)),
    {
        let es = self.store.elements.as_slice();
        let mut out: Vec<&ElementRecord> = Vec::new();
        let mut i: usize = 0;
        let ghost pred = |e: ElementView| refers(e.container, container@);
        while i < es.len()
            invariant
                es@ == self.store.elements.items(),
                i <= es.len(),
                pred == (|e: ElementView| refers(e.container, container@)),
                out@.map_values(|e: &ElementRecord| e@) == self.listing().take(i as int).filter(pred),
            decreases es.len() - i,
        {
            let e = &es[i].1;
            proof {
                let l = self.listing();
                assert(l.take(i + 1).drop_last() =~= l.take(i as int));
                reveal(Seq::filter);
            }
            if mentions(&e.container, container) {
                out.push(e);
            }
            proof {
                let l = self.listing();
                assert(out@.map_values(|e: &ElementRecord| e@) =~= l.take(i + 1).filter(pred));
            }
            i += 1;
        }
        assert(self.listing().take(es.len() as int) =~= self.listing());
        out
    }

    /// Every `(host, opening)` pair, in order.
    pub fn voids(&self) -> (r: Vec<(&GlobalId, &GlobalId)>)
        requires
            self.wf(),
        ensures
            forall|i: int| 0 <= i < r@.len() ==> self@.state.voids.contains(((#[trigger] r@[i]).0@, r@[i].1@)),
            forall|p: (Seq<char>, Seq<char>)| #[trigger]
                self@.state.voids.contains(p) ==> exists|i: int| 0 <= i < r@.len() && (#[trigger] r@[i]).0@ == p.0 && r@[i].1@ == p.1,
            forall|i: int, j: int| 0 <= i < j < r@.len() ==> pair_before(((#[trigger] r@[i]).0@, r@[i].1@), ((#[trigger] r@[j]).0@, r@[j].1@)),
    {
        pairs_in_order(&self.store.voids)
    }

    /// Every `(opening, filler)` pair, in order.
    pub fn fills(&self) -> (r: Vec<(&GlobalId, &GlobalId)>)
        requires
            self.wf(),
        ensures
            forall|i: int| 0 <= i < r@.len() ==> self@.state.fills.contains(((#[trigger] r@[i]).0@, r@[i].1@)),
            forall|p: (Seq<char>, Seq<char>)| #[trigger]
                self@.state.fills.contains(p) ==> exists|i: int| 0 <= i < r@.len() && (#[trigger] r@[i]).0@ == p.0 && r@[i].1@ == p.1,
            forall|i: int, j: int| 0 <= i < j < r@.len() ==> pair_before(((#[trigger] r@[i]).0@, r@[i].1@), ((#[trigger] r@[j]).0@, r@[j].1@)),
    {
        pairs_in_order(&self.store.fills)
    }

    /// Openings cutting a host (`IfcRelVoidsElement`), in order.
    pub fn openings_of(&self, host: &GlobalId) -> (r: Vec<&GlobalId>)
        requires
            self.wf(),
        ensures
            forall|i: int| 0 <= i < r@.len() ==> self@.state.voids.contains((host@, (#[trigger] r@[i])@)),
            forall|p: (Seq<char>, Seq<char>)| #[trigger]
                self@.state.voids.contains(p) && p.0 == host@ ==> exists|i: int| 0 <= i < r@.len() && (#[trigger] r@[i])@ == p.1,
            forall|i: int, j: int| 0 <= i < j < r@.len() ==> seq_lt((#[trigger] r@[i])@, (#[trigger] r@[j])@),
    {
        seconds_of(&self.store.voids, host)
    }

    /// Elements filling an opening (`IfcRelFillsElement`), in order.
    pub fn fills_of(&self, opening: &GlobalId) -> (r: Vec<&GlobalId>)
        requires
            self.wf(),
        ensures
            forall|i: int| 0 <= i < r@.len() ==> self@.state.fills.contains((opening@, (#[trigger] r@[i])@)),
            forall|p: (Seq<char>, Seq<char>)| #[trigger]
                self@.state.fills.contains(p) && p.0 == opening@ ==> exists|i: int| 0 <= i < r@.len() && (#[trigger] r@[i])@ == p.1,
            forall|i: int, j: int| 0 <= i < j < r@.len() ==> seq_lt((#[trigger] r@[i])@, (#[trigger] r@[j])@),
    {
        seconds_of(&self.store.fills, opening)
    }

    /// The host an opening cuts, if any: the first in order, should there be several.
    pub fn host_of(&self, opening: &GlobalId) -> (r: Option<&GlobalId>)
        requires
            self.wf(),
        ensures
            r matches Some(h) ==> self@.state.voids.contains((h@, opening@)) && forall|p: (Seq<char>, Seq<char>)| #[trigger]
                self@.state.voids.contains(p) && p.1 == opening@ ==> p.0 == h@ || seq_lt(h@, p.0),
            r is None ==> forall|p: (Seq<char>, Seq<char>)| #[trigger] self@.state.voids.contains(p) ==> p.1 != opening@,
    {
        let all = pairs_in_order(&self.store.voids);
        let mut i: usize = 0;
        while i < all.len()
            invariant
                forall|j: int| 0 <= j < all@.len() ==> self@.state.voids.contains(((#[trigger] all@[j]).0@, all@[j].1@)),
                forall|a: int, b: int| 0 <= a < b < all@.len() ==> pair_before(((#[trigger] all@[a]).0@, all@[a].1@), ((#[trigger] all@[b]).0@, all@[b].1@)),
                forall|p: (Seq<char>, Seq<char>)| #[trigger]
                    self@.state.voids.contains(p) ==> exists|j: int| 0 <= j < all@.len() && (#[trigger] all@[j]).0@ == p.0 && all@[j].1@ == p.1,
                i <= all.len(),
                forall|j: int| 0 <= j < i ==> (#[trigger] all@[j]).1@ != opening@,
            decreases all.len() - i,
        {
            let p = all[i];
            if p.1 == opening {
                proof {
                    assert forall|q: (Seq<char>, Seq<char>)| #[trigger] self@.state.voids.contains(q) && q.1 == opening@ implies q.0 == p.0@ || seq_lt(p.0@, q.0) by {
                        let j = choose|j: int| 0 <= j < all@.len() && (#[trigger] all@[j]).0@ == q.0 && all@[j].1@ == q.1;
                        if j > i {
                            assert(pair_before((all@[i as int].0@, all@[i as int].1@), (all@[j].0@, all@[j].1@)));
                        }
                    }
                }
                return Some(p.0);
            }
            i += 1;
        }
        None
    }

    /// Attach evaluated geometry bounds. Not a command: bounds are a derived cache, and
    /// caches do not belong in the audit trail.
    pub fn set_bounds(&mut self, id: &GlobalId, bounds: Option<BoundingBox>) -> (r: bool)
        requires
            old(self).wf(),
        ensures
            final(self).wf(),
            r == present(old(self)@.state, *id),
            r ==> final(self)@.state == update(
                old(self)@.state,
                id@,
                ElementView { bounds, ..old(self)@.state.elements[id@] },
            ),
            !r ==> final(self)@.state == old(self)@.state,
            final(self)@.revision == old(self)@.revision,
            final(self)@.history == old(self)@.history,
            final(self)@.undo == old(self)@.undo,
            final(self)@.redo == old(self)@.redo,
    {
        if !self.store.elements.contains_key(id.as_str()) {
            return false;
        }
        let ghost s = self.store.state();
        let mut e = self.store.take(id);
        e.bounds = bounds;
        let ghost ev = e@;
        self.store.put(id, e);
        proof {
            assert(self.store.state().elements =~= s.elements.insert(id@, ev));
            lemma_update_keeps_wf(s, id@, ev);
        }
        true
    }
}



/// Running commands one after another, stopping at the first refusal: the state reached, how
/// many were applied, and the refusal, if there was one.
pub open spec fn run(s: ModelState, cs: Seq<CommandView>) -> (ModelState, nat, Option<ErrorView>)
    decreases cs.len(),
{
    if cs.len() == 0 {
        (s, 0, None)
    } else {
        match step(s, cs[0]) {
            Err(e) => (s, 0, Some(e)),
            Ok(a) => {
                let r = run(a.state, cs.drop_first());
                (r.0, r.1 + 1, r.2)
            },
        }
    }
}

/// No counter overflows while running `cs` from `s` at `revision`.
pub open spec fn run_fits(s: ModelState, cs: Seq<CommandView>, revision: u64) -> bool
    decreases cs.len(),
{
    cs.len() == 0 || (counters_fit(s) && revision < u64::MAX && (step(s, cs[0]) matches Ok(a) ==> run_fits(
        a.state,
        cs.drop_first(),
        (revision + 1) as u64,
    )))
}

/// A copy of a list of commands.
fn clone_commands(v: &Vec<ModelCommand>) -> (r: Vec<ModelCommand>)
    ensures
        command_views(r@) == command_views(v@),
{
    let mut r: Vec<ModelCommand> = Vec::new();
    let mut i: usize = 0;
    while i < v.len()
        invariant
            i <= v.len(),
            command_views(r@) == command_views(v@.take(i as int)),
        decreases v.len() - i,
    {
        r.push(v[i].clone());
        assert(command_views(v@.take(i + 1)) =~= command_views(v@.take(i as int)).push(v@[i as int]@));
        assert(command_views(r@) =~= command_views(v@.take(i + 1)));
        i += 1;
    }
    assert(v@.take(v.len() as int) =~= v@);
    r
}

/// A copy of an audit trail.
fn clone_revisions(v: &Vec<Revision>) -> (r: Vec<Revision>)
    ensures
        revision_views(r@) == revision_views(v@),
{
    let mut r: Vec<Revision> = Vec::new();
    let mut i: usize = 0;
    while i < v.len()
        invariant
            i <= v.len(),
            revision_views(r@) == revision_views(v@.take(i as int)),
        decreases v.len() - i,
    {
        r.push(v[i].clone());
        assert(revision_views(v@.take(i + 1)) =~= revision_views(v@.take(i as int)).push(v@[i as int]@));
        assert(revision_views(r@) =~= revision_views(v@.take(i + 1)));
        i += 1;
    }
    assert(v@.take(v.len() as int) =~= v@);
    r
}

impl Clone for Model {
    fn clone(&self) -> (r: Self)
        ensures
            r@ == self@,
            self.wf() ==> r.wf(),
    {
        Model {
            store: self.store.duplicate(),
            revision: self.revision,
            history: clone_revisions(&self.history),
            undo_stack: clone_commands(&self.undo_stack),
            redo_stack: clone_commands(&self.redo_stack),
        }
    }
}

impl Default for Model {
    fn default() -> (r: Self)
        ensures
            r.wf(),
            r@.state.elements == Map::<Seq<char>, ElementView>::empty(),
            r@.state.voids == Set::<(Seq<char>, Seq<char>)>::empty(),
            r@.state.fills == Set::<(Seq<char>, Seq<char>)>::empty(),
            r@.revision == 0,
            r@.history.len() == 0,
            r@.undo.len() == 0,
            r@.redo.len() == 0,
    {
        Self::new()
    }
}

impl Model {
    /// Apply a batch, stopping at the first refusal.
    ///
    /// Not transactional: earlier commands stay applied. Callers wanting all-or-nothing undo
    /// back to the starting revision.
    pub fn apply_all(&mut self, commands: Vec<ModelCommand>) -> (r: Result<Vec<CommandOutcome>, CommandError>)
        requires
            old(self).wf(),
            run_fits(old(self)@.state, command_views(commands@), old(self)@.revision),
        ensures
            final(self).wf(),
            final(self)@.state == run(old(self)@.state, command_views(commands@)).0,
            final(self)@.revision == old(self)@.revision + run(old(self)@.state, command_views(commands@)).1,
            run(old(self)@.state, command_views(commands@)).2 matches Some(e) ==> (r matches Err(x) && x@ == e),
            run(old(self)@.state, command_views(commands@)).2 is None ==> (r matches Ok(os) && os.len() == commands.len()),
    {
        let ghost cs = command_views(commands@);
        let ghost s0 = self@.state;
        let ghost r0 = self@.revision;
        let mut outcomes: Vec<CommandOutcome> = Vec::new();
        let mut i: usize = 0;
        assert(cs.subrange(0, cs.len() as int) =~= cs);
        while i < commands.len()
            invariant
                self.wf(),
                cs == command_views(commands@),
                s0 == old(self)@.state,
                r0 == old(self)@.revision,
                i <= commands.len(),
                outcomes.len() == i,
                self@.revision == r0 + i,
                run_fits(self@.state, cs.subrange(i as int, cs.len() as int), self@.revision),
                run(s0, cs).0 == run(self@.state, cs.subrange(i as int, cs.len() as int)).0,
                run(s0, cs).1 == run(self@.state, cs.subrange(i as int, cs.len() as int)).1 + i,
                run(s0, cs).2 == run(self@.state, cs.subrange(i as int, cs.len() as int)).2,
            decreases commands.len() - i,
        {
            let ghost rest = cs.subrange(i as int, cs.len() as int);
            assert(rest[0] == commands@[i as int]@);
            assert(rest.drop_first() =~= cs.subrange(i + 1, cs.len() as int));
            let command = commands[i].clone();
            let ghost before = self@;
            match self.apply(command) {
                Ok(o) => {
                    outcomes.push(o);
                },
                Err(e) => {
                    assert(step(before.state, rest[0]) is Err);
                    assert(run(before.state, rest) == (before.state, 0nat, Some(e@)));
                    return Err(e);
                },
            }
            proof {
                let a = step(before.state, rest[0])->Ok_0;
                assert(run(before.state, rest) == (run(a.state, rest.drop_first()).0, run(a.state, rest.drop_first()).1 + 1, run(a.state, rest.drop_first()).2));
            }
            i += 1;
        }
        assert(cs.subrange(commands.len() as int, cs.len() as int) =~= Seq::<CommandView>::empty());
        Ok(outcomes)
    }
}

/// Two states hold the same elements with the same contents, and the same relationships,
/// whatever their revision counters say.
pub open spec fn same_content(s: ModelState, t: ModelState) -> bool {
    &&& s.elements.dom() == t.elements.dom()
    &&& forall|k: Seq<char>| #[trigger]
        s.elements.contains_key(k) ==> (ElementView {
            representation_revision: 0,
            semantic_revision: 0,
            ..s.elements[k]
        }) == (ElementView { representation_revision: 0, semantic_revision: 0, ..t.elements[k] })
    &&& s.voids == t.voids
    &&& s.fills == t.fills
}

/// The commands whose inverse restores the model exactly.
///
/// A translation is in only where its arithmetic undoes exactly: floating-point addition
/// does not in general (`0.1 + 0.2 - 0.2` is not `0.1`). Left out are three inputs on which the inverse itself is
/// refused: an element created while something is already typed by its identity, or typed by
/// itself; geometry replaced while the element holds a malformed representation; and a type
/// replaced on an element typed by itself.
pub open spec fn invertible(s: ModelState, c: CommandView) -> bool {
    match c {
        CommandView::MoveElement { global_id, delta } => present(s, global_id) ==> translated_location(
            translated_location(s.elements[global_id@].placement.location, delta),
            neg3(delta),
        ) == s.elements[global_id@].placement.location,
        CommandView::CreateElement { element } => !types_something(s.elements, element.global_id@) && !refers(
            element.type_ref,
            element.global_id@,
        ),
        CommandView::SetRepresentation { global_id, .. } => present(s, global_id) ==> (
        s.elements[global_id@].representation matches Some(m) ==> valid_model(m)),
        CommandView::AssignType { global_id, .. } => present(s, global_id) ==> !refers(
            s.elements[global_id@].type_ref,
            global_id@,
        ),
        _ => true,
    }
}

/// Every command's inverse is accepted and restores the model: undo after apply gives back
/// the elements and relationships that were there before.
pub proof fn lemma_inverse_restores(s: ModelState, c: CommandView)
    requires
        state_wf(s),
        step(s, c) is Ok,
        invertible(s, c),
    ensures
        step(step(s, c)->Ok_0.state, step(s, c)->Ok_0.inverse) is Ok,
        same_content(step(step(s, c)->Ok_0.state, step(s, c)->Ok_0.inverse)->Ok_0.state, s),
{
    let a = step(s, c)->Ok_0;
    let t = a.state;
    match c {
        CommandView::CreateElement { element } => {
            let k = element.global_id@;
            assert(!involves(t.voids, k)) by {
                if involves(t.voids, k) {
                    let p = choose|p: (Seq<char>, Seq<char>)| #[trigger] t.voids.contains(p) && (p.0 == k || p.1 == k);
                    assert(s.voids.contains(p));
                }
            }
            assert(!involves(t.fills, k)) by {
                if involves(t.fills, k) {
                    let p = choose|p: (Seq<char>, Seq<char>)| #[trigger] t.fills.contains(p) && (p.0 == k || p.1 == k);
                    assert(s.fills.contains(p));
                }
            }
            assert(!contains_something(t.elements, k)) by {
                if contains_something(t.elements, k) {
                    let j = choose|j: Seq<char>| #[trigger] t.elements.contains_key(j) && refers(t.elements[j].container, k);
                    if j != k {
                        assert(s.elements.contains_key(j));
                    }
                }
            }
            assert(!types_something(t.elements, k)) by {
                if types_something(t.elements, k) {
                    let j = choose|j: Seq<char>| #[trigger] t.elements.contains_key(j) && refers(t.elements[j].type_ref, k);
                    if j != k {
                        assert(s.elements.contains_key(j));
                    }
                }
            }
            let b = step(t, a.inverse)->Ok_0;
            assert(b.state.elements =~= s.elements);
        },
        CommandView::DeleteElement { global_id } => {
            let e = s.elements[global_id@];
            if let Some(x) = e.container {
                assert(s.elements.contains_key(x@));
                assert(t.elements.contains_key(x@));
            }
            let b = step(t, a.inverse)->Ok_0;
            assert(b.state.elements =~= s.elements);
        },
        CommandView::SetName { global_id, name } => {
            let b = step(t, a.inverse)->Ok_0;
            assert(b.state.elements =~= s.elements.insert(global_id@, b.state.elements[global_id@]));
            lemma_same_content_after_update(s, b.state, global_id@);
        },
        CommandView::SetProperty { global_id, set, name, value } => {
            let e = s.elements[global_id@];
            crate::property::lemma_set_then_restore(e.properties, set@, name@, value);
            let b = step(t, a.inverse)->Ok_0;
            assert(b.state.elements =~= s.elements.insert(global_id@, b.state.elements[global_id@]));
            lemma_same_content_after_update(s, b.state, global_id@);
        },
        CommandView::SetPlacement { global_id, placement } => {
            let b = step(t, a.inverse)->Ok_0;
            assert(b.state.elements =~= s.elements.insert(global_id@, b.state.elements[global_id@]));
            lemma_same_content_after_update(s, b.state, global_id@);
        },
        CommandView::AssignContainer { global_id, container } => {
            let e = s.elements[global_id@];
            if let Some(x) = e.container {
                assert(s.elements.contains_key(x@));
                assert(x@ != global_id@);
                assert(t.elements[x@] == s.elements[x@]);
            }
            let b = step(t, a.inverse)->Ok_0;
            assert(b.state.elements =~= s.elements.insert(global_id@, b.state.elements[global_id@]));
            lemma_same_content_after_update(s, b.state, global_id@);
        },
        CommandView::SetRepresentation { global_id, representation } => {
            let b = step(t, a.inverse)->Ok_0;
            assert(b.state.elements =~= s.elements.insert(global_id@, b.state.elements[global_id@]));
            lemma_same_content_after_update(s, b.state, global_id@);
        },
        CommandView::AssignType { global_id, type_ref } => {
            let b = step(t, a.inverse)->Ok_0;
            assert(b.state.elements =~= s.elements.insert(global_id@, b.state.elements[global_id@]));
            lemma_same_content_after_update(s, b.state, global_id@);
        },
        CommandView::AddVoid { host, opening } => {
            let b = step(t, a.inverse)->Ok_0;
            assert(b.state.voids =~= s.voids);
            assert(b.state.elements.dom() =~= s.elements.dom());
            lemma_same_content_bumped(s, b.state);
        },
        CommandView::RemoveVoid { host, opening } => {
            assert(s.voids.contains((host@, opening@)));
            let b = step(t, a.inverse)->Ok_0;
            assert(b.state.voids =~= s.voids);
            assert(b.state.elements.dom() =~= s.elements.dom());
            lemma_same_content_bumped(s, b.state);
        },
        CommandView::AddFill { opening, filler } => {
            let b = step(t, a.inverse)->Ok_0;
            assert(b.state.fills =~= s.fills);
            assert(b.state.elements.dom() =~= s.elements.dom());
            lemma_same_content_bumped(s, b.state);
        },
        CommandView::RemoveFill { opening, filler } => {
            assert(s.fills.contains((opening@, filler@)));
            let b = step(t, a.inverse)->Ok_0;
            assert(b.state.fills =~= s.fills);
            assert(b.state.elements.dom() =~= s.elements.dom());
            lemma_same_content_bumped(s, b.state);
        },
        CommandView::MoveElement { global_id, delta } => {
            let e = s.elements[global_id@];
            let b = step(t, a.inverse)->Ok_0;
            assert(b.state.elements[global_id@].placement == e.placement);
            assert(b.state.elements =~= s.elements.insert(global_id@, b.state.elements[global_id@]));
            lemma_same_content_after_update(s, b.state, global_id@);
        },
    }
}

/// Two states that differ at most in one element's counters and in nothing of its content
/// have the same content.
proof fn lemma_same_content_after_update(s: ModelState, t: ModelState, k: Seq<char>)
    requires
        s.elements.contains_key(k),
        t.elements == s.elements.insert(k, t.elements[k]),
        (ElementView { representation_revision: 0, semantic_revision: 0, ..t.elements[k] }) == (ElementView {
            representation_revision: 0,
            semantic_revision: 0,
            ..s.elements[k]
        }),
        t.voids == s.voids,
        t.fills == s.fills,
    ensures
        same_content(t, s),
{
    assert(t.elements.dom() =~= s.elements.dom());
}

/// Bumping counters changes no content.
proof fn lemma_same_content_bumped(s: ModelState, t: ModelState)
    requires
        t.elements.dom() == s.elements.dom(),
        forall|k: Seq<char>| #[trigger] s.elements.contains_key(k) ==> t.elements[k] == (ElementView {
            representation_revision: t.elements[k].representation_revision,
            ..s.elements[k]
        }),
        t.voids == s.voids,
        t.fills == s.fills,
    ensures
        same_content(t, s),
{
}


/// Bumping a representation revision keeps a model consistent.
proof fn lemma_bump_keeps_wf(s: ModelState, k: Seq<char>)
    requires
        state_wf(s),
    ensures
        state_wf(bump_representation(s, k)),
{
    if s.elements.contains_key(k) {
        let e = s.elements[k];
        lemma_update_keeps_wf(s, k, ElementView { representation_revision: (e.representation_revision + 1) as u64, ..e });
    }
}

/// The property sets a command brings with it have the shape every `PropertySets` value has.
pub open spec fn shaped(c: CommandView) -> bool {
    c matches CommandView::CreateElement { element } ==> no_empty_sets(element.properties) && finite_sets(
        element.properties,
    )
}

/// Every accepted command keeps the model consistent.
pub proof fn lemma_step_keeps_wf(s: ModelState, c: CommandView)
    requires
        state_wf(s),
        shaped(c),
        step(s, c) is Ok,
    ensures
        state_wf(step(s, c)->Ok_0.state),
{
    match c {
        CommandView::CreateElement { element } => {
            lemma_insert_keeps_wf(s, element);
        },
        CommandView::DeleteElement { global_id } => {
            lemma_remove_keeps_wf(s, global_id@);
        },
        CommandView::SetName { global_id, name } => {
            let e = s.elements[global_id@];
            lemma_update_keeps_wf(s, global_id@, ElementView { name, semantic_revision: (e.semantic_revision + 1) as u64, ..e });
        },
        CommandView::SetProperty { global_id, set, name, value } => {
            let e = s.elements[global_id@];
            crate::property::lemma_assign_keeps_shape(e.properties, set@, name@, value);
            lemma_update_keeps_wf(
                s,
                global_id@,
                ElementView {
                    properties: assign(e.properties, set@, name@, value),
                    semantic_revision: (e.semantic_revision + 1) as u64,
                    ..e
                },
            );
        },
        CommandView::MoveElement { global_id, delta } => {
            let e = s.elements[global_id@];
            lemma_update_keeps_wf(
                s,
                global_id@,
                ElementView {
                    placement: Placement { location: translated_location(e.placement.location, delta), ..e.placement },
                    representation_revision: (e.representation_revision + 1) as u64,
                    ..e
                },
            );
        },
        CommandView::SetPlacement { global_id, placement } => {
            let e = s.elements[global_id@];
            lemma_update_keeps_wf(
                s,
                global_id@,
                ElementView { placement, representation_revision: (e.representation_revision + 1) as u64, ..e },
            );
        },
        CommandView::AssignContainer { global_id, container } => {
            let e = s.elements[global_id@];
            lemma_recontain_keeps_wf(s, global_id@, ElementView { container, semantic_revision: (e.semantic_revision + 1) as u64, ..e });
        },
        CommandView::SetRepresentation { global_id, representation } => {
            let e = s.elements[global_id@];
            lemma_update_keeps_wf(
                s,
                global_id@,
                ElementView { representation, representation_revision: (e.representation_revision + 1) as u64, ..e },
            );
        },
        CommandView::AssignType { global_id, type_ref } => {
            let e = s.elements[global_id@];
            lemma_update_keeps_wf(s, global_id@, ElementView { type_ref, semantic_revision: (e.semantic_revision + 1) as u64, ..e });
        },
        CommandView::AddVoid { host, opening } => {
            let s1 = ModelState { voids: s.voids.insert((host@, opening@)), ..s };
            lemma_add_void_keeps_wf(s, host@, opening@);
            lemma_bump_keeps_wf(s1, host@);
            lemma_bump_keeps_wf(bump_representation(s1, host@), opening@);
        },
        CommandView::RemoveVoid { host, opening } => {
            let s1 = ModelState { voids: s.voids.remove((host@, opening@)), ..s };
            lemma_remove_pair_keeps_wf(s, host@, opening@);
            lemma_bump_keeps_wf(s1, host@);
            lemma_bump_keeps_wf(bump_representation(s1, host@), opening@);
        },
        CommandView::AddFill { opening, filler } => {
            lemma_add_fill_keeps_wf(s, opening@, filler@);
            lemma_bump_keeps_wf(ModelState { fills: s.fills.insert((opening@, filler@)), ..s }, filler@);
        },
        CommandView::RemoveFill { opening, filler } => {
            lemma_remove_fill_keeps_wf(s, opening@, filler@);
            lemma_bump_keeps_wf(ModelState { fills: s.fills.remove((opening@, filler@)), ..s }, filler@);
        },
    }
}

/// Walls, slabs, roofs, columns and beams take openings: a void between one of them and a
/// distinct opening element, both in the model and not yet related, is accepted, records the
/// pair and changes the two. An element of any other class is refused as a host, with its
/// class named.
pub proof fn lemma_hosts_take_openings(s: ModelState, host: GlobalId, opening: GlobalId)
    requires
        present(s, host),
        present(s, opening),
        host@ != opening@,
        s.elements[opening@].class is OpeningElement,
        !s.voids.contains((host@, opening@)),
    ensures
        ({
            let c = s.elements[host@].class;
            c is Wall || c is Slab || c is Roof || c is Column || c is Beam
        }) ==> (step(s, CommandView::AddVoid { host, opening }) matches Ok(a) && a.state.voids == s.voids.insert(
            (host@, opening@),
        ) && a.changed == seq![host, opening]),
        !({
            let c = s.elements[host@].class;
            c is Wall || c is Slab || c is Roof || c is Column || c is Beam
        }) ==> step(s, CommandView::AddVoid { host, opening }) == Err::<Applied, ErrorView>(
            ErrorView::NotAHost { host, class: class_name(s.elements[host@].class) },
        ),
{
}

/// Undo then redo: the inverse of a command's inverse is accepted too, and gives back the
/// state the command produced.
pub proof fn lemma_redo_restores(s: ModelState, c: CommandView)
    requires
        state_wf(s),
        shaped(c),
        step(s, c) is Ok,
        invertible(s, c),
    ensures
        ({
            let a = step(s, c)->Ok_0;
            let b = step(a.state, a.inverse)->Ok_0;
            &&& step(b.state, b.inverse) is Ok
            &&& same_content(step(b.state, b.inverse)->Ok_0.state, a.state)
        }),
{
    let a = step(s, c)->Ok_0;
    lemma_step_keeps_wf(s, c);
    lemma_inverse_restores(s, c);
    match c {
        CommandView::DeleteElement { global_id } => {
            let e = s.elements[global_id@];
            assert(!types_something(a.state.elements, e.global_id@)) by {
                if types_something(a.state.elements, e.global_id@) {
                    let j = choose|j: Seq<char>| #[trigger] a.state.elements.contains_key(j) && refers(a.state.elements[j].type_ref, e.global_id@);
                    assert(s.elements.contains_key(j));
                }
            }
            assert(!refers(e.type_ref, e.global_id@)) by {
                assert(s.elements.contains_key(global_id@));
            }
        },
        CommandView::MoveElement { global_id, delta } => {
            crate::floatbits::lemma_neg3_twice(delta);
        },
        _ => {},
    }
    assert(invertible(a.state, a.inverse));
    lemma_inverse_restores(a.state, a.inverse);
}


/// Every element's two counters are at most `b`.
pub open spec fn counters_at_most(s: ModelState, b: int) -> bool {
    forall|k: Seq<char>| #[trigger]
        s.elements.contains_key(k) ==> s.elements[k].representation_revision <= b && s.elements[k].semantic_revision
            <= b
}

/// A command moves any counter by at most one, so a bound on every counter grows by at most
/// one per accepted command, as long as an element it creates is within the bound.
pub proof fn lemma_step_counters(s: ModelState, c: CommandView, b: int)
    requires
        state_wf(s),
        counters_at_most(s, b),
        c matches CommandView::CreateElement { element } ==> element.representation_revision <= b
            && element.semantic_revision <= b,
    ensures
        step(s, c) matches Ok(a) ==> counters_at_most(a.state, b + 1),
{
    if let Ok(a) = step(s, c) {
        assert forall|k: Seq<char>| #[trigger] a.state.elements.contains_key(k) implies a.state.elements[k].representation_revision
            <= b + 1 && a.state.elements[k].semantic_revision <= b + 1 by {
            match c {
                CommandView::RemoveVoid { host, opening } => {
                    assert(s.voids.contains((host@, opening@)));
                },
                CommandView::RemoveFill { opening, filler } => {
                    assert(s.fills.contains((opening@, filler@)));
                },
                _ => {},
            }
        }
    }
}

impl Model {
    /// The largest counter any element carries.
    /// Whether [`Model::apply`] can take a command: no counter and not the revision is at its
    /// limit, so that applying one cannot overflow them.
    pub fn can_apply(&self) -> (r: bool)
        requires
            self.wf(),
        ensures
            r == (counters_fit(self@.state) && self@.revision < u64::MAX),
    {
        if self.revision == u64::MAX {
            return false;
        }
        let es = self.store.elements.as_slice();
        let mut i: usize = 0;
        while i < es.len()
            invariant
                i <= es.len(),
                es@ == self.store.elements.items(),
                self.store.elements.items_describe_view(),
                forall|j: int| 0 <= j < i ==> (#[trigger] es@[j]).1.representation_revision < u64::MAX
                    && es@[j].1.semantic_revision < u64::MAX,
            decreases es.len() - i,
        {
            if es[i].1.representation_revision == u64::MAX || es[i].1.semantic_revision == u64::MAX {
                proof {
                    let k = self.store.elements.items()[i as int].0@;
                    assert(self.store.elements@.contains_key(k) && self.store.elements@[k] == self.store.elements.items()[i as int].1);
                    assert(self@.state.elements.contains_key(k));
                }
                return false;
            }
            i += 1;
        }
        proof {
            assert forall|k: Seq<char>| #[trigger] self@.state.elements.contains_key(k) implies self@.state.elements[k].representation_revision
                < u64::MAX && self@.state.elements[k].semantic_revision < u64::MAX by {
                assert(self.store.elements@.contains_key(k));
                let j = choose|j: int| 0 <= j < self.store.elements.items().len() && #[trigger] self.store.elements.items()[j].0@ == k;
                assert(es@[j].1 == self.store.elements@[k]);
            }
        }
        true
    }

    pub fn max_counter(&self) -> (r: u64)
        requires
            self.wf(),
        ensures
            counters_at_most(self@.state, r as int),
            forall|b: int| 0 <= b && #[trigger] counters_at_most(self@.state, b) ==> r <= b,
    {
        let es = self.store.elements.as_slice();
        let mut most: u64 = 0;
        let mut i: usize = 0;
        while i < es.len()
            invariant
                i <= es.len(),
                forall|j: int| 0 <= j < i ==> (#[trigger] es@[j]).1.representation_revision <= most
                    && es@[j].1.semantic_revision <= most,
                most == 0 || exists|j: int|
                    0 <= j < i && ((#[trigger] es@[j]).1.representation_revision == most || es@[j].1.semantic_revision
                        == most),
            decreases es.len() - i,
        {
            if es[i].1.representation_revision > most {
                most = es[i].1.representation_revision;
            }
            if es[i].1.semantic_revision > most {
                most = es[i].1.semantic_revision;
            }
            i += 1;
        }
        proof {
            assert forall|k: Seq<char>| #[trigger] self@.state.elements.contains_key(k) implies self@.state.elements[k].representation_revision
                <= most && self@.state.elements[k].semantic_revision <= most by {
                assert(self.store.elements@.contains_key(k));
                let j = choose|j: int| 0 <= j < self.store.elements.items().len() && #[trigger] self.store.elements.items()[j].0@ == k;
                assert(es@[j].1 == self.store.elements@[k]);
            }
            assert forall|b: int| 0 <= b && #[trigger] counters_at_most(self@.state, b) implies most <= b by {
                if most > 0 {
                    let j = choose|j: int|
                        0 <= j < i && ((#[trigger] es@[j]).1.representation_revision == most || es@[j].1.semantic_revision
                            == most);
                    let k = es@[j].0@;
                    assert(self.store.elements.items()[j] == es@[j]);
                    assert(self.store.elements@.contains_key(k));
                    assert(self@.state.elements.contains_key(k));
                }
            }
        }
        most
    }
}

}
