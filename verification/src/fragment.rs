//! Render fragment handles: small sequential ids that travel through a GPU pick buffer and
//! map a pixel back to an element.

use vstd::prelude::*;
use crate::element::{BoundingBox, IfcClass};
use crate::id::GlobalId;
use crate::text::owned;
use crate::textmap::TextMap;

verus! {

/// A fragment handle, written straight into an RGBA8 pick buffer.
#[derive(Debug, Clone, Copy, PartialEq, Eq, Structural, PartialOrd, Ord, Hash)]
pub struct FragmentId(pub u32);

/// The four bytes of a `u32`, least significant first.
pub open spec fn le_bytes(v: u32) -> [u8; 4] {
    [(v % 256) as u8, ((v / 256) % 256) as u8, ((v / 65536) % 256) as u8, (v / 16777216) as u8]
}

/// The `u32` whose bytes, least significant first, these are.
pub open spec fn from_le(b: [u8; 4]) -> u32 {
    (b[0] as int + 256 * b[1] as int + 65536 * b[2] as int + 16777216 * b[3] as int) as u32
}

impl FragmentId {
    /// The reserved id meaning "nothing was hit". Real ids start at 1, so that a cleared
    /// pick buffer reads as a miss rather than as fragment zero.
    pub fn none() -> (r: FragmentId)
        ensures
            r.0 == 0,
    {
        FragmentId(0)
    }

    /// Encode into an RGBA8 pick colour.
    pub fn to_pick_color(self) -> (r: [u8; 4])
        ensures
            r == le_bytes(self.0),
    {
        let v = self.0;
        [(v % 256) as u8, ((v / 256) % 256) as u8, ((v / 65536) % 256) as u8, (v / 16777216) as u8]
    }

    /// Decode a pixel read back from the pick buffer.
    pub fn from_pick_color(rgba: [u8; 4]) -> (r: Self)
        ensures
            r.0 == from_le(rgba),
    {
        let v: u32 = rgba[0] as u32 + 256 * (rgba[1] as u32) + 65536 * (rgba[2] as u32) + 16777216 * (rgba[3] as u32);
        FragmentId(v)
    }

    pub fn is_none(self) -> (r: bool)
        ensures
            r == (self.0 == 0),
    {
        self.0 == 0
    }
}

/// Every id survives the trip through a pick colour.
pub proof fn lemma_pick_round_trip(v: u32)
    ensures
        from_le(le_bytes(v)) == v,
{
}

/// A cleared pick buffer reads as a miss.
pub proof fn lemma_cleared_is_miss()
    ensures
        from_le([0u8, 0u8, 0u8, 0u8]) == 0,
{
}

/// The render material of a class: what the scene draws an element with.
pub open spec fn material_of(class: IfcClass) -> Seq<char> {
    match class {
        IfcClass::Wall => "concrete"@,
        IfcClass::Door | IfcClass::Window => "timber"@,
        IfcClass::Slab | IfcClass::Roof => "concrete"@,
        IfcClass::OpeningElement => "void"@,
        _ => "default"@,
    }
}

/// The render material of a class.
pub fn material_for(class: &IfcClass) -> (r: &'static str)
    ensures
        r@ == material_of(*class),
{
    match class {
        IfcClass::Wall => "concrete",
        IfcClass::Door | IfcClass::Window => "timber",
        IfcClass::Slab | IfcClass::Roof => "concrete",
        IfcClass::OpeningElement => "void",
        _ => "default",
    }
}

/// The GPU-side facts about one piece of geometry, travelling together.
#[derive(Debug, Clone, Copy, PartialEq, Eq, Structural)]
pub struct GeometrySource {
    /// Hash of the geometry in local space: equal hashes can share one GPU buffer.
    pub hash: u64,
    pub vertex_count: u32,
    pub index_count: u32,
}


/// One drawable piece of an element.
#[derive(Debug, PartialEq)]
pub struct RenderFragment {
    pub id: FragmentId,
    /// The element this belongs to: the only identity that means anything outside the
    /// renderer.
    pub element: GlobalId,
    /// Hash of the normalised geometry. Equal hashes may share GPU buffers.
    pub geometry_hash: u64,
    pub material_key: String,
    pub bounds: BoundingBox,
    pub lod: u8,
    /// The element's `representation_revision` when this fragment was built.
    pub source_revision: u64,
    pub vertex_count: u32,
    pub index_count: u32,
}

impl Clone for RenderFragment {
    fn clone(&self) -> (r: Self)
        ensures
            r == *self,
    {
        RenderFragment {
            id: self.id,
            element: self.element.clone(),
            geometry_hash: self.geometry_hash,
            material_key: self.material_key.clone(),
            bounds: self.bounds,
            lod: self.lod,
            source_revision: self.source_revision,
            vertex_count: self.vertex_count,
            index_count: self.index_count,
        }
    }
}

impl RenderFragment {
    pub fn triangle_count(&self) -> (r: u32)
        ensures
            r == self.index_count / 3,
    {
        self.index_count / 3
    }
}

/// Whether a fragment was built against something other than the revision its element now
/// has, or its element is gone.
pub open spec fn is_stale(f: RenderFragment, current: Option<u64>) -> bool {
    match current {
        None => true,
        Some(revision) => revision != f.source_revision,
    }
}

/// The ids of the fragments that are stale, given what each one's element reported, in order.
pub open spec fn stale_ids(s: Seq<RenderFragment>, current: Seq<Option<u64>>) -> Seq<FragmentId>
    decreases s.len(),
{
    if s.len() == 0 {
        Seq::empty()
    } else {
        let rest = stale_ids(s.drop_last(), current.take(s.len() - 1));
        if is_stale(s.last(), current[s.len() - 1]) {
            rest.push(s.last().id)
        } else {
            rest
        }
    }
}

/// The fragments whose bounds passed the test, given each one's answer, in order.
pub open spec fn passing(s: Seq<RenderFragment>, answers: Seq<bool>) -> Seq<RenderFragment>
    decreases s.len(),
{
    if s.len() == 0 {
        Seq::empty()
    } else {
        let rest = passing(s.drop_last(), answers.take(s.len() - 1));
        if answers[s.len() - 1] {
            rest.push(s.last())
        } else {
            rest
        }
    }
}

/// The geometry hash of every fragment.
pub open spec fn hashes(s: Seq<RenderFragment>) -> Seq<u64> {
    s.map_values(|f: RenderFragment| f.geometry_hash)
}

/// The triangles over a list of fragments.
pub open spec fn triangles(s: Seq<RenderFragment>) -> nat
    decreases s.len(),
{
    if s.len() == 0 {
        0
    } else {
        triangles(s.drop_last()) + (s.last().index_count / 3) as nat
    }
}

/// Ids increase strictly along the sequence.
pub open spec fn ordered(s: Seq<RenderFragment>) -> bool {
    forall|i: int, j: int| 0 <= i < j < s.len() ==> s[i].id.0 < s[j].id.0
}

/// Every id is a real one, below the next to hand out.
pub open spec fn below(s: Seq<RenderFragment>, next: u32) -> bool {
    forall|i: int| 0 <= i < s.len() ==> 1 <= #[trigger] s[i].id.0 < next
}

/// Whether `s` holds a fragment with this id whose element is `k`.
pub open spec fn has_fragment(s: Seq<RenderFragment>, id: FragmentId, k: Seq<char>) -> bool {
    exists|j: int| 0 <= j < s.len() && s[j].id == id && s[j].element@ == k
}

/// Every id an element's list names is a fragment of that element.
pub open spec fn lists_sound(m: Map<Seq<char>, Vec<FragmentId>>, s: Seq<RenderFragment>) -> bool {
    forall|k: Seq<char>, i: int| m.contains_key(k) && 0 <= i < m[k]@.len()
        ==> has_fragment(s, #[trigger] m[k]@[i], k)
}

/// Every fragment is named in its element's list.
pub open spec fn lists_complete(m: Map<Seq<char>, Vec<FragmentId>>, s: Seq<RenderFragment>) -> bool {
    forall|j: int| 0 <= j < s.len() ==> m.contains_key(#[trigger] s[j].element@)
        && m[s[j].element@]@.contains(s[j].id)
}

/// What filtering out element `k` has built from the first `n` fragments of `f`: ids in order,
/// each one a fragment of `f` before `n`, every such fragment not of `k` present, none of `k`.
pub open spec fn kept_from(f: Seq<RenderFragment>, kept: Seq<RenderFragment>, n: int, k: Seq<char>) -> bool {
    &&& ordered(kept)
    &&& forall|a: int| 0 <= a < kept.len() ==> exists|m: int| 0 <= m < n && #[trigger] kept[a] == f[m]
    &&& forall|m: int| 0 <= m < n && (#[trigger] f[m]).element@ != k
        ==> exists|a: int| 0 <= a < kept.len() && kept[a] == f[m]
    &&& forall|a: int| 0 <= a < kept.len() ==> (#[trigger] kept[a]).element@ != k
}

/// The fragments currently held for a model, in id order.
#[derive(Debug)]
pub struct FragmentSet {
    fragments: Vec<RenderFragment>,
    by_element: TextMap<Vec<FragmentId>>,
    next_id: u32,
}

impl FragmentSet {
    /// Ids increase strictly and stay below the next one to hand out; each element's list
    /// names exactly its fragments.
    pub closed spec fn wf(&self) -> bool {
        &&& ordered(self.fragments@)
        &&& below(self.fragments@, self.next_id)
        &&& lists_sound(self.by_element@, self.fragments@)
        &&& lists_complete(self.by_element@, self.fragments@)
    }

    /// The fragments, in id order.
    pub closed spec fn fragments(&self) -> Seq<RenderFragment> {
        self.fragments@
    }

    /// The fragments of each element, by the text of its identity.
    pub closed spec fn lists(&self) -> Map<Seq<char>, Seq<FragmentId>> {
        self.by_element@.map_values(|v: Vec<FragmentId>| v@)
    }

    /// The next id to hand out.
    pub closed spec fn next(&self) -> u32 {
        self.next_id
    }

    pub fn new() -> (r: Self)
        ensures
            r.wf(),
            r.fragments().len() == 0,
            r.lists() == Map::<Seq<char>, Seq<FragmentId>>::empty(),
            r.next() == 1,
    {
        let r = FragmentSet { fragments: Vec::new(), by_element: TextMap::new(), next_id: 1 };
        assert(r.lists() =~= Map::<Seq<char>, Seq<FragmentId>>::empty());
        r
    }

    /// Insert a fragment, assigning it the next id, which is never zero.
    pub fn insert(
        &mut self,
        element: GlobalId,
        geometry: GeometrySource,
        material_key: &str,
        bounds: BoundingBox,
        source_revision: u64,
    ) -> (r: FragmentId)
        requires
            old(self).wf(),
            old(self).next() < u32::MAX,
        ensures
            final(self).wf(),
            r.0 == (if old(self).next() > 1 { old(self).next() } else { 1 }),
            final(self).next() == r.0 + 1,
            final(self).fragments().len() == old(self).fragments().len() + 1,
            final(self).fragments().drop_last() == old(self).fragments(),
            final(self).fragments().last().id == r,
            final(self).fragments().last().element == element,
            final(self).fragments().last().geometry_hash == geometry.hash,
            final(self).fragments().last().material_key@ == material_key@,
            final(self).fragments().last().bounds == bounds,
            final(self).fragments().last().lod == 0,
            final(self).fragments().last().source_revision == source_revision,
            final(self).fragments().last().vertex_count == geometry.vertex_count,
            final(self).fragments().last().index_count == geometry.index_count,
            final(self).lists() == old(self).lists().insert(
                element@,
                (if old(self).lists().contains_key(element@) { old(self).lists()[element@] } else { Seq::empty() }).push(r),
            ),
    {
        let n = if self.next_id > 1 { self.next_id } else { 1 };
        let id = FragmentId(n);
        self.next_id = n + 1;
        let ghost old_lists = self.lists();
        let fragment = RenderFragment {
            id,
            element: element.clone(),
            geometry_hash: geometry.hash,
            material_key: owned(material_key),
            bounds,
            lod: 0,
            source_revision,
            vertex_count: geometry.vertex_count,
            index_count: geometry.index_count,
        };
        self.fragments.push(fragment);
        let mut list = match self.by_element.remove(element.as_str()) {
            Some(l) => l,
            None => Vec::new(),
        };
        list.push(id);
        self.by_element.insert(owned(element.as_str()), list);
        proof {
            assert(self.fragments@.drop_last() =~= old(self).fragments@);
            assert(self.lists() =~= old_lists.insert(
                element@,
                (if old_lists.contains_key(element@) { old_lists[element@] } else { Seq::empty() }).push(id),
            ));
            lemma_insert_keeps(old(self).fragments@, old(self).by_element@, old(self).next_id, self.fragments@,
                self.by_element@);
        }
        id
    }

    /// The position of the fragment with this id, if there is one.
    fn position(&self, id: FragmentId) -> (r: Option<usize>)
        requires
            self.wf(),
        ensures
            r matches Some(i) ==> i < self.fragments().len() && self.fragments()[i as int].id == id,
            r is None ==> forall|i: int| 0 <= i < self.fragments().len() ==> self.fragments()[i].id != id,
    {
        let mut i: usize = 0;
        while i < self.fragments.len()
            invariant
                i <= self.fragments.len(),
                forall|j: int| 0 <= j < i ==> self.fragments@[j].id != id,
            decreases self.fragments.len() - i,
        {
            if self.fragments[i].id.0 == id.0 {
                return Some(i);
            }
            i += 1;
        }
        None
    }

    pub fn get(&self, id: FragmentId) -> (r: Option<&RenderFragment>)
        requires
            self.wf(),
        ensures
            r matches Some(f) ==> self.fragments().contains(*f) && f.id == id,
            r is None ==> forall|i: int| 0 <= i < self.fragments().len() ==> self.fragments()[i].id != id,
    {
        match self.position(id) {
            Some(i) => Some(&self.fragments[i]),
            None => None,
        }
    }

    /// Map a pick-buffer read back to the element that was clicked: pixels in, identity out.
    pub fn element_at(&self, id: FragmentId) -> (r: Option<&GlobalId>)
        requires
            self.wf(),
        ensures
            r matches Some(g) ==> exists|i: int| 0 <= i < self.fragments().len() && self.fragments()[i].id == id
                && self.fragments()[i].element == *g,
            r is None ==> forall|i: int| 0 <= i < self.fragments().len() ==> self.fragments()[i].id != id,
    {
        match self.position(id) {
            Some(i) => Some(&self.fragments[i].element),
            None => None,
        }
    }

    /// The fragments of an element, in the order they were inserted.
    pub fn fragments_of(&self, element: &GlobalId) -> (r: &[FragmentId])
        ensures
            r@ == (if self.lists().contains_key(element@) { self.lists()[element@] } else { Seq::empty() }),
    {
        match self.by_element.get(element.as_str()) {
            Some(v) => v.as_slice(),
            None => &[],
        }
    }

    /// Drop every fragment of an element, because its geometry changed, and say how many
    /// there were.
    pub fn invalidate(&mut self, element: &GlobalId) -> (r: usize)
        requires
            old(self).wf(),
        ensures
            final(self).wf(),
            r == (if old(self).lists().contains_key(element@) { old(self).lists()[element@].len() } else { 0 }),
            final(self).lists() == old(self).lists().remove(element@),
            final(self).fragments() == old(self).fragments().filter(not_of(element@)),
            final(self).next() == old(self).next(),
    {
        let ghost old_lists = self.lists();
        let ghost k = element@;
        let removed = match self.by_element.remove(element.as_str()) {
            Some(ids) => ids,
            None => {
                proof {
                    assert(self.by_element@ =~= old(self).by_element@);
                    assert(self.lists() =~= old_lists.remove(k));
                    lemma_absent_filter(self.fragments@, self.by_element@, k);
                }
                return 0;
            },
        };
        let mut kept: Vec<RenderFragment> = Vec::new();
        let mut i: usize = 0;
        proof {
            assert(self.fragments@.take(0) =~= Seq::<RenderFragment>::empty());
        }
        while i < self.fragments.len()
            invariant
                i <= self.fragments.len(),
                self.fragments@ == old(self).fragments@,
                ordered(self.fragments@),
                kept@ == self.fragments@.take(i as int).filter(not_of(k)),
                kept_from(self.fragments@, kept@, i as int, k),
                k == element@,
            decreases self.fragments.len() - i,
        {
            let ghost before = kept@;
            if !(self.fragments[i].element == *element) {
                kept.push(self.fragments[i].clone());
            }
            proof {
                assert(self.fragments@.take(i + 1) =~= self.fragments@.take(i as int).push(self.fragments@[i as int]));
                self.fragments@.take(i as int).lemma_filter_push(self.fragments@[i as int], not_of(k));
                lemma_keep_step(self.fragments@, before, kept@, i as int, k);
            }
            i += 1;
        }
        proof {
            assert(self.fragments@.take(self.fragments.len() as int) =~= self.fragments@);
        }
        self.fragments = kept;
        proof {
            assert(self.lists() =~= old_lists.remove(k));
            lemma_kept_wf(old(self).fragments@, old(self).by_element@, self.next_id, self.fragments@, k);
        }
        removed.len()
    }

    pub fn len(&self) -> (r: usize)
        ensures
            r == self.fragments().len(),
    {
        self.fragments.len()
    }

    pub fn is_empty(&self) -> (r: bool)
        ensures
            r == (self.fragments().len() == 0),
    {
        self.fragments.len() == 0
    }

    /// Every fragment, in id order.
    pub fn iter(&self) -> (r: &[RenderFragment])
        ensures
            r@ == self.fragments(),
    {
        self.fragments.as_slice()
    }

    /// The fragments built against an older revision than their element now has, or whose
    /// element is gone, in id order. `current` says what each element's revision is now.
    pub fn stale<F: Fn(&GlobalId) -> Option<u64>>(&self, current: F) -> (r: Vec<FragmentId>)
        requires
            forall|g: &GlobalId| #[trigger] current.requires((g,)),
        ensures
            exists|revs: Seq<Option<u64>>| #![trigger stale_ids(self.fragments(), revs)] {
                &&& revs.len() == self.fragments().len()
                &&& forall|i: int| 0 <= i < revs.len() ==> #[trigger] current.ensures((&self.fragments()[i].element,), revs[i])
                &&& r@ == stale_ids(self.fragments(), revs)
            },
    {
        let ghost mut revs: Seq<Option<u64>> = Seq::empty();
        let mut out: Vec<FragmentId> = Vec::new();
        let mut i: usize = 0;
        while i < self.fragments.len()
            invariant
                i <= self.fragments.len(),
                forall|g: &GlobalId| #[trigger] current.requires((g,)),
                revs.len() == i,
                forall|j: int| 0 <= j < i ==> #[trigger] current.ensures((&self.fragments@[j].element,), revs[j]),
                out@ == stale_ids(self.fragments@.take(i as int), revs),
            decreases self.fragments.len() - i,
        {
            let f = &self.fragments[i];
            let now = current(&f.element);
            let ghost before = revs;
            proof {
                revs = revs.push(now);
                assert(self.fragments@.take(i + 1).drop_last() =~= self.fragments@.take(i as int));
                assert(revs.take(i as int) =~= before);
            }
            let stale = match now {
                None => true,
                Some(revision) => revision != f.source_revision,
            };
            if stale {
                out.push(f.id);
            }
            i += 1;
        }
        proof {
            assert(self.fragments@.take(self.fragments.len() as int) =~= self.fragments@);
            assert(out@ == stale_ids(self.fragments(), revs));
        }
        out
    }

    /// The fragments whose bounds pass a visibility test, in id order.
    pub fn visible<F: Fn(&BoundingBox) -> bool>(&self, test: F) -> (r: Vec<&RenderFragment>)
        requires
            forall|b: &BoundingBox| #[trigger] test.requires((b,)),
        ensures
            exists|answers: Seq<bool>| #![trigger passing(self.fragments(), answers)] {
                &&& answers.len() == self.fragments().len()
                &&& forall|i: int| 0 <= i < answers.len() ==> #[trigger] test.ensures((&self.fragments()[i].bounds,), answers[i])
                &&& r@.map_values(|f: &RenderFragment| *f) == passing(self.fragments(), answers)
            },
    {
        let ghost mut answers: Seq<bool> = Seq::empty();
        let mut out: Vec<&RenderFragment> = Vec::new();
        let mut i: usize = 0;
        while i < self.fragments.len()
            invariant
                i <= self.fragments.len(),
                forall|b: &BoundingBox| #[trigger] test.requires((b,)),
                answers.len() == i,
                forall|j: int| 0 <= j < i ==> #[trigger] test.ensures((&self.fragments@[j].bounds,), answers[j]),
                out@.map_values(|f: &RenderFragment| *f) == passing(self.fragments@.take(i as int), answers),
            decreases self.fragments.len() - i,
        {
            let f = &self.fragments[i];
            let pass = test(&f.bounds);
            let ghost before = answers;
            proof {
                answers = answers.push(pass);
                assert(self.fragments@.take(i + 1).drop_last() =~= self.fragments@.take(i as int));
                assert(answers.take(i as int) =~= before);
            }
            let ghost prev = out@;
            if pass {
                out.push(f);
            }
            proof {
                if pass {
                    assert(out@.map_values(|f: &RenderFragment| *f) =~= prev.map_values(|f: &RenderFragment| *f).push(*f));
                }
            }
            i += 1;
        }
        proof {
            assert(self.fragments@.take(self.fragments.len() as int) =~= self.fragments@);
            assert(out@.map_values(|f: &RenderFragment| *f) == passing(self.fragments(), answers));
        }
        out
    }

    /// How many different geometry hashes the fragments carry. The gap between this and
    /// [`FragmentSet::len`] is how much instancing can save.
    pub fn distinct_geometries(&self) -> (r: usize)
        ensures
            r == hashes(self.fragments()).to_set().len(),
    {
        let mut seen: Vec<u64> = Vec::new();
        let mut i: usize = 0;
        while i < self.fragments.len()
            invariant
                i <= self.fragments.len(),
                seen@.no_duplicates(),
                seen@.to_set() == hashes(self.fragments@.take(i as int)).to_set(),
                seen@.len() <= i,
            decreases self.fragments.len() - i,
        {
            let h = self.fragments[i].geometry_hash;
            let mut j: usize = 0;
            let mut found = false;
            while j < seen.len()
                invariant
                    j <= seen.len(),
                    found == (exists|q: int| 0 <= q < j && seen@[q] == h),
                decreases seen.len() - j,
            {
                if seen[j] == h {
                    found = true;
                }
                j += 1;
            }
            let ghost before = seen@;
            if !found {
                seen.push(h);
            }
            proof {
                let t = hashes(self.fragments@.take(i + 1));
                assert(t =~= hashes(self.fragments@.take(i as int)).push(h));
                assert(seen@.to_set() =~= t.to_set()) by {
                    assert forall|x: u64| seen@.to_set().contains(x) <==> t.to_set().contains(x) by {
                        if x == h {
                            if found {
                                let q = choose|q: int| 0 <= q < before.len() && before[q] == h;
                                assert(before.to_set().contains(h));
                            } else {
                                assert(seen@[seen@.len() - 1] == h);
                            }
                            assert(t[t.len() - 1] == h);
                        } else {
                            if seen@.to_set().contains(x) {
                                let q = choose|q: int| 0 <= q < seen@.len() && seen@[q] == x;
                                assert(before[q] == x);
                                assert(before.to_set().contains(x));
                                let u = hashes(self.fragments@.take(i as int));
                                assert(u.to_set().contains(x));
                                let p = choose|p: int| 0 <= p < u.len() && u[p] == x;
                                assert(t[p] == x);
                            }
                            if t.to_set().contains(x) {
                                let p = choose|p: int| 0 <= p < t.len() && t[p] == x;
                                assert(hashes(self.fragments@.take(i as int))[p] == x);
                                assert(hashes(self.fragments@.take(i as int)).to_set().contains(x));
                                let q = choose|q: int| 0 <= q < before.len() && before[q] == x;
                                assert(seen@[q] == x);
                            }
                        }
                    }
                }
            }
            i += 1;
        }
        proof {
            assert(self.fragments@.take(self.fragments.len() as int) =~= self.fragments@);
            seen@.unique_seq_to_set();
        }
        seen.len()
    }

    /// The triangles over every fragment.
    pub fn total_triangles(&self) -> (r: u64)
        requires
            self.wf(),
        ensures
            r == triangles(self.fragments()),
    {
        proof {
            lemma_len_below(self.fragments@, self.next_id);
        }
        let mut total: u64 = 0;
        let mut i: usize = 0;
        while i < self.fragments.len()
            invariant
                i <= self.fragments.len(),
                self.fragments@.len() <= u32::MAX,
                total == triangles(self.fragments@.take(i as int)),
                triangles(self.fragments@.take(i as int)) <= i * 0x5555_5555,
            decreases self.fragments.len() - i,
        {
            proof {
                assert(self.fragments@.take(i + 1).drop_last() =~= self.fragments@.take(i as int));
            }
            total = total + (self.fragments[i].index_count / 3) as u64;
            i += 1;
        }
        assert(self.fragments@.take(self.fragments.len() as int) =~= self.fragments@);
        total
    }
}

/// Distinct real ids below `next` number fewer than `next`.
proof fn lemma_len_below(s: Seq<RenderFragment>, next: u32)
    requires
        ordered(s),
        below(s, next),
    ensures
        s.len() <= next,
{
    if s.len() > 0 {
        assert forall|i: int| 0 <= i < s.len() implies #[trigger] s[i].id.0 >= i + 1 by {
            lemma_id_at_least(s, next, i);
        }
        assert(s[s.len() - 1].id.0 < next);
    }
}

/// In an ordered list of real ids, the one at `i` is at least `i + 1`.
proof fn lemma_id_at_least(s: Seq<RenderFragment>, next: u32, i: int)
    requires
        ordered(s),
        below(s, next),
        0 <= i < s.len(),
    ensures
        s[i].id.0 >= i + 1,
    decreases i,
{
    if i > 0 {
        lemma_id_at_least(s, next, i - 1);
    }
}

/// The test that keeps every fragment not of element `k`.
pub open spec fn not_of(k: Seq<char>) -> spec_fn(RenderFragment) -> bool {
    |f: RenderFragment| f.element@ != k
}

/// Where no list names `k`, no fragment belongs to it, and filtering it out keeps everything.
proof fn lemma_absent_filter(s: Seq<RenderFragment>, m: Map<Seq<char>, Vec<FragmentId>>, k: Seq<char>)
    requires
        lists_complete(m, s),
        !m.contains_key(k),
    ensures
        s.filter(not_of(k)) == s,
    decreases s.len(),
{
    if s.len() > 0 {
        let t = s.drop_last();
        assert forall|j: int| 0 <= j < t.len() implies m.contains_key(#[trigger] t[j].element@)
            && m[t[j].element@]@.contains(t[j].id) by {
            assert(t[j] == s[j]);
        }
        lemma_absent_filter(t, m, k);
        assert(m.contains_key(s[s.len() - 1].element@));
        assert(t.push(s.last()) =~= s);
        t.lemma_filter_push(s.last(), not_of(k));
    } else {
        reveal(Seq::filter);
        assert(s.filter(not_of(k)) =~= s);
    }
}

/// One more step of filtering out `k` keeps what the loop knows of the result.
proof fn lemma_keep_step(f: Seq<RenderFragment>, before: Seq<RenderFragment>, kept: Seq<RenderFragment>, i: int, k: Seq<char>)
    requires
        0 <= i < f.len(),
        ordered(f),
        kept_from(f, before, i, k),
        kept == (if f[i].element@ != k { before.push(f[i]) } else { before }),
    ensures
        kept_from(f, kept, i + 1, k),
{
    if f[i].element@ != k {
        assert forall|a: int| 0 <= a < before.len() implies before[a].id.0 < f[i].id.0 by {
            let m = choose|m: int| 0 <= m < i && before[a] == f[m];
        }
        assert forall|a: int, b: int| 0 <= a < b < kept.len() implies kept[a].id.0 < kept[b].id.0 by {
            assert(kept[a] == before[a]);
            if b < before.len() {
                assert(kept[b] == before[b]);
            }
        }
        assert forall|a: int| 0 <= a < kept.len() implies exists|m: int| 0 <= m < i + 1 && #[trigger] kept[a] == f[m] by {
            if a < before.len() {
                assert(kept[a] == before[a]);
                let m = choose|m: int| 0 <= m < i && before[a] == f[m];
            } else {
                assert(kept[a] == f[i]);
            }
        }
        assert forall|m: int| 0 <= m < i + 1 && (#[trigger] f[m]).element@ != k
            implies exists|a: int| 0 <= a < kept.len() && kept[a] == f[m] by {
            if m < i {
                let a = choose|a: int| 0 <= a < before.len() && before[a] == f[m];
                assert(kept[a] == before[a]);
            } else {
                assert(kept[kept.len() - 1] == f[m]);
            }
        }
        assert forall|a: int| 0 <= a < kept.len() implies (#[trigger] kept[a]).element@ != k by {
            if a < before.len() {
                assert(kept[a] == before[a]);
            }
        }
    } else {
        assert forall|a: int| 0 <= a < kept.len() implies exists|m: int| 0 <= m < i + 1 && #[trigger] kept[a] == f[m] by {
            let m = choose|m: int| 0 <= m < i && before[a] == f[m];
        }
    }
}

/// The fragments kept after filtering out `k`, beside the lists without `k`, form a
/// consistent set.
proof fn lemma_kept_wf(
    f: Seq<RenderFragment>,
    m: Map<Seq<char>, Vec<FragmentId>>,
    next: u32,
    g: Seq<RenderFragment>,
    k: Seq<char>,
)
    requires
        ordered(f),
        below(f, next),
        lists_sound(m, f),
        lists_complete(m, f),
        kept_from(f, g, f.len() as int, k),
    ensures
        ordered(g),
        below(g, next),
        lists_sound(m.remove(k), g),
        lists_complete(m.remove(k), g),
{
    let n = m.remove(k);
    assert forall|j: int| 0 <= j < g.len() implies 1 <= #[trigger] g[j].id.0 < next by {
        let q = choose|q: int| 0 <= q < f.len() && g[j] == f[q];
    }
    assert forall|c: Seq<char>, i: int| n.contains_key(c) && 0 <= i < n[c]@.len()
        implies has_fragment(g, #[trigger] n[c]@[i], c) by {
        assert(m.contains_key(c) && n[c] == m[c]);
        assert(has_fragment(f, m[c]@[i], c));
        let q = choose|q: int| 0 <= q < f.len() && f[q].id == m[c]@[i] && f[q].element@ == c;
        assert(f[q].element@ != k);
        let a = choose|a: int| 0 <= a < g.len() && g[a] == f[q];
    }
    assert forall|j: int| 0 <= j < g.len() implies n.contains_key(#[trigger] g[j].element@)
        && n[g[j].element@]@.contains(g[j].id) by {
        let q = choose|q: int| 0 <= q < f.len() && g[j] == f[q];
        assert(m.contains_key(f[q].element@));
    }
}

/// Appending a fragment with a fresh id, and naming it at the end of its element's list,
/// keeps the set consistent.
proof fn lemma_insert_keeps(
    f: Seq<RenderFragment>,
    m: Map<Seq<char>, Vec<FragmentId>>,
    next: u32,
    g: Seq<RenderFragment>,
    n: Map<Seq<char>, Vec<FragmentId>>,
)
    requires
        ordered(f),
        below(f, next),
        lists_sound(m, f),
        lists_complete(m, f),
        g.len() == f.len() + 1,
        g.drop_last() == f,
        g.last().id.0 >= next,
        g.last().id.0 >= 1,
        g.last().id.0 < u32::MAX,
        n.contains_key(g.last().element@),
        n[g.last().element@]@ == (if m.contains_key(g.last().element@) { m[g.last().element@]@ } else {
            Seq::empty()
        }).push(g.last().id),
        forall|k: Seq<char>| k != g.last().element@ ==> (n.contains_key(k) <==> m.contains_key(k)),
        forall|k: Seq<char>| k != g.last().element@ && m.contains_key(k) ==> n[k] == m[k],
    ensures
        ordered(g),
        below(g, (g.last().id.0 + 1) as u32),
        lists_sound(n, g),
        lists_complete(n, g),
{
    let e = g.last().element@;
    let id = g.last().id;
    assert forall|i: int| 0 <= i < f.len() implies #[trigger] g[i] == f[i] by {
        assert(g.drop_last()[i] == g[i]);
    }
    assert forall|i: int, j: int| 0 <= i < j < g.len() implies g[i].id.0 < g[j].id.0 by {
        assert(g[i] == f[i]);
        if j < f.len() {
            assert(g[j] == f[j]);
        } else {
            assert(f[i].id.0 < next);
        }
    }
    assert forall|i: int| 0 <= i < g.len() implies 1 <= #[trigger] g[i].id.0 < (g.last().id.0 + 1) as u32 by {
        if i < f.len() {
            assert(g[i] == f[i]);
            assert(1 <= f[i].id.0 < next);
        }
    }
    assert forall|k: Seq<char>, i: int| n.contains_key(k) && 0 <= i < n[k]@.len()
        implies has_fragment(g, #[trigger] n[k]@[i], k) by {
        if k == e && i == n[k]@.len() - 1 {
            assert(g[g.len() - 1].id == n[k]@[i]);
        } else {
            assert(m.contains_key(k));
            assert(m[k]@[i] == n[k]@[i]);
            assert(has_fragment(f, m[k]@[i], k));
            let j = choose|j: int| 0 <= j < f.len() && f[j].id == m[k]@[i] && f[j].element@ == k;
            assert(g[j] == f[j]);
        }
    }
    assert forall|j: int| 0 <= j < g.len() implies n.contains_key(#[trigger] g[j].element@)
        && n[g[j].element@]@.contains(g[j].id) by {
        if j < f.len() {
            assert(g[j] == f[j]);
            let k = f[j].element@;
            assert(m.contains_key(k) && m[k]@.contains(f[j].id));
            let q = choose|q: int| 0 <= q < m[k]@.len() && m[k]@[q] == f[j].id;
            if k == e {
                assert(n[k]@[q] == f[j].id);
            }
        } else {
            assert(n[e]@[n[e]@.len() - 1] == id);
        }
    }
}


/// No fragment of a consistent set carries the miss id, so a cleared pick buffer never
/// resolves to a fragment.
pub proof fn lemma_ids_are_never_the_miss(set: &FragmentSet)
    requires
        set.wf(),
    ensures
        forall|i: int| 0 <= i < set.fragments().len() ==> (#[trigger] set.fragments()[i]).id.0 != 0,
{
    assert forall|i: int| 0 <= i < set.fragments().len() implies (#[trigger] set.fragments()[i]).id.0 != 0 by {
        lemma_id_at_least(set.fragments(), set.next(), i);
    }
}

/// Ids in a consistent set are unique, so a pick of an id finds exactly one fragment.
pub proof fn lemma_ids_are_unique(set: &FragmentSet)
    requires
        set.wf(),
    ensures
        forall|i: int, j: int| 0 <= i < set.fragments().len() && 0 <= j < set.fragments().len()
            && (#[trigger] set.fragments()[i]).id == (#[trigger] set.fragments()[j]).id ==> i == j,
{
    assert forall|i: int, j: int| 0 <= i < set.fragments().len() && 0 <= j < set.fragments().len()
        && (#[trigger] set.fragments()[i]).id == (#[trigger] set.fragments()[j]).id implies i == j by {
        if i < j {
            assert(set.fragments()[i].id.0 < set.fragments()[j].id.0);
        } else if j < i {
            assert(set.fragments()[j].id.0 < set.fragments()[i].id.0);
        }
    }
}

/// After an element is invalidated, none of what is left belongs to it.
pub proof fn lemma_invalidated_leaves_none(s: Seq<RenderFragment>, k: Seq<char>)
    ensures
        forall|i: int| 0 <= i < s.filter(not_of(k)).len() ==> (#[trigger] s.filter(not_of(k))[i]).element@ != k,
{
    assert forall|i: int| 0 <= i < s.filter(not_of(k)).len() implies (#[trigger] s.filter(not_of(k))[i]).element@ != k by {
        s.lemma_filter_pred(not_of(k), i);
    }
}

}
