//! Writing IFC4 STEP physical files: string and identity encoding, the export context, and
//! the writer backend.
//!
//! Export is reproducible: the same model and the same [`ExportContext`] give the same bytes.
//! Identities of entities the model does not carry one for are derived from the project name,
//! the kind of entity, and a sequence number, never minted at random.

use vstd::prelude::*;
use crate::backend::{check_write, BackendCapabilities, IfcError, ImportReport};
use crate::element::IfcClass;
use crate::id::{encode, GlobalId};
use crate::model::Model;
use crate::schema::IfcSchema;
use crate::text::{chars_of, decimal, format_padded, format_u64, owned, padded_decimal, push_char, push_str};
use crate::textmap::TextMap;

verus! {

/// A family type to emit as an `IfcTypeProduct`.
#[derive(Debug, Clone, PartialEq)]
pub struct ExportedType {
    pub global_id: GlobalId,
    pub name: String,
    /// The class of the instances: `IfcClass::Door` produces an `IfcDoorType`.
    pub class: IfcClass,
    /// `PredefinedType`, without the enclosing dots. Defaults to `NOTDEFINED`.
    pub predefined_type: Option<String>,
}

/// Everything about an export that is not in the model.
#[derive(Debug, Clone, PartialEq)]
pub struct ExportContext {
    pub project_name: String,
    pub site_name: String,
    pub building_name: String,
    pub author: String,
    pub organization: String,
    pub application: String,
    pub application_version: String,
    /// ISO-8601 stamp for the file header. Supply one for reproducible output; `None` uses
    /// the current time.
    pub timestamp: Option<String>,
    pub types: Vec<ExportedType>,
}

/// The context every export starts from.
pub open spec fn default_context(c: ExportContext) -> bool {
    &&& c.project_name@ == "Untitled Project"@
    &&& c.site_name@ == "Default Site"@
    &&& c.building_name@ == "Default Building"@
    &&& c.author@ == Seq::<char>::empty()
    &&& c.organization@ == Seq::<char>::empty()
    &&& c.application@ == "CADForge"@
    &&& c.application_version@ == "0.1.0"@
    &&& c.timestamp is None
    &&& c.types@.len() == 0
}

impl Default for ExportContext {
    fn default() -> (r: Self)
        ensures
            default_context(r),
    {
        ExportContext {
            project_name: owned("Untitled Project"),
            site_name: owned("Default Site"),
            building_name: owned("Default Building"),
            author: String::new(),
            organization: String::new(),
            application: owned("CADForge"),
            application_version: owned("0.1.0"),
            timestamp: None,
            types: Vec::new(),
        }
    }
}

impl ExportContext {
    /// The default context for a project of this name.
    pub fn named(project_name: &str) -> (r: Self)
        ensures
            r.project_name@ == project_name@,
            r.site_name@ == "Default Site"@,
            r.building_name@ == "Default Building"@,
            r.author@ == Seq::<char>::empty(),
            r.organization@ == Seq::<char>::empty(),
            r.application@ == "CADForge"@,
            r.application_version@ == "0.1.0"@,
            r.timestamp is None,
            r.types@.len() == 0,
    {
        ExportContext { project_name: owned(project_name), ..Self::default() }
    }

    pub fn with_types(self, types: Vec<ExportedType>) -> (r: Self)
        ensures
            r == (ExportContext { types, ..self }),
    {
        let mut s = self;
        s.types = types;
        s
    }

    /// Pin the header timestamp, making export byte-reproducible.
    pub fn at(self, timestamp: &str) -> (r: Self)
        ensures
            r == (ExportContext { timestamp: r.timestamp, ..self }),
            r.timestamp matches Some(t) && t@ == timestamp@,
    {
        let mut s = self;
        s.timestamp = Some(owned(timestamp));
        s
    }
}

// ---- STEP strings -----------------------------------------------------------------------

/// Printable ASCII: written as itself in a STEP string.
pub open spec fn printable(c: char) -> bool {
    0x20 <= (c as u32) && (c as u32) < 0x7f
}

/// A printable character as a STEP string holds it: quote and backslash doubled.
pub open spec fn literal(c: char) -> Seq<char> {
    if c == '\'' || c == '\\' {
        seq![c, c]
    } else {
        seq![c]
    }
}

/// The UTF-16 code units of a character.
pub open spec fn utf16_units(c: char) -> Seq<u16> {
    let u = c as u32;
    if u < 0x10000 {
        seq![u as u16]
    } else {
        seq![(0xd800 + ((u - 0x10000) / 1024)) as u16, (0xdc00 + ((u - 0x10000) % 1024)) as u16]
    }
}

/// An upper-case hexadecimal digit.
pub open spec fn hex_digit(d: nat) -> char {
    if d < 10 {
        ((d + 48) as u32) as char
    } else {
        ((d + 55) as u32) as char
    }
}

/// A code unit as four upper-case hexadecimal digits.
pub open spec fn hex4(u: u16) -> Seq<char> {
    seq![
        hex_digit((u / 4096) as nat),
        hex_digit(((u / 256) % 16) as nat),
        hex_digit(((u / 16) % 16) as nat),
        hex_digit((u % 16) as nat),
    ]
}

/// The hexadecimal digits of a character's UTF-16 code units.
pub open spec fn hex_units(c: char) -> Seq<char> {
    let units = utf16_units(c);
    if units.len() == 1 {
        hex4(units[0])
    } else {
        hex4(units[0]) + hex4(units[1])
    }
}

/// The body of a STEP string: printable characters as themselves, and every run of other
/// characters as `\X2\`, their UTF-16 code units in hexadecimal, and `\X0\`. `in_run` says
/// whether such a run is already open.
pub open spec fn escaped(s: Seq<char>, in_run: bool) -> Seq<char>
    decreases s.len(),
{
    if s.len() == 0 {
        if in_run {
            "\\X0\\"@
        } else {
            Seq::empty()
        }
    } else if printable(s[0]) {
        (if in_run {
            "\\X0\\"@
        } else {
            Seq::empty()
        }) + literal(s[0]) + escaped(s.drop_first(), false)
    } else {
        (if in_run {
            Seq::empty()
        } else {
            "\\X2\\"@
        }) + hex_units(s[0]) + escaped(s.drop_first(), true)
    }
}

/// A STEP string literal: the escaped text in single quotes.
#[verifier::opaque]
pub open spec fn step_string(s: Seq<char>) -> Seq<char> {
    seq!['\''] + escaped(s, false) + seq!['\'']
}

fn hex_char(d: u16) -> (r: char)
    requires
        d < 16,
    ensures
        r == hex_digit(d as nat),
{
    if d < 10 {
        ((d + 48) as u8) as char
    } else {
        ((d + 55) as u8) as char
    }
}

/// Append a code unit as four hexadecimal digits.
fn push_hex4(out: &mut String, u: u16)
    ensures
        final(out)@ == old(out)@ + hex4(u),
{
    push_char(out, hex_char(u / 4096));
    push_char(out, hex_char((u / 256) % 16));
    push_char(out, hex_char((u / 16) % 16));
    push_char(out, hex_char(u % 16));
    assert(out@ =~= old(out)@ + hex4(u));
}

/// Append the hexadecimal code units of a character.
fn push_units(out: &mut String, c: char)
    ensures
        final(out)@ == old(out)@ + hex_units(c),
{
    let u = c as u32;
    if u < 0x10000 {
        push_hex4(out, u as u16);
    } else {
        let v = u - 0x10000;
        push_hex4(out, (0xd800 + v / 1024) as u16);
        push_hex4(out, (0xdc00 + v % 1024) as u16);
        assert(out@ =~= old(out)@ + hex_units(c));
    }
}

/// A STEP string literal.
///
/// Single quotes and backslashes are doubled, and anything outside printable ASCII is written
/// with the `\X2\…\X0\` UTF-16 escape that ISO 10303-21 requires.
#[verifier::rlimit(40)]
pub fn text(value: &str) -> (r: String)
    ensures
        r@ == step_string(value@),
{
    let cs = chars_of(value);
    let mut out = String::new();
    push_char(&mut out, '\'');
    let mut in_run = false;
    let mut i: usize = 0;
    assert(cs@.skip(0) =~= cs@);
    while i < cs.len()
        invariant
            cs@ == value@,
            i <= cs.len(),
            out@ + escaped(cs@.skip(i as int), in_run) == seq!['\''] + escaped(cs@, false),
        decreases cs.len() - i,
    {
        let c = cs[i];
        let ghost before = out@;
        let ghost rest = cs@.skip(i as int);
        assert(rest.drop_first() =~= cs@.skip(i + 1));
        assert(rest[0] == c);
        let u = c as u32;
        if 0x20 <= u && u < 0x7f {
            if in_run {
                push_str(&mut out, "\\X0\\");
            }
            if c == '\'' || c == '\\' {
                push_char(&mut out, c);
            }
            push_char(&mut out, c);
            proof {
                assert(out@ =~= before + (if in_run { "\\X0\\"@ } else { Seq::empty() }) + literal(c));
            }
            in_run = false;
        } else {
            if !in_run {
                push_str(&mut out, "\\X2\\");
            }
            push_units(&mut out, c);
            proof {
                assert(out@ =~= before + (if in_run { Seq::empty() } else { "\\X2\\"@ }) + hex_units(c));
            }
            in_run = true;
        }
        i += 1;
    }
    assert(cs@.skip(cs.len() as int) =~= Seq::<char>::empty());
    if in_run {
        push_str(&mut out, "\\X0\\");
    }
    push_char(&mut out, '\'');
    reveal(step_string);
    assert(out@ =~= step_string(value@));
    out
}

// ---- identities ---------------------------------------------------------------------------

/// The FNV-1a offset basis.
pub const FNV_OFFSET: u64 = 0xcbf2_9ce4_8422_2325u64;

/// The FNV-1a prime.
pub const FNV_PRIME: u64 = 0x0000_0100_0000_01b3u64;

/// FNV-1a over bytes: for each byte, xor it in and multiply by the prime, wrapping.
pub open spec fn fnv(data: Seq<u8>) -> u64
    decreases data.len(),
{
    if data.len() == 0 {
        FNV_OFFSET
    } else {
        vstd::wrapping::u64_specs::wrapping_mul(fnv(data.drop_last()) ^ (data.last() as u64), FNV_PRIME)
    }
}

/// FNV-1a, for deriving stable identities. Not cryptographic: it only needs to be
/// deterministic across platforms and runs.
pub fn fnv1a(data: &[u8]) -> (r: u64)
    ensures
        r == fnv(data@),
{
    let mut hash: u64 = FNV_OFFSET;
    let mut i: usize = 0;
    while i < data.len()
        invariant
            i <= data.len(),
            hash == fnv(data@.take(i as int)),
        decreases data.len() - i,
    {
        assert(data@.take(i + 1).drop_last() =~= data@.take(i as int));
        hash = hash ^ (data[i] as u64);
        hash = hash.wrapping_mul(FNV_PRIME);
        i += 1;
    }
    assert(data@.take(data.len() as int) =~= data@);
    hash
}

/// The eight bytes of a `u64`, most significant first.
pub open spec fn be_bytes(v: u64) -> Seq<u8> {
    Seq::new(8, |i: int| ((v >> (56 - 8 * i) as u64) & 0xff) as u8)
}

/// The key an identity of this kind and sequence number is derived from.
pub open spec fn synthetic_key(project: Seq<char>, kind: Seq<char>, n: nat) -> Seq<char> {
    project + seq!['|'] + kind + seq!['|'] + decimal(n)
}

/// The identity derived from a key: the FNV-1a hashes of the key and of the key with
/// `|low` appended, big-endian, as sixteen bytes.
pub open spec fn derived_id(key: Seq<char>) -> Seq<char> {
    encode(
        be_bytes(fnv(vstd::utf8::encode_utf8(key))) + be_bytes(fnv(vstd::utf8::encode_utf8(key + "|low"@))),
    )
}

/// Copy the bytes of `v`, most significant first, into `out[at..at + 8]`.
fn put_be(out: &mut [u8; 16], at: usize, v: u64)
    requires
        at == 0 || at == 8,
    ensures
        forall|i: int| 0 <= i < 8 ==> final(out)@[at + i] == be_bytes(v)[i],
        forall|i: int| 0 <= i < 16 && !(at <= i < at + 8) ==> final(out)@[i] == old(out)@[i],
{
    let mut k: usize = 0;
    while k < 8
        invariant
            at == 0 || at == 8,
            k <= 8,
            forall|i: int| 0 <= i < k ==> out@[at + i] == be_bytes(v)[i],
            forall|i: int| 0 <= i < 16 && !(at <= i < at + k) ==> out@[i] == old(out)@[i],
        decreases 8 - k,
    {
        let shift: u64 = 56 - 8 * (k as u64);
        out[at + k] = ((v >> shift) & 0xff) as u8;
        k += 1;
    }
}

/// `#n`, the reference to entity `n`.
pub open spec fn reference(n: nat) -> Seq<char> {
    seq!['#'] + decimal(n)
}

/// The line that defines entity `n`: `#n=BODY;`.
pub open spec fn entity_line(n: nat, body: Seq<char>) -> Seq<char> {
    reference(n) + seq!['='] + body + seq![';']
}

/// The text of a reference.
pub fn ref_text(n: u64) -> (r: String)
    ensures
        r@ == reference(n as nat),
{
    let mut out = String::new();
    push_char(&mut out, '#');
    let d = format_u64(n);
    push_str(&mut out, d.as_str());
    out
}

/// An export in progress: the entity lines so far, numbered from one, with identical
/// primitives emitted once and shared, and the counter behind derived identities.
pub struct Writer<'a> {
    context: &'a ExportContext,
    lines: Vec<String>,
    next: u64,
    interned: TextMap<u64>,
    synthetic_count: u64,
}

/// `line` defines entity `n`, whatever its body.
pub open spec fn defines(line: Seq<char>, n: nat) -> bool {
    exists|body: Seq<char>| line == #[trigger] entity_line(n, body)
}

/// Line `i` defines entity `i + 1`: the entities are numbered in order, none twice.
pub open spec fn numbered_in_order(lines: Seq<Seq<char>>) -> bool {
    forall|i: int| 0 <= i < lines.len() ==> #[trigger] defines(lines[i], (i + 1) as nat)
}

/// The views of a list of strings.
pub open spec fn texts(v: Seq<String>) -> Seq<Seq<char>> {
    v.map_values(|s: String| s@)
}

impl<'a> Writer<'a> {
    /// Line `i` defines entity `i + 1`, and every interned body names the line that defines it.
    pub closed spec fn wf(&self) -> bool {
        &&& self.next as nat == self.lines().len() + 1
        &&& numbered_in_order(self.lines())
        &&& forall|k: Seq<char>| #[trigger]
            self.interned@.contains_key(k) ==> 1 <= self.interned@[k] < self.next && self.lines()[self.interned@[k]
                - 1] == entity_line(self.interned@[k] as nat, k)
    }

    /// A well-formed writer's lines are numbered in order.
    pub proof fn lemma_numbered(&self)
        requires
            self.wf(),
        ensures
            numbered_in_order(self.lines()),
    {
    }

    /// The bodies emitted so far, in order: entity `i + 1` has body `bodies()[i]`.
    pub closed spec fn lines(&self) -> Seq<Seq<char>> {
        texts(self.lines@)
    }

    /// How many identities have been derived so far.
    pub closed spec fn count(&self) -> nat {
        self.synthetic_count as nat
    }

    /// The entity each interned body was emitted as.
    pub closed spec fn shared(&self) -> Map<Seq<char>, u64> {
        self.interned@
    }

    /// The context the export is for.
    pub closed spec fn context(&self) -> ExportContext {
        *self.context
    }

    pub fn new(context: &'a ExportContext) -> (r: Self)
        ensures
            r.wf(),
            r.count() == 0,
            r.lines().len() == 0,
            r.context() == *context,
    {
        let r = Writer { context, lines: Vec::new(), next: 1, interned: TextMap::new(), synthetic_count: 0 };
        assert(r.lines() =~= Seq::<Seq<char>>::empty());
        r
    }

    /// Emit an entity and return its number.
    pub fn add(&mut self, body: String) -> (r: u64)
        requires
            old(self).wf(),
            old(self).lines().len() + 1 < u64::MAX,
        ensures
            final(self).wf(),
            r == old(self).lines().len() + 1,
            final(self).lines() == old(self).lines().push(entity_line(r as nat, body@)),
            final(self).count() == old(self).count(),
            final(self).context() == old(self).context(),
            final(self).shared() == old(self).shared(),
    {
        let id = self.next;
        let mut line = ref_text(id);
        push_char(&mut line, '=');
        push_str(&mut line, body.as_str());
        push_char(&mut line, ';');
        assert(line@ =~= entity_line(id as nat, body@));
        self.lines.push(line);
        self.next = self.next + 1;
        assert(self.lines() =~= texts(old(self).lines@).push(entity_line(id as nat, body@)));
        assert forall|k: Seq<char>| #[trigger] self.interned@.contains_key(k) implies 1 <= self.interned@[k] < self.next
            && self.lines()[self.interned@[k] - 1] == entity_line(self.interned@[k] as nat, k) by {
            assert(self.lines()[self.interned@[k] - 1] == old(self).lines()[self.interned@[k] - 1]);
        }
        id
    }

    /// Emit an entity unless an identical one was emitted before, and return the number of
    /// the entity with this body.
    pub fn intern(&mut self, body: String) -> (r: u64)
        requires
            old(self).wf(),
            old(self).lines().len() + 1 < u64::MAX,
        ensures
            final(self).wf(),
            1 <= r <= final(self).lines().len(),
            final(self).lines()[r - 1] == entity_line(r as nat, body@),
            old(self).shared().contains_key(body@) ==> r == old(self).shared()[body@] && final(self).lines() == old(
                self,
            ).lines() && final(self).shared() == old(self).shared(),
            !old(self).shared().contains_key(body@) ==> r == old(self).lines().len() + 1 && final(self).lines() == old(
                self,
            ).lines().push(entity_line(r as nat, body@)) && final(self).shared() == old(self).shared().insert(body@, r),
            final(self).count() == old(self).count(),
            final(self).context() == old(self).context(),
    {
        if let Some(existing) = self.interned.get(body.as_str()) {
            proof {
                assert(self.interned@.contains_key(body@));
            }
            return *existing;
        }
        let key = owned(body.as_str());
        let ghost body_view = body@;
        let id = self.add(body);
        self.interned.insert(key, id);
        proof {
            assert forall|k: Seq<char>| #[trigger] self.interned@.contains_key(k) implies 1 <= self.interned@[k] < self.next
                && self.lines()[self.interned@[k] - 1] == entity_line(self.interned@[k] as nat, k) by {
                if k != body_view {
                    assert(old(self).interned@.contains_key(k));
                }
            }
        }
        id
    }

    /// A deterministic identity for an entity the model does not carry one for: the project,
    /// a synthesised storey, every relationship. Derived from the project name, the kind, and
    /// a sequence number, so that every export of an unchanged model is the same file.
    pub fn synthetic(&mut self, kind: &str) -> (r: GlobalId)
        requires
            old(self).count() < u64::MAX,
        ensures
            final(self).count() == old(self).count() + 1,
            final(self).context() == old(self).context(),
            final(self).lines() == old(self).lines(),
            final(self).wf() == old(self).wf(),
            r@ == derived_id(synthetic_key(old(self).context().project_name@, kind@, old(self).count() + 1)),
    {
        self.synthetic_count = self.synthetic_count + 1;
        let mut key = owned(self.context.project_name.as_str());
        push_char(&mut key, '|');
        push_str(&mut key, kind);
        push_char(&mut key, '|');
        let n = format_u64(self.synthetic_count);
        push_str(&mut key, n.as_str());
        assert(key@ =~= synthetic_key(self.context().project_name@, kind@, self.count()));
        let mut low = owned(key.as_str());
        push_str(&mut low, "|low");
        let high_hash = fnv1a(key.as_str().as_bytes());
        let low_hash = fnv1a(low.as_str().as_bytes());
        let mut bytes = [0u8; 16];
        put_be(&mut bytes, 0, high_hash);
        put_be(&mut bytes, 8, low_hash);
        assert(bytes@ =~= be_bytes(high_hash) + be_bytes(low_hash));
        assert(self.lines == old(self).lines && self.next == old(self).next && self.interned == old(self).interned);
        GlobalId::from_bytes(bytes)
    }

    /// Emit an entity and return its number; refused only once the file would hold more
    /// entities than a `u64` can number.
    pub fn emit(&mut self, body: String) -> (r: Result<u64, IfcError>)
        requires
            old(self).wf(),
        ensures
            final(self).wf(),
            final(self).count() == old(self).count(),
            final(self).context() == old(self).context(),
            match r {
                Ok(n) => n == old(self).lines().len() + 1 && final(self).lines() == old(self).lines().push(
                    entity_line(n as nat, body@),
                ),
                Err(e) => e is Backend && final(self).lines() == old(self).lines() && old(self).lines().len() + 2
                    >= u64::MAX,
            },
    {
        if self.next >= u64::MAX - 1 {
            return Err(IfcError::Backend(owned("too many entities for one file")));
        }
        Ok(self.add(body))
    }

    /// Emit an entity unless an identical one was emitted before, and return its number; refused
    /// only once the file would hold more entities than a `u64` can number.
    pub fn emit_shared(&mut self, body: String) -> (r: Result<u64, IfcError>)
        requires
            old(self).wf(),
        ensures
            final(self).wf(),
            final(self).count() == old(self).count(),
            final(self).context() == old(self).context(),
            match r {
                Ok(n) => 1 <= n <= final(self).lines().len() && final(self).lines()[n - 1] == entity_line(
                    n as nat,
                    body@,
                ) && (old(self).shared().contains_key(body@) ==> n == old(self).shared()[body@] && final(self).lines()
                    == old(self).lines() && final(self).shared() == old(self).shared()) && (!old(
                    self,
                ).shared().contains_key(body@) ==> n == old(self).lines().len() + 1 && final(self).lines() == old(
                    self,
                ).lines().push(entity_line(n as nat, body@)) && final(self).shared() == old(self).shared().insert(
                    body@,
                    n,
                )),
                Err(e) => e is Backend && final(self).lines() == old(self).lines() && old(self).lines().len() + 2
                    >= u64::MAX,
            },
    {
        if self.next >= u64::MAX - 1 {
            return Err(IfcError::Backend(owned("too many entities for one file")));
        }
        Ok(self.intern(body))
    }

    /// A derived identity of this kind; refused only once more identities have been derived
    /// than a `u64` can count.
    pub fn derive(&mut self, kind: &str) -> (r: Result<GlobalId, IfcError>)
        requires
            old(self).wf(),
        ensures
            final(self).wf(),
            final(self).context() == old(self).context(),
            final(self).lines() == old(self).lines(),
            match r {
                Ok(g) => final(self).count() == old(self).count() + 1 && g@ == derived_id(
                    synthetic_key(old(self).context().project_name@, kind@, old(self).count() + 1),
                ),
                Err(e) => e is Backend && final(self).count() == old(self).count() && old(self).count() == u64::MAX,
            },
    {
        if self.synthetic_count == u64::MAX {
            return Err(IfcError::Backend(owned("too many derived identities for one file")));
        }
        Ok(self.synthetic(kind))
    }

    /// The file: header, the entity lines, and the trailer, stamped with `timestamp`.
    pub fn finish_at(self, timestamp: &str) -> (r: String)
        ensures
            r@ == file_text(self.context(), timestamp@, self.lines()),
    {
        let ctx = self.context;
        let mut out = header_text(ctx, timestamp);
        let mut i: usize = 0;
        while i < self.lines.len()
            invariant
                i <= self.lines.len(),
                out@ == file_header(*ctx, timestamp@) + joined_lines(texts(self.lines@).take(i as int)),
            decreases self.lines.len() - i,
        {
            push_str(&mut out, self.lines[i].as_str());
            push_char(&mut out, '\n');
            proof {
                let l = texts(self.lines@);
                assert(l.take(i + 1).drop_last() =~= l.take(i as int));
                assert(out@ =~= file_header(*ctx, timestamp@) + joined_lines(l.take(i + 1)));
            }
            i += 1;
        }
        assert(texts(self.lines@).take(self.lines.len() as int) =~= texts(self.lines@));
        push_str(&mut out, "ENDSEC;\nEND-ISO-10303-21;\n");
        out
    }

    /// The file, stamped with the context's timestamp, or with the current time when the
    /// context has none.
    pub fn finish(self) -> (r: String)
        ensures
            self.context().timestamp matches Some(t) ==> r@ == file_text(self.context(), t@, self.lines()),
            self.context().timestamp is None ==> exists|secs: i64| r@ == file_text(self.context(), iso8601(secs as int), self.lines()),
    {
        match &self.context.timestamp {
            Some(t) => {
                let stamp = owned(t.as_str());
                self.finish_at(stamp.as_str())
            },
            None => {
                let stamp = now_iso8601();
                self.finish_at(stamp.as_str())
            },
        }
    }
}

/// The header section of a file, through the start of the data section.
fn header_text(ctx: &ExportContext, timestamp: &str) -> (r: String)
    ensures
        r@ == file_header(*ctx, timestamp@),
{
    let mut out = owned("ISO-10303-21;\nHEADER;\n");
    push_str(&mut out, "FILE_DESCRIPTION(('ViewDefinition [DesignTransferView_V1.0]'),'2;1');\n");
    push_str(&mut out, "FILE_NAME(");
    let mut file_name = owned(ctx.project_name.as_str());
    push_str(&mut file_name, ".ifc");
    push_str(&mut out, text(file_name.as_str()).as_str());
    push_str(&mut out, ",");
    push_str(&mut out, text(timestamp).as_str());
    push_str(&mut out, ",(");
    push_str(&mut out, text(ctx.author.as_str()).as_str());
    push_str(&mut out, "),(");
    push_str(&mut out, text(ctx.organization.as_str()).as_str());
    push_str(&mut out, "),");
    let mut app = owned(ctx.application.as_str());
    push_str(&mut app, " ");
    push_str(&mut app, ctx.application_version.as_str());
    push_str(&mut out, text(app.as_str()).as_str());
    push_str(&mut out, ",");
    push_str(&mut out, text(ctx.application.as_str()).as_str());
    push_str(&mut out, ",");
    push_str(&mut out, text("").as_str());
    push_str(&mut out, ");\n");
    push_str(&mut out, "FILE_SCHEMA(('");
    push_str(&mut out, IfcSchema::Ifc4.header_name());
    push_str(&mut out, "'));\n");
    push_str(&mut out, "ENDSEC;\nDATA;\n");
    assert(out@ == file_header(*ctx, timestamp@));
    out
}

/// Entity lines, each followed by a newline.
pub open spec fn joined_lines(l: Seq<Seq<char>>) -> Seq<char>
    decreases l.len(),
{
    if l.len() == 0 {
        Seq::empty()
    } else {
        joined_lines(l.drop_last()) + l.last() + seq!['\n']
    }
}

/// The header section of a file, through the start of the data section.
pub open spec fn file_header(ctx: ExportContext, timestamp: Seq<char>) -> Seq<char> {
    "ISO-10303-21;\nHEADER;\n"@ + "FILE_DESCRIPTION(('ViewDefinition [DesignTransferView_V1.0]'),'2;1');\n"@
        + "FILE_NAME("@ + step_string(ctx.project_name@ + ".ifc"@) + ","@ + step_string(timestamp)
        + ",("@ + step_string(ctx.author@) + "),("@ + step_string(ctx.organization@) + "),"@
        + step_string(ctx.application@ + " "@ + ctx.application_version@) + ","@ + step_string(
        ctx.application@,
    ) + ","@ + step_string(""@) + ");\n"@ + "FILE_SCHEMA(('"@ + "IFC4"@ + "'));\n"@
        + "ENDSEC;\nDATA;\n"@
}

/// A whole file: header, entity lines, trailer.
pub open spec fn file_text(ctx: ExportContext, timestamp: Seq<char>, lines: Seq<Seq<char>>) -> Seq<char> {
    file_header(ctx, timestamp) + joined_lines(lines) + "ENDSEC;\nEND-ISO-10303-21;\n"@
}

/// Seconds since the Unix epoch, by the system clock.
///
/// Makes no claim about the result: it is whatever the clock says, and zero when the clock
/// reads before the epoch.
#[verifier::external_body]
fn clock_seconds() -> (r: i64) {
    std::time::SystemTime::now().duration_since(std::time::UNIX_EPOCH).map(|d| d.as_secs() as i64).unwrap_or(0)
}

/// The current time as `YYYY-MM-DDThh:mm:ss`.
pub fn now_iso8601() -> (r: String)
    ensures
        exists|secs: i64| r@ == iso8601(secs as int),
{
    let secs = clock_seconds();
    iso8601_at(secs)
}

/// `{:04}` for a year, sign included in the width.
pub open spec fn year_text(y: int) -> Seq<char> {
    if y < 0 {
        seq!['-'] + padded_decimal((-y) as nat, 3)
    } else {
        padded_decimal(y as nat, 4)
    }
}

/// `YYYY-MM-DDThh:mm:ss` for a time counted in seconds from 1970-01-01T00:00:00.
pub open spec fn iso8601(secs: int) -> Seq<char> {
    let days = secs / 86_400;
    let time = secs % 86_400;
    let (y, m, d) = civil(days);
    year_text(y) + seq!['-'] + padded_decimal(m as nat, 2) + seq!['-'] + padded_decimal(d as nat, 2) + seq!['T']
        + padded_decimal((time / 3600) as nat, 2) + seq![':'] + padded_decimal(((time % 3600) / 60) as nat, 2)
        + seq![':'] + padded_decimal((time % 60) as nat, 2)
}

/// A time counted in seconds from 1970-01-01T00:00:00, as `YYYY-MM-DDThh:mm:ss`.
pub fn iso8601_at(secs: i64) -> (r: String)
    ensures
        r@ == iso8601(secs as int),
{
    let days = secs.checked_div_euclid(86_400).unwrap();
    let time = secs.checked_rem_euclid(86_400).unwrap();
    let (y, m, d) = civil_from_days(days);
    let mut out = String::new();
    if y < 0 {
        push_char(&mut out, '-');
        let a = format_padded((-(y + 1)) as u64 + 1, 3);
        push_str(&mut out, a.as_str());
    } else {
        let a = format_padded(y as u64, 4);
        push_str(&mut out, a.as_str());
    }
    push_char(&mut out, '-');
    push_str(&mut out, format_padded(m as u64, 2).as_str());
    push_char(&mut out, '-');
    push_str(&mut out, format_padded(d as u64, 2).as_str());
    push_char(&mut out, 'T');
    push_str(&mut out, format_padded((time / 3600) as u64, 2).as_str());
    push_char(&mut out, ':');
    push_str(&mut out, format_padded(((time % 3600) / 60) as u64, 2).as_str());
    push_char(&mut out, ':');
    push_str(&mut out, format_padded((time % 60) as u64, 2).as_str());
    assert(out@ =~= iso8601(secs as int));
    out
}

/// Writes IFC4 STEP physical files.
#[derive(Debug, Clone, Default)]
pub struct SpfBackend {
    context: ExportContext,
}

impl SpfBackend {
    pub fn new(context: ExportContext) -> (r: Self)
        ensures
            r.context_spec() == context,
    {
        SpfBackend { context }
    }

    pub closed spec fn context_spec(&self) -> ExportContext {
        self.context
    }

    pub fn context(&self) -> (r: &ExportContext)
        ensures
            *r == self.context_spec(),
    {
        &self.context
    }

    pub fn name(&self) -> (r: &'static str)
        ensures
            r@ == "spf-writer"@,
    {
        "spf-writer"
    }

    /// Writes IFC4, with geometry, on every platform; reads nothing.
    pub fn capabilities(&self) -> (r: BackendCapabilities)
        ensures
            r.reads@.len() == 0,
            r.writes@ == seq![IfcSchema::Ifc4],
            r.geometry,
            r.mobile,
    {
        let mut writes: Vec<IfcSchema> = Vec::new();
        writes.push(IfcSchema::Ifc4);
        assert(writes@ =~= seq![IfcSchema::Ifc4]);
        BackendCapabilities { reads: Vec::new(), writes, geometry: true, mobile: true }
    }

    /// The writer cannot read.
    pub fn read(&self, bytes: &[u8], model: &mut Model) -> (r: Result<ImportReport, IfcError>)
        ensures
            r == Err::<ImportReport, IfcError>(IfcError::WriteOnlyBackend { backend: "spf-writer" }),
            *final(model) == *old(model),
    {
        Err(IfcError::WriteOnlyBackend { backend: "spf-writer" })
    }

    /// The guard run before any work: only IFC4 is written.
    pub fn check_can_write(&self, schema: IfcSchema) -> (r: Result<(), IfcError>)
        ensures
            schema is Ifc4 <==> r is Ok,
            !(schema is Ifc4) ==> r == Err::<(), IfcError>(IfcError::UnsupportedSchema { backend: "spf-writer", schema }),
    {
        let caps = self.capabilities();
        assert(caps.writes@[0] == IfcSchema::Ifc4);
        assert(caps.writes@.contains(schema) <==> schema is Ifc4);
        check_write(&caps, "spf-writer", schema)
    }
}

// ---- dates --------------------------------------------------------------------------------

/// Howard Hinnant's civil-from-days: the proleptic Gregorian `(year, month, day)` of a day
/// counted from 1970-01-01.
pub open spec fn civil(days: int) -> (int, int, int) {
    let z = days + 719_468;
    let era = z / 146_097;
    let doe = z % 146_097;
    let yoe = (doe - doe / 1460 + doe / 36_524 - doe / 146_096) / 365;
    let y = yoe + era * 400;
    let doy = doe - (365 * yoe + yoe / 4 - yoe / 100);
    let mp = (5 * doy + 2) / 153;
    let d = doy - (153 * mp + 2) / 5 + 1;
    let m = if mp < 10 { mp + 3 } else { mp - 9 };
    (if m <= 2 { y + 1 } else { y }, m, d)
}

/// The calendar date of a day number.
#[verifier::spinoff_prover]
#[verifier::rlimit(40)]
pub fn civil_from_days(days: i64) -> (r: (i64, u32, u32))
    requires
        days <= i64::MAX - 719_468,
    ensures
        r.0 as int == civil(days as int).0,
        r.1 as int == civil(days as int).1,
        r.2 as int == civil(days as int).2,
        1 <= r.1 <= 12,
        1 <= r.2 <= 31,
{
    let z = days + 719_468;
    let era = z.checked_div_euclid(146_097).unwrap();
    let doe = z.checked_rem_euclid(146_097).unwrap();
    let yoe = (doe - doe / 1460 + doe / 36_524 - doe / 146_096) / 365;
    let y = yoe + era * 400;
    let doy = doe - (365 * yoe + yoe / 4 - yoe / 100);
    assert(0 <= yoe <= 399);
    assert(0 <= doy <= 365);
    let mp = (5 * doy + 2) / 153;
    assert(0 <= mp <= 11);
    assert(1 <= doy - (153 * mp + 2) / 5 + 1 <= 31);
    let d = (doy - (153 * mp + 2) / 5 + 1) as u32;
    let m = (if mp < 10 { mp + 3 } else { mp - 9 }) as u32;
    (if m <= 2 { y + 1 } else { y }, m, d)
}

}
