//! IFC schema versions, and detecting one from a file header.
//!
//! Reading the header decides which backend can handle a file, and it is the difference
//! between "unsupported schema" and a confusing failure three layers down.

use vstd::prelude::*;
use crate::backend::IfcError;
use crate::text::{
    chars_of, find_from, find_in, is_whitespace, seq_starts_with, starts_with, string_between,
    to_ascii_uppercase, upper, whitespace,
};

verus! {

/// An IFC schema version.
#[derive(Debug, Clone, Copy, PartialEq, Eq, Structural, PartialOrd, Ord, Hash)]
pub enum IfcSchema {
    Ifc2x3,
    Ifc4,
    Ifc4x3,
    /// IFC5 / IFCX: component-based and layered. A serialiser target, never the internal
    /// model.
    Ifc5,
}

/// The identifier of a schema as it appears in a STEP `FILE_SCHEMA` header.
pub open spec fn schema_name(s: IfcSchema) -> Seq<char> {
    match s {
        IfcSchema::Ifc2x3 => "IFC2X3"@,
        IfcSchema::Ifc4 => "IFC4"@,
        IfcSchema::Ifc4x3 => "IFC4X3"@,
        IfcSchema::Ifc5 => "IFC5"@,
    }
}

/// The characters trimmed from both ends of a schema token: whitespace, and the STEP list
/// syntax and quotes around it.
pub open spec fn noise(c: char) -> bool {
    whitespace(c) || c == '(' || c == ')' || c == '\'' || c == '"'
}

/// `s` without its leading noise.
pub open spec fn trim_front(s: Seq<char>) -> Seq<char>
    decreases s.len(),
{
    if s.len() > 0 && noise(s[0]) {
        trim_front(s.drop_first())
    } else {
        s
    }
}

/// `s` without its trailing noise.
pub open spec fn trim_back(s: Seq<char>) -> Seq<char>
    decreases s.len(),
{
    if s.len() > 0 && noise(s.last()) {
        trim_back(s.drop_last())
    } else {
        s
    }
}

/// The schema a token names: the longest known identifier it starts with, once trimmed and
/// upper-cased. `IFC4X3` is tried before `IFC4`, or every IFC4X3 file would be taken for
/// IFC4.
pub open spec fn identified(raw: Seq<char>) -> Option<IfcSchema> {
    let u = upper(trim_back(trim_front(raw)));
    if starts_with(u, "IFC4X3"@) {
        Some(IfcSchema::Ifc4x3)
    } else if starts_with(u, "IFC2X3"@) {
        Some(IfcSchema::Ifc2x3)
    } else if starts_with(u, "IFC5"@) {
        Some(IfcSchema::Ifc5)
    } else if starts_with(u, "IFC4"@) {
        Some(IfcSchema::Ifc4)
    } else {
        None
    }
}

/// The first comma-separated token of `s` that names a schema.
pub open spec fn first_identified(s: Seq<char>) -> Option<IfcSchema>
    decreases s.len(),
{
    match find_from(s, seq![','], 0) {
        None => identified(s),
        Some(c) => if identified(s.take(c)) is Some {
            identified(s.take(c))
        } else if 0 <= c < s.len() {
            first_identified(s.skip(c + 1))
        } else {
            None
        },
    }
}

/// The schema a header declares: the first schema token between the parentheses that
/// follow `FILE_SCHEMA`, compared without regard to ASCII case.
pub open spec fn detected(header: Seq<char>) -> Option<IfcSchema> {
    let u = upper(header);
    match find_from(u, "FILE_SCHEMA"@, 0) {
        None => None,
        Some(start) => match find_from(u, seq!['('], start) {
            None => None,
            Some(open) => match find_from(u, seq![')'], open) {
                None => None,
                Some(close) => first_identified(u.subrange(open + 1, close)),
            },
        },
    }
}

/// Where the noise at the front of `cs` ends.
fn front_end(cs: &Vec<char>) -> (r: usize)
    ensures
        r <= cs.len(),
        trim_front(cs@) == cs@.skip(r as int),
{
    let mut i: usize = 0;
    assert(cs@.skip(0) =~= cs@);
    while i < cs.len() && (is_whitespace(cs[i]) || cs[i] == '(' || cs[i] == ')' || cs[i] == '\'' || cs[i] == '"')
        invariant
            i <= cs.len(),
            trim_front(cs@) == trim_front(cs@.skip(i as int)),
        decreases cs.len() - i,
    {
        assert(cs@.skip(i as int).drop_first() =~= cs@.skip(i + 1));
        i += 1;
    }
    i
}

/// Where the noise at the back of `cs[lo..]` begins.
fn back_start(cs: &Vec<char>, lo: usize) -> (r: usize)
    requires
        lo <= cs.len(),
    ensures
        lo <= r <= cs.len(),
        trim_back(cs@.skip(lo as int)) == cs@.subrange(lo as int, r as int),
{
    let mut j: usize = cs.len();
    assert(cs@.skip(lo as int) =~= cs@.subrange(lo as int, cs.len() as int));
    while j > lo && (is_whitespace(cs[j - 1]) || cs[j - 1] == '(' || cs[j - 1] == ')' || cs[j - 1] == '\''
        || cs[j - 1] == '"')
        invariant
            lo <= j <= cs.len(),
            trim_back(cs@.skip(lo as int)) == trim_back(cs@.subrange(lo as int, j as int)),
        decreases j - lo,
    {
        assert(cs@.subrange(lo as int, j as int).drop_last() =~= cs@.subrange(lo as int, j - 1));
        j -= 1;
    }
    j
}

impl IfcSchema {
    /// The identifier as it appears in a STEP `FILE_SCHEMA` header.
    pub fn header_name(self) -> (r: &'static str)
        ensures
            r@ == schema_name(self),
    {
        match self {
            IfcSchema::Ifc2x3 => "IFC2X3",
            IfcSchema::Ifc4 => "IFC4",
            IfcSchema::Ifc4x3 => "IFC4X3",
            IfcSchema::Ifc5 => "IFC5",
        }
    }

    /// Whether this schema is serialised as a STEP physical file rather than as IFCX.
    pub fn is_step(self) -> (r: bool)
        ensures
            r == !(self is Ifc5),
    {
        !matches!(self, IfcSchema::Ifc5)
    }

    /// Conventional file extension.
    pub fn extension(self) -> (r: &'static str)
        ensures
            r@ == (if self is Ifc5 { "ifcx"@ } else { "ifc"@ }),
    {
        if self.is_step() {
            "ifc"
        } else {
            "ifcx"
        }
    }

    /// Match a schema identifier, tolerating the variants exporters emit — `IFC4X3_ADD2`,
    /// `IFC2X3_TC1` — and the quotes and parentheses of the STEP list around it.
    pub fn from_identifier(raw: &str) -> (r: Option<IfcSchema>)
        ensures
            r == identified(raw@),
    {
        let cs = chars_of(raw);
        let lo = front_end(&cs);
        let hi = back_start(&cs, lo);
        let trimmed = string_between(&cs, lo, hi);
        let u = chars_of(to_ascii_uppercase(trimmed.as_str()).as_str());
        if seq_starts_with(&u, "IFC4X3") {
            Some(IfcSchema::Ifc4x3)
        } else if seq_starts_with(&u, "IFC2X3") {
            Some(IfcSchema::Ifc2x3)
        } else if seq_starts_with(&u, "IFC5") {
            Some(IfcSchema::Ifc5)
        } else if seq_starts_with(&u, "IFC4") {
            Some(IfcSchema::Ifc4)
        } else {
            None
        }
    }

    /// Detect the schema from the head of an IFC file. Only the header is inspected, so
    /// pass the first few kilobytes.
    pub fn detect(header: &str) -> (r: Result<IfcSchema, IfcError>)
        ensures
            r matches Ok(s) ==> detected(header@) == Some(s),
            r is Err ==> detected(header@) is None && r == Err::<IfcSchema, IfcError>(IfcError::UnknownSchema),
    {
        let u = chars_of(to_ascii_uppercase(header).as_str());
        let marker = chars_of("FILE_SCHEMA");
        let mut open_paren: Vec<char> = Vec::new();
        open_paren.push('(');
        let mut close_paren: Vec<char> = Vec::new();
        close_paren.push(')');
        assert(open_paren@ =~= seq!['(']);
        assert(close_paren@ =~= seq![')']);
        let start = match find_in(&u, &marker, 0) {
            Some(i) => i,
            None => return Err(IfcError::UnknownSchema),
        };
        proof { lemma_find_bounds(u@, marker@, 0); }
        let open = match find_in(&u, &open_paren, start) {
            Some(i) => i,
            None => return Err(IfcError::UnknownSchema),
        };
        proof { lemma_find_bounds(u@, seq!['('], start as int); }
        let close = match find_in(&u, &close_paren, open) {
            Some(i) => i,
            None => return Err(IfcError::UnknownSchema),
        };
        proof {
            lemma_find_bounds(u@, seq![')'], open as int);
            assert(u@.subrange(open as int, open + 1)[0] == '(');
            assert(u@.subrange(close as int, close + 1)[0] == ')');
        }
        let inner = string_between(&u, open + 1, close);
        match first_schema(inner.as_str()) {
            Some(s) => Ok(s),
            None => Err(IfcError::UnknownSchema),
        }
    }
}

/// A match found by `find_from` lies within the sequence, at or after where the search began.
proof fn lemma_find_bounds(s: Seq<char>, pat: Seq<char>, from: int)
    requires
        find_from(s, pat, from) is Some,
    ensures
        from <= find_from(s, pat, from)->0,
        find_from(s, pat, from)->0 + pat.len() <= s.len(),
        s.subrange(find_from(s, pat, from)->0, find_from(s, pat, from)->0 + pat.len()) == pat,
    decreases s.len() + 1 - from,
{
    if !(from < 0 || from + pat.len() > s.len()) && s.subrange(from, from + pat.len()) != pat {
        lemma_find_bounds(s, pat, from + 1);
    }
}

/// The first comma-separated token of `s` that names a schema.
fn first_schema(s: &str) -> (r: Option<IfcSchema>)
    ensures
        r == first_identified(s@),
{
    let cs = chars_of(s);
    let mut comma: Vec<char> = Vec::new();
    comma.push(',');
    assert(comma@ =~= seq![',']);
    let mut lo: usize = 0;
    assert(cs@.skip(0) =~= cs@);
    loop
        invariant
            lo <= cs.len(),
            comma@ == seq![','],
            first_identified(s@) == first_identified(cs@.skip(lo as int)),
            cs@ == s@,
        decreases cs.len() - lo,
    {
        let rest = string_between(&cs, lo, cs.len());
        let rest_chars = chars_of(rest.as_str());
        assert(rest_chars@ == cs@.skip(lo as int));
        match find_in(&rest_chars, &comma, 0) {
            None => {
                return IfcSchema::from_identifier(rest.as_str());
            },
            Some(c) => {
                proof { lemma_find_bounds(rest_chars@, seq![','], 0); }
                let token = string_between(&rest_chars, 0, c);
                assert(token@ == rest_chars@.take(c as int));
                let found = IfcSchema::from_identifier(token.as_str());
                if found.is_some() {
                    return found;
                }
                assert(rest_chars@.skip(c + 1) =~= cs@.skip(lo + c + 1));
                lo = lo + c + 1;
            },
        }
    }
}

}
