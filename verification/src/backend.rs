//! The IFC boundary: the swappable backend, what it can do, and what it reports.
//!
//! No IFC library's types cross into the model; every reader and writer lives behind
//! [`IfcBackend`].

use vstd::prelude::*;
use crate::id::GlobalId;
use crate::model::Model;
use crate::schema::IfcSchema;

verus! {

/// Everything that can go wrong crossing the IFC boundary.
#[derive(Debug, PartialEq)]
pub enum IfcError {
    NoBackend,
    UnsupportedSchema { backend: &'static str, schema: IfcSchema },
    ReadOnlyBackend { backend: &'static str },
    WriteOnlyBackend { backend: &'static str },
    UnknownSchema,
    Malformed(String),
    Backend(String),
}

impl Clone for IfcError {
    fn clone(&self) -> (r: Self)
        ensures
            r == *self,
    {
        match self {
            IfcError::NoBackend => IfcError::NoBackend,
            IfcError::UnsupportedSchema { backend, schema } => IfcError::UnsupportedSchema {
                backend: *backend,
                schema: *schema,
            },
            IfcError::ReadOnlyBackend { backend } => IfcError::ReadOnlyBackend { backend: *backend },
            IfcError::WriteOnlyBackend { backend } => IfcError::WriteOnlyBackend { backend: *backend },
            IfcError::UnknownSchema => IfcError::UnknownSchema,
            IfcError::Malformed(m) => IfcError::Malformed(m.clone()),
            IfcError::Backend(m) => IfcError::Backend(m.clone()),
        }
    }
}

/// What a backend can do.
///
/// Declared rather than assumed, so that an operation a backend cannot perform is never
/// offered in the first place.
#[derive(Debug, Clone, PartialEq)]
pub struct BackendCapabilities {
    pub reads: Vec<IfcSchema>,
    pub writes: Vec<IfcSchema>,
    /// Whether the backend can produce geometry, or only semantics.
    pub geometry: bool,
    /// Whether it runs on mobile.
    pub mobile: bool,
}

/// Whether `schema` is in a list of schemas.
fn listed(list: &Vec<IfcSchema>, schema: IfcSchema) -> (r: bool)
    ensures
        r == list@.contains(schema),
{
    let mut i: usize = 0;
    while i < list.len()
        invariant
            i <= list.len(),
            forall|j: int| 0 <= j < i ==> list@[j] != schema,
        decreases list.len() - i,
    {
        if list[i] == schema {
            assert(list@[i as int] == schema);
            return true;
        }
        i += 1;
    }
    false
}

impl BackendCapabilities {
    /// A backend that can do nothing.
    pub fn none() -> (r: Self)
        ensures
            r.reads@.len() == 0,
            r.writes@.len() == 0,
            !r.geometry,
            !r.mobile,
    {
        BackendCapabilities { reads: Vec::new(), writes: Vec::new(), geometry: false, mobile: false }
    }

    pub fn can_read(&self, schema: IfcSchema) -> (r: bool)
        ensures
            r == self.reads@.contains(schema),
    {
        listed(&self.reads, schema)
    }

    pub fn can_write(&self, schema: IfcSchema) -> (r: bool)
        ensures
            r == self.writes@.contains(schema),
    {
        listed(&self.writes, schema)
    }
}

/// Whether a backend with these capabilities, called `backend`, may write `schema`: it must
/// write something, and that schema in particular.
pub open spec fn write_refusal(caps_writes: Seq<IfcSchema>, backend: &'static str, schema: IfcSchema) -> Option<IfcError> {
    if caps_writes.len() == 0 {
        Some(IfcError::ReadOnlyBackend { backend })
    } else if !caps_writes.contains(schema) {
        Some(IfcError::UnsupportedSchema { backend, schema })
    } else {
        None
    }
}

/// The guard every writer runs before writing.
pub fn check_write(caps: &BackendCapabilities, backend: &'static str, schema: IfcSchema) -> (r: Result<(), IfcError>)
    ensures
        r is Ok <==> write_refusal(caps.writes@, backend, schema) is None,
        r matches Err(e) ==> write_refusal(caps.writes@, backend, schema) == Some(e),
{
    if caps.writes.len() == 0 {
        return Err(IfcError::ReadOnlyBackend { backend });
    }
    if !caps.can_write(schema) {
        return Err(IfcError::UnsupportedSchema { backend, schema });
    }
    Ok(())
}

/// Something that went wrong with a file but did not stop the import.
///
/// Imported IFC is untrusted input, and real-world files are full of problems that must not
/// abort a load. Every one is surfaced in the import report.
#[derive(Debug, Clone, PartialEq)]
pub enum ImportWarning {
    /// Two entities claimed the same `GlobalId`.
    DuplicateGlobalId(GlobalId),
    /// An identity that is not a valid `IfcGloballyUniqueId`; a fresh one was minted.
    InvalidGlobalId { raw: String, replacement: GlobalId },
    /// Geometry could not be produced for an element, which keeps its semantics.
    GeometryFailed { element: GlobalId, reason: String },
    /// A relationship pointed at something absent from the file.
    DanglingReference { element: GlobalId, relationship: String },
    /// An entity CADForge does not model natively, preserved as `IfcClass::Other`.
    UnsupportedEntity { entity: String, count: usize },
}

/// The outcome of reading a file.
#[derive(Debug, Clone, PartialEq)]
pub struct ImportReport {
    pub schema: IfcSchema,
    pub elements: usize,
    pub warnings: Vec<ImportWarning>,
    /// Elements whose geometry could not be produced.
    pub geometry_failures: usize,
}

impl ImportReport {
    /// A clean import raised no warning at all.
    pub fn is_clean(&self) -> (r: bool)
        ensures
            r == (self.warnings@.len() == 0),
    {
        self.warnings.len() == 0
    }
}

/// An IFC reader and writer.
///
/// Implementations own their types entirely; only the library's types cross this boundary.
pub trait IfcBackend {
    fn name(&self) -> &'static str;

    fn capabilities(&self) -> BackendCapabilities;

    /// Read a file into the model, appending to whatever is already there.
    fn read(&self, bytes: &[u8], model: &mut Model) -> Result<ImportReport, IfcError>;

    /// Serialise the model.
    fn write(&self, model: &Model, schema: IfcSchema) -> Result<Vec<u8>, IfcError>;

    /// The guard every writer runs: the backend must write something, and this schema.
    /// Which error comes back is [`write_refusal`] of what `capabilities` and `name` return.
    fn check_can_write(&self, schema: IfcSchema) -> (r: Result<(), IfcError>)
        ensures
            r matches Err(e) ==> (e is ReadOnlyBackend || (e is UnsupportedSchema && e->UnsupportedSchema_schema == schema)),
    {
        let caps = self.capabilities();
        check_write(&caps, self.name(), schema)
    }
}

/// The registered default: refuses everything, so that every caller handles the failure path
/// from the start.
#[derive(Debug, Clone, Copy, Default)]
pub struct UnimplementedBackend;

impl IfcBackend for UnimplementedBackend {
    fn name(&self) -> (r: &'static str)
        ensures
            r@ == "unimplemented"@,
    {
        "unimplemented"
    }

    fn capabilities(&self) -> (r: BackendCapabilities)
        ensures
            r.reads@.len() == 0,
            r.writes@.len() == 0,
            !r.geometry,
            !r.mobile,
    {
        BackendCapabilities::none()
    }

    fn read(&self, bytes: &[u8], model: &mut Model) -> (r: Result<ImportReport, IfcError>)
        ensures
            r == Err::<ImportReport, IfcError>(IfcError::NoBackend),
            *final(model) == *old(model),
    {
        Err(IfcError::NoBackend)
    }

    fn write(&self, model: &Model, schema: IfcSchema) -> (r: Result<Vec<u8>, IfcError>)
        ensures
            r == Err::<Vec<u8>, IfcError>(IfcError::NoBackend),
    {
        Err(IfcError::NoBackend)
    }
}


}
