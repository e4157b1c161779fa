//! The command model.
//!
//! Every mutation to a [`Model`](crate::model::Model) is a `ModelCommand`; nothing else may
//! touch the store. That single rule is what buys undo, audit, replay, and deterministic
//! export.
//!
//! Every variant has an inverse: `CreateElement` carries the whole record, so deleting and
//! undoing restores the element rather than an approximation of it, and `SetName` and
//! `SetProperty` take `Option`, so setting and clearing are the same operation in opposite
//! directions.

use vstd::prelude::*;
use crate::element::{clone_id_opt, clone_string_opt, ElementRecord, ElementView, Placement};
use crate::id::GlobalId;
use crate::property::PropertyValue;
use crate::representation::{Representation, RepresentationModel};

verus! {

/// A single durable edit.
#[derive(Debug, PartialEq)]
#[allow(inconsistent_fields)]
pub enum ModelCommand {
    /// Insert an element. Boxed because this variant is far larger than the others.
    CreateElement { element: Box<ElementRecord> },
    DeleteElement { global_id: GlobalId },
    SetName { global_id: GlobalId, name: Option<String> },
    SetProperty {
        global_id: GlobalId,
        set: String,
        name: String,
        /// `None` clears the property.
        value: Option<PropertyValue>,
    },
    /// Translate an element by an `f64` bit-pattern vector.
    MoveElement { global_id: GlobalId, delta: [u64; 3] },
    SetPlacement { global_id: GlobalId, placement: Placement },
    /// `IfcRelContainedInSpatialStructure`.
    AssignContainer { global_id: GlobalId, container: Option<GlobalId> },
    /// Attach evaluated geometry. `None` clears it.
    SetRepresentation { global_id: GlobalId, representation: Option<Box<Representation>> },
    /// `IfcRelDefinesByType` — bind an instance to a family type.
    AssignType { global_id: GlobalId, type_ref: Option<GlobalId> },
    /// `IfcRelVoidsElement` — an opening cuts its host.
    AddVoid { host: GlobalId, opening: GlobalId },
    RemoveVoid { host: GlobalId, opening: GlobalId },
    /// `IfcRelFillsElement` — a door or window fills an opening.
    AddFill { opening: GlobalId, filler: GlobalId },
    RemoveFill { opening: GlobalId, filler: GlobalId },
}

/// What a [`ModelCommand`] says, with its element and geometry as mathematical values.
#[allow(inconsistent_fields)]
pub enum CommandView {
    CreateElement { element: ElementView },
    DeleteElement { global_id: GlobalId },
    SetName { global_id: GlobalId, name: Option<String> },
    SetProperty { global_id: GlobalId, set: String, name: String, value: Option<PropertyValue> },
    MoveElement { global_id: GlobalId, delta: [u64; 3] },
    SetPlacement { global_id: GlobalId, placement: Placement },
    AssignContainer { global_id: GlobalId, container: Option<GlobalId> },
    SetRepresentation { global_id: GlobalId, representation: Option<RepresentationModel> },
    AssignType { global_id: GlobalId, type_ref: Option<GlobalId> },
    AddVoid { host: GlobalId, opening: GlobalId },
    RemoveVoid { host: GlobalId, opening: GlobalId },
    AddFill { opening: GlobalId, filler: GlobalId },
    RemoveFill { opening: GlobalId, filler: GlobalId },
}

impl View for ModelCommand {
    type V = CommandView;

    open spec fn view(&self) -> CommandView {
        match self {
            ModelCommand::CreateElement { element } => CommandView::CreateElement { element: element@ },
            ModelCommand::DeleteElement { global_id } => CommandView::DeleteElement { global_id: *global_id },
            ModelCommand::SetName { global_id, name } => CommandView::SetName { global_id: *global_id, name: *name },
            ModelCommand::SetProperty { global_id, set, name, value } => CommandView::SetProperty {
                global_id: *global_id,
                set: *set,
                name: *name,
                value: *value,
            },
            ModelCommand::MoveElement { global_id, delta } => CommandView::MoveElement {
                global_id: *global_id,
                delta: *delta,
            },
            ModelCommand::SetPlacement { global_id, placement } => CommandView::SetPlacement {
                global_id: *global_id,
                placement: *placement,
            },
            ModelCommand::AssignContainer { global_id, container } => CommandView::AssignContainer {
                global_id: *global_id,
                container: *container,
            },
            ModelCommand::SetRepresentation { global_id, representation } => CommandView::SetRepresentation {
                global_id: *global_id,
                representation: match representation {
                    Some(r) => Some(r@),
                    None => None,
                },
            },
            ModelCommand::AssignType { global_id, type_ref } => CommandView::AssignType {
                global_id: *global_id,
                type_ref: *type_ref,
            },
            ModelCommand::AddVoid { host, opening } => CommandView::AddVoid { host: *host, opening: *opening },
            ModelCommand::RemoveVoid { host, opening } => CommandView::RemoveVoid { host: *host, opening: *opening },
            ModelCommand::AddFill { opening, filler } => CommandView::AddFill { opening: *opening, filler: *filler },
            ModelCommand::RemoveFill { opening, filler } => CommandView::RemoveFill {
                opening: *opening,
                filler: *filler,
            },
        }
    }
}

/// A copy of an optional property value.
pub fn clone_value_opt(v: &Option<PropertyValue>) -> (r: Option<PropertyValue>)
    ensures
        r == *v,
{
    match v {
        Some(x) => Some(x.clone()),
        None => None,
    }
}

impl Clone for ModelCommand {
    fn clone(&self) -> (r: Self)
        ensures
            r@ == self@,
    {
        match self {
            ModelCommand::CreateElement { element } => {
                let e: ElementRecord = (**element).clone();
                ModelCommand::CreateElement { element: Box::new(e) }
            },
            ModelCommand::DeleteElement { global_id } => ModelCommand::DeleteElement { global_id: global_id.clone() },
            ModelCommand::SetName { global_id, name } => ModelCommand::SetName {
                global_id: global_id.clone(),
                name: clone_string_opt(name),
            },
            ModelCommand::SetProperty { global_id, set, name, value } => ModelCommand::SetProperty {
                global_id: global_id.clone(),
                set: set.clone(),
                name: name.clone(),
                value: clone_value_opt(value),
            },
            ModelCommand::MoveElement { global_id, delta } => ModelCommand::MoveElement {
                global_id: global_id.clone(),
                delta: *delta,
            },
            ModelCommand::SetPlacement { global_id, placement } => ModelCommand::SetPlacement {
                global_id: global_id.clone(),
                placement: *placement,
            },
            ModelCommand::AssignContainer { global_id, container } => ModelCommand::AssignContainer {
                global_id: global_id.clone(),
                container: clone_id_opt(container),
            },
            ModelCommand::SetRepresentation { global_id, representation } => {
                let r = match representation {
                    Some(x) => {
                        let c: Representation = (**x).clone();
                        Some(Box::new(c))
                    },
                    None => None,
                };
                ModelCommand::SetRepresentation { global_id: global_id.clone(), representation: r }
            },
            ModelCommand::AssignType { global_id, type_ref } => ModelCommand::AssignType {
                global_id: global_id.clone(),
                type_ref: clone_id_opt(type_ref),
            },
            ModelCommand::AddVoid { host, opening } => ModelCommand::AddVoid {
                host: host.clone(),
                opening: opening.clone(),
            },
            ModelCommand::RemoveVoid { host, opening } => ModelCommand::RemoveVoid {
                host: host.clone(),
                opening: opening.clone(),
            },
            ModelCommand::AddFill { opening, filler } => ModelCommand::AddFill {
                opening: opening.clone(),
                filler: filler.clone(),
            },
            ModelCommand::RemoveFill { opening, filler } => ModelCommand::RemoveFill {
                opening: opening.clone(),
                filler: filler.clone(),
            },
        }
    }
}

/// The element a command is about.
pub open spec fn target(c: CommandView) -> GlobalId {
    match c {
        CommandView::CreateElement { element } => element.global_id,
        CommandView::DeleteElement { global_id } => global_id,
        CommandView::SetName { global_id, .. } => global_id,
        CommandView::SetProperty { global_id, .. } => global_id,
        CommandView::MoveElement { global_id, .. } => global_id,
        CommandView::SetPlacement { global_id, .. } => global_id,
        CommandView::AssignContainer { global_id, .. } => global_id,
        CommandView::SetRepresentation { global_id, .. } => global_id,
        CommandView::AssignType { global_id, .. } => global_id,
        CommandView::AddVoid { host, .. } => host,
        CommandView::RemoveVoid { host, .. } => host,
        CommandView::AddFill { opening, .. } => opening,
        CommandView::RemoveFill { opening, .. } => opening,
    }
}

/// Whether a command forces geometry to be rebuilt. Renaming, properties, typing, and
/// containment do not.
pub open spec fn invalidates(c: CommandView) -> bool {
    !(c is SetName || c is SetProperty || c is AssignType || c is AssignContainer)
}

impl ModelCommand {
    /// The element this command is about, for permission checks and change reporting.
    pub fn primary_target(&self) -> (r: &GlobalId)
        ensures
            *r == target(self@),
    {
        match self {
            ModelCommand::CreateElement { element } => &element.global_id,
            ModelCommand::DeleteElement { global_id } => global_id,
            ModelCommand::SetName { global_id, .. } => global_id,
            ModelCommand::SetProperty { global_id, .. } => global_id,
            ModelCommand::MoveElement { global_id, .. } => global_id,
            ModelCommand::SetPlacement { global_id, .. } => global_id,
            ModelCommand::AssignContainer { global_id, .. } => global_id,
            ModelCommand::SetRepresentation { global_id, .. } => global_id,
            ModelCommand::AssignType { global_id, .. } => global_id,
            ModelCommand::AddVoid { host, .. } => host,
            ModelCommand::RemoveVoid { host, .. } => host,
            ModelCommand::AddFill { opening, .. } => opening,
            ModelCommand::RemoveFill { opening, .. } => opening,
        }
    }

    /// Whether applying this command requires geometry to be rebuilt.
    ///
    /// A rename must not invalidate a mesh — that distinction is the whole point of tracking
    /// `semantic_revision` separately from `representation_revision`.
    pub fn invalidates_geometry(&self) -> (r: bool)
        ensures
            r == invalidates(self@),
    {
        match self {
            ModelCommand::SetName { .. } | ModelCommand::SetProperty { .. } | ModelCommand::AssignType { .. }
            | ModelCommand::AssignContainer { .. } => false,
            _ => true,
        }
    }
}

/// A copy of a list of identities.
pub fn clone_ids(v: &Vec<GlobalId>) -> (r: Vec<GlobalId>)
    ensures
        r@ == v@,
{
    let mut r: Vec<GlobalId> = Vec::new();
    let mut i: usize = 0;
    while i < v.len()
        invariant
            i <= v.len(),
            r@ == v@.take(i as int),
        decreases v.len() - i,
    {
        r.push(v[i].clone());
        assert(v@.take(i + 1) =~= v@.take(i as int).push(v@[i as int]));
        i += 1;
    }
    assert(v@.take(v.len() as int) =~= v@);
    r
}

/// What happened when a command was applied.
#[derive(Debug, PartialEq)]
pub struct CommandOutcome {
    /// The revision the model is at after applying.
    pub revision: u64,
    /// The command that undoes this one.
    pub inverse: ModelCommand,
    /// Elements whose state changed.
    pub changed: Vec<GlobalId>,
    /// Elements whose cached geometry is now stale.
    pub geometry_invalidated: Vec<GlobalId>,
}

impl Clone for CommandOutcome {
    fn clone(&self) -> (r: Self)
        ensures
            r.revision == self.revision,
            r.inverse@ == self.inverse@,
            r.changed@ == self.changed@,
            r.geometry_invalidated@ == self.geometry_invalidated@,
    {
        CommandOutcome {
            revision: self.revision,
            inverse: self.inverse.clone(),
            changed: clone_ids(&self.changed),
            geometry_invalidated: clone_ids(&self.geometry_invalidated),
        }
    }
}

/// Why a command was rejected.
///
/// Commands are validated before they mutate anything: a rejected command leaves the model
/// exactly as it was.
#[derive(Debug, PartialEq)]
pub enum CommandError {
    UnknownElement(GlobalId),
    DuplicateElement(GlobalId),
    NotAHost { host: GlobalId, class: String },
    NotAnOpening(GlobalId),
    SelfReference(GlobalId),
    StillReferenced { global_id: GlobalId, relationship: &'static str },
    NoSuchRelationship { relationship: &'static str, a: GlobalId, b: GlobalId },
    RelationshipExists { relationship: &'static str, a: GlobalId, b: GlobalId },
    NotSpatial(GlobalId),
    InvalidRepresentation(GlobalId),
    NothingToUndo,
    NothingToRedo,
}

/// What a [`CommandError`] says, with its texts as character sequences.
pub enum ErrorView {
    UnknownElement(GlobalId),
    DuplicateElement(GlobalId),
    NotAHost { host: GlobalId, class: Seq<char> },
    NotAnOpening(GlobalId),
    SelfReference(GlobalId),
    StillReferenced { global_id: GlobalId, relationship: Seq<char> },
    NoSuchRelationship { relationship: Seq<char>, a: GlobalId, b: GlobalId },
    RelationshipExists { relationship: Seq<char>, a: GlobalId, b: GlobalId },
    NotSpatial(GlobalId),
    InvalidRepresentation(GlobalId),
    NothingToUndo,
    NothingToRedo,
}

impl View for CommandError {
    type V = ErrorView;

    open spec fn view(&self) -> ErrorView {
        match self {
            CommandError::UnknownElement(g) => ErrorView::UnknownElement(*g),
            CommandError::DuplicateElement(g) => ErrorView::DuplicateElement(*g),
            CommandError::NotAHost { host, class } => ErrorView::NotAHost { host: *host, class: class@ },
            CommandError::NotAnOpening(g) => ErrorView::NotAnOpening(*g),
            CommandError::SelfReference(g) => ErrorView::SelfReference(*g),
            CommandError::StillReferenced { global_id, relationship } => ErrorView::StillReferenced {
                global_id: *global_id,
                relationship: relationship@,
            },
            CommandError::NoSuchRelationship { relationship, a, b } => ErrorView::NoSuchRelationship {
                relationship: relationship@,
                a: *a,
                b: *b,
            },
            CommandError::RelationshipExists { relationship, a, b } => ErrorView::RelationshipExists {
                relationship: relationship@,
                a: *a,
                b: *b,
            },
            CommandError::NotSpatial(g) => ErrorView::NotSpatial(*g),
            CommandError::InvalidRepresentation(g) => ErrorView::InvalidRepresentation(*g),
            CommandError::NothingToUndo => ErrorView::NothingToUndo,
            CommandError::NothingToRedo => ErrorView::NothingToRedo,
        }
    }
}

impl Clone for CommandError {
    fn clone(&self) -> (r: Self)
        ensures
            r == *self,
    {
        match self {
            CommandError::UnknownElement(g) => CommandError::UnknownElement(g.clone()),
            CommandError::DuplicateElement(g) => CommandError::DuplicateElement(g.clone()),
            CommandError::NotAHost { host, class } => CommandError::NotAHost { host: host.clone(), class: class.clone() },
            CommandError::NotAnOpening(g) => CommandError::NotAnOpening(g.clone()),
            CommandError::SelfReference(g) => CommandError::SelfReference(g.clone()),
            CommandError::StillReferenced { global_id, relationship } => CommandError::StillReferenced {
                global_id: global_id.clone(),
                relationship: *relationship,
            },
            CommandError::NoSuchRelationship { relationship, a, b } => CommandError::NoSuchRelationship {
                relationship: *relationship,
                a: a.clone(),
                b: b.clone(),
            },
            CommandError::RelationshipExists { relationship, a, b } => CommandError::RelationshipExists {
                relationship: *relationship,
                a: a.clone(),
                b: b.clone(),
            },
            CommandError::NotSpatial(g) => CommandError::NotSpatial(g.clone()),
            CommandError::InvalidRepresentation(g) => CommandError::InvalidRepresentation(g.clone()),
            CommandError::NothingToUndo => CommandError::NothingToUndo,
            CommandError::NothingToRedo => CommandError::NothingToRedo,
        }
    }
}

}
