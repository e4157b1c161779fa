use cadforge::command::{CommandError, ModelCommand};
use cadforge::element::{ElementRecord, IfcClass, Placement};
use cadforge::id::{GlobalId, GlobalIdError};
use cadforge::model::Model;
use cadforge::property::{PropertySets, PropertyValue};
use cadforge::representation::Representation;

fn v3(x: f64, y: f64, z: f64) -> [u64; 3] {
    [x.to_bits(), y.to_bits(), z.to_bits()]
}

fn square() -> Vec<[u64; 2]> {
    [[0.0, 0.0], [1.0, 0.0], [1.0, 1.0], [0.0, 1.0]]
        .iter()
        .map(|p: &[f64; 2]| [p[0].to_bits(), p[1].to_bits()])
        .collect()
}

fn profile(points: &[[f64; 2]]) -> Vec<[u64; 2]> {
    points.iter().map(|p| [p[0].to_bits(), p[1].to_bits()]).collect()
}

// ---- element ---------------------------------------------------------------------------

#[test]
fn infrastructure_spatial_parts_count_as_containers() {
    assert!(IfcClass::Other("IfcRoadPart".into()).is_spatial());
    assert!(IfcClass::Other("IFCBRIDGEPART".into()).is_spatial());
    assert!(IfcClass::Other("IfcFacilityPart".into()).is_spatial());
    assert!(IfcClass::Space.is_spatial());

    assert!(!IfcClass::Other("IfcSpaceHeater".into()).is_spatial());
    assert!(!IfcClass::Other("IfcPipeSegment".into()).is_spatial());
    assert!(!IfcClass::Wall.is_spatial());
}

#[test]
fn the_structure_spine_is_narrower_than_spatial() {
    for class in [
        IfcClass::Project,
        IfcClass::Site,
        IfcClass::Building,
        IfcClass::BuildingStorey,
    ] {
        assert!(class.is_structure_spine() && class.is_spatial());
    }
    assert!(IfcClass::Space.is_spatial());
    assert!(!IfcClass::Space.is_structure_spine());
    assert!(!IfcClass::Other("IfcRoadPart".into()).is_structure_spine());
}

#[test]
fn unknown_classes_keep_their_name() {
    let c = IfcClass::Other("IfcDistributionElement".into());
    assert_eq!(c.ifc_name(), "IfcDistributionElement");
    assert!(!c.can_host_openings());
    assert!(IfcClass::Wall.can_host_openings());
    assert!(IfcClass::BuildingStorey.is_spatial());
}

#[test]
fn class_names_follow_the_ifc_entity_names() {
    assert_eq!(IfcClass::BuildingStorey.ifc_name(), "IfcBuildingStorey");
    assert_eq!(IfcClass::OpeningElement.ifc_name(), "IfcOpeningElement");
    assert!(IfcClass::Other("IfcWall".into()).same_as(&IfcClass::Other("IfcWall".into())));
    assert!(!IfcClass::Other("IfcWall".into()).same_as(&IfcClass::Wall));
    assert!(IfcClass::Door.same_as(&IfcClass::Door));
}

#[test]
fn spatial_entities_are_matched_without_regard_to_case() {
    assert!(cadforge::element::is_spatial_entity("ifcspatialzone"));
    assert!(cadforge::element::is_spatial_entity("IfcTunnelPart"));
    assert!(!cadforge::element::is_spatial_entity("IfcSpatialZoneType"));
    assert!(!cadforge::element::is_spatial_entity(""));
}

#[test]
fn placement_identity_and_translation() {
    let p = Placement::identity();
    assert_eq!(p.location, v3(0.0, 0.0, 0.0));
    assert_eq!(p.axis, v3(0.0, 0.0, 1.0));
    assert_eq!(p.ref_direction, v3(1.0, 0.0, 0.0));
    assert_eq!(Placement::default(), p);

    let at = Placement::at(v3(1.0, 2.0, 3.0));
    assert_eq!(at.location, v3(1.0, 2.0, 3.0));
    assert_eq!(at.axis, p.axis);

    let moved = at.translated(v3(0.5, -2.0, 0.25));
    assert_eq!(moved.location, v3(1.5, 0.0, 3.25));
    assert_eq!(moved.axis, at.axis);
    assert_eq!(moved.ref_direction, at.ref_direction);
}

#[test]
fn a_new_record_starts_bare() {
    let id = GlobalId::new();
    let e = ElementRecord::new(id.clone(), IfcClass::Wall);
    assert_eq!(e.global_id, id);
    assert_eq!(e.name, None);
    assert_eq!(e.placement, Placement::identity());
    assert!(e.properties.is_empty());
    assert_eq!(e.representation_revision, 0);
    assert_eq!(e.semantic_revision, 0);

    let storey = GlobalId::new();
    let e = e.with_name("W-01").with_container(storey.clone());
    assert_eq!(e.name.as_deref(), Some("W-01"));
    assert_eq!(e.container, Some(storey));
}

// ---- identities ------------------------------------------------------------------------

#[test]
fn parses_what_it_generates() {
    let id = GlobalId::new();
    assert_eq!(GlobalId::parse(id.as_str()), Ok(id));
}

#[test]
fn rejects_malformed_ids() {
    assert_eq!(
        GlobalId::parse("too-short"),
        Err(GlobalIdError::WrongLength(9))
    );
    assert_eq!(
        GlobalId::parse("0*00000000000000000000"),
        Err(GlobalIdError::InvalidChar('*'))
    );
    assert_eq!(
        GlobalId::parse("9000000000000000000000"),
        Err(GlobalIdError::Overflow('9'))
    );
}

#[test]
fn round_trips_through_uuid() {
    for _ in 0..1000 {
        let uuid = uuid::Uuid::new_v4();
        let id = GlobalId::from_uuid(uuid);
        assert_eq!(id.as_str().len(), 22);
        assert_eq!(id.to_uuid(), uuid, "round trip failed for {uuid}");
    }
}

#[test]
fn derived_ids_are_stable_and_valid() {
    let a = GlobalId::from_bytes([7; 16]);
    let b = GlobalId::from_bytes([7; 16]);
    assert_eq!(a, b, "the same bytes must always give the same identity");
    assert!(GlobalId::parse(a.as_str()).is_ok());
    assert_ne!(a, GlobalId::from_bytes([8; 16]));
    for lead in [0u8, 1, 63, 64, 191, 255] {
        let mut bytes = [0u8; 16];
        bytes[0] = lead;
        let id = GlobalId::from_bytes(bytes);
        assert!(
            GlobalId::parse(id.as_str()).is_ok(),
            "leading byte {lead} failed"
        );
    }
}

#[test]
fn ids_are_unique_enough_to_key_a_model() {
    let ids: std::collections::BTreeSet<_> = (0..10_000).map(|_| GlobalId::new()).collect();
    assert_eq!(ids.len(), 10_000);
}

#[test]
fn boundary_uuids_survive() {
    for uuid in [uuid::Uuid::nil(), uuid::Uuid::from_bytes([0xff; 16])] {
        assert_eq!(GlobalId::from_uuid(uuid).to_uuid(), uuid);
    }
}

#[test]
fn the_encoding_is_exact_on_known_bytes() {
    assert_eq!(GlobalId::from_bytes([0; 16]).as_str(), "0000000000000000000000");
    assert_eq!(GlobalId::from_bytes([0xff; 16]).as_str(), "3$$$$$$$$$$$$$$$$$$$$$");
    assert_eq!(GlobalId::from_bytes([0xff; 16]).to_bytes(), [0xff; 16]);
    let bytes = [1, 2, 3, 4, 5, 6, 7, 8, 9, 10, 11, 12, 13, 14, 15, 16];
    assert_eq!(GlobalId::from_bytes(bytes).to_bytes(), bytes);
}

// ---- properties ------------------------------------------------------------------------

#[test]
fn set_then_unset_leaves_no_trace() {
    let mut p = PropertySets::new();
    assert!(p
        .set("Pset_WallCommon", "IsExternal", Some(PropertyValue::Boolean(true)))
        .is_none());
    assert_eq!(
        p.get("Pset_WallCommon", "IsExternal"),
        Some(&PropertyValue::Boolean(true))
    );
    let previous = p.set("Pset_WallCommon", "IsExternal", None);
    assert_eq!(previous, Some(PropertyValue::Boolean(true)));
    assert_eq!(p, PropertySets::new());
}

#[test]
fn set_returns_the_previous_value_for_inversion() {
    let mut p = PropertySets::new();
    p.set("Pset_WallCommon", "FireRating", Some(PropertyValue::Text("60".into())));
    let previous = p.set("Pset_WallCommon", "FireRating", Some(PropertyValue::Text("90".into())));
    assert_eq!(previous, Some(PropertyValue::Text("60".into())));
}

#[test]
fn measures_keep_their_ifc_type() {
    assert_eq!(PropertyValue::Length(2.4f64.to_bits()).ifc_type(), "IfcLengthMeasure");
    assert_eq!(PropertyValue::Real(2.4f64.to_bits()).ifc_type(), "IfcReal");
    assert_ne!(PropertyValue::Length(2.4f64.to_bits()), PropertyValue::Real(2.4f64.to_bits()));
    assert_eq!(PropertyValue::Count(3).ifc_type(), "IfcCountMeasure");
    assert_eq!(PropertyValue::Length(2.4f64.to_bits()).as_f64(), Some(2.4f64.to_bits()));
    assert_eq!(PropertyValue::Text("x".into()).as_f64(), None);
    assert_eq!(PropertyValue::Count(3).as_f64(), Some(3.0f64.to_bits()));
}

#[test]
fn a_fresh_model_can_take_a_command() {
    let model = Model::new();
    assert!(model.can_apply());
}

#[test]
fn ordering_is_stable_for_reproducible_export() {
    let mut a = PropertySets::new();
    a.set("B", "two", Some(PropertyValue::Integer(2)));
    a.set("A", "one", Some(PropertyValue::Integer(1)));

    let mut b = PropertySets::new();
    b.set("A", "one", Some(PropertyValue::Integer(1)));
    b.set("B", "two", Some(PropertyValue::Integer(2)));

    assert_eq!(a.set_names(), ["A", "B"]);
    assert_eq!(a, b, "insertion order must not affect the model");
}

#[test]
fn clearing_one_property_keeps_the_rest_of_its_set() {
    let mut p = PropertySets::new();
    p.set("Pset_WallCommon", "IsExternal", Some(PropertyValue::Boolean(true)));
    p.set("Pset_WallCommon", "FireRating", Some(PropertyValue::Text("60".into())));
    assert_eq!(p.len(), 2);
    assert_eq!(p.set("Pset_WallCommon", "IsExternal", None), Some(PropertyValue::Boolean(true)));
    assert_eq!(p.len(), 1);
    assert_eq!(p.set_names(), ["Pset_WallCommon"]);
    assert_eq!(p.set("Pset_Missing", "Nothing", None), None);
    assert_eq!(p.iter().len(), 1);
}

// ---- representation --------------------------------------------------------------------

#[test]
fn a_negative_depth_is_folded_into_the_direction() {
    let r = Representation::extrusion(square(), v3(0.0, 0.0, 1.0), (-3.0f64).to_bits());
    let Representation::ExtrudedAreaSolid { direction, depth, .. } = &r else {
        panic!("expected a swept solid");
    };
    assert_eq!(direction.map(f64::from_bits), [0.0, 0.0, -1.0]);
    assert_eq!(f64::from_bits(*depth), 3.0);
    assert!(r.is_valid());
}

#[test]
fn a_positive_depth_is_left_alone() {
    let r = Representation::extrusion(square(), v3(0.0, 0.0, 1.0), 3.0f64.to_bits());
    assert_eq!(
        r,
        Representation::ExtrudedAreaSolid {
            profile: square(),
            direction: v3(0.0, 0.0, 1.0),
            depth: 3.0f64.to_bits(),
        }
    );
}

#[test]
fn parametric_and_tessellated_map_to_different_ifc() {
    let swept = Representation::extrusion(square(), v3(0.0, 0.0, 1.0), 1.0f64.to_bits());
    assert!(swept.is_native_parametric());
    assert_eq!(swept.ifc_representation_type(), "SweptSolid");
    assert_eq!(swept.ifc_item(), "IfcExtrudedAreaSolid");

    let mesh = Representation::TriangulatedFaceSet {
        vertices: vec![v3(0.0, 0.0, 0.0), v3(1.0, 0.0, 0.0), v3(0.0, 1.0, 0.0)],
        faces: vec![[0, 1, 2]],
    };
    assert!(!mesh.is_native_parametric());
    assert_eq!(mesh.ifc_representation_type(), "Tessellation");
    assert_eq!(mesh.ifc_item(), "IfcTriangulatedFaceSet");
    assert!(mesh.is_valid());
}

#[test]
fn malformed_geometry_is_caught_before_it_reaches_a_file() {
    assert!(!Representation::extrusion(profile(&[[0.0, 0.0], [1.0, 0.0]]), v3(0.0, 0.0, 1.0), 1.0f64.to_bits())
        .is_valid());
    assert!(!Representation::extrusion(square(), v3(0.0, 0.0, 0.0), 1.0f64.to_bits()).is_valid());
    assert!(!Representation::extrusion(square(), v3(0.0, 0.0, 1.0), 0.0f64.to_bits()).is_valid());
    assert!(!Representation::extrusion(square(), v3(0.0, 0.0, 1.0), f64::NAN.to_bits()).is_valid());
    assert!(!Representation::ExtrudedAreaSolid {
        profile: profile(&[[0.0, 0.0], [1.0, 0.0], [f64::INFINITY, 1.0]]),
        direction: v3(0.0, 0.0, 1.0),
        depth: 1.0f64.to_bits(),
    }
    .is_valid());
}

#[test]
fn an_out_of_range_face_index_is_invalid() {
    assert!(!Representation::TriangulatedFaceSet {
        vertices: vec![v3(0.0, 0.0, 0.0), v3(1.0, 0.0, 0.0), v3(0.0, 1.0, 0.0)],
        faces: vec![[0, 1, 7]],
    }
    .is_valid());
    assert!(!Representation::TriangulatedFaceSet {
        vertices: Vec::new(),
        faces: vec![[0, 1, 2]],
    }
    .is_valid());
}

// ---- model ------------------------------------------------------------------------------

fn element(class: IfcClass) -> ElementRecord {
    ElementRecord::new(GlobalId::new(), class)
}

fn create(element: ElementRecord) -> ModelCommand {
    ModelCommand::CreateElement {
        element: Box::new(element),
    }
}

fn wall_with_door() -> (Model, GlobalId, GlobalId, GlobalId, GlobalId) {
    let mut m = Model::new();
    let storey = element(IfcClass::BuildingStorey);
    let wall = element(IfcClass::Wall);
    let opening = element(IfcClass::OpeningElement);
    let door = element(IfcClass::Door);
    let (s, w, o, d) = (
        storey.global_id.clone(),
        wall.global_id.clone(),
        opening.global_id.clone(),
        door.global_id.clone(),
    );
    m.apply(create(storey)).unwrap();
    m.apply(create(wall.with_container(s.clone()))).unwrap();
    m.apply(create(opening)).unwrap();
    m.apply(create(door)).unwrap();
    m.apply(ModelCommand::AddVoid { host: w.clone(), opening: o.clone() }).unwrap();
    m.apply(ModelCommand::AddFill { opening: o.clone(), filler: d.clone() }).unwrap();
    (m, s, w, o, d)
}

#[test]
fn create_assigns_a_revision_and_is_queryable() {
    let mut m = Model::new();
    let e = element(IfcClass::Wall);
    let id = e.global_id.clone();
    let outcome = m.apply(create(e)).unwrap();
    assert_eq!(outcome.revision, 1);
    assert_eq!(outcome.changed, vec![id.clone()]);
    assert_eq!(outcome.geometry_invalidated, vec![id.clone()]);
    assert!(m.contains(&id));
    assert_eq!(m.len(), 1);
}

#[test]
fn duplicate_create_is_rejected_without_mutating() {
    let mut m = Model::new();
    let e = element(IfcClass::Wall);
    m.apply(create(e.clone())).unwrap();
    let revision = m.revision();
    assert!(matches!(m.apply(create(e)), Err(CommandError::DuplicateElement(_))));
    assert_eq!(m.revision(), revision, "a rejected command must not advance the revision");
    assert_eq!(m.len(), 1);
}

#[test]
fn every_command_inverts_exactly() {
    let (mut m, _s, w, o, d) = wall_with_door();
    let baseline = m.clone();

    let commands = vec![
        ModelCommand::SetName { global_id: w.clone(), name: Some("Exterior wall".into()) },
        ModelCommand::SetProperty {
            global_id: w.clone(),
            set: "Pset_WallCommon".into(),
            name: "IsExternal".into(),
            value: Some(PropertyValue::Boolean(true)),
        },
        ModelCommand::MoveElement { global_id: w.clone(), delta: v3(1.5, -2.0, 0.25) },
        ModelCommand::SetPlacement { global_id: d.clone(), placement: Placement::at(v3(3.0, 0.0, 0.0)) },
        ModelCommand::RemoveFill { opening: o.clone(), filler: d.clone() },
        ModelCommand::AssignType { global_id: d.clone(), type_ref: Some(GlobalId::new()) },
        ModelCommand::SetRepresentation {
            global_id: w.clone(),
            representation: Some(Box::new(Representation::extrusion(
                profile(&[[0.0, 0.0], [4.0, 0.0], [4.0, 0.2], [0.0, 0.2]]),
                v3(0.0, 0.0, 1.0),
                3.0f64.to_bits(),
            ))),
        },
    ];
    let count = commands.len();
    m.apply_all(commands).unwrap();

    assert_ne!(m.get(&w).unwrap().name, baseline.get(&w).unwrap().name, "the batch must actually change something");

    for _ in 0..count {
        m.undo().unwrap();
    }

    assert_eq!(m.len(), baseline.len());
    for element in baseline.iter() {
        let restored = m.get(&element.global_id).expect("element restored");
        assert_eq!(restored.name, element.name);
        assert_eq!(restored.placement, element.placement);
        assert_eq!(restored.properties, element.properties);
        assert_eq!(restored.representation, element.representation);
        assert_eq!(restored.container, element.container);
        assert_eq!(restored.type_ref, element.type_ref);
    }
    assert_eq!(m.voids(), baseline.voids());
    assert_eq!(m.fills(), baseline.fills());
}

#[test]
fn undo_then_redo_returns_to_the_edited_state() {
    let mut m = Model::new();
    let e = element(IfcClass::Wall);
    let id = e.global_id.clone();
    m.apply(create(e)).unwrap();
    m.apply(ModelCommand::SetName { global_id: id.clone(), name: Some("W-01".into()) }).unwrap();

    m.undo().unwrap();
    assert_eq!(m.get(&id).unwrap().name, None);
    assert!(m.can_redo());

    m.redo().unwrap();
    assert_eq!(m.get(&id).unwrap().name.as_deref(), Some("W-01"));
}

#[test]
fn a_new_command_clears_the_redo_stack() {
    let mut m = Model::new();
    let e = element(IfcClass::Wall);
    let id = e.global_id.clone();
    m.apply(create(e)).unwrap();
    m.apply(ModelCommand::SetName { global_id: id.clone(), name: Some("W-01".into()) }).unwrap();
    m.undo().unwrap();
    assert!(m.can_redo());

    m.apply(ModelCommand::SetName { global_id: id, name: Some("W-02".into()) }).unwrap();
    assert!(!m.can_redo(), "branching history must discard the abandoned future");
}

#[test]
fn undo_on_an_empty_stack_is_an_error_not_a_panic() {
    let mut m = Model::new();
    assert_eq!(m.undo(), Err(CommandError::NothingToUndo));
    assert_eq!(m.redo(), Err(CommandError::NothingToRedo));
}

#[test]
fn renaming_does_not_invalidate_geometry() {
    let mut m = Model::new();
    let e = element(IfcClass::Wall);
    let id = e.global_id.clone();
    m.apply(create(e)).unwrap();
    let representation = m.get(&id).unwrap().representation_revision;

    let outcome = m.apply(ModelCommand::SetName { global_id: id.clone(), name: Some("W-01".into()) }).unwrap();
    assert!(outcome.geometry_invalidated.is_empty());
    assert_eq!(m.get(&id).unwrap().representation_revision, representation);
    assert_eq!(m.get(&id).unwrap().semantic_revision, 1);
}

#[test]
fn moving_invalidates_geometry() {
    let mut m = Model::new();
    let e = element(IfcClass::Wall);
    let id = e.global_id.clone();
    m.apply(create(e)).unwrap();

    let outcome = m.apply(ModelCommand::MoveElement { global_id: id.clone(), delta: v3(1.0, 0.0, 0.0) }).unwrap();
    assert_eq!(outcome.geometry_invalidated, vec![id.clone()]);
    assert_eq!(m.get(&id).unwrap().semantic_revision, 0);
    assert!(m.get(&id).unwrap().representation_revision > 0);
    assert_eq!(m.get(&id).unwrap().placement.location, v3(1.0, 0.0, 0.0));
}

#[test]
fn only_hosts_take_openings_and_only_openings_are_taken() {
    let mut m = Model::new();
    let furniture = element(IfcClass::Furniture);
    let wall = element(IfcClass::Wall);
    let opening = element(IfcClass::OpeningElement);
    let (f, w, o) = (furniture.global_id.clone(), wall.global_id.clone(), opening.global_id.clone());
    m.apply_all(vec![create(furniture), create(wall), create(opening)]).unwrap();

    assert!(matches!(
        m.apply(ModelCommand::AddVoid { host: f, opening: o.clone() }),
        Err(CommandError::NotAHost { .. })
    ));
    assert!(matches!(
        m.apply(ModelCommand::AddVoid { host: w.clone(), opening: w.clone() }),
        Err(CommandError::SelfReference(_))
    ));
    m.apply(ModelCommand::AddVoid { host: w.clone(), opening: o.clone() }).unwrap();
    assert!(matches!(
        m.apply(ModelCommand::AddVoid { host: w, opening: o }),
        Err(CommandError::RelationshipExists { .. })
    ));
}

#[test]
fn a_host_refusal_names_the_class() {
    let mut m = Model::new();
    let furniture = element(IfcClass::Furniture);
    let opening = element(IfcClass::OpeningElement);
    let (f, o) = (furniture.global_id.clone(), opening.global_id.clone());
    m.apply_all(vec![create(furniture), create(opening)]).unwrap();
    assert_eq!(
        m.apply(ModelCommand::AddVoid { host: f.clone(), opening: o }),
        Err(CommandError::NotAHost { host: f, class: "IfcFurniture".into() })
    );
}

#[test]
fn deleting_a_referenced_element_is_refused() {
    let (mut m, storey, wall, opening, _door) = wall_with_door();

    assert!(matches!(
        m.apply(ModelCommand::DeleteElement { global_id: wall.clone() }),
        Err(CommandError::StillReferenced { .. })
    ));
    assert!(matches!(
        m.apply(ModelCommand::DeleteElement { global_id: storey }),
        Err(CommandError::StillReferenced { .. })
    ));

    let door = m.fills_of(&opening)[0].clone();
    m.apply(ModelCommand::RemoveFill { opening: opening.clone(), filler: door }).unwrap();
    m.apply(ModelCommand::RemoveVoid { host: wall.clone(), opening }).unwrap();
    m.apply(ModelCommand::AssignContainer { global_id: wall.clone(), container: None }).unwrap();
    m.apply(ModelCommand::DeleteElement { global_id: wall.clone() }).unwrap();
    assert!(!m.contains(&wall));
}

#[test]
fn the_first_refusing_relationship_is_named() {
    let (mut m, storey, wall, _opening, _door) = wall_with_door();
    assert_eq!(
        m.apply(ModelCommand::DeleteElement { global_id: wall.clone() }),
        Err(CommandError::StillReferenced { global_id: wall, relationship: "IfcRelVoidsElement" })
    );
    assert_eq!(
        m.apply(ModelCommand::DeleteElement { global_id: storey.clone() }),
        Err(CommandError::StillReferenced {
            global_id: storey,
            relationship: "IfcRelContainedInSpatialStructure"
        })
    );
}

#[test]
fn containers_must_be_spatial() {
    let mut m = Model::new();
    let wall = element(IfcClass::Wall);
    let door = element(IfcClass::Door);
    let (w, d) = (wall.global_id.clone(), door.global_id.clone());
    m.apply_all(vec![create(wall), create(door)]).unwrap();

    assert!(matches!(
        m.apply(ModelCommand::AssignContainer { global_id: d, container: Some(w.clone()) }),
        Err(CommandError::NotSpatial(_))
    ));
    assert!(matches!(
        m.apply(ModelCommand::AssignContainer { global_id: w.clone(), container: Some(w) }),
        Err(CommandError::SelfReference(_))
    ));
}

#[test]
fn relationships_are_navigable_in_both_directions() {
    let (m, s, wall, opening, door) = wall_with_door();
    assert_eq!(m.openings_of(&wall), vec![&opening]);
    assert_eq!(m.host_of(&opening), Some(&wall));
    assert_eq!(m.fills_of(&opening), vec![&door]);
    assert_eq!(m.contained_in(&s).len(), 1);
    assert_eq!(m.by_class(&IfcClass::Door).len(), 1);
    assert_eq!(m.voids(), vec![(&wall, &opening)]);
    assert_eq!(m.fills(), vec![(&opening, &door)]);
}

#[test]
fn a_malformed_representation_is_refused_before_it_reaches_the_model() {
    let mut m = Model::new();
    let e = element(IfcClass::Wall);
    let id = e.global_id.clone();
    m.apply(create(e)).unwrap();
    let revision = m.revision();

    let result = m.apply(ModelCommand::SetRepresentation {
        global_id: id.clone(),
        representation: Some(Box::new(Representation::extrusion(
            profile(&[[0.0, 0.0], [1.0, 0.0]]),
            v3(0.0, 0.0, 1.0),
            3.0f64.to_bits(),
        ))),
    });
    assert!(matches!(result, Err(CommandError::InvalidRepresentation(_))));
    assert_eq!(m.revision(), revision);
    assert!(m.get(&id).unwrap().representation.is_none());
}

#[test]
fn setting_a_representation_invalidates_geometry_not_semantics() {
    let mut m = Model::new();
    let e = element(IfcClass::Wall);
    let id = e.global_id.clone();
    m.apply(create(e)).unwrap();

    let outcome = m
        .apply(ModelCommand::SetRepresentation {
            global_id: id.clone(),
            representation: Some(Box::new(Representation::extrusion(
                profile(&[[0.0, 0.0], [4.0, 0.0], [4.0, 0.2], [0.0, 0.2]]),
                v3(0.0, 0.0, 1.0),
                3.0f64.to_bits(),
            ))),
        })
        .unwrap();
    assert_eq!(outcome.geometry_invalidated, vec![id.clone()]);
    assert_eq!(m.get(&id).unwrap().semantic_revision, 0);
    assert!(m.get(&id).unwrap().representation.as_ref().unwrap().is_native_parametric());
}

#[test]
fn history_records_every_mutation() {
    let (m, ..) = wall_with_door();
    assert_eq!(m.history().len(), 6);
    assert_eq!(m.revision(), 6);
    assert_eq!(m.history()[0].number, 1);
}

#[test]
fn a_batch_stops_at_the_first_refusal_and_keeps_what_went_before() {
    let mut m = Model::new();
    let wall = element(IfcClass::Wall);
    let w = wall.global_id.clone();
    let result = m.apply_all(vec![
        create(wall),
        ModelCommand::SetName { global_id: GlobalId::new(), name: None },
        ModelCommand::SetName { global_id: w.clone(), name: Some("never".into()) },
    ]);
    assert!(matches!(result, Err(CommandError::UnknownElement(_))));
    assert_eq!(m.revision(), 1);
    assert!(m.contains(&w));
    assert_eq!(m.get(&w).unwrap().name, None);
}

#[test]
fn a_delete_undone_restores_the_whole_record() {
    let mut m = Model::new();
    let mut e = element(IfcClass::Column);
    e.properties.set("Pset_ColumnCommon", "LoadBearing", Some(PropertyValue::Boolean(true)));
    let id = e.global_id.clone();
    m.apply(create(e)).unwrap();
    m.apply(ModelCommand::SetName { global_id: id.clone(), name: Some("C-1".into()) }).unwrap();
    let before = m.get(&id).unwrap().clone();

    let outcome = m.apply(ModelCommand::DeleteElement { global_id: id.clone() }).unwrap();
    assert!(matches!(outcome.inverse, ModelCommand::CreateElement { .. }));
    assert!(!m.contains(&id));
    m.undo().unwrap();
    assert_eq!(m.get(&id).unwrap(), &before);
}

#[test]
fn bounds_are_a_cache_not_a_command() {
    let mut m = Model::new();
    let e = element(IfcClass::Wall);
    let id = e.global_id.clone();
    m.apply(create(e)).unwrap();
    let bounds = cadforge::element::BoundingBox { min: v3(0.0, 0.0, 0.0), max: v3(1.0, 1.0, 1.0) };
    assert!(m.set_bounds(&id, Some(bounds)));
    assert_eq!(m.get(&id).unwrap().bounds, Some(bounds));
    assert_eq!(m.revision(), 1);
    assert!(!m.set_bounds(&GlobalId::new(), None));
}

#[test]
fn the_primary_target_and_geometry_flags_follow_the_command() {
    let w = GlobalId::new();
    let o = GlobalId::new();
    let add = ModelCommand::AddFill { opening: o.clone(), filler: w.clone() };
    assert_eq!(add.primary_target(), &o);
    assert!(add.invalidates_geometry());
    let rename = ModelCommand::SetName { global_id: w.clone(), name: None };
    assert_eq!(rename.primary_target(), &w);
    assert!(!rename.invalidates_geometry());
    assert!(!ModelCommand::AssignType { global_id: w.clone(), type_ref: None }.invalidates_geometry());
}
