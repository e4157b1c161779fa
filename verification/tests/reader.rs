use cadforge::backend::ImportReport;
use cadforge::command::ModelCommand;
use cadforge::element::{ElementRecord, IfcClass, Placement};
use cadforge::id::GlobalId;
use cadforge::import::PlacementMath;
use cadforge::model::Model;
use cadforge::property::PropertyValue;
use cadforge::reader::IfcLiteBackend;
use cadforge::representation::Representation;
use cadforge::schema::IfcSchema;
use cadforge::spf::{ExportContext, SpfBackend};
use glam::{DMat4, DVec3};

fn vec3(bits: [u64; 3]) -> DVec3 {
    DVec3::new(f64::from_bits(bits[0]), f64::from_bits(bits[1]), f64::from_bits(bits[2]))
}

fn bits3(v: DVec3) -> [u64; 3] {
    [v.x.to_bits(), v.y.to_bits(), v.z.to_bits()]
}

fn v3(x: f64, y: f64, z: f64) -> [u64; 3] {
    [x.to_bits(), y.to_bits(), z.to_bits()]
}

fn profile(points: &[[f64; 2]]) -> Vec<[u64; 2]> {
    points.iter().map(|p| [p[0].to_bits(), p[1].to_bits()]).collect()
}

/// Placement arithmetic in `f64`, as the application does it.
struct Glam;

fn orthonormal(location: DVec3, axis: DVec3, reference: DVec3) -> (DVec3, DVec3, DVec3) {
    let z = axis.try_normalize().unwrap_or(DVec3::Z);
    let x = (reference - z * z.dot(reference)).try_normalize().unwrap_or_else(|| {
        let candidate = if z.x.abs() < 0.9 { DVec3::X } else { DVec3::Y };
        (candidate - z * z.dot(candidate)).try_normalize().unwrap_or(DVec3::X)
    });
    (location, z, x)
}

impl PlacementMath for Glam {
    fn frame(&self, location: [u64; 3], axis: [u64; 3], reference: [u64; 3]) -> [u64; 16] {
        let (l, z, x) = orthonormal(vec3(location), vec3(axis), vec3(reference));
        let y = z.cross(x);
        let m = DMat4::from_cols(x.extend(0.0), y.extend(0.0), z.extend(0.0), l.extend(1.0));
        m.to_cols_array().map(f64::to_bits)
    }

    fn placement_of(&self, matrix: [u64; 16]) -> Placement {
        let m = DMat4::from_cols_array(&matrix.map(f64::from_bits));
        let (l, z, x) = orthonormal(m.w_axis.truncate(), m.z_axis.truncate(), m.x_axis.truncate());
        Placement { location: bits3(l), axis: bits3(z), ref_direction: bits3(x) }
    }

    fn half(&self, x: u64) -> u64 {
        (f64::from_bits(x) * 0.5).to_bits()
    }
}

/// Storey, wall with a swept solid, opening, door — plus a property set.
fn authored_model() -> (Model, GlobalId, GlobalId) {
    let mut model = Model::new();
    let storey = ElementRecord::new(GlobalId::new(), IfcClass::BuildingStorey).with_name("Level 00");
    let storey_id = storey.global_id.clone();

    let wall = ElementRecord::new(GlobalId::new(), IfcClass::Wall)
        .with_name("W-01")
        .with_container(storey_id.clone())
        .with_placement(Placement::at(v3(2.0, 1.0, 0.0)))
        .with_representation(Representation::extrusion(
            profile(&[[0.0, 0.0], [4.0, 0.0], [4.0, 0.2], [0.0, 0.2]]),
            v3(0.0, 0.0, 1.0),
            3.0f64.to_bits(),
        ));
    let wall_id = wall.global_id.clone();

    let opening = ElementRecord::new(GlobalId::new(), IfcClass::OpeningElement)
        .with_container(storey_id.clone())
        .with_representation(Representation::extrusion(
            profile(&[[0.0, 0.0], [0.92, 0.0], [0.92, 0.3], [0.0, 0.3]]),
            v3(0.0, 0.0, 1.0),
            2.12f64.to_bits(),
        ));
    let opening_id = opening.global_id.clone();

    let door = ElementRecord::new(GlobalId::new(), IfcClass::Door)
        .with_name("Single Flush Door")
        .with_container(storey_id.clone())
        .with_representation(Representation::TriangulatedFaceSet {
            vertices: vec![v3(0.0, 0.0, 0.0), v3(0.9, 0.0, 0.0), v3(0.9, 0.0, 2.1)],
            faces: vec![[0, 1, 2]],
        });
    let door_id = door.global_id.clone();

    model
        .apply_all(vec![
            ModelCommand::CreateElement { element: Box::new(storey) },
            ModelCommand::CreateElement { element: Box::new(wall) },
            ModelCommand::CreateElement { element: Box::new(opening) },
            ModelCommand::CreateElement { element: Box::new(door) },
            ModelCommand::AddVoid { host: wall_id.clone(), opening: opening_id.clone() },
            ModelCommand::AddFill { opening: opening_id, filler: door_id },
            ModelCommand::SetProperty {
                global_id: wall_id.clone(),
                set: "Pset_WallCommon".into(),
                name: "IsExternal".into(),
                value: Some(PropertyValue::Boolean(true)),
            },
            ModelCommand::SetProperty {
                global_id: wall_id.clone(),
                set: "Pset_WallCommon".into(),
                name: "FireRating".into(),
                value: Some(PropertyValue::Text("60/60".into())),
            },
        ])
        .unwrap();

    (model, storey_id, wall_id)
}

fn round_trip(model: &Model) -> (Model, ImportReport) {
    let bytes = SpfBackend::new(ExportContext::named("round trip").at("2026-08-27T09:00:00"))
        .write(model, IfcSchema::Ifc4)
        .expect("export succeeds");
    let mut imported = Model::new();
    let report = IfcLiteBackend::new().read(&bytes, &mut imported, &Glam).expect("import succeeds");
    (imported, report)
}

#[test]
fn a_model_survives_export_and_import() {
    let (original, _, wall_id) = authored_model();
    let (imported, report) = round_trip(&original);

    assert_eq!(report.schema, IfcSchema::Ifc4);
    // The writer synthesises a project, site, and building the original did not have.
    assert!(imported.len() >= original.len());
    assert_eq!(report.geometry_failures, 0);

    let wall = imported.get(&wall_id).expect("the wall came back by identity");
    assert_eq!(wall.class, IfcClass::Wall);
    assert_eq!(wall.name.as_deref(), Some("W-01"));
}

#[test]
fn a_swept_solid_comes_back_as_a_swept_solid() {
    let (original, _, wall_id) = authored_model();
    let (imported, _) = round_trip(&original);

    let representation = imported.get(&wall_id).and_then(|e| e.representation.clone()).expect("the wall has geometry");

    assert!(representation.is_native_parametric());
    let Representation::ExtrudedAreaSolid { profile, direction, depth } = representation else {
        panic!("expected a swept solid");
    };
    assert_eq!(profile.len(), 4);
    assert!((f64::from_bits(depth) - 3.0).abs() < 1e-9);
    assert!((f64::from_bits(direction[2]) - 1.0).abs() < 1e-9);
    assert_eq!(profile[1], [4.0f64.to_bits(), 0.0f64.to_bits()]);
}

#[test]
fn a_tessellated_door_stays_tessellated() {
    let (original, _, _) = authored_model();
    let (imported, _) = round_trip(&original);

    let doors = imported.by_class(&IfcClass::Door);
    let door = doors.first().expect("the door came back");
    let Some(Representation::TriangulatedFaceSet { vertices, faces }) = &door.representation else {
        panic!("expected tessellation, got {:?}", door.representation);
    };
    assert_eq!(vertices.len(), 3);
    assert_eq!(faces, &[[0, 1, 2]]);
    assert!((f64::from_bits(vertices[1][0]) - 0.9).abs() < 1e-9);
}

#[test]
fn relationships_survive_the_round_trip() {
    let (original, _, wall_id) = authored_model();
    let (imported, _) = round_trip(&original);

    let opening = (*imported.openings_of(&wall_id).first().expect("the wall is still voided")).clone();
    assert_eq!(imported.host_of(&opening), Some(&wall_id));
    assert_eq!(imported.fills_of(&opening).len(), 1, "the door still fills the opening");
}

#[test]
fn properties_survive_with_their_measure_types() {
    let (original, _, wall_id) = authored_model();
    let (imported, _) = round_trip(&original);

    let wall = imported.get(&wall_id).expect("the wall came back");
    assert_eq!(
        wall.properties.get("Pset_WallCommon", "IsExternal"),
        Some(&PropertyValue::Boolean(true)),
        "a boolean must not come back as the text 'T'"
    );
    assert_eq!(wall.properties.get("Pset_WallCommon", "FireRating"), Some(&PropertyValue::Text("60/60".into())));
}

#[test]
fn placement_is_recovered_relative_to_the_container() {
    let (original, _, wall_id) = authored_model();
    let (imported, _) = round_trip(&original);

    let placement = imported.get(&wall_id).expect("wall").placement;
    let location = vec3(placement.location);
    assert!((location - DVec3::new(2.0, 1.0, 0.0)).length() < 1e-9, "got {:?}", location);
}

#[test]
fn spatial_containment_is_rebuilt() {
    let (original, storey_id, wall_id) = authored_model();
    let (imported, _) = round_trip(&original);

    let wall = imported.get(&wall_id).expect("wall");
    assert_eq!(wall.container.as_ref(), Some(&storey_id));
    assert!(imported.contained_in(&storey_id).len() >= 2);
}

#[test]
fn a_file_that_is_not_ifc_is_refused_not_guessed_at() {
    let mut model = Model::new();
    assert!(IfcLiteBackend::new().read(b"this is not an IFC file", &mut model, &Glam).is_err());
    assert!(model.is_empty(), "a failed read must not half-populate");
}

#[test]
fn truncated_input_does_not_panic() {
    let (original, _, _) = authored_model();
    let bytes = SpfBackend::new(ExportContext::named("truncated").at("2026-08-27T09:00:00"))
        .write(&original, IfcSchema::Ifc4)
        .unwrap();

    for fraction in [0.25, 0.5, 0.75, 0.9] {
        let cut = &bytes[..(bytes.len() as f64 * fraction) as usize];
        let mut model = Model::new();
        // Either outcome is acceptable. Panicking is not.
        let _ = IfcLiteBackend::new().read(cut, &mut model, &Glam);
    }
}

#[test]
fn the_reader_declares_itself_read_only() {
    let backend = IfcLiteBackend::new();
    assert_eq!(backend.name(), "ifc-lite");
    assert!(backend.capabilities().can_read(IfcSchema::Ifc4));
    assert!(backend.capabilities().can_read(IfcSchema::Ifc2x3));
    assert!(backend.capabilities().can_read(IfcSchema::Ifc4x3));
    assert!(!backend.capabilities().can_read(IfcSchema::Ifc5));
    assert!(!backend.capabilities().can_write(IfcSchema::Ifc4));
    assert!(backend.capabilities().writes.is_empty());
    assert_eq!(
        backend.write(&Model::new(), IfcSchema::Ifc4),
        Err(cadforge::backend::IfcError::ReadOnlyBackend { backend: "ifc-lite" })
    );
}

// ---- beyond the original's cases ---------------------------------------------------------

#[test]
fn a_synthesised_storey_comes_back_holding_the_wall() {
    let mut model = Model::new();
    let wall = ElementRecord::new(GlobalId::new(), IfcClass::Wall).with_representation(Representation::extrusion(
        profile(&[[0.0, 0.0], [2.0, 0.0], [2.0, 0.1], [0.0, 0.1]]),
        v3(0.0, 0.0, 1.0),
        2.5f64.to_bits(),
    ));
    let wall_id = wall.global_id.clone();
    model.apply(ModelCommand::CreateElement { element: Box::new(wall) }).unwrap();
    let (imported, report) = round_trip(&model);
    assert_eq!(report.schema, IfcSchema::Ifc4);
    assert_eq!(imported.by_class(&IfcClass::BuildingStorey).len(), 1);
    let storey = imported.by_class(&IfcClass::BuildingStorey)[0].global_id.clone();
    assert_eq!(imported.get(&wall_id).expect("wall").container.as_ref(), Some(&storey));
}
