use cadforge::backend::IfcError;
use cadforge::command::ModelCommand;
use cadforge::element::{ElementRecord, IfcClass, Placement};
use cadforge::export::{ifc_value, step_real};
use cadforge::id::GlobalId;
use cadforge::model::Model;
use cadforge::property::PropertyValue;
use cadforge::representation::Representation;
use cadforge::schema::IfcSchema;
use cadforge::spf::{ExportContext, ExportedType, SpfBackend};

fn profile(points: &[[f64; 2]]) -> Vec<[u64; 2]> {
    points.iter().map(|p| [p[0].to_bits(), p[1].to_bits()]).collect()
}

fn v3(x: f64, y: f64, z: f64) -> [u64; 3] {
    [x.to_bits(), y.to_bits(), z.to_bits()]
}

fn wall_representation() -> Representation {
    Representation::extrusion(
        profile(&[[0.0, 0.0], [4.0, 0.0], [4.0, 0.2], [0.0, 0.2]]),
        v3(0.0, 0.0, 1.0),
        3.0f64.to_bits(),
    )
}

/// Storey, wall, opening, door — with geometry, properties, and a family type.
fn sample_model() -> (Model, ExportContext, GlobalId) {
    let mut model = Model::new();
    let family = GlobalId::new();

    let storey = ElementRecord::new(GlobalId::new(), IfcClass::BuildingStorey).with_name("Level 00");
    let storey_id = storey.global_id.clone();

    let wall = ElementRecord::new(GlobalId::new(), IfcClass::Wall)
        .with_name("W-01")
        .with_container(storey_id.clone())
        .with_representation(wall_representation());
    let wall_id = wall.global_id.clone();

    let opening = ElementRecord::new(GlobalId::new(), IfcClass::OpeningElement)
        .with_container(storey_id.clone())
        .with_representation(Representation::extrusion(
            profile(&[[0.0, 0.0], [0.92, 0.0], [0.92, 0.3], [0.0, 0.3]]),
            v3(0.0, 0.0, 1.0),
            2.12f64.to_bits(),
        ));
    let opening_id = opening.global_id.clone();

    let mut door = ElementRecord::new(GlobalId::new(), IfcClass::Door)
        .with_name("Single Flush Door")
        .with_placement(Placement::at(v3(2.0, 0.0, 0.0)))
        .with_container(storey_id.clone())
        .with_representation(Representation::extrusion(
            profile(&[[0.0, 0.0], [0.9, 0.0], [0.9, 0.045], [0.0, 0.045]]),
            v3(0.0, 0.0, 1.0),
            2.1f64.to_bits(),
        ));
    door.type_ref = Some(family.clone());
    door.object_type = Some("900 x 2100".into());
    let door_id = door.global_id.clone();

    model
        .apply_all(vec![
            ModelCommand::CreateElement { element: Box::new(storey) },
            ModelCommand::CreateElement { element: Box::new(wall) },
            ModelCommand::CreateElement { element: Box::new(opening) },
            ModelCommand::CreateElement { element: Box::new(door) },
            ModelCommand::AddVoid { host: wall_id.clone(), opening: opening_id.clone() },
            ModelCommand::AddFill { opening: opening_id, filler: door_id },
            ModelCommand::SetProperty {
                global_id: wall_id,
                set: "Pset_WallCommon".into(),
                name: "IsExternal".into(),
                value: Some(PropertyValue::Boolean(true)),
            },
        ])
        .unwrap();

    let context = ExportContext::named("Test Project")
        .at("2026-08-25T09:00:00")
        .with_types(vec![ExportedType {
            global_id: family.clone(),
            name: "Single Flush Door".into(),
            class: IfcClass::Door,
            predefined_type: Some("DOOR".into()),
        }]);
    (model, context, family)
}

fn export(model: &Model, context: &ExportContext) -> String {
    String::from_utf8(SpfBackend::new(context.clone()).write(model, IfcSchema::Ifc4).expect("export succeeds"))
        .expect("output is utf-8")
}

#[test]
fn the_file_has_a_well_formed_header_and_sections() {
    let (model, context, _) = sample_model();
    let ifc = export(&model, &context);

    assert!(ifc.starts_with("ISO-10303-21;\nHEADER;\n"));
    assert!(ifc.contains("FILE_SCHEMA(('IFC4'));"));
    assert!(ifc.contains("'2026-08-25T09:00:00'"));
    assert!(ifc.trim_end().ends_with("END-ISO-10303-21;"));
    assert_eq!(ifc.matches("DATA;").count(), 1);
    assert_eq!(ifc.matches("ENDSEC;").count(), 2);

    // The header we write must be readable by our own detector.
    assert_eq!(IfcSchema::detect(&ifc).unwrap(), IfcSchema::Ifc4);
}

#[test]
fn every_reference_resolves_and_no_id_repeats() {
    let (model, context, _) = sample_model();
    let ifc = export(&model, &context);

    let mut defined = std::collections::BTreeSet::new();
    for line in ifc.lines().filter(|l| l.starts_with('#')) {
        let id: u64 = line[1..line.find('=').expect("assignment")].parse().expect("numeric id");
        assert!(defined.insert(id), "entity #{id} defined twice");
    }
    assert!(!defined.is_empty());

    for line in ifc.lines().filter(|l| l.starts_with('#')) {
        let body = &line[line.find('=').unwrap() + 1..];
        for token in body.split(|c: char| !c.is_ascii_digit() && c != '#') {
            if let Some(rest) = token.strip_prefix('#') {
                if let Ok(id) = rest.parse::<u64>() {
                    assert!(defined.contains(&id), "dangling reference #{id} in {line}");
                }
            }
        }
    }
}

#[test]
fn a_wall_is_written_as_editable_parametric_geometry() {
    let (model, context, _) = sample_model();
    let ifc = export(&model, &context);

    assert!(ifc.contains("IFCEXTRUDEDAREASOLID("));
    assert!(ifc.contains("IFCARBITRARYCLOSEDPROFILEDEF(.AREA.,$,"));
    assert!(ifc.contains("'SweptSolid'"));
    assert!(!ifc.contains("IFCTRIANGULATEDFACESET"));
}

#[test]
fn a_closed_profile_polyline_repeats_its_first_point() {
    let (model, context, _) = sample_model();
    let ifc = export(&model, &context);

    let polyline = ifc.lines().find(|l| l.contains("IFCPOLYLINE(")).expect("a polyline was written");
    let points: Vec<&str> = polyline
        .trim_end_matches([')', ';'])
        .split("((")
        .nth(1)
        .expect("point list")
        .split(',')
        .collect();
    assert_eq!(points.len(), 5, "four corners plus the repeated first");
    assert_eq!(points[0], points[4]);
}

#[test]
fn tessellated_geometry_uses_one_based_indices() {
    let mut model = Model::new();
    let element = ElementRecord::new(GlobalId::new(), IfcClass::BuildingElementProxy).with_representation(
        Representation::TriangulatedFaceSet {
            vertices: vec![v3(0.0, 0.0, 0.0), v3(1.0, 0.0, 0.0), v3(0.0, 1.0, 0.0)],
            faces: vec![[0, 1, 2]],
        },
    );
    model.apply(ModelCommand::CreateElement { element: Box::new(element) }).unwrap();

    let ifc = export(&model, &ExportContext::default().at("2026-08-25T09:00:00"));
    assert!(ifc.contains("IFCCARTESIANPOINTLIST3D"));
    assert!(ifc.contains("IFCTRIANGULATEDFACESET"));
    assert!(ifc.contains("((1,2,3))"), "indices must be 1-based");
    assert!(ifc.contains("'Tessellation'"));
}

#[test]
fn relationships_survive_the_crossing() {
    let (model, context, _) = sample_model();
    let ifc = export(&model, &context);

    assert_eq!(ifc.matches("IFCRELVOIDSELEMENT(").count(), 1);
    assert_eq!(ifc.matches("IFCRELFILLSELEMENT(").count(), 1);
    assert_eq!(ifc.matches("IFCRELCONTAINEDINSPATIALSTRUCTURE(").count(), 1);
    assert_eq!(ifc.matches("IFCRELDEFINESBYPROPERTIES(").count(), 1);
    assert_eq!(ifc.matches("IFCRELAGGREGATES(").count(), 3);
}

#[test]
fn the_family_type_crosses_as_a_real_ifc_type_object() {
    let (model, context, _) = sample_model();
    let ifc = export(&model, &context);

    assert!(ifc.contains("IFCDOORTYPE("));
    assert!(ifc.contains(".DOOR."));
    assert_eq!(ifc.matches("IFCRELDEFINESBYTYPE(").count(), 1);
    assert!(ifc.contains("'Single Flush Door'"));
    assert!(ifc.contains("'900 x 2100'"), "the type name rides on ObjectType");
}

#[test]
fn an_unused_type_is_not_written() {
    let (model, mut context, _) = sample_model();
    context.types.push(ExportedType {
        global_id: GlobalId::new(),
        name: "Unplaced Window".into(),
        class: IfcClass::Window,
        predefined_type: None,
    });
    let ifc = export(&model, &context);
    assert!(!ifc.contains("IFCWINDOWTYPE("));
}

#[test]
fn openings_are_not_listed_in_the_spatial_structure() {
    let (model, context, _) = sample_model();
    let ifc = export(&model, &context);

    let opening_line = ifc.lines().find(|l| l.contains("IFCOPENINGELEMENT(")).expect("the opening was written");
    let opening_ref = &opening_line[..opening_line.find('=').unwrap()];

    let containment = ifc
        .lines()
        .find(|l| l.contains("IFCRELCONTAINEDINSPATIALSTRUCTURE("))
        .expect("containment was written");
    let listed = containment.split(",(").nth(1).and_then(|s| s.split("),").next()).expect("element list");
    assert!(!listed.split(',').any(|r| r == opening_ref), "{opening_ref} must not be contained directly");
}

#[test]
fn spatial_structure_is_synthesised_when_the_model_has_none() {
    let mut model = Model::new();
    model
        .apply(ModelCommand::CreateElement {
            element: Box::new(
                ElementRecord::new(GlobalId::new(), IfcClass::Wall).with_representation(wall_representation()),
            ),
        })
        .unwrap();

    let ifc = export(&model, &ExportContext::named("Bare").at("2026-08-25T09:00:00"));
    assert!(ifc.contains("IFCPROJECT("));
    assert!(ifc.contains("IFCSITE("));
    assert!(ifc.contains("IFCBUILDING("));
    assert!(ifc.contains("IFCBUILDINGSTOREY("));
    assert!(ifc.contains("IFCRELCONTAINEDINSPATIALSTRUCTURE("));
}

#[test]
fn export_is_byte_reproducible() {
    let (model, context, _) = sample_model();
    assert_eq!(export(&model, &context), export(&model, &context));
}

#[test]
fn repeated_primitives_are_interned() {
    let (model, context, _) = sample_model();
    let ifc = export(&model, &context);
    assert_eq!(ifc.matches("IFCDIRECTION((0.,0.,1.))").count(), 1, "the +Z direction should be emitted once");
}

#[test]
fn reals_always_carry_a_decimal_point() {
    assert_eq!(step_real(3.0f64.to_bits()), "3.");
    assert_eq!(step_real(0.9f64.to_bits()), "0.9");
    assert_eq!(step_real((-0.045f64).to_bits()), "-0.045");
    assert_eq!(step_real(0.0f64.to_bits()), "0.");
    // Non-finite values must never reach a file.
    assert_eq!(step_real(f64::NAN.to_bits()), "0.");
    assert_eq!(step_real(f64::INFINITY.to_bits()), "0.");
}

#[test]
fn property_values_keep_their_measure_types() {
    assert_eq!(ifc_value(&PropertyValue::Boolean(true)), "IFCBOOLEAN(.T.)");
    assert_eq!(ifc_value(&PropertyValue::Length(2.4f64.to_bits())), "IFCLENGTHMEASURE(2.4)");
    // Same number, different meaning, different output.
    assert_eq!(ifc_value(&PropertyValue::Real(2.4f64.to_bits())), "IFCREAL(2.4)");
    assert_eq!(ifc_value(&PropertyValue::Text("60/60".into())), "IFCTEXT('60/60')");
}

// ---- beyond the original's cases ---------------------------------------------------------

#[test]
fn an_unreadable_shape_is_refused_rather_than_written() {
    let mut model = Model::new();
    let broken = Representation::TriangulatedFaceSet { vertices: vec![v3(0.0, 0.0, 0.0)], faces: vec![[0, 1, 2]] };
    model
        .apply(ModelCommand::CreateElement {
            element: Box::new(ElementRecord::new(GlobalId::new(), IfcClass::Wall).with_representation(broken)),
        })
        .unwrap();
    let result = SpfBackend::new(ExportContext::named("Broken").at("2026-08-25T09:00:00")).write(&model, IfcSchema::Ifc4);
    assert!(matches!(result, Err(IfcError::Malformed(_))));
}

#[test]
fn an_unsupported_schema_is_refused_before_any_work() {
    let (model, context, _) = sample_model();
    let backend = SpfBackend::new(context);
    assert_eq!(
        backend.write(&model, IfcSchema::Ifc5),
        Err(IfcError::UnsupportedSchema { backend: "spf-writer", schema: IfcSchema::Ifc5 })
    );
    assert_eq!(backend.check_can_write(IfcSchema::Ifc4), Ok(()));
    assert_eq!(backend.context().project_name, "Test Project");
}

#[test]
fn every_product_is_written_under_its_own_entity() {
    let (model, context, _) = sample_model();
    let ifc = export(&model, &context);
    assert_eq!(ifc.matches("=IFCWALL(").count(), 1);
    assert_eq!(ifc.matches("=IFCDOOR(").count(), 1);
    assert_eq!(ifc.matches("=IFCOPENINGELEMENT(").count(), 1);
    assert!(ifc.contains("'W-01'"));
    assert!(ifc.contains(",$,$,$,$,$,$);"), "a door carries its six trailing attributes");
}

#[test]
fn a_storey_is_written_at_its_elevation() {
    let mut model = Model::new();
    let storey = ElementRecord::new(GlobalId::new(), IfcClass::BuildingStorey)
        .with_name("Level 01")
        .with_placement(Placement::at(v3(0.0, 0.0, 3.5)));
    model.apply(ModelCommand::CreateElement { element: Box::new(storey) }).unwrap();
    let ifc = export(&model, &ExportContext::named("Levels").at("2026-08-25T09:00:00"));
    assert!(ifc.contains("'Level 01',$,$,"));
    assert!(ifc.contains(",$,$,.ELEMENT.,3.5);"));
}
