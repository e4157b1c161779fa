use cadforge::command::ModelCommand;
use cadforge::element::{ElementRecord, IfcClass, Placement};
use cadforge::family::{
    FamilyDefinition, FamilyError, FamilyType, HostBehavior, IfcTypeMapping, ParamScope, ParamType,
    PlacementRequest, RepresentationKind,
};
use cadforge::id::GlobalId;
use cadforge::model::Model;
use cadforge::param::{ParamBag, ParamDef, ParamValue};
use cadforge::recipe::{Expr, GeometryRecipe, ProfileSpec, RecipeOp};

fn b(x: f64) -> u64 {
    x.to_bits()
}

fn up() -> [u64; 3] {
    [b(0.0), b(0.0), b(1.0)]
}

fn length(x: f64) -> ParamValue {
    ParamValue::Length(b(x))
}

fn plus(a: Expr, c: Expr) -> Expr {
    Expr::Add(Box::new(a), Box::new(c))
}

fn konst(x: f64) -> Expr {
    Expr::Const(b(x))
}

/// A door family, the way one would actually be authored: type-scoped leaf dimensions, an
/// instance-scoped sill height, a named type, and a declared void.
fn door_family() -> FamilyDefinition {
    let leaf = GeometryRecipe::single_extrusion(
        ProfileSpec::Rectangle { width: Expr::param("Width"), depth: Expr::param("Thickness") },
        up(),
        Expr::param("Height"),
    )
    .unwrap();

    let void = GeometryRecipe::single_extrusion(
        ProfileSpec::Rectangle {
            width: plus(Expr::param("Width"), Expr::param("FrameClearance")),
            depth: konst(1.0),
        },
        up(),
        plus(Expr::param("Height"), Expr::param("FrameClearance")),
    )
    .unwrap();

    FamilyDefinition::new(
        "Single Flush Door",
        IfcTypeMapping::new(IfcClass::Door).with_predefined_type("DOOR").with_property_set("Pset_DoorCommon"),
        vec![
            ParamDef::length("Width", b(0.9)).with_range(b(0.4), b(2.4)),
            ParamDef::length("Height", b(2.1)).with_range(b(1.2), b(3.6)),
            ParamDef::length("Thickness", b(0.045)),
            ParamDef::length("FrameClearance", b(0.02)),
            ParamDef::instance_length("SillHeight", b(0.0)),
            ParamDef::new("Finish", ParamValue::Text("Painted".into()), ParamScope::Type),
        ],
        leaf,
    )
    .unwrap()
    .with_host(HostBehavior::WallHosted { cuts_host: true })
    .with_void_recipe(void)
    .with_type(FamilyType::new("900 x 2100").set("Width", length(0.9)).set("Height", length(2.1)))
    .with_type(FamilyType::new("1200 x 2400").set("Width", length(1.2)).set("Height", length(2.4)))
}

fn number(bag: &ParamBag, name: &str) -> f64 {
    f64::from_bits(bag.number(name).unwrap())
}

// ---- parameters ------------------------------------------------------------------------

#[test]
fn type_is_inferred_from_the_default() {
    let p = ParamDef::length("Width", b(0.9));
    assert_eq!(p.param_type, ParamType::Length);
    assert_eq!(p.scope, ParamScope::Type);
}

#[test]
fn a_mismatched_type_is_rejected() {
    let p = ParamDef::length("Width", b(0.9));
    let err = p.validate(&ParamValue::Text("wide".into())).unwrap_err();
    assert_eq!(
        err,
        FamilyError::TypeMismatch { name: "Width".into(), expected: "Length", actual: "Text" }
    );
}

#[test]
fn range_bounds_are_inclusive_and_reject_non_finite() {
    let p = ParamDef::length("Width", b(0.9)).with_range(b(0.4), b(2.0));
    assert!(p.validate(&length(0.4)).is_ok());
    assert!(p.validate(&length(2.0)).is_ok());
    assert!(p.validate(&length(2.001)).is_err());
    assert!(p.validate(&length(f64::NAN)).is_err());
    assert!(p.validate(&length(f64::INFINITY)).is_err());
}

#[test]
fn an_unbounded_parameter_still_rejects_nan() {
    let p = ParamDef::length("Width", b(0.9));
    assert!(p.validate(&length(1e9)).is_ok());
    assert!(p.validate(&length(f64::NAN)).is_err());
}

#[test]
fn the_bag_distinguishes_missing_from_non_numeric() {
    let mut bag = ParamBag::new();
    bag.insert("Width", length(0.9));
    bag.insert("Finish", ParamValue::Text("oak".into()));

    assert_eq!(number(&bag, "Width"), 0.9);
    assert_eq!(bag.number("Finish"), Err(FamilyError::NotNumeric("Finish".into())));
    assert_eq!(bag.number("Height"), Err(FamilyError::UnknownParameter("Height".into())));
}

#[test]
fn counts_convert_to_the_nearest_real() {
    assert_eq!(ParamValue::Count(3).as_f64(), Some(b(3.0)));
    assert_eq!(ParamValue::Count(-7).as_f64(), Some(b(-7.0)));
    assert_eq!(ParamValue::Count(i64::MAX).as_f64(), Some(b(i64::MAX as f64)));
    assert_eq!(ParamValue::Boolean(true).as_f64(), None);
    assert_eq!(ParamValue::Material("oak".into()).as_f64(), None);
}

#[test]
fn out_of_range_reports_the_value_and_the_effective_bounds() {
    let p = ParamDef::new("Panels", ParamValue::Count(2), ParamScope::Instance).with_range(b(1.0), b(4.0));
    assert_eq!(
        p.validate(&ParamValue::Count(5)),
        Err(FamilyError::OutOfRange { name: "Panels".into(), value: b(5.0), min: b(1.0), max: b(4.0) })
    );
    let open = ParamDef::length("Depth", b(1.0));
    assert_eq!(
        open.validate(&length(f64::NEG_INFINITY)),
        Err(FamilyError::OutOfRange {
            name: "Depth".into(),
            value: b(f64::NEG_INFINITY),
            min: b(f64::NEG_INFINITY),
            max: b(f64::INFINITY),
        })
    );
    // Zero and negative zero are equal, so each passes a bound set at the other.
    let zero = ParamDef::length("Offset", b(0.0)).with_range(b(0.0), b(0.0));
    assert!(zero.validate(&length(-0.0)).is_ok());
    let negative = ParamDef::length("Offset", b(0.0)).with_range(b(-1.0), b(-0.5));
    assert!(negative.validate(&length(-0.75)).is_ok());
    assert!(negative.validate(&length(-0.25)).is_err());
    assert!(negative.validate(&length(-1.5)).is_err());
}

#[test]
fn descriptions_are_kept() {
    let p = ParamDef::length("Width", b(0.9)).described("Clear opening width");
    assert_eq!(p.description.as_deref(), Some("Clear opening width"));
    assert_eq!(p.name, "Width");
}

// ---- recipes ---------------------------------------------------------------------------

fn rectangle_recipe() -> GeometryRecipe {
    GeometryRecipe::single_extrusion(
        ProfileSpec::Rectangle { width: Expr::param("Width"), depth: Expr::param("Thickness") },
        up(),
        Expr::param("Height"),
    )
    .unwrap()
}

fn unit_extrusion() -> RecipeOp {
    RecipeOp::Extrude {
        profile: ProfileSpec::Rectangle { width: konst(1.0), depth: konst(1.0) },
        direction: up(),
        depth: konst(1.0),
    }
}

#[test]
fn referenced_params_are_sorted_and_deduplicated() {
    assert_eq!(rectangle_recipe().referenced_params(), ["Height", "Thickness", "Width"]);
    let door = door_family();
    assert_eq!(
        door.void_recipe.as_ref().unwrap().referenced_params(),
        ["FrameClearance", "Height", "Width"]
    );
}

#[test]
fn anything_more_than_one_extrusion_declares_itself_degraded() {
    let recipe = GeometryRecipe::new(vec![
        unit_extrusion(),
        RecipeOp::Translate { source: 0, offset: [konst(2.0), konst(0.0), konst(0.0)] },
    ])
    .unwrap();
    assert_eq!(recipe.representation_kind(), RepresentationKind::Tessellated);
    assert_eq!(recipe.output(), 1);
    assert_eq!(recipe.ops().len(), 2);
}

#[test]
fn forward_and_self_references_are_rejected() {
    let extrude = RecipeOp::Extrude {
        profile: ProfileSpec::Circle { radius: konst(1.0) },
        direction: up(),
        depth: konst(1.0),
    };
    assert_eq!(
        GeometryRecipe::new(vec![
            extrude.clone(),
            RecipeOp::Translate { source: 1, offset: [konst(0.0), konst(0.0), konst(0.0)] },
        ]),
        Err(FamilyError::BadRecipeReference { index: 1, referenced: 1 })
    );
    assert_eq!(GeometryRecipe::new(vec![]), Err(FamilyError::EmptyRecipe));
    assert_eq!(GeometryRecipe::with_output(vec![extrude], 7), Err(FamilyError::BadRecipeOutput(7)));
}

#[test]
fn the_first_bad_reference_is_the_one_reported() {
    let result = GeometryRecipe::new(vec![
        unit_extrusion(),
        RecipeOp::Union { a: 0, b: 3 },
        RecipeOp::Difference { a: 5, b: 0 },
    ]);
    assert_eq!(result, Err(FamilyError::BadRecipeReference { index: 1, referenced: 3 }));
    let fine = GeometryRecipe::with_output(
        vec![unit_extrusion(), unit_extrusion(), RecipeOp::Difference { a: 0, b: 1 }],
        0,
    )
    .unwrap();
    assert_eq!(fine.output(), 0);
    assert_eq!(fine.representation_kind(), RepresentationKind::Tessellated);
}

#[test]
fn expressions_list_the_parameters_they_read() {
    let e = Expr::Sub(
        Box::new(Expr::param("Width")),
        Box::new(Expr::Mul(Box::new(konst(2.0)), Box::new(Expr::Neg(Box::new(Expr::param("Jamb")))))),
    );
    let mut out = vec!["Earlier".to_string()];
    e.referenced_params(&mut out);
    assert_eq!(out, ["Earlier", "Width", "Jamb"]);
}

// ---- families ----------------------------------------------------------------------------

#[test]
fn defaults_resolve_when_no_type_is_named() {
    let family = door_family();
    let params = family.resolve(None, &ParamBag::new()).unwrap();
    assert_eq!(number(&params, "Width"), 0.9);
    assert_eq!(params.len(), 6);
}

#[test]
fn a_named_type_overrides_defaults() {
    let family = door_family();
    let params = family.resolve(Some("1200 x 2400"), &ParamBag::new()).unwrap();
    assert_eq!(number(&params, "Width"), 1.2);
    assert_eq!(number(&params, "Height"), 2.4);
    assert_eq!(number(&params, "Thickness"), 0.045);
}

#[test]
fn an_unknown_type_is_named_in_the_error() {
    let family = door_family();
    assert_eq!(
        family.resolve(Some("800 x 2000"), &ParamBag::new()),
        Err(FamilyError::UnknownType("800 x 2000".into()))
    );
}

#[test]
fn instance_overrides_apply_only_to_instance_scoped_parameters() {
    let family = door_family();

    let mut ok = ParamBag::new();
    ok.insert("SillHeight", length(0.15));
    let params = family.resolve(Some("900 x 2100"), &ok).unwrap();
    assert_eq!(number(&params, "SillHeight"), 0.15);

    let mut bad = ParamBag::new();
    bad.insert("Width", length(1.5));
    assert_eq!(
        family.resolve(Some("900 x 2100"), &bad),
        Err(FamilyError::NotInstanceScoped("Width".into()))
    );
}

#[test]
fn overrides_are_validated_against_their_declaration() {
    let family = door_family();
    let mut too_wide = ParamBag::new();
    too_wide.insert("SillHeight", ParamValue::Text("high".into()));
    assert!(matches!(family.resolve(None, &too_wide), Err(FamilyError::TypeMismatch { .. })));

    let bad_type = FamilyType::new("Oversized").set("Width", length(9.0));
    let family = door_family().with_type(bad_type);
    assert!(matches!(
        family.resolve(Some("Oversized"), &ParamBag::new()),
        Err(FamilyError::OutOfRange { .. })
    ));
}

#[test]
fn an_override_of_an_undeclared_parameter_is_refused() {
    let family = door_family().with_type(FamilyType::new("Odd").set("Colour", ParamValue::Text("red".into())));
    assert_eq!(
        family.resolve(Some("Odd"), &ParamBag::new()),
        Err(FamilyError::UnknownParameter("Colour".into()))
    );
    let mut stray = ParamBag::new();
    stray.insert("Handle", ParamValue::Boolean(true));
    assert_eq!(
        door_family().resolve(None, &stray),
        Err(FamilyError::UnknownParameter("Handle".into()))
    );
}

#[test]
fn a_door_exports_as_native_parametric_ifc() {
    let family = door_family();
    assert_eq!(family.representation_kind(), RepresentationKind::NativeParametric);
    assert!(!family.representation_kind().is_degraded());
    assert_eq!(family.representation_kind().ifc_representation(), "IfcExtrudedAreaSolid");
}

fn storey_and_wall(model: &mut Model) -> (GlobalId, GlobalId) {
    let storey = ElementRecord::new(GlobalId::new(), IfcClass::BuildingStorey);
    let storey_id = storey.global_id.clone();
    let wall = ElementRecord::new(GlobalId::new(), IfcClass::Wall).with_container(storey_id.clone());
    let wall_id = wall.global_id.clone();
    model
        .apply_all(vec![
            ModelCommand::CreateElement { element: Box::new(storey) },
            ModelCommand::CreateElement { element: Box::new(wall) },
        ])
        .unwrap();
    (storey_id, wall_id)
}

#[test]
fn placing_a_door_produces_the_full_ifc_relationship_set() {
    let mut model = Model::new();
    let (storey_id, wall_id) = storey_and_wall(&mut model);

    let family = door_family();
    let request = PlacementRequest::new(Placement::at([b(2.0), b(0.0), b(0.0)]))
        .of_type("900 x 2100")
        .in_container(storey_id.clone())
        .hosted_by(wall_id.clone())
        .with_override("SillHeight", length(0.0));

    let plan = family.place(&request).unwrap();
    assert_eq!(plan.commands.len(), 4, "opening, door, void, fill");
    model.apply_all(plan.commands.clone()).unwrap();

    let opening = plan.opening.clone().expect("a cutting family creates an opening");
    assert_eq!(model.host_of(&opening), Some(&wall_id));
    assert_eq!(model.fills_of(&opening), vec![&plan.instance]);
    let door = model.get(&plan.instance).unwrap();
    assert_eq!(door.class, IfcClass::Door);
    assert_eq!(door.type_ref, Some(family.id.clone()));
    assert_eq!(door.container, Some(storey_id));
    assert_eq!(door.object_type.as_deref(), Some("900 x 2100"));
    assert_eq!(door.placement.location, [b(2.0), b(0.0), b(0.0)]);
    let hole = model.get(&opening).unwrap();
    assert_eq!(hole.name.as_deref(), Some("Single Flush Door opening"));
    assert_eq!(hole.class, IfcClass::OpeningElement);
}

#[test]
fn placing_a_door_is_fully_undoable() {
    let mut model = Model::new();
    let (storey_id, wall_id) = storey_and_wall(&mut model);
    let before = model.len();

    let family = door_family();
    let plan = family
        .place(
            &PlacementRequest::new(Placement::identity())
                .of_type("900 x 2100")
                .in_container(storey_id)
                .hosted_by(wall_id.clone()),
        )
        .unwrap();
    let count = plan.commands.len();
    model.apply_all(plan.commands).unwrap();
    assert_eq!(model.len(), before + 2);

    for _ in 0..count {
        model.undo().unwrap();
    }
    assert_eq!(model.len(), before);
    assert_eq!(model.openings_of(&wall_id).len(), 0);
}

fn chair() -> FamilyDefinition {
    FamilyDefinition::new(
        "Chair",
        IfcTypeMapping::new(IfcClass::Furniture),
        vec![ParamDef::length("Width", b(0.5))],
        GeometryRecipe::single_extrusion(
            ProfileSpec::Rectangle { width: Expr::param("Width"), depth: Expr::param("Width") },
            up(),
            konst(0.45),
        )
        .unwrap(),
    )
    .unwrap()
}

#[test]
fn hosting_rules_are_enforced_at_placement_time() {
    let family = door_family();
    assert_eq!(
        family.place(&PlacementRequest::new(Placement::identity()).of_type("900 x 2100")),
        Err(FamilyError::HostRequired { behavior: "wall-hosted" })
    );

    assert_eq!(
        chair().place(&PlacementRequest::new(Placement::identity()).hosted_by(GlobalId::new())),
        Err(FamilyError::HostNotAllowed { behavior: "free" })
    );
}

#[test]
fn a_free_family_is_named_after_itself_when_no_type_is_chosen() {
    let family = chair();
    let plan = family.place(&PlacementRequest::new(Placement::identity())).unwrap();
    assert!(plan.opening.is_none());
    assert_eq!(plan.commands.len(), 1);
    match &plan.commands[0] {
        ModelCommand::CreateElement { element } => {
            assert_eq!(element.global_id, plan.instance);
            assert_eq!(element.class, IfcClass::Furniture);
            assert_eq!(element.name.as_deref(), Some("Chair"));
            assert_eq!(element.object_type.as_deref(), Some("Chair"));
            assert_eq!(element.type_ref, Some(family.id.clone()));
            assert_eq!(element.container, None);
        },
        other => panic!("expected the instance, got {:?}", other),
    }
    assert_eq!(f64::from_bits(plan.params.number("Width").unwrap()), 0.5);
    assert_eq!(plan.representation, RepresentationKind::NativeParametric);
}

#[test]
fn resolution_errors_come_before_hosting_errors() {
    let family = door_family();
    assert_eq!(
        family.place(&PlacementRequest::new(Placement::identity()).of_type("Missing")),
        Err(FamilyError::UnknownType("Missing".into()))
    );
}

#[test]
fn a_non_cutting_hosted_family_creates_no_opening() {
    let light = FamilyDefinition::new(
        "Wall Light",
        IfcTypeMapping::new(IfcClass::BuildingElementProxy),
        vec![ParamDef::length("Radius", b(0.08))],
        GeometryRecipe::single_extrusion(
            ProfileSpec::Circle { radius: Expr::param("Radius") },
            [b(0.0), b(1.0), b(0.0)],
            konst(0.1),
        )
        .unwrap(),
    )
    .unwrap()
    .with_host(HostBehavior::FaceHosted);

    let plan = light
        .place(&PlacementRequest::new(Placement::identity()).hosted_by(GlobalId::new()))
        .unwrap();
    assert!(plan.opening.is_none());
    assert_eq!(plan.commands.len(), 1, "just the instance");
}

#[test]
fn duplicate_parameters_are_rejected_at_definition_time() {
    let recipe = GeometryRecipe::single_extrusion(
        ProfileSpec::Rectangle { width: konst(1.0), depth: konst(1.0) },
        up(),
        konst(1.0),
    )
    .unwrap();
    assert_eq!(
        FamilyDefinition::new(
            "Broken",
            IfcTypeMapping::new(IfcClass::Furniture),
            vec![ParamDef::length("Width", b(1.0)), ParamDef::length("Width", b(2.0))],
            recipe,
        )
        .err(),
        Some(FamilyError::DuplicateParameter("Width".into()))
    );
}

#[test]
fn types_are_enumerable_for_a_type_picker() {
    let family = door_family();
    assert_eq!(family.type_names(), ["900 x 2100", "1200 x 2400"]);
    assert_eq!(family.parameter("Width").unwrap().param_type, ParamType::Length);
    assert!(family.parameter("Colour").is_none());
    assert_eq!(family.family_type("1200 x 2400").unwrap().overrides.len(), 2);
    assert!(family.family_type("800 x 2000").is_none());
    assert_eq!(family.version, 1);
}
