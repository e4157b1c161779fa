use cadforge::command::ModelCommand;
use cadforge::element::{ElementRecord, IfcClass, Placement};
use cadforge::geometry::GeometryError;
use cadforge::id::GlobalId;
use cadforge::model::Model;
use cadforge::representation::Representation;
use cadforge::tools::{ContainerRef, Draft, DraftGeometry, DraftOutcome, DraftSettings, Snap, SnapKind, Tool, ToolError};
use glam::{DMat4, DVec2, DVec3};

// ---- the floating-point side, as the application supplies it ----------------------------

fn vec3(bits: [u64; 3]) -> DVec3 {
    DVec3::new(f64::from_bits(bits[0]), f64::from_bits(bits[1]), f64::from_bits(bits[2]))
}

fn bits3(v: DVec3) -> [u64; 3] {
    [v.x.to_bits(), v.y.to_bits(), v.z.to_bits()]
}

fn signed_area(points: &[DVec2]) -> f64 {
    let n = points.len();
    if n < 3 {
        return 0.0;
    }
    (0..n).map(|i| points[i].x * points[(i + 1) % n].y - points[(i + 1) % n].x * points[i].y).sum::<f64>() * 0.5
}

/// A validated, counter-clockwise outline.
fn profile(outer: impl IntoIterator<Item = DVec2>) -> Result<Vec<[u64; 2]>, GeometryError> {
    let mut points: Vec<DVec2> = outer.into_iter().collect();
    if points.iter().any(|p| !p.is_finite()) {
        return Err(GeometryError::NonFinite);
    }
    if points.len() >= 2 && points[0].abs_diff_eq(points[points.len() - 1], f64::EPSILON) {
        points.pop();
    }
    points.dedup_by(|a, b| a.abs_diff_eq(*b, 1e-12));
    if points.len() >= 2 && points[0].abs_diff_eq(points[points.len() - 1], 1e-12) {
        points.pop();
    }
    if points.len() < 3 {
        return Err(GeometryError::TooFewPoints(points.len()));
    }
    let area = signed_area(&points);
    if area.abs() < 1e-12 {
        return Err(GeometryError::ZeroArea);
    }
    if area < 0.0 {
        points.reverse();
    }
    Ok(points.iter().map(|p| [p.x.to_bits(), p.y.to_bits()]).collect())
}

fn placement(location: DVec3, axis: DVec3, reference: DVec3) -> Placement {
    let z = axis.try_normalize().unwrap_or(DVec3::Z);
    let x = (reference - z * z.dot(reference)).try_normalize().unwrap_or(DVec3::X);
    Placement { location: bits3(location), axis: bits3(z), ref_direction: bits3(x) }
}

fn to_matrix(p: &Placement) -> DMat4 {
    let (z, x) = (vec3(p.axis), vec3(p.ref_direction));
    DMat4::from_cols(x.extend(0.0), z.cross(x).extend(0.0), z.extend(0.0), vec3(p.location).extend(1.0))
}

struct Flat;

impl DraftGeometry for Flat {
    fn resolve(&self, target: [u64; 3], candidates: &[[u64; 3]], settings: &DraftSettings) -> Snap {
        let t = vec3(target);
        let flat = DVec3::new(t.x, t.y, f64::from_bits(settings.elevation));
        let tolerance = f64::from_bits(settings.snap.tolerance);
        let grid = f64::from_bits(settings.snap.grid);
        let nearest = candidates
            .iter()
            .map(|c| (vec3(*c), vec3(*c).distance(flat)))
            .filter(|(_, d)| *d <= tolerance)
            .fold(None, |best: Option<(DVec3, f64)>, next| match best {
                Some((_, d)) if d <= next.1 => best,
                _ => Some(next),
            });
        if let Some((point, _)) = nearest {
            return Snap { point: bits3(point), kind: SnapKind::Point };
        }
        if grid > 0.0 {
            let q = |v: f64| if v.is_finite() { (v / grid).round() * grid } else { v };
            return Snap { point: bits3(DVec3::new(q(flat.x), q(flat.y), flat.z)), kind: SnapKind::Grid };
        }
        Snap::free(bits3(flat))
    }

    fn closes(&self, first: [u64; 3], point: [u64; 3], tolerance: u64) -> bool {
        vec3(first).distance(vec3(point)) <= f64::from_bits(tolerance)
    }

    fn shape(&self, tool: Tool, points: &[[u64; 3]], settings: &DraftSettings, origin: [u64; 3]) -> Result<(Placement, Representation), ToolError> {
        let origin = vec3(origin);
        match tool {
            Tool::Wall => {
                let (a, b) = (vec3(points[0]), vec3(points[1]));
                let run = DVec3::new(b.x - a.x, b.y - a.y, 0.0);
                let length = run.length();
                if length < 0.001 {
                    return Err(ToolError::TooShort(length.to_bits()));
                }
                let half = f64::from_bits(settings.wall_thickness) * 0.5;
                let outline = profile([
                    DVec2::new(0.0, -half),
                    DVec2::new(length, -half),
                    DVec2::new(length, half),
                    DVec2::new(0.0, half),
                ])
                .map_err(ToolError::Geometry)?;
                Ok((placement(a - origin, DVec3::Z, run), Representation::extrusion(outline, bits3(DVec3::Z), settings.wall_height)))
            }
            Tool::Slab => {
                let base = vec3(points[0]);
                let outline = profile(points.iter().map(|p| DVec2::new(vec3(*p).x - base.x, vec3(*p).y - base.y))).map_err(|e| match e {
                    GeometryError::ZeroArea => ToolError::Degenerate,
                    other => ToolError::Geometry(other),
                })?;
                Ok((placement(base - origin, DVec3::Z, DVec3::X), Representation::extrusion(outline, bits3(DVec3::new(0.0, 0.0, -1.0)), settings.slab_thickness)))
            }
            Tool::Column => {
                let (hw, hd) = (f64::from_bits(settings.column_width) * 0.5, f64::from_bits(settings.column_depth) * 0.5);
                let outline = profile([DVec2::new(-hw, -hd), DVec2::new(hw, -hd), DVec2::new(hw, hd), DVec2::new(-hw, hd)])
                    .map_err(ToolError::Geometry)?;
                Ok((placement(vec3(points[0]) - origin, DVec3::Z, DVec3::X), Representation::extrusion(outline, bits3(DVec3::Z), settings.column_height)))
            }
            Tool::Select => Err(ToolError::Degenerate),
        }
    }
}

fn at(x: f64, y: f64, z: f64) -> [u64; 3] {
    bits3(DVec3::new(x, y, z))
}

fn wall_draft() -> Draft {
    let mut draft = Draft::default();
    draft.set_tool(Tool::Wall);
    draft
}

fn element(outcome: &DraftOutcome) -> &ElementRecord {
    let DraftOutcome::Commit { commands, .. } = outcome else {
        panic!("expected a commit, got {outcome:?}");
    };
    let [ModelCommand::CreateElement { element }] = &commands[..] else {
        panic!("a tool should author exactly one element");
    };
    element
}

fn representation(outcome: &DraftOutcome) -> &Representation {
    element(outcome).representation.as_ref().expect("geometry")
}

fn name(outcome: &DraftOutcome) -> Option<String> {
    element(outcome).name.clone()
}

fn placement_of(outcome: &DraftOutcome) -> Placement {
    element(outcome).placement
}

#[test]
fn two_clicks_make_a_wall() {
    let mut draft = wall_draft();
    assert!(matches!(draft.click(at(0.0, 0.0, 0.0), &[], &Flat).unwrap(), DraftOutcome::Pending(_)));
    assert!(draft.is_drawing());

    let outcome = draft.click(at(5.0, 0.0, 0.0), &[], &Flat).unwrap();
    let Representation::ExtrudedAreaSolid { profile, depth, .. } = representation(&outcome) else {
        panic!("a wall must be a swept solid, not a mesh");
    };
    let xs: Vec<f64> = profile.iter().map(|p| f64::from_bits(p[0])).collect();
    let ys: Vec<f64> = profile.iter().map(|p| f64::from_bits(p[1])).collect();
    assert!((xs.iter().cloned().fold(f64::MIN, f64::max) - 5.0).abs() < 1e-12);
    assert!((ys.iter().cloned().fold(f64::MIN, f64::max) - 0.1).abs() < 1e-12);
    assert!((f64::from_bits(*depth) - 3.0).abs() < 1e-12);

    // And it reset, ready for the next wall.
    assert!(!draft.is_drawing());
}

#[test]
fn a_wall_runs_along_its_own_local_x() {
    let mut draft = wall_draft();
    draft.click(at(1.0, 1.0, 0.0), &[], &Flat).unwrap();
    let outcome = draft.click(at(1.0, 4.0, 0.0), &[], &Flat).unwrap();

    let placement = placement_of(&outcome);
    assert!((vec3(placement.location) - DVec3::new(1.0, 1.0, 0.0)).length() < 1e-12);
    assert!(
        (vec3(placement.ref_direction) - DVec3::Y).length() < 1e-12,
        "a wall drawn north should point north, got {:?}",
        vec3(placement.ref_direction)
    );

    // The far end of the profile must land back on the second click.
    let far = to_matrix(&placement).transform_point3(DVec3::new(3.0, 0.0, 0.0));
    assert!((far - DVec3::new(1.0, 4.0, 0.0)).length() < 1e-12);
}

#[test]
fn a_zero_length_wall_is_refused_without_losing_the_start() {
    let mut draft = wall_draft();
    draft.click(at(2.0, 2.0, 0.0), &[], &Flat).unwrap();

    let error = draft.click(at(2.0, 2.0, 0.0), &[], &Flat).unwrap_err();
    assert!(matches!(error, ToolError::TooShort(_)));
    // A double-click must not throw away the point that was placed correctly.
    assert_eq!(draft.points(), &[at(2.0, 2.0, 0.0)]);

    let outcome = draft.click(at(6.0, 2.0, 0.0), &[], &Flat).unwrap();
    assert!(matches!(outcome, DraftOutcome::Commit { .. }));
}

#[test]
fn a_container_offset_is_subtracted_from_the_placement() {
    let mut draft = wall_draft();
    draft.settings.elevation = 3.0f64.to_bits();
    draft.container = Some(ContainerRef::new(GlobalId::new(), at(0.0, 0.0, 3.0)));

    draft.click(at(0.0, 0.0, 3.0), &[], &Flat).unwrap();
    let outcome = draft.click(at(4.0, 0.0, 3.0), &[], &Flat).unwrap();
    assert!(
        f64::from_bits(placement_of(&outcome).location[2]).abs() < 1e-12,
        "storey-relative placement should sit at the storey's own zero"
    );
}

#[test]
fn clicks_snap_to_candidates_and_to_the_level() {
    let mut draft = wall_draft();
    draft.settings.elevation = 3.0f64.to_bits();
    let corner = at(4.02, 0.0, 3.0);

    draft.click(at(0.0, 0.0, 0.0), &[], &Flat).unwrap();
    let outcome = draft.click(at(4.05, 0.01, 0.0), &[corner], &Flat).unwrap();
    let DraftOutcome::Commit { snap, .. } = &outcome else {
        panic!("expected a commit");
    };
    assert_eq!(snap.point, corner);
}

#[test]
fn a_slab_waits_to_be_closed() {
    let mut draft = Draft::default();
    draft.set_tool(Tool::Slab);
    for point in [at(0.0, 0.0, 0.0), at(4.0, 0.0, 0.0), at(4.0, 3.0, 0.0), at(0.0, 3.0, 0.0)] {
        assert!(matches!(draft.click(point, &[], &Flat).unwrap(), DraftOutcome::Pending(_)));
    }

    // Clicking the start again closes it, without leaving a duplicate vertex behind.
    let outcome = draft.click(at(0.0, 0.02, 0.0), &[], &Flat).unwrap();
    let Representation::ExtrudedAreaSolid { profile, direction, .. } = representation(&outcome) else {
        panic!("a slab must be a swept solid");
    };
    assert_eq!(profile.len(), 4, "closing must not repeat the first point");
    assert_eq!(*direction, [0.0f64.to_bits(), 0.0f64.to_bits(), (-1.0f64).to_bits()], "the picked outline is the top of the slab");
}

#[test]
fn a_slab_outline_that_encloses_nothing_is_refused() {
    let mut draft = Draft::default();
    draft.set_tool(Tool::Slab);
    for point in [at(0.0, 0.0, 0.0), at(4.0, 0.0, 0.0), at(8.0, 0.0, 0.0)] {
        draft.click(point, &[], &Flat).unwrap();
    }
    assert_eq!(draft.finish(&Flat).unwrap_err(), ToolError::Degenerate);
    // Still drawable: the points survive so another click can rescue the outline.
    assert_eq!(draft.points().len(), 3);
    draft.click(at(4.0, 3.0, 0.0), &[], &Flat).unwrap();
    assert!(matches!(draft.finish(&Flat).unwrap(), DraftOutcome::Commit { .. }));
}

#[test]
fn one_click_makes_a_column() {
    let mut draft = Draft::default();
    draft.set_tool(Tool::Column);
    let outcome = draft.click(at(3.0, 3.0, 0.0), &[], &Flat).unwrap();
    let Representation::ExtrudedAreaSolid { profile, .. } = representation(&outcome) else {
        panic!("a column must be a swept solid");
    };
    // Centred on the pick.
    let cx: f64 = profile.iter().map(|p| f64::from_bits(p[0])).sum::<f64>() / profile.len() as f64;
    let cy: f64 = profile.iter().map(|p| f64::from_bits(p[1])).sum::<f64>() / profile.len() as f64;
    assert!(cx.abs() < 1e-12 && cy.abs() < 1e-12);
    assert!((vec3(placement_of(&outcome).location) - DVec3::new(3.0, 3.0, 0.0)).length() < 1e-12);
}

#[test]
fn the_preview_is_what_the_click_would_build() {
    let mut draft = wall_draft();
    draft.click(at(0.0, 0.0, 0.0), &[], &Flat).unwrap();

    let cursor = at(4.03, 0.0, 0.0);
    let candidate = at(4.0, 0.0, 0.0);
    let ghost = draft.preview(cursor, &[candidate], &Flat).expect("a pending wall");
    let outcome = draft.click(cursor, &[candidate], &Flat).unwrap();

    assert_eq!(ghost.representation.as_ref(), Some(representation(&outcome)));
    assert_eq!(ghost.placement, placement_of(&outcome));
    assert_eq!(ghost.class, IfcClass::Wall);
}

#[test]
fn a_column_previews_before_its_only_click() {
    let mut draft = Draft::default();
    draft.set_tool(Tool::Column);
    let ghost = draft.preview(at(2.0, 5.0, 0.0), &[], &Flat).unwrap();
    assert!((vec3(ghost.placement.location) - DVec3::new(2.0, 5.0, 0.0)).length() < 1e-12);
    assert!(!draft.is_drawing(), "previewing must not pick anything");
}

#[test]
fn there_is_nothing_to_preview_before_a_wall_starts() {
    let draft = wall_draft();
    assert!(draft.preview(at(0.0, 0.0, 0.0), &[], &Flat).is_none());
    assert!(Draft::default().preview(at(0.0, 0.0, 0.0), &[], &Flat).is_none());
}

#[test]
fn the_select_tool_draws_nothing() {
    let mut draft = Draft::default();
    assert_eq!(draft.click(at(0.0, 0.0, 0.0), &[], &Flat).unwrap(), DraftOutcome::Ignored);
    assert!(!draft.is_drawing());
}

#[test]
fn each_tool_numbers_its_own_elements() {
    let mut draft = Draft::default();
    draft.set_tool(Tool::Column);
    let first = draft.click(at(0.0, 0.0, 0.0), &[], &Flat).unwrap();
    draft.set_tool(Tool::Wall);
    draft.click(at(0.0, 0.0, 0.0), &[], &Flat).unwrap();
    let wall = draft.click(at(4.0, 0.0, 0.0), &[], &Flat).unwrap();

    assert_eq!(name(&first).as_deref(), Some("Column 1"));
    assert_eq!(name(&wall).as_deref(), Some("Wall 1"));
}

#[test]
fn switching_tools_abandons_a_half_drawn_element() {
    let mut draft = wall_draft();
    draft.click(at(0.0, 0.0, 0.0), &[], &Flat).unwrap();
    draft.set_tool(Tool::Column);
    assert!(!draft.is_drawing());

    let outcome = draft.click(at(9.0, 9.0, 0.0), &[], &Flat).unwrap();
    assert!((vec3(placement_of(&outcome).location) - DVec3::new(9.0, 9.0, 0.0)).length() < 1e-12);
}

#[test]
fn taking_a_point_back_leaves_the_rest() {
    let mut draft = Draft::default();
    draft.set_tool(Tool::Slab);
    draft.click(at(0.0, 0.0, 0.0), &[], &Flat).unwrap();
    draft.click(at(4.0, 0.0, 0.0), &[], &Flat).unwrap();
    assert_eq!(draft.undo_point(), Some(at(4.0, 0.0, 0.0)));
    assert_eq!(draft.points(), &[at(0.0, 0.0, 0.0)]);
}

#[test]
fn drawn_elements_are_ordinary_commands() {
    let mut model = Model::new();
    let mut draft = wall_draft();
    draft.click(at(0.0, 0.0, 0.0), &[], &Flat).unwrap();
    let DraftOutcome::Commit { commands, global_id, .. } = draft.click(at(4.0, 0.0, 0.0), &[], &Flat).unwrap() else {
        panic!("expected a commit");
    };

    model.apply_all(commands).unwrap();
    assert!(model.contains(&global_id));

    model.undo().unwrap();
    assert!(model.is_empty());
    model.redo().unwrap();
    assert!(model.get(&global_id).unwrap().representation.is_some());
}

#[test]
fn every_tool_authors_native_parametric_geometry() {
    let mut draft = Draft::default();

    draft.set_tool(Tool::Wall);
    draft.click(at(0.0, 0.0, 0.0), &[], &Flat).unwrap();
    let wall = draft.click(at(3.0, 0.0, 0.0), &[], &Flat).unwrap();

    draft.set_tool(Tool::Column);
    let column = draft.click(at(1.0, 1.0, 0.0), &[], &Flat).unwrap();

    draft.set_tool(Tool::Slab);
    for point in [at(0.0, 0.0, 0.0), at(3.0, 0.0, 0.0), at(3.0, 3.0, 0.0)] {
        draft.click(point, &[], &Flat).unwrap();
    }
    let slab = draft.finish(&Flat).unwrap();

    for outcome in [&wall, &column, &slab] {
        let representation = representation(outcome);
        assert!(representation.is_native_parametric());
        assert!(representation.is_valid());
    }
}

// ---- beyond the original's cases ---------------------------------------------------------

#[test]
fn numbering_continues_within_a_tool_and_files_into_the_container() {
    let mut draft = Draft::default();
    let storey = GlobalId::new();
    draft.container = Some(ContainerRef::new(storey.clone(), at(0.0, 0.0, 0.0)));
    draft.set_tool(Tool::Column);
    let first = draft.click(at(0.0, 0.0, 0.0), &[], &Flat).unwrap();
    let second = draft.click(at(2.0, 0.0, 0.0), &[], &Flat).unwrap();
    assert_eq!(name(&first).as_deref(), Some("Column 1"));
    assert_eq!(name(&second).as_deref(), Some("Column 2"));
    assert_eq!(element(&second).container.as_ref(), Some(&storey));
    assert_eq!(element(&second).class, IfcClass::Column);
}

#[test]
fn finishing_too_early_does_nothing() {
    let mut draft = Draft::default();
    draft.set_tool(Tool::Slab);
    draft.click(at(0.0, 0.0, 0.0), &[], &Flat).unwrap();
    assert_eq!(draft.finish(&Flat).unwrap(), DraftOutcome::Ignored);
    assert_eq!(draft.points().len(), 1);
    draft.cancel();
    assert!(!draft.is_drawing());
    assert_eq!(draft.undo_point(), None);
}
