use cadforge::element::IfcClass;
use cadforge::family::{FamilyDefinition, FamilyError, FamilyType, HostBehavior, IfcTypeMapping, ParamScope, RepresentationKind};
use cadforge::geometry::{GeometryError, IndexedMesh, UnavailableCsg};
use cadforge::param::{ParamBag, ParamDef, ParamValue};
use cadforge::recipe::{sweep_from, sweep_of, Arithmetic, Expr, GeometryRecipe, ProfileSpec, RecipeGeometry, RecipeOp};
use cadforge::representation::Representation;
use glam::{DVec2, DVec3};

// ---- the floating-point side, as the application supplies it ----------------------------

struct F64;

impl Arithmetic for F64 {
    fn sum(&self, a: u64, b: u64) -> u64 {
        (f64::from_bits(a) + f64::from_bits(b)).to_bits()
    }
    fn difference(&self, a: u64, b: u64) -> u64 {
        (f64::from_bits(a) - f64::from_bits(b)).to_bits()
    }
    fn product(&self, a: u64, b: u64) -> u64 {
        (f64::from_bits(a) * f64::from_bits(b)).to_bits()
    }
    fn quotient(&self, a: u64, b: u64) -> u64 {
        (f64::from_bits(a) / f64::from_bits(b)).to_bits()
    }
}

fn bits3(v: DVec3) -> [u64; 3] {
    [v.x.to_bits(), v.y.to_bits(), v.z.to_bits()]
}

fn vec3(b: [u64; 3]) -> DVec3 {
    DVec3::new(f64::from_bits(b[0]), f64::from_bits(b[1]), f64::from_bits(b[2]))
}

fn signed_area(points: &[DVec2]) -> f64 {
    let n = points.len();
    (0..n).map(|i| points[i].x * points[(i + 1) % n].y - points[(i + 1) % n].x * points[i].y).sum::<f64>() * 0.5
}

fn outline(points: Vec<DVec2>) -> Result<Vec<DVec2>, GeometryError> {
    let mut points = points;
    if points.iter().any(|p| !p.is_finite()) {
        return Err(GeometryError::NonFinite);
    }
    points.dedup_by(|a, b| a.abs_diff_eq(*b, 1e-12));
    if points.len() >= 2 && points[0].abs_diff_eq(points[points.len() - 1], 1e-12) {
        points.pop();
    }
    if points.len() < 3 {
        return Err(GeometryError::TooFewPoints(points.len()));
    }
    let area = signed_area(&points);
    if area.abs() < 1e-12 {
        return Err(GeometryError::ZeroArea);
    }
    if area < 0.0 {
        points.reverse();
    }
    Ok(points)
}

fn cross(a: DVec2, b: DVec2) -> f64 {
    a.x * b.y - a.y * b.x
}

/// Ear clipping of a counter-clockwise polygon.
fn triangulate(points: &[DVec2]) -> Vec<[usize; 3]> {
    let mut remaining: Vec<usize> = (0..points.len()).collect();
    let mut out = Vec::new();
    while remaining.len() > 3 {
        let n = remaining.len();
        let ear = (0..n).find(|&i| {
            let (p, c, x) = (remaining[(i + n - 1) % n], remaining[i], remaining[(i + 1) % n]);
            let (a, b, d) = (points[p], points[c], points[x]);
            cross(b - a, d - b) > 0.0
                && !remaining.iter().filter(|&&k| k != p && k != c && k != x).any(|&k| {
                    let q = points[k];
                    cross(b - a, q - a) >= 0.0 && cross(d - b, q - b) >= 0.0 && cross(a - d, q - d) >= 0.0
                })
        });
        let i = ear.expect("a simple polygon always has an ear");
        out.push([remaining[(i + n - 1) % n], remaining[i], remaining[(i + 1) % n]]);
        remaining.remove(i);
    }
    out.push([remaining[0], remaining[1], remaining[2]]);
    out
}

fn push_triangle(mesh: &mut IndexedMesh, a: DVec3, b: DVec3, c: DVec3) {
    let Some(normal) = (b - a).cross(c - a).try_normalize() else {
        return;
    };
    let base = mesh.positions.len() as u32;
    mesh.positions.extend_from_slice(&[bits3(a), bits3(b), bits3(c)]);
    mesh.normals.extend_from_slice(&[bits3(normal); 3]);
    mesh.indices.extend_from_slice(&[base, base + 1, base + 2]);
}

fn volume(mesh: &IndexedMesh) -> f64 {
    mesh.indices
        .chunks_exact(3)
        .map(|t| {
            let (a, b, c) = (vec3(mesh.positions[t[0] as usize]), vec3(mesh.positions[t[1] as usize]), vec3(mesh.positions[t[2] as usize]));
            a.dot(b.cross(c)) / 6.0
        })
        .sum()
}

fn size(mesh: &IndexedMesh) -> DVec3 {
    let (mut lo, mut hi) = (DVec3::splat(f64::INFINITY), DVec3::splat(f64::NEG_INFINITY));
    for p in &mesh.positions {
        lo = lo.min(vec3(*p));
        hi = hi.max(vec3(*p));
    }
    hi - lo
}

struct Sweeps;

impl RecipeGeometry for Sweeps {
    type Profile = Vec<DVec2>;

    fn build(&self, spec: &ProfileSpec, params: &ParamBag) -> Result<Vec<DVec2>, FamilyError> {
        let points = match spec {
            ProfileSpec::Rectangle { width, depth } => {
                let (w, d) = (f64::from_bits(width.eval(params, &F64)?), f64::from_bits(depth.eval(params, &F64)?));
                let (hw, hd) = (w * 0.5, d * 0.5);
                vec![DVec2::new(-hw, -hd), DVec2::new(hw, -hd), DVec2::new(hw, hd), DVec2::new(-hw, hd)]
            }
            ProfileSpec::Circle { radius } => {
                let r = f64::from_bits(radius.eval(params, &F64)?);
                let n = 32;
                (0..n).map(|i| {
                    let t = std::f64::consts::TAU * i as f64 / n as f64;
                    DVec2::new(r * t.cos(), r * t.sin())
                }).collect()
            }
            ProfileSpec::Polygon { points } => points.iter().map(|p| DVec2::new(f64::from_bits(p[0]), f64::from_bits(p[1]))).collect(),
        };
        outline(points).map_err(FamilyError::Geometry)
    }

    fn outer(&self, profile: &Vec<DVec2>) -> Vec<[u64; 2]> {
        profile.iter().map(|p| [p.x.to_bits(), p.y.to_bits()]).collect()
    }

    fn holes(&self, _profile: &Vec<DVec2>) -> usize {
        0
    }

    fn extrude(&self, profile: &Vec<DVec2>, direction: [u64; 3], depth: u64) -> Result<IndexedMesh, GeometryError> {
        let depth = f64::from_bits(depth);
        if !depth.is_finite() || depth == 0.0 {
            return Err(GeometryError::InvalidDepth(depth.to_bits()));
        }
        let along = vec3(direction).try_normalize().ok_or(GeometryError::DegenerateDirection)? * depth;
        let (to_bottom, to_top) = if along.z > 0.0 { (DVec3::ZERO, along) } else { (along, DVec3::ZERO) };
        let bottom: Vec<DVec3> = profile.iter().map(|p| DVec3::new(p.x, p.y, 0.0) + to_bottom).collect();
        let top: Vec<DVec3> = profile.iter().map(|p| DVec3::new(p.x, p.y, 0.0) + to_top).collect();
        let mut mesh = IndexedMesh::new();
        for [a, b, c] in triangulate(profile) {
            push_triangle(&mut mesh, bottom[a], bottom[c], bottom[b]);
            push_triangle(&mut mesh, top[a], top[b], top[c]);
        }
        let n = profile.len();
        for i in 0..n {
            let j = (i + 1) % n;
            push_triangle(&mut mesh, bottom[i], bottom[j], top[j]);
            push_triangle(&mut mesh, bottom[i], top[j], top[i]);
        }
        Ok(mesh)
    }

    fn translate(&self, mesh: &IndexedMesh, delta: [u64; 3]) -> IndexedMesh {
        let mut out = mesh.clone();
        for p in out.positions.iter_mut() {
            *p = bits3(vec3(*p) + vec3(delta));
        }
        out
    }
}

fn b(x: f64) -> u64 {
    x.to_bits()
}

fn up() -> [u64; 3] {
    [b(0.0), b(0.0), b(1.0)]
}

fn konst(x: f64) -> Expr {
    Expr::Const(b(x))
}

fn bag() -> ParamBag {
    let mut p = ParamBag::new();
    p.insert("Width", ParamValue::Length(b(0.9)));
    p.insert("Height", ParamValue::Length(b(2.1)));
    p.insert("Thickness", ParamValue::Length(b(0.05)));
    p.insert("Finish", ParamValue::Text("oak".into()));
    p
}

fn plus(a: Expr, c: Expr) -> Expr {
    Expr::Add(Box::new(a), Box::new(c))
}

fn door_family() -> FamilyDefinition {
    let leaf = GeometryRecipe::single_extrusion(
        ProfileSpec::Rectangle { width: Expr::param("Width"), depth: Expr::param("Thickness") },
        up(),
        Expr::param("Height"),
    )
    .unwrap();
    let void = GeometryRecipe::single_extrusion(
        ProfileSpec::Rectangle { width: plus(Expr::param("Width"), Expr::param("FrameClearance")), depth: konst(1.0) },
        up(),
        plus(Expr::param("Height"), Expr::param("FrameClearance")),
    )
    .unwrap();
    FamilyDefinition::new(
        "Single Flush Door",
        IfcTypeMapping::new(IfcClass::Door).with_predefined_type("DOOR"),
        vec![
            ParamDef::length("Width", b(0.9)).with_range(b(0.4), b(2.4)),
            ParamDef::length("Height", b(2.1)).with_range(b(1.2), b(3.6)),
            ParamDef::length("Thickness", b(0.045)),
            ParamDef::length("FrameClearance", b(0.02)),
            ParamDef::instance_length("SillHeight", b(0.0)),
            ParamDef::new("Finish", ParamValue::Text("Painted".into()), ParamScope::Type),
        ],
        leaf,
    )
    .unwrap()
    .with_host(HostBehavior::WallHosted { cuts_host: true })
    .with_void_recipe(void)
    .with_type(FamilyType::new("900 x 2100").set("Width", ParamValue::Length(b(0.9))).set("Height", ParamValue::Length(b(2.1))))
    .with_type(FamilyType::new("1200 x 2400").set("Width", ParamValue::Length(b(1.2))).set("Height", ParamValue::Length(b(2.4))))
}

fn extrusion_of_size(size: f64) -> RecipeOp {
    RecipeOp::Extrude {
        profile: ProfileSpec::Rectangle { width: konst(size), depth: konst(size) },
        direction: up(),
        depth: konst(size),
    }
}

// ---- expressions -------------------------------------------------------------------------

#[test]
fn expressions_evaluate_against_parameters() {
    let params = bag();
    // Width - 2 * Thickness
    let e = Expr::Sub(Box::new(Expr::param("Width")), Box::new(Expr::Mul(Box::new(konst(2.0)), Box::new(Expr::param("Thickness")))));
    assert!((f64::from_bits(e.eval(&params, &F64).unwrap()) - 0.8).abs() < 1e-12);
}

#[test]
fn expression_failures_name_the_cause() {
    let params = bag();
    assert_eq!(Expr::param("Missing").eval(&params, &F64), Err(FamilyError::UnknownParameter("Missing".into())));
    assert_eq!(Expr::param("Finish").eval(&params, &F64), Err(FamilyError::NotNumeric("Finish".into())));
    assert_eq!(
        Expr::Div(Box::new(Expr::param("Width")), Box::new(konst(0.0))).eval(&params, &F64),
        Err(FamilyError::DivideByZero)
    );
}

// ---- recipes -----------------------------------------------------------------------------

#[test]
fn translate_moves_the_referenced_step() {
    let recipe = GeometryRecipe::new(vec![
        extrusion_of_size(1.0),
        RecipeOp::Translate { source: 0, offset: [konst(5.0), konst(0.0), konst(0.0)] },
    ])
    .unwrap();
    let mesh = recipe.evaluate(&bag(), &F64, &Sweeps, &UnavailableCsg).unwrap();
    let xs: Vec<f64> = mesh.positions.iter().map(|p| f64::from_bits(p[0])).collect();
    let centre = (xs.iter().cloned().fold(f64::INFINITY, f64::min) + xs.iter().cloned().fold(f64::NEG_INFINITY, f64::max)) * 0.5;
    assert!((centre - 5.0).abs() < 1e-12);
    assert!((volume(&mesh) - 1.0).abs() < 1e-9);
}

#[test]
fn a_boolean_step_fails_loudly_without_a_backend() {
    let recipe = GeometryRecipe::new(vec![extrusion_of_size(2.0), extrusion_of_size(1.0), RecipeOp::Difference { a: 0, b: 1 }]).unwrap();
    assert_eq!(
        recipe.evaluate(&bag(), &F64, &Sweeps, &UnavailableCsg),
        Err(FamilyError::Geometry(GeometryError::CsgUnavailable))
    );
}

#[test]
fn a_single_extrusion_becomes_a_swept_solid_without_tessellating() {
    let recipe = GeometryRecipe::single_extrusion(
        ProfileSpec::Rectangle { width: Expr::param("Width"), depth: Expr::param("Thickness") },
        up(),
        Expr::param("Height"),
    )
    .unwrap();

    let r = recipe.to_representation(&bag(), &F64, &Sweeps, &UnavailableCsg).unwrap();
    assert!(r.is_native_parametric());
    assert!(r.is_valid());

    let Representation::ExtrudedAreaSolid { profile, direction, depth } = &r else {
        panic!("expected a swept solid");
    };
    assert_eq!(profile.len(), 4, "a rectangle stays four points, not triangles");
    assert_eq!(*direction, up());
    assert!((f64::from_bits(*depth) - 2.1).abs() < 1e-12);
}

#[test]
fn a_multi_step_recipe_degrades_visibly_to_triangles() {
    let recipe = GeometryRecipe::new(vec![
        extrusion_of_size(1.0),
        RecipeOp::Translate { source: 0, offset: [konst(2.0), konst(0.0), konst(0.0)] },
    ])
    .unwrap();

    let r = recipe.to_representation(&bag(), &F64, &Sweeps, &UnavailableCsg).unwrap();
    assert!(!r.is_native_parametric());
    assert!(r.is_valid());
    assert_eq!(r.ifc_representation_type(), "Tessellation");
}

#[test]
fn a_zero_depth_extrusion_is_refused_rather_than_written() {
    let recipe = GeometryRecipe::single_extrusion(
        ProfileSpec::Rectangle { width: konst(1.0), depth: konst(1.0) },
        up(),
        konst(0.0),
    )
    .unwrap();
    assert_eq!(
        recipe.to_representation(&bag(), &F64, &Sweeps, &UnavailableCsg),
        Err(FamilyError::Geometry(GeometryError::InvalidDepth(0.0f64.to_bits())))
    );
}

#[test]
fn evaluation_is_deterministic() {
    let recipe = GeometryRecipe::single_extrusion(ProfileSpec::Circle { radius: Expr::param("Thickness") }, up(), Expr::param("Height")).unwrap();
    let a = recipe.evaluate(&bag(), &F64, &Sweeps, &UnavailableCsg).unwrap();
    let b = recipe.evaluate(&bag(), &F64, &Sweeps, &UnavailableCsg).unwrap();
    assert_eq!(a, b);
}

// ---- families ----------------------------------------------------------------------------

#[test]
fn flexing_a_type_changes_the_geometry() {
    let family = door_family();
    let small = family.evaluate(Some("900 x 2100"), &ParamBag::new(), &F64, &Sweeps, &UnavailableCsg).unwrap();
    let large = family.evaluate(Some("1200 x 2400"), &ParamBag::new(), &F64, &Sweeps, &UnavailableCsg).unwrap();

    assert!((volume(&small) - 0.9 * 0.045 * 2.1).abs() < 1e-9);
    assert!((volume(&large) - 1.2 * 0.045 * 2.4).abs() < 1e-9);
    assert!(volume(&large) > volume(&small));
}

#[test]
fn the_void_is_larger_than_the_leaf_it_frames() {
    let family = door_family();
    let leaf = family.evaluate(Some("900 x 2100"), &ParamBag::new(), &F64, &Sweeps, &UnavailableCsg).unwrap();
    let void = family
        .evaluate_void(Some("900 x 2100"), &ParamBag::new(), &F64, &Sweeps, &UnavailableCsg)
        .unwrap()
        .expect("a door declares its void");

    assert!(size(&void).x > size(&leaf).x);
    assert!(size(&void).z > size(&leaf).z);
}

// ---- beyond the original's cases ---------------------------------------------------------

#[test]
fn a_divisor_is_checked_before_its_dividend_is_read() {
    let e = Expr::Div(Box::new(Expr::param("Missing")), Box::new(konst(0.0)));
    assert_eq!(e.eval(&bag(), &F64), Err(FamilyError::DivideByZero));
    let e = Expr::Div(Box::new(Expr::param("Missing")), Box::new(Expr::param("Finish")));
    assert_eq!(e.eval(&bag(), &F64), Err(FamilyError::NotNumeric("Finish".into())));
}

#[test]
fn a_family_without_a_void_declares_none() {
    let family = FamilyDefinition::new(
        "Box",
        IfcTypeMapping::new(IfcClass::Furniture),
        vec![ParamDef::length("Width", b(1.0))],
        GeometryRecipe::single_extrusion(ProfileSpec::Rectangle { width: Expr::param("Width"), depth: konst(1.0) }, up(), konst(1.0)).unwrap(),
    )
    .unwrap();
    assert_eq!(family.evaluate_void(None, &ParamBag::new(), &F64, &Sweeps, &UnavailableCsg), Ok(None));
    assert_eq!(family.void_representation(None, &ParamBag::new(), &F64, &Sweeps, &UnavailableCsg), Ok(None));
    let rep = family.representation(None, &ParamBag::new(), &F64, &Sweeps, &UnavailableCsg).unwrap();
    assert!(rep.is_native_parametric());
}

#[test]
fn a_single_extrusion_exports_natively() {
    let recipe = GeometryRecipe::single_extrusion(
        ProfileSpec::Rectangle { width: Expr::param("Width"), depth: Expr::param("Thickness") },
        up(),
        Expr::param("Height"),
    )
    .unwrap();
    assert_eq!(recipe.representation_kind(), RepresentationKind::NativeParametric);
    let mesh = recipe.evaluate(&bag(), &F64, &Sweeps, &UnavailableCsg).unwrap();
    // 0.9 x 0.05 x 2.1
    assert!((volume(&mesh) - 0.0945).abs() < 1e-9);
}

#[test]
fn a_sweep_keeps_its_profile_and_folds_a_negative_depth() {
    let profile = vec![[b(0.0), b(0.0)], [b(1.0), b(0.0)], [b(1.0), b(1.0)], [b(0.0), b(1.0)]];
    match sweep_of(profile.clone(), up(), b(-2.0)).unwrap() {
        Representation::ExtrudedAreaSolid { profile: p, direction, depth } => {
            assert_eq!(p, profile);
            assert_eq!(direction, [b(-0.0), b(-0.0), b(-1.0)]);
            assert_eq!(depth, b(2.0));
        },
        other => panic!("expected a swept solid, got {other:?}"),
    }
}

#[test]
fn a_sweep_refuses_a_depth_that_is_zero_or_not_finite() {
    let profile = vec![[b(0.0), b(0.0)], [b(1.0), b(0.0)], [b(1.0), b(1.0)]];
    assert_eq!(
        sweep_of(profile.clone(), up(), b(0.0)),
        Err(FamilyError::Geometry(GeometryError::InvalidDepth(b(0.0))))
    );
    assert_eq!(
        sweep_of(profile, up(), b(f64::INFINITY)),
        Err(FamilyError::Geometry(GeometryError::InvalidDepth(b(f64::INFINITY))))
    );
}

#[test]
fn a_sweep_from_an_evaluated_depth_keeps_the_profile() {
    let profile = vec![[b(0.0), b(0.0)], [b(2.0), b(0.0)], [b(2.0), b(1.0)], [b(0.0), b(1.0)]];
    match sweep_from(profile.clone(), up(), Ok(b(3.0))).unwrap() {
        Representation::ExtrudedAreaSolid { profile: p, direction, depth } => {
            assert_eq!(p, profile);
            assert_eq!(direction, up());
            assert_eq!(depth, b(3.0));
        },
        other => panic!("expected a swept solid, got {other:?}"),
    }
}

#[test]
fn a_sweep_from_a_failed_depth_passes_the_error_on() {
    let profile = vec![[b(0.0), b(0.0)], [b(1.0), b(0.0)], [b(1.0), b(1.0)]];
    assert_eq!(sweep_from(profile.clone(), up(), Err(FamilyError::EmptyRecipe)), Err(FamilyError::EmptyRecipe));
    assert_eq!(
        sweep_from(profile, up(), Ok(b(0.0))),
        Err(FamilyError::Geometry(GeometryError::InvalidDepth(b(0.0))))
    );
}
