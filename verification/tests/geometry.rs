use cadforge::geometry::{CsgBackend, GeometryError, IndexedMesh, UnavailableCsg};
use cadforge::gpu::GpuError;
use glam::DVec3;

fn bits3(v: DVec3) -> [u64; 3] {
    [v.x.to_bits(), v.y.to_bits(), v.z.to_bits()]
}

/// A triangle with the normal its winding gives; a degenerate one is dropped.
fn push_triangle(mesh: &mut IndexedMesh, a: DVec3, b: DVec3, c: DVec3) {
    let Some(normal) = (b - a).cross(c - a).try_normalize() else {
        return;
    };
    let base = mesh.positions.len() as u32;
    mesh.positions.extend_from_slice(&[bits3(a), bits3(b), bits3(c)]);
    mesh.normals.extend_from_slice(&[bits3(normal); 3]);
    mesh.indices.extend_from_slice(&[base, base + 1, base + 2]);
}

/// Unit cube centred on the origin, built face by face with outward normals.
fn unit_cube() -> IndexedMesh {
    let mut mesh = IndexedMesh::with_capacity(12);
    let h = 0.5;
    let corners = [
        DVec3::new(-h, -h, -h),
        DVec3::new(h, -h, -h),
        DVec3::new(h, h, -h),
        DVec3::new(-h, h, -h),
        DVec3::new(-h, -h, h),
        DVec3::new(h, -h, h),
        DVec3::new(h, h, h),
        DVec3::new(-h, h, h),
    ];
    let faces = [[0, 3, 2, 1], [4, 5, 6, 7], [0, 1, 5, 4], [1, 2, 6, 5], [2, 3, 7, 6], [3, 0, 4, 7]];
    for [a, b, c, d] in faces {
        push_triangle(&mut mesh, corners[a], corners[b], corners[c]);
        push_triangle(&mut mesh, corners[a], corners[c], corners[d]);
    }
    mesh
}

fn box_mesh(size: f64) -> IndexedMesh {
    let mut mesh = unit_cube();
    for p in mesh.positions.iter_mut() {
        *p = p.map(|c| (f64::from_bits(c) * size).to_bits());
    }
    mesh
}

#[test]
fn append_rebases_indices() {
    let mut a = unit_cube();
    let b = unit_cube();
    a.append(&b);
    assert_eq!(a.triangle_count(), 24);
    assert!(a.is_well_formed());
}

#[test]
fn an_empty_mesh_is_well_formed() {
    let mesh = IndexedMesh::new();
    assert!(mesh.is_well_formed());
    assert!(mesh.is_empty());
    assert_eq!(mesh.vertex_count(), 0);
}

#[test]
fn the_default_backend_refuses_rather_than_approximating() {
    let backend = UnavailableCsg;
    let a = box_mesh(2.0);
    let b = box_mesh(1.0);

    assert_eq!(backend.union(&a, &b), Err(GeometryError::CsgUnavailable));
    assert_eq!(backend.difference(&a, &b), Err(GeometryError::CsgUnavailable));
    assert_eq!(backend.intersection(&a, &b), Err(GeometryError::CsgUnavailable));
    assert_eq!(backend.name(), "unavailable");
}

#[test]
fn subtracting_nothing_is_the_identity_even_on_a_dead_backend() {
    let a = box_mesh(2.0);
    let out = UnavailableCsg.difference_many(&a, &[]).unwrap();
    assert_eq!(out, a);
}

#[test]
fn subtracting_anything_propagates_the_failure() {
    let a = box_mesh(2.0);
    assert_eq!(UnavailableCsg.difference_many(&a, &[box_mesh(1.0)]), Err(GeometryError::CsgUnavailable));
}

// ---- beyond the original's cases ---------------------------------------------------------

#[test]
fn appended_indices_point_past_the_first_mesh() {
    let mut a = unit_cube();
    let before = a.vertex_count() as u32;
    let b = unit_cube();
    a.append(&b);
    assert_eq!(a.vertex_count(), 72);
    assert_eq!(a.indices[36], before);
    assert_eq!(*a.indices.last().unwrap(), 71);
    assert_eq!(a.clone(), a);
}

#[test]
fn an_index_past_the_vertices_is_not_well_formed() {
    let mut mesh = unit_cube();
    mesh.indices[0] = 36;
    assert!(!mesh.is_well_formed());
    let mut short = unit_cube();
    short.indices.pop();
    assert!(!short.is_well_formed());
}

#[test]
fn gpu_failures_read_as_sentences() {
    assert_eq!(GpuError::NoAdapter("none".into()).message(), "no GPU adapter available: none");
    assert_eq!(GpuError::Image("disk full".into()).message(), "writing the image failed: disk full");
}
