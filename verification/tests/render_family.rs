use cadforge::element::IfcClass;
use cadforge::family::{HostBehavior, IfcTypeMapping, ParamScope, ParamType, RepresentationKind};
use cadforge::element::BoundingBox;
use cadforge::fragment::{FragmentId, FragmentSet, GeometrySource};
use cadforge::id::GlobalId;
use cadforge::param::ParamValue;
use cadforge::tools::Tool;

#[test]
fn pick_ids_round_trip_through_a_colour() {
    for raw in [1u32, 2, 255, 256, 65_535, 16_777_216, u32::MAX] {
        let id = FragmentId(raw);
        assert_eq!(FragmentId::from_pick_color(id.to_pick_color()), id);
    }
}

#[test]
fn a_cleared_pick_buffer_reads_as_a_miss() {
    assert!(FragmentId::from_pick_color([0, 0, 0, 0]).is_none());
    let (set, _) = set_with(3, 1);
    assert_eq!(set.element_at(FragmentId::none()), None);
}

#[test]
fn only_the_zero_id_is_a_miss() {
    assert!(FragmentId::none().is_none());
    assert!(!FragmentId(1).is_none());
}

#[test]
fn pick_colours_are_little_endian() {
    assert_eq!(FragmentId(0x0403_0201).to_pick_color(), [1, 2, 3, 4]);
    let g = GeometrySource { hash: 7, vertex_count: 24, index_count: 36 };
    assert_eq!(g, GeometrySource { hash: 7, vertex_count: 24, index_count: 36 });
}

#[test]
fn representation_kinds_say_whether_they_degrade() {
    assert!(!RepresentationKind::NativeParametric.is_degraded());
    assert!(RepresentationKind::Tessellated.is_degraded());
    assert_eq!(RepresentationKind::NativeParametric.ifc_representation(), "IfcExtrudedAreaSolid");
    assert_eq!(RepresentationKind::Tessellated.ifc_representation(), "IfcTriangulatedFaceSet");
}

#[test]
fn hosting_behaviours() {
    assert!(HostBehavior::WallHosted { cuts_host: true }.cuts_host());
    assert!(!HostBehavior::WallHosted { cuts_host: false }.cuts_host());
    assert!(HostBehavior::WallHosted { cuts_host: false }.requires_host());
    assert!(HostBehavior::FaceHosted.requires_host());
    assert!(!HostBehavior::Free.requires_host());
    assert!(!HostBehavior::LevelHosted.requires_host());
    assert_eq!(HostBehavior::LevelHosted.name(), "level-hosted");
    assert_eq!(HostBehavior::WallHosted { cuts_host: true }.name(), "wall-hosted");
}

#[test]
fn a_type_mapping_carries_its_predefined_type_and_property_set() {
    let m = IfcTypeMapping::new(IfcClass::Door)
        .with_predefined_type("DOOR")
        .with_property_set("Pset_DoorCommon");
    assert_eq!(m.entity, IfcClass::Door);
    assert_eq!(m.predefined_type.as_deref(), Some("DOOR"));
    assert_eq!(m.property_set.as_deref(), Some("Pset_DoorCommon"));
    assert_eq!(IfcTypeMapping::new(IfcClass::Wall).predefined_type, None);
}

#[test]
fn counts_read_as_numbers() {
    assert_eq!(ParamValue::Count(3).as_f64(), Some(3.0f64.to_bits()));
    assert_eq!(ParamValue::Boolean(true).as_f64(), None);
    assert!(ParamType::Length.is_numeric());
    assert!(ParamType::Count.is_numeric());
    assert!(!ParamType::Material.is_numeric());
    assert_eq!(ParamType::Boolean.name(), "Boolean");
    assert_ne!(ParamScope::Type, ParamScope::Instance);
}

#[test]
fn tools_know_when_they_are_done() {
    assert_eq!(Tool::default(), Tool::Select);
    assert_eq!(Tool::Wall.minimum_points(), 2);
    assert_eq!(Tool::Slab.minimum_points(), 3);
    assert!(Tool::Wall.commits_at_minimum());
    assert!(Tool::Column.commits_at_minimum());
    assert!(!Tool::Slab.commits_at_minimum());
    assert!(!Tool::Select.commits_at_minimum());
    assert_eq!(Tool::Column.label(), "Column");
}

fn bbox(min: [f64; 3], max: [f64; 3]) -> BoundingBox {
    BoundingBox {
        min: [min[0].to_bits(), min[1].to_bits(), min[2].to_bits()],
        max: [max[0].to_bits(), max[1].to_bits(), max[2].to_bits()],
    }
}

fn unit_box() -> BoundingBox {
    bbox([0.0; 3], [1.0; 3])
}

fn set_with(count: usize, geometry_hash: u64) -> (FragmentSet, Vec<GlobalId>) {
    let mut set = FragmentSet::new();
    let mut ids = Vec::new();
    for i in 0..count {
        let element = GlobalId::new();
        let x = i as f64 * 5.0;
        set.insert(
            element.clone(),
            GeometrySource { hash: geometry_hash, vertex_count: 24, index_count: 36 },
            "concrete",
            bbox([x, 0.0, 0.0], [x + 2.0, 2.0, 2.0]),
            0,
        );
        ids.push(element);
    }
    (set, ids)
}

#[test]
fn ids_never_collide_with_the_miss_sentinel() {
    let (set, _) = set_with(100, 1);
    assert!(set.iter().iter().all(|f| !f.id.is_none()));
}

#[test]
fn a_pick_maps_back_to_its_element() {
    let mut set = FragmentSet::new();
    let element = GlobalId::new();
    let id = set.insert(
        element.clone(),
        GeometrySource { hash: 42, vertex_count: 8, index_count: 36 },
        "glass",
        unit_box(),
        3,
    );
    let picked = FragmentId::from_pick_color(id.to_pick_color());
    assert_eq!(set.element_at(picked), Some(&element));
}

#[test]
fn invalidating_an_element_removes_all_of_its_fragments() {
    let mut set = FragmentSet::new();
    let element = GlobalId::new();
    for _ in 0..3 {
        set.insert(
            element.clone(),
            GeometrySource { hash: 1, vertex_count: 8, index_count: 36 },
            "concrete",
            unit_box(),
            0,
        );
    }
    set.insert(
        GlobalId::new(),
        GeometrySource { hash: 2, vertex_count: 8, index_count: 36 },
        "steel",
        unit_box(),
        0,
    );
    assert_eq!(set.len(), 4);

    assert_eq!(set.invalidate(&element), 3);
    assert_eq!(set.len(), 1);
    assert!(set.fragments_of(&element).is_empty());
    assert_eq!(set.invalidate(&element), 0, "invalidating twice is harmless");
}

#[test]
fn staleness_is_detected_by_revision_and_by_deletion() {
    let mut set = FragmentSet::new();
    let live = GlobalId::new();
    let moved = GlobalId::new();
    let deleted = GlobalId::new();
    for element in [&live, &moved, &deleted] {
        set.insert(
            element.clone(),
            GeometrySource { hash: 1, vertex_count: 8, index_count: 36 },
            "concrete",
            unit_box(),
            7,
        );
    }

    let current = |id: &GlobalId| -> Option<u64> {
        if id == &live {
            Some(7)
        } else if id == &moved {
            Some(8)
        } else {
            None
        }
    };

    let stale = set.stale(&current);
    assert_eq!(stale.len(), 2);
    let stale_elements: Vec<&GlobalId> = stale.iter().filter_map(|id| set.element_at(*id)).collect();
    assert!(stale_elements.contains(&&moved));
    assert!(stale_elements.contains(&&deleted));
    assert!(!stale_elements.contains(&&live));
}

#[test]
fn repeated_geometry_is_visible_as_an_instancing_opportunity() {
    let (set, _) = set_with(400, 0xD00D);
    assert_eq!(set.len(), 400);
    assert_eq!(set.distinct_geometries(), 1, "400 identical doors, one upload");
    assert_eq!(set.total_triangles(), 400 * 12);
}

#[test]
fn visibility_filtering_uses_the_supplied_test() {
    let (set, _) = set_with(10, 1);
    let near_origin = set.visible(|b: &BoundingBox| f64::from_bits(b.min[0]) < 12.0);
    assert_eq!(near_origin.len(), 3);
    assert!(set.visible(|_: &BoundingBox| false).is_empty());
    assert_eq!(set.visible(|_: &BoundingBox| true).len(), 10);
}

#[test]
fn fragment_ids_count_up_from_one_in_insertion_order() {
    let (set, elements) = set_with(3, 5);
    let ids: Vec<u32> = set.iter().iter().map(|f| f.id.0).collect();
    assert_eq!(ids, vec![1, 2, 3]);
    assert_eq!(set.fragments_of(&elements[1]), &[FragmentId(2)]);
    assert_eq!(set.get(FragmentId(3)).map(|f| f.triangle_count()), Some(12));
    assert!(set.get(FragmentId(4)).is_none());
    assert!(FragmentSet::new().is_empty());
}

#[test]
fn distinct_geometries_counts_each_hash_once() {
    let mut set = FragmentSet::new();
    for hash in [3u64, 1, 3, 2, 1] {
        set.insert(
            GlobalId::new(),
            GeometrySource { hash, vertex_count: 3, index_count: 3 },
            "steel",
            unit_box(),
            0,
        );
    }
    assert_eq!(set.distinct_geometries(), 3);
    assert_eq!(set.total_triangles(), 5);
}

#[test]
fn stale_fragments_come_back_in_id_order() {
    let (set, elements) = set_with(4, 1);
    let keep = elements[2].clone();
    let stale = set.stale(|g: &GlobalId| if *g == keep { Some(0) } else { Some(1) });
    assert_eq!(stale, vec![FragmentId(1), FragmentId(2), FragmentId(4)]);
}
