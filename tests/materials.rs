use photonlab_core::materials::{get_material_name, MaterialId, MaterialMap, MaterialType};

#[test]
fn test_pec_detection() {
    let metal = MaterialId::from_id(3);
    assert!(metal.is_pec());
    assert!(metal.material_type().is_pec());

    let glass = MaterialId::from_id(1);
    assert!(!glass.is_pec());
    assert!(!glass.material_type().is_pec());
}

#[test]
fn unknown_ids_are_vacuum() {
    assert_eq!(MaterialId::from_id(7), MaterialId::Vacuum);
    assert_eq!(MaterialId::from_id(u32::MAX), MaterialId::Vacuum);
    assert_eq!(MaterialId::from_id(6), MaterialId::Silicon);
}

#[test]
fn ids_round_trip() {
    for id in 0..7u32 {
        assert_eq!(MaterialId::from_id(id).id(), id);
    }
}

#[test]
fn material_types_of_presets() {
    assert_eq!(MaterialId::Absorber.material_type(), MaterialType::Absorber);
    assert_eq!(MaterialId::Water.material_type(), MaterialType::Dielectric);
    assert_eq!(MaterialId::Metal.material_type(), MaterialType::PEC);
    assert!(!MaterialType::Source.is_pec());
}

#[test]
fn material_names() {
    assert_eq!(get_material_name(0), "Vacuum");
    assert_eq!(get_material_name(2), "Water");
    assert_eq!(get_material_name(4), "Absorber");
    assert_eq!(get_material_name(6), "Silicon");
    assert_eq!(get_material_name(9), "Unknown");
}

#[test]
fn later_assignments_override_earlier_ones() {
    let mut map = MaterialMap::new(4, 3);
    map.apply_cells(&vec![(1, 1, 3), (2, 1, 1), (1, 1, 5), (9, 9, 3)]);
    assert_eq!(map.get(1, 1), Some(MaterialId::Crystal));
    assert_eq!(map.get(2, 1), Some(MaterialId::Glass));
    assert_eq!(map.get(0, 0), Some(MaterialId::Vacuum));
    assert_eq!(map.get(4, 0), None);
    assert_eq!(map.at_index(6), MaterialId::Glass);
}

#[test]
fn applying_a_cell_list_twice_equals_applying_it_once() {
    let cells = vec![(0, 0, 3), (1, 2, 2), (0, 0, 1), (3, 2, 4), (2, 2, 9), (7, 0, 3)];
    let mut once = MaterialMap::new(4, 3);
    once.apply_cells(&cells);
    let mut twice = MaterialMap::new(4, 3);
    twice.apply_cells(&cells);
    twice.apply_cells(&cells);
    for k in 0..12 {
        assert_eq!(once.at_index(k), twice.at_index(k));
    }
    assert_eq!(once.get(0, 0), Some(MaterialId::Glass));
    assert_eq!(once.get(2, 2), Some(MaterialId::Vacuum));
}

#[test]
fn set_cell_outside_is_ignored() {
    let mut map = MaterialMap::new(2, 2);
    map.set_cell(2, 0, 3);
    map.set_cell(0, 2, 3);
    for k in 0..4 {
        assert_eq!(map.at_index(k), MaterialId::Vacuum);
    }
    map.set_cell(1, 1, 3);
    assert_eq!(map.at_index(3), MaterialId::Metal);
}

#[test]
fn clearing_twice_leaves_vacuum() {
    let mut map = MaterialMap::new(3, 2);
    map.apply_cells(&vec![(0, 0, 3), (2, 1, 6)]);
    map.clear();
    map.clear();
    for k in 0..6 {
        assert_eq!(map.at_index(k), MaterialId::Vacuum);
    }
    assert_eq!((map.get_width(), map.get_height()), (3, 2));
}
