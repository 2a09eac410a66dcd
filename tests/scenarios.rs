use photonlab_core::scenarios::{get_scenario_description, get_scenario_name, ScenarioBuilder};

#[test]
fn test_double_slit() {
    let builder = ScenarioBuilder::new(512, 512);
    let cells = builder.build_double_slit();
    assert!(!cells.is_empty());
}

#[test]
fn test_scenario_names() {
    assert_eq!(get_scenario_name(1), "Double Slit");
    assert_eq!(get_scenario_name(2), "Waveguide");
}

#[test]
fn scenario_names_and_descriptions_past_the_presets() {
    assert_eq!(get_scenario_name(0), "Empty Grid");
    assert_eq!(get_scenario_name(7), "Fresnel Lens");
    assert_eq!(get_scenario_name(8), "Unknown");
    assert_eq!(get_scenario_description(5), "Periodic dielectric structure");
    assert_eq!(get_scenario_description(200), "");
}

#[test]
fn double_slit_wall_leaves_two_openings() {
    let cells = ScenarioBuilder::new(512, 512).build_double_slit();
    assert_eq!(cells.len(), (512 - 8) * 3);
    assert_eq!(cells[0], (170, 0, 3));
    assert_eq!(cells[2], (172, 0, 3));
    for &(x, y, id) in &cells {
        assert!((170..173).contains(&x));
        assert_eq!(id, 3);
        assert!(!(234..238).contains(&y) && !(274..278).contains(&y));
    }
    assert!(cells.contains(&(171, 233, 3)));
    assert!(cells.contains(&(171, 238, 3)));
}

#[test]
fn double_slit_on_the_smallest_grid() {
    let cells = ScenarioBuilder::new(9, 44).build_double_slit();
    assert_eq!(cells.len(), (44 - 8) * 3);
    assert_eq!(cells[0], (3, 4, 3));
}

#[test]
fn photonic_crystal_slab_then_holes() {
    let cells = ScenarioBuilder::new(600, 600).build_photonic_crystal();
    let slab = 400 * 200;
    assert_eq!(cells[0], (100, 200, 5));
    assert_eq!(cells[slab - 1], (499, 399, 5));
    assert!(cells[slab..].iter().all(|&(_, _, id)| id == 0));
    assert!(cells[slab..].contains(&(110, 210, 0)));
    assert!(cells[slab..].contains(&(116, 210, 0)));
    assert!(!cells[slab..].contains(&(117, 210, 0)));
    assert!(cells[slab..].contains(&(120, 230, 0)));
    assert_eq!(cells.len(), slab + 200 * 113);
}

#[test]
fn photonic_crystal_holes_are_cut_to_the_grid() {
    let cells = ScenarioBuilder::new(150, 30).build_photonic_crystal();
    assert!(cells.iter().all(|&(x, y, _)| x < 150 && y < 30));
    assert!(cells.contains(&(110, 20, 0)));
}

#[test]
fn version_string() {
    assert_eq!(photonlab_core::get_version(), "2.0.0");
}
