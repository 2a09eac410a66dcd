use photonlab_core::cpml::{CpmlLayout, CpmlSide, CpmlTap};

#[test]
fn test_cpml_creation() {
    let cpml = CpmlLayout::new(512, 512);
    assert_eq!(cpml.get_thickness(), 20);
}

#[test]
fn thickness_is_a_quarter_of_the_smaller_side_at_most() {
    assert_eq!(CpmlLayout::new(40, 400).get_thickness(), 10);
    assert_eq!(CpmlLayout::new(400, 30).get_thickness(), 7);
    assert_eq!(CpmlLayout::new(81, 81).get_thickness(), 20);
    assert_eq!(CpmlLayout::new(3, 100).get_thickness(), 0);
}

#[test]
fn psi_arrays_are_sized_per_band() {
    let cpml = CpmlLayout::new(16, 12);
    assert_eq!(cpml.get_thickness(), 3);
    assert_eq!(cpml.psi_len(CpmlSide::EzLeft), 36);
    assert_eq!(cpml.psi_len(CpmlSide::HyRight), 36);
    assert_eq!(cpml.psi_len(CpmlSide::EzTop), 48);
    assert_eq!(cpml.psi_len(CpmlSide::HxBottom), 48);
}

#[test]
fn left_band_taps_start_next_to_the_edge() {
    let cpml = CpmlLayout::new(8, 8);
    let taps = cpml.plan(CpmlSide::EzLeft);
    assert_eq!(taps.len(), 7);
    assert_eq!(taps[0], CpmlTap { cell: 9, ahead: 9, behind: 8, psi: 1, layer: 1 });
    assert_eq!(taps[6], CpmlTap { cell: 57, ahead: 57, behind: 56, psi: 7, layer: 1 });
}

#[test]
fn far_bands_put_layer_zero_at_the_edge() {
    let cpml = CpmlLayout::new(8, 8);
    let right = cpml.plan(CpmlSide::EzRight);
    assert_eq!(right.len(), 14);
    assert_eq!(right[0], CpmlTap { cell: 14, ahead: 14, behind: 13, psi: 1, layer: 1 });
    assert_eq!(right[1], CpmlTap { cell: 15, ahead: 15, behind: 14, psi: 9, layer: 0 });
    let top = cpml.plan(CpmlSide::EzTop);
    assert_eq!(top.len(), 14);
    assert_eq!(top[0], CpmlTap { cell: 49, ahead: 49, behind: 41, psi: 2, layer: 1 });
    assert_eq!(top[13], CpmlTap { cell: 63, ahead: 63, behind: 55, psi: 15, layer: 0 });
}

#[test]
fn h_bands_difference_the_next_cell() {
    let cpml = CpmlLayout::new(8, 8);
    let left = cpml.plan(CpmlSide::HyLeft);
    assert_eq!(left.len(), 16);
    assert_eq!(left[0], CpmlTap { cell: 0, ahead: 1, behind: 0, psi: 0, layer: 0 });
    assert_eq!(left[3], CpmlTap { cell: 9, ahead: 10, behind: 9, psi: 9, layer: 1 });
    let right = cpml.plan(CpmlSide::HyRight);
    assert_eq!(right.len(), 8);
    assert_eq!(right[0], CpmlTap { cell: 6, ahead: 7, behind: 6, psi: 0, layer: 1 });
    let bottom = cpml.plan(CpmlSide::HxBottom);
    assert_eq!(bottom.len(), 16);
    assert_eq!(bottom[9], CpmlTap { cell: 9, ahead: 17, behind: 9, psi: 3, layer: 1 });
    let top = cpml.plan(CpmlSide::HxTop);
    assert_eq!(top.len(), 8);
    assert_eq!(top[7], CpmlTap { cell: 55, ahead: 63, behind: 55, psi: 14, layer: 1 });
}

#[test]
fn every_tap_addresses_its_buffers() {
    let cpml = CpmlLayout::new(37, 29);
    let t = cpml.get_thickness();
    for side in [
        CpmlSide::EzLeft,
        CpmlSide::EzRight,
        CpmlSide::EzBottom,
        CpmlSide::EzTop,
        CpmlSide::HyLeft,
        CpmlSide::HyRight,
        CpmlSide::HxBottom,
        CpmlSide::HxTop,
    ] {
        for tap in cpml.plan(side) {
            assert!(tap.cell < 37 * 29 && tap.ahead < 37 * 29 && tap.behind < 37 * 29);
            assert!(tap.psi < cpml.psi_len(side));
            assert!(tap.layer < t);
        }
    }
}

#[test]
fn a_grid_too_small_for_a_layer_has_no_taps() {
    let cpml = CpmlLayout::new(3, 3);
    assert!(cpml.plan(CpmlSide::EzLeft).is_empty());
    assert!(cpml.plan(CpmlSide::HxTop).is_empty());
}

#[test]
fn edge_copies_only_without_a_layer() {
    assert!(!CpmlLayout::new(64, 64).keeps_edge_copies());
    assert!(CpmlLayout::new(3, 64).keeps_edge_copies());
}
