use photonlab_core::probe::Probe;

#[test]
fn test_probe() {
    let mut probe = Probe::new(10, 10, 100, 0.0f32);
    let ez = vec![0.5; 200 * 200];
    probe.record(&ez, 200);
    assert!((probe.get_current_value() - 0.5).abs() < 1e-6);
}

#[test]
fn probe_buffer_wraps_around() {
    let mut probe = Probe::new(1, 1, 3, 0u32);
    let mut field = vec![0u32; 9];
    for v in 1..=4u32 {
        field[4] = v;
        probe.record(&field, 3);
    }
    assert_eq!(probe.samples(), &[4, 2, 3]);
    assert_eq!(probe.get_write_pos(), 1);
    assert_eq!(probe.get_current_value(), 4);
}

#[test]
fn probe_past_the_field_records_nothing() {
    let mut probe = Probe::new(5, 5, 4, 0i64);
    probe.record(&[1, 2, 3], 3);
    assert_eq!(probe.get_write_pos(), 0);
    assert_eq!(probe.samples(), &[0, 0, 0, 0]);
}

#[test]
fn moving_the_probe_clears_it() {
    let mut probe = Probe::new(0, 0, 2, 0.0f32);
    probe.record(&[7.0], 1);
    probe.set_position(3, 4, 0.0);
    assert_eq!((probe.get_x(), probe.get_y()), (3, 4));
    assert_eq!(probe.get_write_pos(), 0);
    assert_eq!(probe.samples(), &[0.0, 0.0]);
    assert_eq!(probe.get_buffer_size(), 2);
}
