use std::f64::consts::PI;

#[test]
fn test_impedance_to_lc_formulas() {
    let frequency: f64 = 2e6;
    let impedance_real: f64 = 75.0;
    let impedance_imag: f64 = 200.0;
    let omega = 2.0 * PI * frequency;

    let l_value = impedance_imag.abs() / omega;
    let c_value = 1.0 / (omega * impedance_real);

    let expected_l = 200.0 / (2.0 * PI * 2e6);
    let expected_c = 1.0 / (2.0 * PI * 2e6 * 75.0);

    assert!((l_value - expected_l).abs() < 1e-12, "L formula: X_L = omega * L => L = X_L / omega");
    assert!((c_value - expected_c).abs() < 1e-18, "C formula: X_C = 1/(omega*C) => C = 1/(omega*R)");
}
