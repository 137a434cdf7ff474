use fdtd::acoustic::{reflection_coefficient, Z_GLASS, Z_WATER};

fn reflection_coeff() -> f64 {
    let (num, den) = reflection_coefficient(Z_WATER, Z_GLASS);
    num as f64 / den as f64
}

#[test]
fn test_acoustic_impedance_values() {
    let z_water = Z_WATER as f64;
    let z_glass = Z_GLASS as f64;
    assert!((z_water - 1.48e6).abs() < 1e3, "Water impedance should be ~1.48 MRayl");
    assert!((z_glass - 12.6e6).abs() < 1e4, "Glass impedance should be ~12.6 MRayl");
    assert!(z_glass > z_water, "Glass impedance should be higher than water");
}

#[test]
fn test_reflection_coefficient_calculation() {
    let z_water = Z_WATER as f64;
    let z_glass = Z_GLASS as f64;
    let expected = (z_glass - z_water) / (z_glass + z_water);
    let coeff = reflection_coeff();
    assert!((coeff - expected).abs() < 1e-10, "Reflection coefficient mismatch");
    assert!(coeff > 0.0 && coeff < 1.0, "Reflection coefficient should be in (0,1)");
    assert!((coeff - 0.79).abs() < 0.01, "Reflection coefficient should be ~0.79");
}

#[test]
fn reflection_fraction_exact() {
    assert_eq!(reflection_coefficient(Z_WATER, Z_GLASS), (11_120_000, 14_080_000));
    assert_eq!(reflection_coefficient(Z_GLASS, Z_WATER), (-11_120_000, 14_080_000));
    assert_eq!(reflection_coefficient(5, 5), (0, 10));
}
