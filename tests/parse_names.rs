use fdtd::parse::{parse_plane_type, parse_unit, Colormap, LengthUnit, PlaneType};

#[test]
fn test_colormap_from_str() {
    assert_eq!(Colormap::from_str("jet"), Colormap::Jet);
    assert_eq!(Colormap::from_str("viridis"), Colormap::Viridis);
    assert_eq!(Colormap::from_str("VIRIDIS"), Colormap::Viridis);
    assert_eq!(Colormap::from_str("plasma"), Colormap::Plasma);
    assert_eq!(Colormap::from_str("unknown"), Colormap::Jet);
}

#[test]
fn colormap_mixed_case_plasma() {
    assert_eq!(Colormap::from_str("PlAsMa"), Colormap::Plasma);
    assert_eq!(Colormap::from_str(""), Colormap::Jet);
}

#[test]
fn plane_type_names_any_case() {
    assert_eq!(parse_plane_type("XY"), PlaneType::XY);
    assert_eq!(parse_plane_type("xy"), PlaneType::XY);
    assert_eq!(parse_plane_type("yz"), PlaneType::YZ);
    assert_eq!(parse_plane_type("xz"), PlaneType::XZ);
    assert_eq!(parse_plane_type("diagonal"), PlaneType::XZ);
}

#[test]
fn unit_names() {
    assert_eq!(parse_unit("m"), Ok(LengthUnit::Meter));
    assert_eq!(parse_unit("Meters"), Ok(LengthUnit::Meter));
    assert_eq!(parse_unit("MM"), Ok(LengthUnit::Millimeter));
    assert_eq!(parse_unit("millimeter"), Ok(LengthUnit::Millimeter));
    assert_eq!(parse_unit("um"), Ok(LengthUnit::Micrometer));
    assert_eq!(parse_unit("\u{b5}m"), Ok(LengthUnit::Micrometer));
    assert_eq!(parse_unit("Micrometers"), Ok(LengthUnit::Micrometer));
    assert_eq!(parse_unit("NM"), Ok(LengthUnit::Nanometer));
    assert_eq!(parse_unit("nanometers"), Ok(LengthUnit::Nanometer));
}

#[test]
fn unit_unknown_keeps_name() {
    match parse_unit("furlong") {
        Err(e) => assert_eq!(e.name, "furlong".to_string()),
        Ok(u) => panic!("unexpected unit {:?}", u),
    }
    assert!(parse_unit("").is_err());
}

#[test]
fn unit_scale_exponents() {
    assert_eq!(LengthUnit::Millimeter.scale_exponent(&LengthUnit::Micrometer), 3);
    assert_eq!(LengthUnit::Meter.scale_exponent(&LengthUnit::Nanometer), 9);
    assert_eq!(LengthUnit::Nanometer.scale_exponent(&LengthUnit::Millimeter), -6);
    assert_eq!(LengthUnit::Micrometer.decimal_exponent(), -6);
    let scale = 10f64.powi(LengthUnit::Millimeter.scale_exponent(&LengthUnit::Micrometer));
    assert!((scale - 1000.0).abs() < 1e-10);
}
