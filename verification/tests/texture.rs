use fury_tracer::image::{
    parse_decal, parse_interp, parse_noise_conversion, DecalMode, Interpolation, NoiseConversion,
};

#[test]
fn decal_modes() {
    assert_eq!(parse_decal("replace_kd"), Some(DecalMode::ReplaceKd));
    assert_eq!(parse_decal("blend_kd"), Some(DecalMode::BlendKd));
    assert_eq!(parse_decal("replace_ks"), Some(DecalMode::ReplaceKs));
    assert_eq!(parse_decal("replace_background"), Some(DecalMode::ReplaceBackground));
    assert_eq!(parse_decal("replace_normal"), Some(DecalMode::ReplaceNormal));
    assert_eq!(parse_decal("bump_normal"), Some(DecalMode::BumpNormal));
    assert_eq!(parse_decal("replace_all"), Some(DecalMode::ReplaceAll));
    assert_eq!(parse_decal(""), Some(DecalMode::default()));
    assert_eq!(parse_decal("Replace_KD"), None);
    assert_eq!(parse_decal("replace"), None);
}

#[test]
fn interpolations() {
    assert_eq!(parse_interp("nearest"), Some(Interpolation::Nearest));
    assert_eq!(parse_interp("bilinear"), Some(Interpolation::Bilinear));
    assert_eq!(parse_interp("trilinear"), Some(Interpolation::Trilinear));
    assert_eq!(parse_interp(""), Some(Interpolation::Nearest));
    assert_eq!(parse_interp("cubic"), None);
}

#[test]
fn noise_conversions() {
    assert_eq!(parse_noise_conversion("absval"), Some(NoiseConversion::AbsoluteVal));
    assert_eq!(parse_noise_conversion("linear"), Some(NoiseConversion::Linear));
    assert_eq!(parse_noise_conversion(""), Some(NoiseConversion::Linear));
    assert_eq!(parse_noise_conversion("abs"), None);
}
