use dxpdf_service::image_dpi::{parse_image_dpi, DEFAULT_IMAGE_DPI, MAX_IMAGE_DPI, MIN_IMAGE_DPI};
use dxpdf_service::StringHashMap;

fn params(v: &[(&str, &str)]) -> StringHashMap<String> {
    let mut map = StringHashMap::new();
    for (k, v) in v {
        map.insert(k.to_string(), v.to_string());
    }
    map
}

fn dpi(text: &str) -> Result<f32, String> {
    parse_image_dpi(&params(&[("image-dpi", text)])).map(|dpi| f32::from_bits(dpi.bits()))
}

#[test]
fn image_dpi_defaults_when_absent() {
    let dpi = parse_image_dpi(&params(&[])).unwrap();
    assert_eq!(f32::from_bits(dpi.bits()), 220.0);
    assert_eq!(dpi.bits(), DEFAULT_IMAGE_DPI);
}

#[test]
fn image_dpi_accepts_both_spellings_and_range() {
    let read = |v: &[(&str, &str)]| f32::from_bits(parse_image_dpi(&params(v)).unwrap().bits());
    assert_eq!(read(&[("image-dpi", "300")]), 300.0);
    assert_eq!(read(&[("image_dpi", "72")]), 72.0);
    assert_eq!(read(&[("image-dpi", "1")]), 1.0);
    assert_eq!(read(&[("image-dpi", "2400")]), 2400.0);
}

#[test]
fn image_dpi_rejects_bad_values() {
    for bad in ["0", "-300", "2401", "nan", "inf", "abc", ""] {
        assert!(
            parse_image_dpi(&params(&[("image-dpi", bad)])).is_err(),
            "`{bad}` should be rejected"
        );
    }
}

#[test]
fn hyphenated_spelling_wins() {
    let both = params(&[("image_dpi", "72"), ("image-dpi", "300")]);
    assert_eq!(f32::from_bits(parse_image_dpi(&both).unwrap().bits()), 300.0);
    let bad_first = params(&[("image_dpi", "72"), ("image-dpi", "x")]);
    assert!(parse_image_dpi(&bad_first).is_err());
}

#[test]
fn rejections_say_why() {
    assert_eq!(
        dpi("abc").unwrap_err(),
        "image-dpi: `abc` is not a valid number"
    );
    assert_eq!(dpi("").unwrap_err(), "image-dpi: `` is not a valid number");
    for far in ["0", "-300", "2401", "nan", "-inf", "1e99999999999999999999999999999999999"] {
        assert_eq!(
            dpi(far).unwrap_err(),
            format!("image-dpi: must be between 1 and 2400 (got `{far}`)")
        );
    }
}

#[test]
fn limits_are_encodings_of_their_values() {
    assert_eq!(f32::from_bits(MIN_IMAGE_DPI), 1.0);
    assert_eq!(f32::from_bits(MAX_IMAGE_DPI), 2400.0);
    assert_eq!(f32::from_bits(DEFAULT_IMAGE_DPI), 220.0);
}

#[test]
fn whole_numbers_are_taken_exactly() {
    for n in 1..=2400u32 {
        assert_eq!(dpi(&n.to_string()).unwrap(), n as f32);
    }
}

#[test]
fn limits_reach_half_a_step_further() {
    // 1 - 2^-25 and 2400 + 2^-13 are halfway to the next value outside.
    assert_eq!(dpi("0.9999999701976776123046875").unwrap(), 1.0);
    assert!(dpi("0.9999999701976776123046874").is_err());
    assert_eq!(dpi("2400.0001220703125").unwrap(), 2400.0);
    assert!(dpi("2400.00012207031250000000000000000000001").is_err());
}

/// What the standard library's own reading of the text leads to.
fn expected(text: &str) -> Result<f32, bool> {
    match text.parse::<f32>() {
        Err(_) => Err(true),
        Ok(v) if v.is_finite() && (1.0..=2400.0).contains(&v) => Ok(v),
        Ok(_) => Err(false),
    }
}

fn agrees(text: &str) {
    match (dpi(text), expected(text)) {
        (Ok(a), Ok(b)) => assert_eq!(a.to_bits(), b.to_bits(), "{text}"),
        (Err(message), Err(not_a_number)) => {
            assert_eq!(message.contains("not a valid number"), not_a_number, "{text}")
        }
        (ours, theirs) => panic!("{text}: {ours:?} against {theirs:?}"),
    }
}

#[test]
fn agrees_with_the_standard_reading_of_numbers() {
    for text in [
        "1.", ".5", "0.5e1", "1e3", "1E3", "2.4e+3", "24000e-1", "+72", "-72", "-0", "0", "00300",
        "1.0000001", "1.00000005960464477539062", "1.00000005960464477539063", "1.0000001788139343",
        "219.99999999999999999", "123.456", "2399.9999", "2400.0000000001", "0.99999999", "0.1e1",
        "0.01e2", "3000e-1", "0.000000000000000000000000000072e30", "72000000000000000000000000000e-27",
        "72e0000000000000000000000000000000", "1e-400", "1e400", "1e40000000000000000000", "0e99999",
        "infinity", "Infinity", "iNf", "NaN", "+nan", "-infinity", "inff", "na", "1e", "1e+", "e5", ".",
        "+", "-", "--1", "+-1", "1 ", " 1", "1_0", "1,5", "0x10", "1e5.0", "1.2.3", "\u{663}", "1\u{301}",
        "300f", "3e2e1",
    ] {
        agrees(text);
    }
}

#[test]
fn agrees_with_the_standard_rounding() {
    let mut state: u64 = 0x9E37_79B9_7F4A_7C15;
    for _ in 0..20_000 {
        state ^= state << 13;
        state ^= state >> 7;
        state ^= state << 17;
        let whole = state % 2500;
        let fraction = (state >> 20) % 1_000_000_000_000;
        agrees(&format!("{whole}.{fraction:012}"));
        // Halfway between two neighbouring values, and just beside it.
        let bits = MIN_IMAGE_DPI + (state >> 32) as u32 % (MAX_IMAGE_DPI - MIN_IMAGE_DPI);
        let low = f32::from_bits(bits) as f64;
        let high = f32::from_bits(bits + 1) as f64;
        let half = format!("{:.40}", (low + high) / 2.0);
        agrees(&half);
        agrees(&format!("{half}0000000000000000000001"));
    }
}
