use lapce_core::{hex_to_color, ColorError, Rgba};

#[test]
fn six_and_eight_digit_colors() {
    assert_eq!(hex_to_color("#c4c4c4"), Ok(Rgba { r: 0xc4, g: 0xc4, b: 0xc4, a: 0xff }));
    assert_eq!(hex_to_color("0A1b2C80"), Ok(Rgba { r: 0x0a, g: 0x1b, b: 0x2c, a: 0x80 }));
    assert_eq!(hex_to_color("##ffffff"), Ok(Rgba { r: 255, g: 255, b: 255, a: 255 }));
}

#[test]
fn bad_colors_are_refused() {
    assert_eq!(hex_to_color("#fff"), Err(ColorError::InvalidLength));
    assert_eq!(hex_to_color(""), Err(ColorError::InvalidLength));
    assert_eq!(hex_to_color("#12345g"), Err(ColorError::InvalidDigit));
}
