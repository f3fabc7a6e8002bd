use screeps_res::color::{parse_color, parse_color_trimmed, InvalidColor, Rgb};

fn rgb(r: u8, g: u8, b: u8) -> Rgb {
    Rgb { r, g, b }
}

#[test]
fn short_and_long_hex_agree() {
    let white = rgb(255, 255, 255);
    assert_eq!(parse_color("#FFF"), Ok(white));
    assert_eq!(parse_color("FFF"), Ok(white));
    assert_eq!(parse_color("#FFFFFF"), Ok(white));
}

#[test]
fn hex_digits_in_either_case() {
    assert_eq!(parse_color("#2b2b2b"), Ok(rgb(43, 43, 43)));
    assert_eq!(parse_color("#888"), Ok(rgb(136, 136, 136)));
    assert_eq!(parse_color("#Ab0"), Ok(rgb(170, 187, 0)));
}

#[test]
fn rgb_form() {
    assert_eq!(parse_color("rgb(1,2,3)"), Ok(rgb(1, 2, 3)));
    assert_eq!(parse_color("rgb(76, 167,229)"), Ok(rgb(76, 167, 229)));
    assert_eq!(parse_color("rgb(1,2,3,4)"), Ok(rgb(1, 2, 3)));
}

#[test]
fn rgb_with_too_few_components() {
    assert_eq!(parse_color("rgb(1,2)"), Err(InvalidColor::Components(2)));
}

#[test]
fn rgb_component_out_of_range() {
    assert_eq!(parse_color("rgb(1,256,3)"), Err(InvalidColor::Component(1)));
    assert_eq!(parse_color("rgb(1,2,x)"), Err(InvalidColor::Component(2)));
}

#[test]
fn five_digit_hex_is_refused() {
    assert_eq!(parse_color("12345"), Err(InvalidColor::Length(5)));
}

#[test]
fn non_hex_body_is_refused() {
    assert_eq!(parse_color("#GGG"), Err(InvalidColor::Component(0)));
    assert_eq!(parse_color("#12345z"), Err(InvalidColor::Component(2)));
}

#[test]
fn surrounding_whitespace_is_trimmed() {
    assert_eq!(parse_color("  #fff \n"), Ok(rgb(255, 255, 255)));
    assert_eq!(parse_color_trimmed(" #fff"), Err(InvalidColor::Length(5)));
}

#[test]
fn rgba_prefix_is_not_rgb() {
    assert_eq!(parse_color("rgba(0,0,0,0)"), Err(InvalidColor::Length(13)));
}
