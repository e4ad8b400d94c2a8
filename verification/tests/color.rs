use fb_console::color::Rgb;

#[test]
fn luminance_of_pure_red_is_76() {
    assert_eq!(Rgb { r: 255, g: 0, b: 0 }.luminance(), 76);
}

#[test]
fn luminance_of_pure_green_is_150() {
    assert_eq!(Rgb { r: 0, g: 255, b: 0 }.luminance(), 150);
}

#[test]
fn luminance_of_pure_blue_is_28() {
    assert_eq!(Rgb { r: 0, g: 0, b: 255 }.luminance(), 28);
}

#[test]
fn luminance_of_black_and_white() {
    assert_eq!(Rgb { r: 0, g: 0, b: 0 }.luminance(), 0);
    assert_eq!(Rgb { r: 255, g: 255, b: 255 }.luminance(), 255);
}

#[test]
fn luminance_rounds_down() {
    // 30 * 3 + 59 * 1 + 11 * 4 = 193, and 193 / 100 is 1.
    assert_eq!(Rgb { r: 3, g: 1, b: 4 }.luminance(), 1);
    // 30 * 10 + 59 * 20 + 11 * 30 = 1810.
    assert_eq!(Rgb { r: 10, g: 20, b: 30 }.luminance(), 18);
}

#[test]
fn colours_compare_by_channel() {
    let a = Rgb { r: 1, g: 2, b: 3 };
    let b = a;
    assert_eq!(a, b);
    assert_ne!(a, Rgb { r: 3, g: 2, b: 1 });
}
