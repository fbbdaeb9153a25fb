use openmodel::color::Color;

#[test]
fn test_color_new() {
    let color = Color::new(10, 20, 30, 40);
    assert_eq!(color.r, 10);
    assert_eq!(color.g, 20);
    assert_eq!(color.b, 30);
    assert_eq!(color.a, 40);
}

#[test]
fn test_color_rgb() {
    let color = Color::rgb(10, 20, 30);
    assert_eq!(color.r, 10);
    assert_eq!(color.g, 20);
    assert_eq!(color.b, 30);
    assert_eq!(color.a, 255);
}

#[test]
fn test_color_hex() {
    // Test hex parsing
    let color1 = Color::from_hex("#FF5500").unwrap();
    assert_eq!(color1.r, 255);
    assert_eq!(color1.g, 85);
    assert_eq!(color1.b, 0);
    assert_eq!(color1.a, 255);

    let color2 = Color::from_hex("FF5500AA").unwrap();
    assert_eq!(color2.r, 255);
    assert_eq!(color2.g, 85);
    assert_eq!(color2.b, 0);
    assert_eq!(color2.a, 170);

    // Test hex output
    let color3 = Color::new(255, 85, 0, 170);
    assert_eq!(color3.to_hex(false), "#FF5500");
    assert_eq!(color3.to_hex(true), "#FF5500AA");
}

#[test]
fn test_color_named_constructors() {
    assert_eq!(Color::black(), Color::new(0, 0, 0, 255));
    assert_eq!(Color::white(), Color::new(255, 255, 255, 255));
    assert_eq!(Color::red(), Color::new(255, 0, 0, 255));
    assert_eq!(Color::green(), Color::new(0, 255, 0, 255));
    assert_eq!(Color::blue(), Color::new(0, 0, 255, 255));
    assert_eq!(Color::yellow(), Color::new(255, 255, 0, 255));
    assert_eq!(Color::cyan(), Color::new(0, 255, 255, 255));
    assert_eq!(Color::magenta(), Color::new(255, 0, 255, 255));
    assert_eq!(Color::transparent(), Color::new(0, 0, 0, 0));
}

#[test]
fn test_color_from_hex_invalid() {
    // Wrong length
    assert!(Color::from_hex("#FF55").is_none());
    assert!(Color::from_hex("FF55001").is_none());
    assert!(Color::from_hex("").is_none());
    // Non-hex characters
    assert!(Color::from_hex("#GG0000").is_none());
    assert!(Color::from_hex("12345Z").is_none());
}

#[test]
fn test_color_hex_round_trip() {
    let c = Color::new(18, 52, 86, 120);
    let without_alpha = c.to_hex(false);
    let with_alpha = c.to_hex(true);
    assert_eq!(without_alpha, "#123456");
    assert_eq!(with_alpha, "#12345678");
    let back = Color::from_hex(&with_alpha).unwrap();
    assert_eq!(back, c);
    let back2 = Color::from_hex(&without_alpha).unwrap();
    assert_eq!(back2, Color::new(18, 52, 86, 255));
}
