use tiny_basic::color::Color;

#[test]
fn test_basic() {
    let color1 = Color::new_rgb(0, 0, 0);
    assert_eq!(color1.unwrap_rgb().0, 0);
    assert_eq!(&color1.to_string()[0..1], "#");

    let color2 = Color::new_hsv(0, 0, 0);
    assert_eq!(color2.unwrap_hsv().0, 0);

    assert_eq!(color1.invert().unwrap_rgb().0, 255);
}

#[test]
fn colours_are_written_in_css_notation() {
    assert_eq!(Color::new_rgb(0, 0, 0).to_string(), "#000000");
    assert_eq!(Color::new_rgb(255, 1, 171).to_string(), "#ff01ab");
    assert_eq!(Color::new_rgb(16, 9, 10).to_string(), "#10090a");
    assert_eq!(Color::new_hsv(0, 0, 0).to_string(), "hsv(0,0%,0%)");
    assert_eq!(Color::new_hsv(360, 100, 50).to_string(), "hsv(360,100%,50%)");
    assert_eq!(Color::new_hsv(7, 10, 9).to_string(), "hsv(7,10%,9%)");
}

#[test]
fn colours_are_inverted_by_component() {
    assert_eq!(Color::new_rgb(0, 255, 100).invert(), Color::new_rgb(255, 0, 155));
    assert_eq!(Color::new_hsv(0, 100, 30).invert(), Color::new_hsv(360, 0, 70));
    assert_eq!(Color::new_hsv(90, 50, 50).invert().invert(), Color::new_hsv(90, 50, 50));
}

#[test]
fn colours_are_taken_apart() {
    assert_eq!(Color::new_rgb(1, 2, 3).unwrap_rgb(), (1, 2, 3));
    assert_eq!(Color::new_hsv(300, 20, 10).unwrap_hsv(), (300, 20, 10));
}

#[test]
fn colours_are_read_from_css_notation() {
    assert_eq!(Color::from_str("#ff00ff"), Color::new_rgb(255, 0, 255));
    assert_eq!(Color::from_str("#0A0b1C"), Color::new_rgb(10, 11, 28));
    assert_eq!(Color::from_str("hsv(0,0%,0%)"), Color::new_hsv(0, 0, 0));
    assert_eq!(Color::from_str("hsv(360,100%,50%)"), Color::new_hsv(360, 100, 50));
    assert_eq!(Color::from_str("hsv(007,01%,1%)"), Color::new_hsv(7, 1, 1));
    assert_eq!(Color::parse("#ff00ff"), Some(Color::new_rgb(255, 0, 255)));
}

#[test]
fn what_is_no_colour_is_not_read() {
    let bad = [
        "",
        "#",
        "#12345",
        "#1234567",
        "#12345g",
        "#+1+2+3",
        "ff00ff",
        "hsv",
        "hsv()",
        "hsv(1,2,3)",
        "hsv(1,2%,3%",
        "hsv(1,2%,3%) ",
        "hsv(361,2%,3%)",
        "hsv(1,101%,3%)",
        "hsv(1,2%,101%)",
        "hsv(,2%,3%)",
        "hsv(1, 2%, 3%)",
        "hsv(-1,2%,3%)",
        "hsb(1,2%,3%)",
        "hsv(99999999999999999999,2%,3%)",
    ];
    for text in bad {
        assert_eq!(Color::parse(text), None, "{:?}", text);
    }
}

#[test]
fn what_is_written_is_read_back() {
    for color in [
        Color::new_rgb(0, 0, 0),
        Color::new_rgb(18, 52, 86),
        Color::new_rgb(255, 255, 255),
        Color::new_hsv(0, 0, 0),
        Color::new_hsv(360, 100, 100),
        Color::new_hsv(45, 5, 50),
    ] {
        assert_eq!(Color::from_str(&color.to_string()), color);
    }
}
