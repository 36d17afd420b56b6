use epd_e6_driver::display::AsRgbColor;
use epd_e6_driver::e6_color::E6Color;
use epd_e6_driver::nibbles::NibbleCode;

const ALL: [E6Color; 6] = [
    E6Color::Black,
    E6Color::White,
    E6Color::Yellow,
    E6Color::Red,
    E6Color::Blue,
    E6Color::Green,
];

#[test]
fn encode_matches_wire_codes() {
    assert_eq!(E6Color::Black.code(), 0);
    assert_eq!(E6Color::White.code(), 1);
    assert_eq!(E6Color::Yellow.code(), 2);
    assert_eq!(E6Color::Red.code(), 3);
    assert_eq!(E6Color::Blue.code(), 5);
    assert_eq!(E6Color::Green.code(), 6);
}

#[test]
fn decode_then_encode_gives_code_back() {
    for code in [0u8, 1, 2, 3, 5, 6] {
        let color = E6Color::try_from_code(code).expect("legal code must decode");
        assert_eq!(color.code(), code);
    }
}

#[test]
fn encode_then_decode_gives_color_back() {
    for color in ALL {
        assert_eq!(E6Color::try_from_code(color.code()), Some(color));
    }
}

#[test]
fn reserved_and_out_of_range_codes_decode_to_nothing() {
    assert_eq!(E6Color::try_from_code(4), None);
    for code in 7u8..=255 {
        assert_eq!(E6Color::try_from_code(code), None);
    }
}

#[test]
fn nibble_code_round_trip() {
    for color in ALL {
        let code = color.to_code();
        assert!(code < 16);
        assert_eq!(E6Color::from_code(code), color);
    }
}

#[test]
fn palette_matches_fixed_triplets() {
    assert_eq!(E6Color::Black.rgb_color(), (0, 0, 0));
    assert_eq!(E6Color::White.rgb_color(), (255, 255, 255));
    assert_eq!(E6Color::Yellow.rgb_color(), (255, 255, 0));
    assert_eq!(E6Color::Red.rgb_color(), (255, 0, 0));
    assert_eq!(E6Color::Blue.rgb_color(), (0, 0, 255));
    assert_eq!(E6Color::Green.rgb_color(), (0, 255, 0));
}

#[test]
fn palette_lookup_round_trips() {
    for color in ALL {
        assert_eq!(E6Color::from_rgb(color.rgb_color()), color);
    }
}

#[test]
fn rgb_lookup_is_exact_match_only() {
    for color in ALL {
        assert_eq!(E6Color::try_from_rgb(color.rgb_color()), Some(color));
    }
    assert_eq!(E6Color::try_from_rgb((1, 1, 1)), None);
    assert_eq!(E6Color::try_from_rgb((254, 255, 255)), None);
    assert_eq!(E6Color::try_from_rgb((0, 255, 255)), None);
}
