use terminal_renderer::geometry::Color;
use terminal_renderer::{graphics, terminal};

#[test]
fn color_new_keeps_channels() {
    let c = Color::new(1, 2, 3);
    assert_eq!(c, Color { r: 1, g: 2, b: 3 });
}

#[test]
fn ansi_cube_corners() {
    assert_eq!(graphics::rgb_to_ansi256(0, 0, 0), 16);
    assert_eq!(graphics::rgb_to_ansi256(255, 255, 255), 231);
    assert_eq!(terminal::rgb_to_ansi256(0, 0, 0), 16);
    assert_eq!(terminal::rgb_to_ansi256(255, 255, 255), 231);
    assert_eq!(terminal::rgb_to_ansi256(255, 0, 0), 16 + 36 * 5);
    assert_eq!(terminal::rgb_to_ansi256(0, 255, 0), 16 + 6 * 5);
    assert_eq!(terminal::rgb_to_ansi256(0, 0, 255), 16 + 5);
}

#[test]
fn ansi_level_boundaries() {
    // levels: <95 -> 0, 95..134 -> 1, 135..174 -> 2, 175..214 -> 3, 215..254 -> 4, 255 -> 5
    let cases: [(u8, u16); 12] = [
        (0, 0),
        (94, 0),
        (95, 1),
        (134, 1),
        (135, 2),
        (174, 2),
        (175, 3),
        (214, 3),
        (215, 4),
        (254, 4),
        (255, 5),
        (100, 1),
    ];
    for (v, level) in cases {
        assert_eq!(graphics::rgb_to_ansi256(0, 0, v), 16 + level, "blue {}", v);
        assert_eq!(graphics::rgb_to_ansi256(v, 0, 0), 16 + 36 * level, "red {}", v);
    }
    assert_eq!(graphics::rgb_to_ansi256(95, 135, 175), 16 + 36 + 12 + 3);
}

#[test]
fn both_palettes_agree_on_every_grey_and_channel() {
    for v in 0..=255u8 {
        for w in [0u8, 94, 95, 200, 255] {
            assert_eq!(graphics::rgb_to_ansi256(v, w, v) as u8, terminal::rgb_to_ansi256(v, w, v));
            let code = terminal::rgb_to_ansi256(w, v, 255 - v);
            assert!((16..=231).contains(&code));
        }
    }
}
