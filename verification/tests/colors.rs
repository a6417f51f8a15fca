use shelf_viewer::colors::{palette_entry, ColorMap, ColorWheel, ASCII_RESET, PALETTE_SIZE};
use shelf_viewer::err::SError;

#[test]
fn first_seen_groups_get_the_palette_in_order() {
    let mut map = ColorMap::default();
    let a = map.get_color("A").unwrap();
    let b = map.get_color("B").unwrap();
    let a_again = map.get_color("A").unwrap();
    assert_ne!(a, b);
    assert_eq!(a, a_again);
    assert_eq!(a, "\x1b[38;5;22m");
    assert_eq!(b, "\x1b[38;5;58m");
}

#[test]
fn a_group_keeps_its_colour_while_others_arrive() {
    let mut map = ColorMap::default();
    let first = map.get_color("tank").unwrap();
    for name in ["a", "b", "c", "d"] {
        map.get_color(name).unwrap();
        assert_eq!(map.get_color("tank"), Ok(first));
    }
}

#[test]
fn groups_are_told_apart_by_their_whole_name() {
    let mut map = ColorMap::default();
    let a = map.get_color("ZFS tank").unwrap();
    let b = map.get_color("ZFS tank2").unwrap();
    let c = map.get_color("zfs tank").unwrap();
    let d = map.get_color("").unwrap();
    assert!(a != b && a != c && a != d && b != c && b != d && c != d);
}

#[test]
fn palette_runs_out_after_nine_groups() {
    let mut map = ColorMap::default();
    let mut seen: Vec<&'static str> = Vec::new();
    for i in 0..PALETTE_SIZE {
        let color = map.get_color(&format!("pool{}", i)).unwrap();
        assert!(!seen.contains(&color));
        seen.push(color);
    }
    assert_eq!(map.get_color("one too many"), Err(SError::PaletteExhausted));
    assert_eq!(map.get_color("pool3"), Ok(seen[3]));
    assert_eq!(map.get_color("one too many"), Err(SError::PaletteExhausted));
}

#[test]
fn wheel_hands_out_each_colour_once() {
    let mut wheel = ColorWheel::default();
    let expected = [
        "\x1b[38;5;22m",
        "\x1b[38;5;58m",
        "\x1b[38;5;94m",
        "\x1b[38;5;24m",
        "\x1b[38;5;60m",
        "\x1b[38;5;96m",
        "\x1b[38;5;27m",
        "\x1b[38;5;63m",
        "\x1b[38;5;99m",
    ];
    for (i, color) in expected.iter().enumerate() {
        assert_eq!(palette_entry(i), *color);
        assert_eq!(wheel.next(), Ok(*color));
    }
    assert_eq!(wheel.next(), Err(SError::PaletteExhausted));
    assert_eq!(wheel.next(), Err(SError::PaletteExhausted));
}

#[test]
fn reset_sequence() {
    assert_eq!(ASCII_RESET, "\x1b[0m");
}
