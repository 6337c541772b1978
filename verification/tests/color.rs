use pixel_lens::color::{find_nearest_color, format_hex, hex_code_is_sliceable, hex_to_rgb, ColorEntry, MAX_DISTANCE_KEY};

fn entry(name: &str, hex: &str) -> ColorEntry {
    ColorEntry { name: name.to_string(), hex: hex.to_string() }
}

#[test]
fn format_hex_writes_upper_case_code() {
    assert_eq!(format_hex(74, 144, 226), "#4A90E2");
    assert_eq!(format_hex(0, 0, 0), "#000000");
    assert_eq!(format_hex(255, 10, 171), "#FF0AAB");
}

#[test]
fn hex_to_rgb_reads_codes() {
    assert_eq!(hex_to_rgb("#4A90E2"), Some((74, 144, 226)));
    assert_eq!(hex_to_rgb("4a90e2"), Some((74, 144, 226)));
    assert_eq!(hex_to_rgb("###ff0000"), Some((255, 0, 0)));
}

#[test]
fn hex_to_rgb_accepts_plus_sign_like_from_str_radix() {
    assert_eq!(hex_to_rgb("+F+F+F"), Some((15, 15, 15)));
    assert_eq!(hex_to_rgb("#+a0010"), Some((10, 0, 16)));
}

#[test]
fn hex_to_rgb_refuses_malformed_codes() {
    assert_eq!(hex_to_rgb("#4A90E"), None);
    assert_eq!(hex_to_rgb("#4A90E2F"), None);
    assert_eq!(hex_to_rgb("#GG0000"), None);
    assert_eq!(hex_to_rgb("-10000"), None);
    assert_eq!(hex_to_rgb("++0000"), None);
    assert_eq!(hex_to_rgb(""), None);
    assert_eq!(hex_to_rgb("é1234"), None);
}

#[test]
fn sliceable_check_matches_string_slicing() {
    assert!(hex_code_is_sliceable("#4A90E2"));
    assert!(hex_code_is_sliceable("é1234"));
    assert!(!hex_code_is_sliceable("aé123"));
    assert!(!hex_code_is_sliceable("123é5"));
    assert!(hex_code_is_sliceable("1x3é5"));
}

#[test]
fn written_codes_read_back() {
    for (r, g, b) in [(0u8, 0u8, 0u8), (255, 255, 255), (74, 144, 226), (1, 16, 160)] {
        assert_eq!(hex_to_rgb(&format_hex(r, g, b)), Some((r, g, b)));
    }
}

#[test]
fn nearest_color_takes_first_smallest_key() {
    let dict = vec![
        entry("Red", "#FF0000"),
        entry("Broken", "#XYZ000"),
        entry("Sky Blue", "#4A90E2"),
        entry("Also Sky", "#4A90E3"),
    ];
    let keys = vec![500, 0, 7, 7];
    let n = find_nearest_color(74, 144, 226, &dict, &keys);
    assert_eq!(n.name, "Sky Blue");
    assert_eq!(n.hex, "#4A90E2");
    assert_eq!(n.distance_key, 7);
}

#[test]
fn nearest_color_without_candidates_is_unknown() {
    let dict = vec![entry("Broken", "nothex")];
    let n = find_nearest_color(1, 2, 3, &dict, &[0]);
    assert_eq!(n.name, "Unknown");
    assert_eq!(n.hex, "#010203");
    assert_eq!(n.distance_key, MAX_DISTANCE_KEY);
    let n = find_nearest_color(1, 2, 3, &[], &[]);
    assert_eq!(n.name, "Unknown");
}

#[test]
fn nearest_color_ignores_keys_not_below_the_largest_distance() {
    let dict = vec![entry("White", "#FFFFFF")];
    let n = find_nearest_color(0, 0, 0, &dict, &[MAX_DISTANCE_KEY]);
    assert_eq!(n.name, "Unknown");
    let n = find_nearest_color(0, 0, 0, &dict, &[MAX_DISTANCE_KEY - 1]);
    assert_eq!(n.name, "White");
}

#[test]
fn largest_distance_key_is_largest_finite_double() {
    assert_eq!(MAX_DISTANCE_KEY, f64::MAX.to_bits());
    // keys of non-negative distances order as the distances
    assert!(0.5f64.to_bits() < 2.25f64.to_bits());
}

#[test]
fn lower_case_codes_read_back() {
    for (r, g, b) in [(0u8, 0u8, 0u8), (255, 255, 255), (74, 144, 226), (171, 205, 239)] {
        let code = format!("#{:02x}{:02x}{:02x}", r, g, b);
        assert_eq!(hex_to_rgb(&code), Some((r, g, b)));
    }
}

#[test]
fn unreadable_entries_do_not_change_the_nearest() {
    let dict = vec![entry("Red", "#FF0000"), entry("Blue", "#0000FF")];
    let with_junk = vec![
        entry("Junk", "#12345"),
        entry("Red", "#FF0000"),
        entry("Junk", "zzzzzz"),
        entry("Blue", "#0000FF"),
    ];
    let a = find_nearest_color(0, 0, 250, &dict, &[90, 5]);
    let b = find_nearest_color(0, 0, 250, &with_junk, &[0, 90, 0, 5]);
    assert_eq!((a.name, a.hex, a.distance_key), (b.name, b.hex, b.distance_key));
}
