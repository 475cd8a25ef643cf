use bpsr_tools::window::{find_game_window, find_in_wmctrl, first_window_id, parse_i32_dec, parse_u32_dec, parse_xdotool_geom, split_lines, split_words};

const GEOM: &str = "WINDOW=77\nX=10\nY=-20\nWIDTH=1600\nHEIGHT=900\nSCREEN=0\n";
const LISTING: &str = "0x01 0 10 20 800 600 host Some Other\n0x02  0 5 6 1600 900 host Blue Protocol: STAR Resonance\r\n";

#[test]
fn lines_and_words() {
    assert_eq!(split_lines("a\r\nb\n\nc"), vec!["a", "b", "", "c"]);
    assert_eq!(split_lines("a\n"), vec!["a"]);
    assert_eq!(split_lines(""), Vec::<&str>::new());
    assert_eq!(split_words("  a\tbb  c \n"), vec!["a", "bb", "c"]);
    assert_eq!(split_words("   "), Vec::<&str>::new());
}

#[test]
fn integer_columns() {
    assert_eq!(parse_i32_dec("-2147483648"), Some(i32::MIN));
    assert_eq!(parse_i32_dec("2147483648"), None);
    assert_eq!(parse_i32_dec("+12"), Some(12));
    assert_eq!(parse_i32_dec("-+1"), None);
    assert_eq!(parse_i32_dec("-"), None);
    assert_eq!(parse_u32_dec("4294967295"), Some(u32::MAX));
    assert_eq!(parse_u32_dec("-1"), None);
}

#[test]
fn xdotool_readings() {
    assert_eq!(first_window_id("123456\n789\n").as_deref(), Some("123456"));
    assert_eq!(first_window_id("  \n1"), None);
    assert_eq!(first_window_id(""), None);
    assert_eq!(parse_xdotool_geom(GEOM), Some((10, -20, 1600, 900)));
    assert_eq!(parse_xdotool_geom("X=abc\nWIDTH=5\nHEIGHT=5"), None);
    assert_eq!(parse_xdotool_geom("X=1\nY=2\nWIDTH=0\nHEIGHT=5"), None);
}

#[test]
fn wmctrl_listing() {
    let w = find_in_wmctrl(LISTING, "star resonance").unwrap();
    assert_eq!(w, ("0x02".to_string(), 5, 6, 1600, 900));
    assert!(find_in_wmctrl(LISTING, "missing").is_none());
}

#[test]
fn window_search_order() {
    assert!(find_game_window("", Some("1\n"), Some(GEOM), Some(LISTING)).is_none());
    let x = find_game_window("Star", Some("42\n"), Some(GEOM), Some(LISTING)).unwrap();
    assert_eq!(x, ("42".to_string(), 10, -20, 1600, 900));
    let w = find_game_window("STAR", None, None, Some(LISTING)).unwrap();
    assert_eq!(w.0, "0x02");
    assert!(find_game_window("Star", Some("42\n"), Some("X=1"), None).is_none());
}
