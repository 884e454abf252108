use novawm::config::MonitorConfig;
use novawm::geometry::{Point, Rect};
use novawm::outputs::{
    hotplug_position, layout_outputs, output_under, parse_output_order, parse_output_positions, LayoutError, PositionError,
};
use novawm::text::{parse_i32, IntError};

fn chars(s: &str) -> Vec<char> {
    s.chars().collect()
}

fn strings(v: &[&str]) -> Vec<String> {
    v.iter().map(|s| s.to_string()).collect()
}

#[test]
fn i32_parsing_matches_str_parse() {
    for s in ["0", "+5", "-17", "2147483647", "-2147483648", "", "-", "+", "12a", "2147483648", "-2147483649", "99999999999a", " 1", "٣"] {
        let expected = s.parse::<i32>().map_err(|e| format!("{:?}", e.kind()));
        let got = parse_i32(&chars(s)).map_err(|e| format!("{:?}", e));
        assert_eq!(got, expected, "parsing {s:?}");
    }
    assert_eq!(parse_i32(&chars("99999999999a")), Err(IntError::PosOverflow));
}

#[test]
fn output_order_is_trimmed_names() {
    assert_eq!(parse_output_order(" DP-1, ,HDMI-A-1 ,"), strings(&["DP-1", "HDMI-A-1"]));
    assert!(parse_output_order("").is_empty());
}

#[test]
fn output_positions_parse_or_explain() {
    let got = parse_output_positions("DP-1:0:0; HDMI-A-1 : 2560 : -10 ;;").unwrap();
    assert_eq!(got, vec![("DP-1".to_string(), 0, 0), ("HDMI-A-1".to_string(), 2560, -10)]);
    assert!(matches!(parse_output_positions("DP-1:0"), Err(PositionError::BadEntry(e)) if e == "DP-1:0"));
    assert!(matches!(parse_output_positions("DP-1:x:0"), Err(PositionError::BadNumber(IntError::InvalidDigit))));
    assert!(matches!(parse_output_positions("DP-1:99999999999:0"), Err(PositionError::BadNumber(IntError::PosOverflow))));
    assert!(matches!(parse_output_positions("DP-1::0"), Err(PositionError::BadNumber(IntError::Empty))));
    assert!(parse_output_positions(" ; ").unwrap().is_empty());
}

#[test]
fn outputs_are_placed_left_to_right_in_preferred_order() {
    let outputs = vec![
        ("HDMI-A-1".to_string(), Some(1920)),
        ("DP-1".to_string(), Some(2560)),
        ("eDP-1".to_string(), None),
        ("DP-2".to_string(), Some(1280)),
    ];
    let config = vec![("HDMI-A-1".to_string(), 0, -1080)];
    let placed = layout_outputs(&outputs, &strings(&["DP-2"]), &[], &config).unwrap();
    assert_eq!(
        placed,
        vec![("DP-2".to_string(), 0, 0), ("DP-1".to_string(), 1280, 0), ("HDMI-A-1".to_string(), 0, -1080)]
    );
    // The environment's last pin wins over earlier ones and over the config.
    let env = vec![("HDMI-A-1".to_string(), 5, 5), ("HDMI-A-1".to_string(), 7, 7)];
    let placed = layout_outputs(&outputs, &[], &env, &config).unwrap();
    assert_eq!(
        placed,
        vec![("DP-1".to_string(), 0, 0), ("DP-2".to_string(), 2560, 0), ("HDMI-A-1".to_string(), 7, 7)]
    );
}

#[test]
fn unknown_or_overflowing_outputs_are_refused() {
    let outputs = vec![("DP-1".to_string(), Some(2560))];
    assert!(matches!(
        layout_outputs(&outputs, &strings(&["VGA-1"]), &[], &[]),
        Err(LayoutError::UnknownOutput(n)) if n == "VGA-1"
    ));
    let config = vec![("HDMI-A-1".to_string(), 0, 0)];
    assert!(matches!(
        layout_outputs(&outputs, &[], &[], &config),
        Err(LayoutError::UnknownOutput(n)) if n == "HDMI-A-1"
    ));
    let env = vec![("DP-1".to_string(), i32::MAX - 10, 0)];
    assert!(matches!(layout_outputs(&outputs, &[], &env, &[]), Err(LayoutError::Overflow)));
}

#[test]
fn output_under_prefers_the_containing_output() {
    let outs = vec![Rect::new(0, 0, 1920, 1080), Rect::new(1920, 0, 2560, 1440)];
    assert_eq!(output_under(&outs, Some(Point::new(100, 100))), Some(0));
    assert_eq!(output_under(&outs, Some(Point::new(2000, 500))), Some(1));
    // The right and bottom edges belong to the neighbour, not the output.
    assert_eq!(output_under(&outs, Some(Point::new(1920, 0))), Some(1));
}

#[test]
fn output_under_falls_back_to_the_nearest_centre() {
    let outs = vec![Rect::new(0, 0, 1920, 1080), Rect::new(1920, 0, 2560, 1440)];
    assert_eq!(output_under(&outs, Some(Point::new(1000, 1200))), Some(0));
    assert_eq!(output_under(&outs, Some(Point::new(5000, 100))), Some(1));
    assert_eq!(output_under(&outs, None), Some(0));
    assert_eq!(output_under(&[], Some(Point::new(0, 0))), None);
    // Equally near centres: the first output wins.
    let twins = vec![Rect::new(0, 0, 100, 100), Rect::new(200, 0, 100, 100)];
    assert_eq!(output_under(&twins, Some(Point::new(150, 50))), Some(0));
}

#[test]
fn hotplugged_outputs_go_to_their_monitor_entry_or_to_the_right() {
    let outs = vec![Rect::new(0, 0, 1920, 1080), Rect::new(1920, 200, 2560, 1440)];
    let monitors = vec![MonitorConfig { name: "HDMI-A-1".to_string(), x: 2560, y: 40 }];
    assert_eq!(hotplug_position(&outs, &monitors, "HDMI-A-1"), Point::new(2560, 40));
    assert_eq!(hotplug_position(&outs, &monitors, "DP-2"), Point::new(4480, 0));
    assert_eq!(hotplug_position(&[], &monitors, "DP-2"), Point::new(0, 0));
}
