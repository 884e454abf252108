use novawm::geometry::Rect;
use novawm::listing::{
    layers_reply, list_windows_reply, monitors_reply, push_int, LayerKind, LayerRow, MonitorRow, WindowRow,
};

#[test]
fn window_listing_has_one_line_per_window() {
    let rows = vec![
        WindowRow {
            index: 0,
            app_id: Some("foot".to_string()),
            title: Some("~".to_string()),
            output: Some("eDP-1".to_string()),
            workspace: Some(1),
            floating: false,
            focused: true,
            x: 10,
            y: -20,
            w: 800,
            h: 600,
        },
        WindowRow {
            index: 2,
            app_id: None,
            title: None,
            output: None,
            workspace: None,
            floating: true,
            focused: false,
            x: 0,
            y: 0,
            w: 1,
            h: 1,
        },
    ];
    assert_eq!(
        list_windows_reply(&rows),
        "# index\tapp_id\ttitle\toutput\tworkspace\tfloating\tfocused\tgeometry\n\
         0\tfoot\t~\teDP-1\t1\tfalse\ttrue\t0 10,-20,800x600\n\
         2\t\t\t<none>\t0\ttrue\tfalse\t2 0,0,1x1\n"
    );
    assert_eq!(
        list_windows_reply(&[]),
        "# index\tapp_id\ttitle\toutput\tworkspace\tfloating\tfocused\tgeometry\n"
    );
}

#[test]
fn monitor_and_layer_listings() {
    let monitors = vec![
        MonitorRow { name: "eDP-1".to_string(), geometry: Some(Rect::new(0, 0, 1920, 1080)) },
        MonitorRow { name: "HDMI-A-1".to_string(), geometry: None },
    ];
    assert_eq!(
        monitors_reply(&monitors),
        "# name\tx\ty\twidth\theight\neDP-1\t0\t0\t1920\t1080\nHDMI-A-1\t?\n"
    );
    let layers = vec![
        LayerRow {
            output: "eDP-1".to_string(),
            namespace: "waybar".to_string(),
            layer: LayerKind::Top,
            keyboard_focus: false,
            geometry: Some(Rect::new(0, 0, 1920, 30)),
        },
        LayerRow {
            output: "eDP-1".to_string(),
            namespace: "wallpaper".to_string(),
            layer: LayerKind::Background,
            keyboard_focus: true,
            geometry: None,
        },
    ];
    assert_eq!(
        layers_reply(&layers),
        "# output\tnamespace\tlayer\tkeyboard_focus\tgeometry\n\
         eDP-1\twaybar\ttop\tfalse\t0,0 1920x30\n\
         eDP-1\twallpaper\tbackground\ttrue\t?\n"
    );
}

#[test]
fn integers_print_with_their_sign() {
    let mut out = Vec::new();
    push_int(&mut out, -2147483648);
    push_int(&mut out, 0);
    push_int(&mut out, 42);
    assert_eq!(out.iter().collect::<String>(), "-2147483648042");
}
