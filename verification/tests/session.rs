use novawm::keybind::Keybind;
use novawm::session::{
    log_dir_candidates, log_paths, safe_client_name, welcome_due, welcome_marker, welcome_rows,
    welcome_state_dir,
};

#[test]
fn log_files_live_in_the_log_dir() {
    let p = log_paths("/var/log/nova");
    assert_eq!(p.life, "/var/log/nova/novawm-life.log");
    assert_eq!(p.trace, "/var/log/nova/novawm-trace.log");
    assert_eq!(p.crash, "/var/log/nova/novawm-crash.log");
}

#[test]
fn log_dir_candidates_in_order() {
    let c = log_dir_candidates(Some("/logs".to_string()), Some("/home/u".to_string()), "/tmp/novawm-1".to_string());
    assert_eq!(c, vec!["/logs", "/home/u/.local/state/novawm", "/home/u", "/tmp/novawm-1"]);
    let c = log_dir_candidates(Some(String::new()), None, "/tmp/x".to_string());
    assert_eq!(c, vec!["/tmp/x"]);
}

#[test]
fn welcome_marker_location() {
    assert_eq!(welcome_state_dir(Some("/state".to_string()), Some("/home/u".to_string()), "/tmp"), "/state/novawm");
    assert_eq!(welcome_state_dir(Some(String::new()), Some("/home/u".to_string()), "/tmp"), "/home/u/.local/state/novawm");
    assert_eq!(welcome_state_dir(None, None, "/tmp"), "/tmp/novawm");
    assert_eq!(welcome_marker("/state/novawm"), "/state/novawm/welcomed");
    assert!(welcome_due(true, false));
    assert!(!welcome_due(true, true));
    assert!(!welcome_due(false, false));
}

#[test]
fn welcome_table_pads_combos() {
    let binds = vec![
        Keybind::parse("mod+shift+h", "move_list previous").unwrap(),
        Keybind::parse("mod+mouse:272", "move_window").unwrap(),
        Keybind::parse("F1", "welcome").unwrap(),
    ];
    let rows = welcome_rows(&binds);
    assert_eq!(
        rows,
        format!("  {:<22} move_list previous\n  {:<22} welcome\n", "mod+shift+h", "F1")
    );
    assert_eq!(welcome_rows(&[]), "  (no keybindings configured)\n");
}

#[test]
fn client_log_names_are_sanitised() {
    assert_eq!(safe_client_name("/usr/bin/foot"), "foot");
    assert_eq!(safe_client_name("my app!.sh"), "my_app_.sh");
    assert_eq!(safe_client_name("dir/"), "");
}

fn tour(rows: &str) -> String {
    format!(
        r#"#!/bin/sh
clear 2>/dev/null || true
cat <<"NOVAWELCOME"
  +--------------------------------------------------------------+
  |  Welcome to NovaWM                                           |
  |  A scrollable-tiling Wayland compositor                      |
  +--------------------------------------------------------------+
  |  Windows live on a horizontal strip you scroll through.      |
  |  Each monitor keeps its own workspaces (1-9).                |
  |  mod+o opens the overview; mod+Return opens a terminal.      |
  |  Your config is config.kdl next to the NovaWM checkout;      |
  |  most settings reload live when you save.                    |
  +--------------------------------------------------------------+

  Your keybindings (live, from your config):

{rows}
  Tips:
    scroll the strip ......... mod+h / mod+l
    move a window ............ mod+shift+h / mod+shift+l
    columns .................. mod+comma eats a window into a column,
                               mod+period pops it back out
    scratchpad ............... mod+grave stashes / recalls a window
    help ..................... this window reopens with mod+F1

NOVAWELCOME
printf '\nPress Enter to close this window.\n'
read novawm_dummy
"#,
        rows = rows
    )
}

#[test]
fn welcome_script_wraps_the_live_table() {
    let script = novawm::session::welcome_script(&[]);
    assert_eq!(script, tour("  (no keybindings configured)\n"));
    assert!(script.starts_with("#!/bin/sh\n"));
    let binds = vec![novawm::keybind::Keybind::parse("mod+shift+h", "focus left").unwrap()];
    assert_eq!(
        novawm::session::welcome_script(&binds),
        tour(&format!("  {:<22} {}\n", "mod+shift+h", "focus left"))
    );
}
