use novawm::config::{document_ok_check, Config};
use novawm::kdl_doc::{parse_config_document, ConfigNode};
use novawm::reload::{include_targets, ConfigWatch, IncludeTooDeep, IncludeWalk};

fn doc(text: &str) -> Vec<ConfigNode> {
    let d = parse_config_document(text).expect("test document must parse");
    assert!(document_ok_check(&d));
    d
}

#[test]
fn include_targets_join_relative_names() {
    let d = doc("include \"keys.kdl\" \"/etc/novawm/extra.kdl\"\nmodifier \"alt\"\ninclude \"sub/canvas.kdl\"\n");
    assert_eq!(
        include_targets("/home/u/.config/novawm", &d),
        vec![
            "/home/u/.config/novawm/keys.kdl".to_string(),
            "/etc/novawm/extra.kdl".to_string(),
            "/home/u/.config/novawm/sub/canvas.kdl".to_string(),
        ]
    );
}

#[test]
fn the_walk_goes_depth_first_and_visits_each_file_once() {
    let master = doc("include \"a.kdl\" \"b.kdl\"\nmodifier \"alt\"\n");
    let mut config = Config::new();
    let mut walk = IncludeWalk::start("/c/config.kdl", "/c/config.kdl", &master);
    assert_eq!(walk.next_target(), Some("/c/a.kdl".to_string()));
    assert!(walk.claim("/c/a.kdl"));
    let a = doc("include \"sub/x.kdl\" \"config.kdl\"\nlayout \"canvas\"\n");
    assert_eq!(walk.included(&mut config, "/c/a.kdl", &a), Ok(()));
    assert_eq!(config.layout, "canvas");
    // a's own includes come before b.
    assert_eq!(walk.next_target(), Some("/c/sub/x.kdl".to_string()));
    assert!(walk.claim("/c/sub/x.kdl"));
    assert_eq!(walk.next_target(), Some("/c/config.kdl".to_string()));
    assert!(!walk.claim("/c/config.kdl"));
    assert_eq!(walk.next_target(), Some("/c/b.kdl".to_string()));
    assert_eq!(walk.next_target(), None);
    assert_eq!(walk.sources, vec!["/c/config.kdl".to_string(), "/c/a.kdl".to_string()]);
    assert_eq!(walk.visited, vec!["/c/config.kdl".to_string(), "/c/a.kdl".to_string(), "/c/sub/x.kdl".to_string()]);
}

#[test]
fn includes_nest_at_most_eight_deep() {
    let nested = doc("include \"next.kdl\"\n");
    let mut config = Config::new();
    let mut walk = IncludeWalk::start("/c/config.kdl", "/c/config.kdl", &nested);
    for level in 1..=8 {
        assert_eq!(walk.next_target(), Some("/c/next.kdl".to_string()));
        assert_eq!(walk.included(&mut config, "/c/next.kdl", &nested), Ok(()), "level {level}");
    }
    assert_eq!(walk.next_target(), Some("/c/next.kdl".to_string()));
    assert_eq!(walk.included(&mut config, "/c/next.kdl", &nested), Err(IncludeTooDeep));
}

#[test]
fn reload_follows_modification_times() {
    let mut watch = ConfigWatch::new("/c/config.kdl".to_string());
    assert_eq!(watch.current_sources(), vec!["/c/config.kdl".to_string()]);
    assert!(watch.reload_due(Some(5)));
    assert!(!watch.reload_due(Some(5)));
    assert!(watch.reload_due(Some(7)));
    assert!(watch.reload_due(None));
    assert!(!watch.reload_due(None));
    let mut loaded = Config::new();
    loaded.layout = "scroll".to_string();
    let srcs = vec!["/c/config.kdl".to_string(), "/c/keys.kdl".to_string()];
    assert!(watch.apply_reload(Some((loaded, srcs.clone()))));
    assert_eq!(watch.config.layout, "scroll");
    assert_eq!(watch.current_sources(), srcs);
    // A failed load keeps what was there.
    assert!(!watch.apply_reload(None));
    assert_eq!(watch.config.layout, "scroll");
    assert_eq!(watch.loaded_paths, srcs);
}
