use novawm::geometry::{Point, Rect, Size};
use novawm::kdl_doc::ConfigNumber;
use novawm::rules::{centered_location, contains_chars, evaluate_rules, rule_verdict, rule_workspace_index, RuleVerdict, WindowRule};

fn rule(app_id: &str, title: &str) -> WindowRule {
    WindowRule { app_id: app_id.to_string(), title: title.to_string(), float: false, opacity: None, workspace: None, center: false }
}

#[test]
fn rules_match_case_insensitive_substrings() {
    let mut a = rule("MPV", "");
    a.float = true;
    let mut b = rule("", "picture");
    b.center = true;
    b.opacity = Some(ConfigNumber::Float(0.5f64.to_bits()));
    let mut c = rule("discord", "");
    c.workspace = Some(3);
    let rules = vec![a, b, c];
    let o = evaluate_rules(&rules, "io.mpv.Mpv", "Picture-in-Picture");
    assert!(o.any_match && o.needs_identity && o.want_float && o.want_center);
    assert_eq!(o.opacity, Some(ConfigNumber::Float(0.5f64.to_bits())));
    assert_eq!(o.workspace, None);
    let d = evaluate_rules(&rules, "Discord", "chat");
    assert_eq!(d.workspace, Some(3));
    assert!(!d.want_float);
}

#[test]
fn matchers_wait_for_an_identity() {
    let rules = vec![rule("mpv", "")];
    let o = evaluate_rules(&rules, "", "");
    assert!(!o.any_match && o.needs_identity);
    assert_eq!(rule_verdict(o, false, false), RuleVerdict { opacity: None, apply: false, mark_done: false });
    let mut anything = rule("", "");
    anything.float = true;
    let o = evaluate_rules(&[anything], "", "");
    assert!(o.any_match && o.want_float);
    assert_eq!(rule_verdict(o, false, false), RuleVerdict { opacity: None, apply: true, mark_done: true });
    assert_eq!(rule_verdict(o, true, false), RuleVerdict { opacity: None, apply: false, mark_done: false });
}

#[test]
fn helpers() {
    assert!(contains_chars(&['a', 'b', 'c'], &['b', 'c']));
    assert!(contains_chars(&['a'], &[]));
    assert!(!contains_chars(&['a', 'b'], &['b', 'a']));
    assert_eq!(rule_workspace_index(3), 2);
    assert_eq!(rule_workspace_index(0), 0);
    assert_eq!(centered_location(Rect::new(100, 50, 1000, 800), Size { w: 400, h: 1000 }), Point::new(400, 50));
}
