use novawm::screenshot::{armed_reply, plan_screenshot, ScreenshotDest, ScreenshotPlan};

fn args(v: &[&str]) -> Vec<String> {
    v.iter().map(|x| x.to_string()).collect()
}

fn reply(p: ScreenshotPlan) -> String {
    match p {
        ScreenshotPlan::Reply(s) => s,
        other => panic!("expected a reply, got {other:?}"),
    }
}

const USAGE: &str = "E usage: screenshot <area|monitor> <copy|save> [path] | screenshot cancel\n";

#[test]
fn requests_arm_captures() {
    assert!(matches!(plan_screenshot(&args(&["cancel"]), false, true, true), ScreenshotPlan::Cancel));
    assert!(matches!(
        plan_screenshot(&args(&["monitor", "copy"]), true, false, false),
        ScreenshotPlan::Arm { monitor: true, save_to: None }
    ));
    match plan_screenshot(&args(&["area", "save", "/tmp/a.png"]), true, false, false) {
        ScreenshotPlan::Arm { monitor, save_to } => {
            assert!(!monitor);
            assert_eq!(save_to, Some(Some("/tmp/a.png".to_string())));
        }
        other => panic!("unexpected {other:?}"),
    }
    assert!(matches!(
        plan_screenshot(&args(&["area", "save"]), true, false, false),
        ScreenshotPlan::Arm { monitor: false, save_to: Some(None) }
    ));
}

#[test]
fn requests_are_refused_in_order() {
    assert_eq!(reply(plan_screenshot(&args(&["area", "copy"]), false, true, true)), "E screenshots need the drm backend\n");
    assert_eq!(reply(plan_screenshot(&args(&["area", "copy"]), true, true, true)), "E busy\n");
    assert_eq!(
        reply(plan_screenshot(&args(&["area", "copy"]), true, false, true)),
        "E busy (record picker active; record cancel to leave)\n"
    );
    assert_eq!(reply(plan_screenshot(&args(&["area", "print"]), true, false, false)), USAGE);
    assert_eq!(reply(plan_screenshot(&args(&["window"]), true, false, false)), USAGE);
    assert_eq!(reply(plan_screenshot(&[], true, false, false)), USAGE);
}

#[test]
fn armed_replies() {
    assert_eq!(armed_reply(&ScreenshotDest::Copy), "ok\n");
    assert_eq!(armed_reply(&ScreenshotDest::Save("/p/x.png".to_string())), "ok /p/x.png\n");
}
