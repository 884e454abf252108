use novawm::record::{
    cancel_reply, error_reply, open_picker_check, parse_record_args, picker_click, picker_listing,
    record_status, record_toggle_step, PickerClick, RecordCommand, RecordPicker, RecordToggle,
    SessionInfo,
};

fn names(v: &[&str]) -> Vec<String> {
    v.iter().map(|x| x.to_string()).collect()
}

#[test]
fn highlight_wraps_both_ways() {
    let mut p = RecordPicker::new(names(&["a", "b", "c"]));
    p.move_highlight(1);
    assert_eq!(p.highlight.as_deref(), Some("a"));
    p.move_highlight(-1);
    assert_eq!(p.highlight.as_deref(), Some("c"));
    p.move_highlight(1);
    assert_eq!(p.highlight.as_deref(), Some("a"));
    let mut q = RecordPicker::new(names(&["a", "b", "c"]));
    q.move_highlight(-1);
    assert_eq!(q.highlight.as_deref(), Some("c"));
    let mut empty = RecordPicker::new(Vec::new());
    empty.move_highlight(1);
    assert!(empty.highlight.is_none());
}

#[test]
fn forward_then_back_returns_to_the_same_output() {
    let mut p = RecordPicker::new(names(&["eDP-1", "HDMI-A-1"]));
    p.highlight = Some("HDMI-A-1".to_string());
    p.move_highlight(1);
    assert_eq!(p.highlight.as_deref(), Some("eDP-1"));
    p.move_highlight(-1);
    assert_eq!(p.highlight.as_deref(), Some("HDMI-A-1"));
}

#[test]
fn digits_and_enter_pick_outputs() {
    let mut p = RecordPicker::new(names(&["a", "b"]));
    assert_eq!(p.digit_target(2).as_deref(), Some("b"));
    assert_eq!(p.digit_target(3), None);
    assert_eq!(p.digit_target(0).as_deref(), Some("a"));
    assert_eq!(p.enter_target().as_deref(), Some("a"));
    p.highlight = Some("b".to_string());
    assert_eq!(p.enter_target().as_deref(), Some("b"));
    assert!(p.lists(&"b".to_string()));
    assert!(!p.lists(&"z".to_string()));
}

#[test]
fn record_arguments_parse() {
    assert!(matches!(parse_record_args(&[]), RecordCommand::OpenPicker));
    assert!(matches!(parse_record_args(&names(&["stop"])), RecordCommand::Stop));
    assert!(matches!(parse_record_args(&names(&["cancel"])), RecordCommand::Cancel));
    assert!(matches!(parse_record_args(&names(&["status"])), RecordCommand::Status));
    assert!(matches!(parse_record_args(&names(&["toggle"])), RecordCommand::Toggle));
    match parse_record_args(&names(&["DP-1", "/tmp/x.mp4"])) {
        RecordCommand::Start { output, path } => {
            assert_eq!(output, "DP-1");
            assert_eq!(path.as_deref(), Some("/tmp/x.mp4"));
        }
        _ => panic!("expected start"),
    }
    assert!(matches!(parse_record_args(&names(&["DP-1"])), RecordCommand::Start { path: None, .. }));
}

#[test]
fn replies_and_status_lines() {
    assert_eq!(error_reply("no outputs"), "E no outputs\n");
    assert_eq!(cancel_reply(true), "ok cancelled\n");
    assert_eq!(cancel_reply(false), "E not picking\n");
    let listing: String = picker_listing(&names(&["eDP-1", "HDMI-A-1"])).into_iter().collect();
    assert_eq!(listing, "[1] eDP-1 [2] HDMI-A-1");
    assert_eq!(record_status(None, None), "idle\n");
    assert_eq!(
        record_status(None, Some(2)),
        "picking 2 outputs (click one or press 1-2, Esc cancels)\n"
    );
    let session = SessionInfo { output: "DP-1".to_string(), path: "/v/a.mp4".to_string(), width: 1920, height: 1080, frames: 42 };
    assert_eq!(record_status(Some(&session), Some(2)), "recording DP-1 /v/a.mp4 1920x1080 30fps 42f\n");
}

#[test]
fn picker_opening_is_refused_in_order() {
    let outs = names(&["eDP-1"]);
    assert_eq!(open_picker_check(false, None, false, false, &outs), Err("record needs the drm backend".to_string()));
    assert_eq!(
        open_picker_check(true, Some("DP-1"), true, true, &outs),
        Err("already recording DP-1 (record stop to finish)".to_string())
    );
    assert_eq!(open_picker_check(true, None, true, true, &outs), Err("busy (screenshot select active)".to_string()));
    assert_eq!(open_picker_check(true, None, false, true, &outs), Err("already picking (record cancel to leave)".to_string()));
    assert_eq!(open_picker_check(true, None, false, false, &[]), Err("no outputs".to_string()));
    assert_eq!(
        open_picker_check(true, None, false, false, &outs),
        Ok("ok picking (click an output or press its number, Esc cancels): [1] eDP-1\n".to_string())
    );
}

#[test]
fn toggles_and_clicks() {
    assert_eq!(record_toggle_step(true, true), RecordToggle::Stop);
    assert_eq!(record_toggle_step(false, true), RecordToggle::CancelPicker);
    assert_eq!(record_toggle_step(false, false), RecordToggle::OpenPicker);
    assert_eq!(picker_click(273, true), PickerClick::Cancel);
    assert_eq!(picker_click(272, true), PickerClick::ConfirmUnderCursor);
    assert_eq!(picker_click(272, false), PickerClick::Ignore);
    assert_eq!(picker_click(274, true), PickerClick::Ignore);
}

#[test]
fn ffmpeg_arguments_follow_the_encoder() {
    let args = novawm::record::ffmpeg_args(1920, 1081, true);
    assert_eq!(
        args.join(" "),
        "-y -f rawvideo -pix_fmt rgba -s 1920x1081 -framerate 30 -i - -c:v libx264 -preset veryfast -crf 23 \
         -pix_fmt yuv420p -vf scale=trunc(iw/2)*2:trunc(ih/2)*2 -movflags +faststart"
    );
    let args = novawm::record::ffmpeg_args(640, 480, false);
    assert_eq!(args[11..15].join(" "), "-c:v mpeg4 -q:v 3");
    assert_eq!(args.len(), 21);
}

#[test]
fn stderr_tail_keeps_the_last_words_on_one_line() {
    assert_eq!(novawm::record::stderr_tail("  a\n b\t c  "), "a b c");
    assert_eq!(novawm::record::stderr_tail(""), "");
    let long = format!("{}END of\nrun", "x".repeat(400));
    let tail = novawm::record::stderr_tail(&long);
    assert!(tail.ends_with("END of run"));
    assert_eq!(tail.len(), 300);
}
