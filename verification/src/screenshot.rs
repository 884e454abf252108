//! `novactl screenshot`: what a request asks for, when it is refused, and
//! the reply once the capture is armed.
use vstd::prelude::*;
use crate::record::opt_view;
use crate::text::{chars_of, push_str, str_eq, string_of, strings_view};

verus! {

/// Where finished PNG bytes go: the clipboard, or a file path.
#[derive(Clone, Debug)]
pub enum ScreenshotDest {
    Copy,
    Save(String),
}

/// What a `screenshot ...` request leads to.
#[derive(Clone, Debug)]
pub enum ScreenshotPlan {
    /// `screenshot cancel`: drop any selection and armed capture; reply `ok`.
    Cancel,
    /// Refused or malformed: answer with this reply.
    Reply(String),
    /// Arm a capture of the output under the cursor: the whole output
    /// (`monitor`) or an interactive area; `save_to` is `None` for `copy`,
    /// `Some(None)` for `save` without a path (the default path is used).
    Arm { monitor: bool, save_to: Option<Option<String>> },
}

/// The usage reply.
pub open spec fn shot_usage_reply() -> Seq<char> {
    "E usage: screenshot <area|monitor> <copy|save> [path] | screenshot cancel\n"@
}

/// The plan for `screenshot` with arguments `args`: `cancel` always works;
/// `area`/`monitor` need the drm backend, no selection or capture in
/// progress, and no open record picker, then a `copy` or `save [path]`
/// destination; anything else gets the usage.
pub open spec fn screenshot_plan_ok(
    args: Seq<Seq<char>>,
    has_drm: bool,
    busy: bool,
    record_picker: bool,
    p: ScreenshotPlan,
) -> bool {
    let reply = |text: Seq<char>| p matches ScreenshotPlan::Reply(s) && s@ == text;
    if args.len() > 0 && args[0] == "cancel"@ {
        p is Cancel
    } else if args.len() > 0 && (args[0] == "area"@ || args[0] == "monitor"@) {
        if !has_drm {
            reply("E screenshots need the drm backend\n"@)
        } else if busy {
            reply("E busy\n"@)
        } else if record_picker {
            reply("E busy (record picker active; record cancel to leave)\n"@)
        } else if args.len() > 1 && args[1] == "copy"@ {
            p matches ScreenshotPlan::Arm { monitor, save_to } && monitor == (args[0] == "monitor"@)
                && save_to is None
        } else if args.len() > 1 && args[1] == "save"@ {
            p matches ScreenshotPlan::Arm { monitor, save_to } && monitor == (args[0] == "monitor"@)
                && save_to is Some && opt_view(save_to->0) == (if args.len() > 2 {
                Some(args[2])
            } else {
                None
            })
        } else {
            reply(shot_usage_reply())
        }
    } else {
        reply(shot_usage_reply())
    }
}

fn reply_of(text: &str) -> (p: ScreenshotPlan)
    ensures
        p matches ScreenshotPlan::Reply(s) && s@ == text@,
{
    let v = chars_of(text);
    ScreenshotPlan::Reply(string_of(v.as_slice()))
}

/// Decide what a `screenshot ...` request does. `busy` is an area
/// selection or an armed capture in progress.
pub fn plan_screenshot(args: &[String], has_drm: bool, busy: bool, record_picker: bool) -> (p:
    ScreenshotPlan)
    ensures
        screenshot_plan_ok(strings_view(args@), has_drm, busy, record_picker, p),
{
    let ghost a = strings_view(args@);
    proof {
        if args@.len() > 0 {
            assert(a[0] == args@[0]@);
        }
        if args@.len() > 1 {
            assert(a[1] == args@[1]@);
        }
        if args@.len() > 2 {
            assert(a[2] == args@[2]@);
        }
    }
    let usage = "E usage: screenshot <area|monitor> <copy|save> [path] | screenshot cancel\n";
    if args.len() == 0 {
        return reply_of(usage);
    }
    let kind = args[0].as_str();
    if str_eq(kind, "cancel") {
        return ScreenshotPlan::Cancel;
    }
    let monitor = str_eq(kind, "monitor");
    if !(str_eq(kind, "area") || monitor) {
        return reply_of(usage);
    }
    if !has_drm {
        return reply_of("E screenshots need the drm backend\n");
    }
    if busy {
        return reply_of("E busy\n");
    }
    if record_picker {
        return reply_of("E busy (record picker active; record cancel to leave)\n");
    }
    if args.len() > 1 && str_eq(args[1].as_str(), "copy") {
        ScreenshotPlan::Arm { monitor, save_to: None }
    } else if args.len() > 1 && str_eq(args[1].as_str(), "save") {
        let path = if args.len() > 2 {
            Some(args[2].clone())
        } else {
            None
        };
        ScreenshotPlan::Arm { monitor, save_to: Some(path) }
    } else {
        reply_of(usage)
    }
}

/// The reply once a capture is armed: `ok <path>` when saving, else `ok`.
pub fn armed_reply(dest: &ScreenshotDest) -> (r: String)
    ensures
        r@ == (match dest {
            ScreenshotDest::Save(path) => "ok "@ + path@ + "\n"@,
            ScreenshotDest::Copy => "ok\n"@,
        }),
{
    let mut out: Vec<char> = Vec::new();
    match dest {
        ScreenshotDest::Save(path) => {
            push_str(&mut out, "ok ");
            push_str(&mut out, path.as_str());
            push_str(&mut out, "\n");
        },
        ScreenshotDest::Copy => {
            push_str(&mut out, "ok\n");
        },
    }
    string_of(out.as_slice())
}

} // verus!
