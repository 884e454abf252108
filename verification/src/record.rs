//! The screen recorder's monitor picker and the decisions and replies of
//! `novactl record`.
use vstd::prelude::*;
use crate::text::{
    chars_of, chars_skip, decimal_spec, join_spaces, join_words, push_chars, push_decimal, push_str, split_whitespace,
    str_eq, string_of, strings_view, words_spec,
};

verus! {

/// Interactive monitor picker: click an output (or press its 1-based
/// number) to start recording it, Esc/right-click cancels.
pub struct RecordPicker {
    /// Output names in listed order (snapshot when the picker opened).
    pub outputs: Vec<String>,
    /// Output under the cursor / keyboard focus (highlighted frame).
    pub highlight: Option<String>,
}

/// The view of an optional string.
pub open spec fn opt_view(s: Option<String>) -> Option<Seq<char>> {
    match s {
        Some(x) => Some(x@),
        None => None,
    }
}

/// Index of the first entry equal to `name`.
pub open spec fn first_named(outputs: Seq<Seq<char>>, name: Seq<char>, i: int) -> Option<int>
    decreases outputs.len() - i,
{
    if i < 0 || i >= outputs.len() {
        None
    } else if outputs[i] == name {
        Some(i)
    } else {
        first_named(outputs, name, i + 1)
    }
}

/// The index the highlight moves to by `direction`: from the highlighted
/// output (else the last one going forward, the first going back), wrapping.
pub open spec fn moved_index(outputs: Seq<Seq<char>>, highlight: Option<Seq<char>>, direction: int) -> int {
    let len = outputs.len() as int;
    let current: int = match highlight {
        Some(h) => match first_named(outputs, h, 0) {
            Some(k) => k,
            None => if direction > 0 { len - 1 } else { 0 },
        },
        None => if direction > 0 { len - 1 } else { 0 },
    };
    (current + direction) % len
}

proof fn lemma_first_named_hit(outputs: Seq<Seq<char>>, name: Seq<char>, i: int)
    requires
        0 <= i,
    ensures
        first_named(outputs, name, i) matches Some(k) ==> i <= k < outputs.len() && outputs[k] == name,
        first_named(outputs, name, i) is None ==> forall|k: int| i <= k < outputs.len() ==> outputs[k] != name,
    decreases outputs.len() - i,
{
    if i < outputs.len() && outputs[i] != name {
        lemma_first_named_hit(outputs, name, i + 1);
    }
}

fn find_named(outputs: &[String], name: &String) -> (r: Option<usize>)
    ensures
        match r {
            Some(k) => first_named(strings_view(outputs@), name@, 0) == Some(k as int),
            None => first_named(strings_view(outputs@), name@, 0) is None,
        },
{
    let ghost names = strings_view(outputs@);
    let mut i: usize = 0;
    while i < outputs.len()
        invariant
            i <= outputs@.len(),
            names == strings_view(outputs@),
            first_named(names, name@, 0) == first_named(names, name@, i as int),
        decreases outputs@.len() - i,
    {
        proof {
            assert(names[i as int] == outputs@[i as int]@);
        }
        if str_eq(outputs[i].as_str(), name.as_str()) {
            return Some(i);
        }
        i = i + 1;
    }
    None
}

impl RecordPicker {
    /// A picker over `outputs`, nothing highlighted yet.
    pub fn new(outputs: Vec<String>) -> (p: RecordPicker)
        ensures
            p.outputs@ == outputs@,
            p.highlight is None,
    {
        RecordPicker { outputs, highlight: None }
    }

    /// Arrow-key highlight motion while the picker is open (wraps around).
    pub fn move_highlight(&mut self, direction: i8)
        requires
            old(self).outputs@.len() <= i32::MAX,
        ensures
            final(self).outputs@ == old(self).outputs@,
            old(self).outputs@.len() == 0 ==> final(self).highlight == old(self).highlight,
            old(self).outputs@.len() > 0 ==> opt_view(final(self).highlight) == Some(
                strings_view(old(self).outputs@)[moved_index(
                    strings_view(old(self).outputs@),
                    opt_view(old(self).highlight),
                    direction as int,
                )],
            ),
    {
        let len = self.outputs.len();
        if len == 0 {
            return;
        }
        let ghost names = strings_view(self.outputs@);
        let found = match &self.highlight {
            Some(h) => find_named(self.outputs.as_slice(), h),
            None => None,
        };
        let current: usize = match found {
            Some(k) => k,
            None => if direction > 0 { len - 1 } else { 0 },
        };
        proof {
            if self.highlight is Some {
                lemma_first_named_hit(names, self.highlight->0@, 0);
            }
            assert(current < len);
        }
        let next: usize = if direction >= 0 {
            (current + direction as usize) % len
        } else {
            let back: usize = (0 - (direction as i16)) as usize;
            let b = back % len;
            proof {
                let x = current - back;
                let q = back as int / len as int;
                vstd::arithmetic::div_mod::lemma_fundamental_div_mod(back as int, len as int);
                assert(current + len - b == len * (q + 1) + x) by (nonlinear_arith)
                    requires back == len * q + b, x == current - back;
                vstd::arithmetic::div_mod::lemma_mod_multiples_vanish(q + 1, x, len as int);
            }
            (current + len - b) % len
        };
        proof {
            assert(next as int == moved_index(names, opt_view(self.highlight), direction as int));
        }
        let name = self.outputs[next].clone();
        proof {
            assert(names[next as int] == name@);
        }
        self.highlight = Some(name);
    }

    /// The output that number key `digit` (1-based) names.
    pub fn digit_target(&self, digit: u8) -> (r: Option<String>)
        ensures
            opt_view(r) == (if (if digit == 0 { 0 } else { digit - 1 }) < self.outputs@.len() {
                Some(self.outputs@[if digit == 0 { 0 } else { digit - 1 }]@)
            } else {
                None
            }),
    {
        let index: usize = if digit == 0 { 0 } else { (digit - 1) as usize };
        if index < self.outputs.len() {
            Some(self.outputs[index].clone())
        } else {
            None
        }
    }

    /// Enter/Space: the highlighted output (the first when none).
    pub fn enter_target(&self) -> (r: Option<String>)
        ensures
            opt_view(r) == (match self.highlight {
                Some(h) => Some(h@),
                None => if self.outputs@.len() > 0 {
                    Some(self.outputs@[0]@)
                } else {
                    None
                },
            }),
    {
        match &self.highlight {
            Some(h) => Some(h.clone()),
            None => if self.outputs.len() > 0 {
                Some(self.outputs[0].clone())
            } else {
                None
            },
        }
    }

    /// Whether `name` is one of the listed outputs.
    pub fn lists(&self, name: &String) -> (b: bool)
        ensures
            b == strings_view(self.outputs@).contains(name@),
    {
        let r = find_named(self.outputs.as_slice(), name);
        proof {
            lemma_first_named_hit(strings_view(self.outputs@), name@, 0);
        }
        r.is_some()
    }
}

/// Whether no two outputs share a name.
pub open spec fn distinct_names(outputs: Seq<Seq<char>>) -> bool {
    forall|i: int, j: int| 0 <= i < j < outputs.len() ==> outputs[i] != outputs[j]
}

/// Moving the highlight one output forward and then one back returns to
/// the output highlighted before (outputs with distinct names, something
/// highlighted).
pub proof fn lemma_move_forward_back(outputs: Seq<Seq<char>>, k: int)
    requires
        distinct_names(outputs),
        0 <= k < outputs.len(),
    ensures
        ({
            let j = moved_index(outputs, Some(outputs[k]), 1);
            0 <= j < outputs.len() && moved_index(outputs, Some(outputs[j]), -1) == k
        }),
{
    let len = outputs.len() as int;
    assert(first_named(outputs, outputs[k], 0) == Some(k)) by {
        lemma_first_named_hit(outputs, outputs[k], 0);
        if first_named(outputs, outputs[k], 0) is None {
            assert(outputs[k] != outputs[k]);
        }
    }
    let j = moved_index(outputs, Some(outputs[k]), 1);
    if k + 1 < len {
        vstd::arithmetic::div_mod::lemma_fundamental_div_mod_converse_mod(k + 1, len, 0, k + 1);
        assert(j == k + 1);
    } else {
        vstd::arithmetic::div_mod::lemma_fundamental_div_mod_converse_mod(k + 1, len, 1, 0);
        assert(j == 0);
    }
    assert(first_named(outputs, outputs[j], 0) == Some(j)) by {
        lemma_first_named_hit(outputs, outputs[j], 0);
        if first_named(outputs, outputs[j], 0) is None {
            assert(outputs[j] != outputs[j]);
        }
    }
    if j == 0 {
        vstd::arithmetic::div_mod::lemma_fundamental_div_mod_converse_mod(-1, len, -1, len - 1);
    } else {
        vstd::arithmetic::div_mod::lemma_fundamental_div_mod_converse_mod(j - 1, len, 0, j - 1);
    }
}

} // verus!

verus! {

/// Recording frame rate (fixed).
pub const RECORD_FPS: u32 = 30;

/// What `novactl record ...` asks for.
#[derive(Clone, Debug)]
pub enum RecordCommand {
    /// `record`: open the monitor picker.
    OpenPicker,
    /// `record stop`.
    Stop,
    /// `record cancel`: leave the picker.
    Cancel,
    /// `record status`.
    Status,
    /// `record toggle`.
    Toggle,
    /// `record <output> [path]`: record that output.
    Start { output: String, path: Option<String> },
}

/// The command that the words after `record` name.
pub open spec fn record_command_matches(args: Seq<Seq<char>>, c: RecordCommand) -> bool {
    if args.len() == 0 {
        c is OpenPicker
    } else if args[0] == "stop"@ {
        c is Stop
    } else if args[0] == "cancel"@ {
        c is Cancel
    } else if args[0] == "status"@ {
        c is Status
    } else if args[0] == "toggle"@ {
        c is Toggle
    } else {
        c matches RecordCommand::Start { output, path } && output@ == args[0] && opt_view(path) == (
        if args.len() > 1 {
            Some(args[1])
        } else {
            None
        })
    }
}

/// Parse the arguments of `record`.
pub fn parse_record_args(args: &[String]) -> (c: RecordCommand)
    ensures
        record_command_matches(strings_view(args@), c),
{
    let ghost av = strings_view(args@);
    if args.len() == 0 {
        return RecordCommand::OpenPicker;
    }
    proof {
        assert(av[0] == args@[0]@);
        if args@.len() > 1 {
            assert(av[1] == args@[1]@);
        }
    }
    let first = args[0].as_str();
    if str_eq(first, "stop") {
        RecordCommand::Stop
    } else if str_eq(first, "cancel") {
        RecordCommand::Cancel
    } else if str_eq(first, "status") {
        RecordCommand::Status
    } else if str_eq(first, "toggle") {
        RecordCommand::Toggle
    } else {
        let path = if args.len() > 1 {
            Some(args[1].clone())
        } else {
            None
        };
        RecordCommand::Start { output: args[0].clone(), path }
    }
}

/// `E <message>\n`: an error reply.
pub open spec fn error_reply_spec(message: Seq<char>) -> Seq<char> {
    "E "@ + message + "\n"@
}

/// The error reply for `message`.
pub fn error_reply(message: &str) -> (r: String)
    ensures
        r@ == error_reply_spec(message@),
{
    let mut out: Vec<char> = Vec::new();
    push_str(&mut out, "E ");
    push_str(&mut out, message);
    push_str(&mut out, "\n");
    proof {
        assert(out@ =~= error_reply_spec(message@));
    }
    string_of(out.as_slice())
}

/// The reply to `record cancel`.
pub fn cancel_reply(was_picking: bool) -> (r: String)
    ensures
        r@ == (if was_picking {
            "ok cancelled\n"@
        } else {
            "E not picking\n"@
        }),
{
    let mut out: Vec<char> = Vec::new();
    if was_picking {
        push_str(&mut out, "ok cancelled\n");
    } else {
        push_str(&mut out, "E not picking\n");
    }
    proof {
        assert(out@ =~= (if was_picking {
            "ok cancelled\n"@
        } else {
            "E not picking\n"@
        }));
    }
    string_of(out.as_slice())
}

/// `[<i + 1>] <name>`: the picker's label for output `i`.
pub open spec fn picker_entry(i: int, name: Seq<char>) -> Seq<char> {
    "["@ + decimal_spec((i + 1) as nat) + "] "@ + name
}

/// The picker labels of `names`, space-separated.
pub open spec fn picker_list(names: Seq<Seq<char>>) -> Seq<char>
    decreases names.len(),
{
    if names.len() == 0 {
        Seq::<char>::empty()
    } else if names.len() == 1 {
        picker_entry(0, names[0])
    } else {
        picker_list(names.drop_last()) + " "@ + picker_entry(names.len() - 1, names.last())
    }
}

/// The picker's listing of the outputs, e.g. `[1] eDP-1 [2] HDMI-A-1`.
pub fn picker_listing(outputs: &[String]) -> (r: Vec<char>)
    requires
        outputs@.len() < u64::MAX,
    ensures
        r@ == picker_list(strings_view(outputs@)),
{
    let ghost names = strings_view(outputs@);
    let mut out: Vec<char> = Vec::new();
    let mut i: usize = 0;
    while i < outputs.len()
        invariant
            i <= outputs@.len() < u64::MAX,
            names == strings_view(outputs@),
            out@ == picker_list(names.take(i as int)),
        decreases outputs@.len() - i,
    {
        let ghost before = out@;
        proof {
            assert(names.take(i + 1).drop_last() =~= names.take(i as int));
            assert(names.take(i + 1).last() == outputs@[i as int]@);
        }
        if i > 0 {
            push_str(&mut out, " ");
        }
        push_str(&mut out, "[");
        push_decimal(&mut out, (i + 1) as u64);
        push_str(&mut out, "] ");
        push_str(&mut out, outputs[i].as_str());
        proof {
            if i == 0 {
                assert(out@ =~= picker_entry(0, names[0]));
                assert(names.take(1)[0] == names[0]);
            } else {
                assert(out@ =~= before + " "@ + picker_entry(i as int, names[i as int]));
            }
        }
        i = i + 1;
    }
    proof {
        assert(names.take(outputs@.len() as int) =~= names);
    }
    out
}

/// Why the picker cannot open, or its opening reply.
pub open spec fn open_picker_spec(
    has_drm: bool,
    recording: Option<Seq<char>>,
    screenshot_busy: bool,
    picking: bool,
    outputs: Seq<Seq<char>>,
) -> Result<Seq<char>, Seq<char>> {
    if !has_drm {
        Err("record needs the drm backend"@)
    } else if recording is Some {
        Err("already recording "@ + recording->0 + " (record stop to finish)"@)
    } else if screenshot_busy {
        Err("busy (screenshot select active)"@)
    } else if picking {
        Err("already picking (record cancel to leave)"@)
    } else if outputs.len() == 0 {
        Err("no outputs"@)
    } else {
        Ok("ok picking (click an output or press its number, Esc cancels): "@ + picker_list(outputs)
            + "\n"@)
    }
}

/// Check whether the monitor picker can open (the drm backend, no running
/// recording, no screenshot selection, no open picker, some output) and
/// give the reply.
pub fn open_picker_check(
    has_drm: bool,
    recording: Option<&str>,
    screenshot_busy: bool,
    picking: bool,
    outputs: &[String],
) -> (r: Result<String, String>)
    requires
        outputs@.len() < u64::MAX,
    ensures
        match r {
            Ok(s) => open_picker_spec(
                has_drm,
                match recording {
                    Some(o) => Some(o@),
                    None => None,
                },
                screenshot_busy,
                picking,
                strings_view(outputs@),
            ) == Ok::<Seq<char>, Seq<char>>(s@),
            Err(e) => open_picker_spec(
                has_drm,
                match recording {
                    Some(o) => Some(o@),
                    None => None,
                },
                screenshot_busy,
                picking,
                strings_view(outputs@),
            ) == Err::<Seq<char>, Seq<char>>(e@),
        },
{
    let mut out: Vec<char> = Vec::new();
    if !has_drm {
        push_str(&mut out, "record needs the drm backend");
        return Err(string_of(out.as_slice()));
    }
    if let Some(o) = recording {
        push_str(&mut out, "already recording ");
        push_str(&mut out, o);
        push_str(&mut out, " (record stop to finish)");
        return Err(string_of(out.as_slice()));
    }
    if screenshot_busy {
        push_str(&mut out, "busy (screenshot select active)");
        return Err(string_of(out.as_slice()));
    }
    if picking {
        push_str(&mut out, "already picking (record cancel to leave)");
        return Err(string_of(out.as_slice()));
    }
    if outputs.len() == 0 {
        push_str(&mut out, "no outputs");
        return Err(string_of(out.as_slice()));
    }
    let list = picker_listing(outputs);
    push_str(&mut out, "ok picking (click an output or press its number, Esc cancels): ");
    push_chars(&mut out, list.as_slice());
    push_str(&mut out, "\n");
    Ok(string_of(out.as_slice()))
}

/// What the recording toggle (keybind or `record toggle`) does.
#[derive(Clone, Copy, Debug, PartialEq, Eq, Structural)]
pub enum RecordToggle {
    /// Stop the running recording.
    Stop,
    /// Leave the open picker.
    CancelPicker,
    /// Open the picker.
    OpenPicker,
}

/// Stop when recording, cancel when picking, otherwise open the picker.
pub fn record_toggle_step(recording: bool, picking: bool) -> (t: RecordToggle)
    ensures
        t == (if recording {
            RecordToggle::Stop
        } else if picking {
            RecordToggle::CancelPicker
        } else {
            RecordToggle::OpenPicker
        }),
{
    if recording {
        RecordToggle::Stop
    } else if picking {
        RecordToggle::CancelPicker
    } else {
        RecordToggle::OpenPicker
    }
}

/// Input-event code of the left mouse button.
pub const BTN_LEFT: u32 = 272;
/// Input-event code of the right mouse button.
pub const BTN_RIGHT: u32 = 273;

/// What a pointer button does while the picker is open.
#[derive(Clone, Copy, Debug, PartialEq, Eq, Structural)]
pub enum PickerClick {
    /// Nothing (release, or another button).
    Ignore,
    /// Right click: leave the picker.
    Cancel,
    /// Left click: record the output under the cursor, if listed.
    ConfirmUnderCursor,
}

/// Right press cancels, left press confirms, everything else is ignored.
pub fn picker_click(button: u32, pressed: bool) -> (c: PickerClick)
    ensures
        c == (if !pressed {
            PickerClick::Ignore
        } else if button == BTN_RIGHT {
            PickerClick::Cancel
        } else if button == BTN_LEFT {
            PickerClick::ConfirmUnderCursor
        } else {
            PickerClick::Ignore
        }),
{
    if !pressed {
        PickerClick::Ignore
    } else if button == BTN_RIGHT {
        PickerClick::Cancel
    } else if button == BTN_LEFT {
        PickerClick::ConfirmUnderCursor
    } else {
        PickerClick::Ignore
    }
}

/// A running recording, as the status line shows it.
pub struct SessionInfo {
    pub output: String,
    pub path: String,
    pub width: u32,
    pub height: u32,
    pub frames: u64,
}

/// The one-line recorder state of `record status`.
pub open spec fn status_spec(session: Option<(Seq<char>, Seq<char>, u32, u32, u64)>, picking: Option<usize>) -> Seq<char> {
    match session {
        Some((output, path, w, h, frames)) => "recording "@ + output + " "@ + path + " "@
            + decimal_spec(w as nat) + "x"@ + decimal_spec(h as nat) + " "@ + decimal_spec(
            RECORD_FPS as nat,
        ) + "fps "@ + decimal_spec(frames as nat) + "f\n"@,
        None => match picking {
            Some(n) => "picking "@ + decimal_spec(n as nat) + " outputs (click one or press 1-"@
                + decimal_spec(n as nat) + ", Esc cancels)\n"@,
            None => "idle\n"@,
        },
    }
}

/// One-line recorder state for `record status`: the running recording,
/// else the open picker (with its number of outputs), else idle.
pub fn record_status(session: Option<&SessionInfo>, picking: Option<usize>) -> (r: String)
    ensures
        r@ == status_spec(
            match session {
                Some(s) => Some((s.output@, s.path@, s.width, s.height, s.frames)),
                None => None,
            },
            picking,
        ),
{
    let mut out: Vec<char> = Vec::new();
    match session {
        Some(s) => {
            push_str(&mut out, "recording ");
            push_str(&mut out, s.output.as_str());
            push_str(&mut out, " ");
            push_str(&mut out, s.path.as_str());
            push_str(&mut out, " ");
            push_decimal(&mut out, s.width as u64);
            push_str(&mut out, "x");
            push_decimal(&mut out, s.height as u64);
            push_str(&mut out, " ");
            push_decimal(&mut out, RECORD_FPS as u64);
            push_str(&mut out, "fps ");
            push_decimal(&mut out, s.frames);
            push_str(&mut out, "f\n");
        },
        None => match picking {
            Some(n) => {
                push_str(&mut out, "picking ");
                push_decimal(&mut out, n as u64);
                push_str(&mut out, " outputs (click one or press 1-");
                push_decimal(&mut out, n as u64);
                push_str(&mut out, ", Esc cancels)\n");
            },
            None => {
                push_str(&mut out, "idle\n");
            },
        },
    }
    string_of(out.as_slice())
}

} // verus!

verus! {

/// The encoder options: H.264 (`libx264`, fast preset, quality 23) when
/// available, plain MPEG-4 otherwise.
pub open spec fn encoder_args(x264: bool) -> Seq<Seq<char>> {
    if x264 {
        seq!["-c:v"@, "libx264"@, "-preset"@, "veryfast"@, "-crf"@, "23"@]
    } else {
        seq!["-c:v"@, "mpeg4"@, "-q:v"@, "3"@]
    }
}

/// The ffmpeg arguments before the output path: raw RGBA frames of
/// `width` x `height` at the recording rate from stdin, encoded, as
/// yuv420p with even dimensions, laid out for streaming.
pub open spec fn ffmpeg_args_spec(width: u32, height: u32, x264: bool) -> Seq<Seq<char>> {
    seq![
        "-y"@,
        "-f"@,
        "rawvideo"@,
        "-pix_fmt"@,
        "rgba"@,
        "-s"@,
        decimal_spec(width as nat) + "x"@ + decimal_spec(height as nat),
        "-framerate"@,
        decimal_spec(RECORD_FPS as nat),
        "-i"@,
        "-"@,
    ] + encoder_args(x264) + seq![
        "-pix_fmt"@,
        "yuv420p"@,
        "-vf"@,
        "scale=trunc(iw/2)*2:trunc(ih/2)*2"@,
        "-movflags"@,
        "+faststart"@,
    ]
}

fn text(s: &str) -> (r: String)
    ensures
        r@ == s@,
{
    let v = chars_of(s);
    string_of(v.as_slice())
}

fn push_text(v: &mut Vec<String>, s: &str)
    ensures
        strings_view(final(v)@) == strings_view(old(v)@).push(s@),
{
    v.push(text(s));
    proof {
        assert(strings_view(final(v)@) =~= strings_view(old(v)@).push(s@));
    }
}

/// The ffmpeg command's arguments, the output path to follow them.
pub fn ffmpeg_args(width: u32, height: u32, x264: bool) -> (args: Vec<String>)
    ensures
        strings_view(args@) == ffmpeg_args_spec(width, height, x264),
{
    let mut v: Vec<String> = Vec::new();
    push_text(&mut v, "-y");
    push_text(&mut v, "-f");
    push_text(&mut v, "rawvideo");
    push_text(&mut v, "-pix_fmt");
    push_text(&mut v, "rgba");
    push_text(&mut v, "-s");
    let mut size: Vec<char> = Vec::new();
    push_decimal(&mut size, width as u64);
    push_str(&mut size, "x");
    push_decimal(&mut size, height as u64);
    let ghost before_size = strings_view(v@);
    v.push(string_of(size.as_slice()));
    proof {
        assert(strings_view(v@) =~= before_size.push(decimal_spec(width as nat) + "x"@ + decimal_spec(height as nat)));
    }
    push_text(&mut v, "-framerate");
    let mut fps: Vec<char> = Vec::new();
    push_decimal(&mut fps, RECORD_FPS as u64);
    let ghost before_fps = strings_view(v@);
    v.push(string_of(fps.as_slice()));
    proof {
        assert(strings_view(v@) =~= before_fps.push(decimal_spec(RECORD_FPS as nat)));
    }
    push_text(&mut v, "-i");
    push_text(&mut v, "-");
    let ghost head = strings_view(v@);
    proof {
        assert(head =~= seq![
            "-y"@,
            "-f"@,
            "rawvideo"@,
            "-pix_fmt"@,
            "rgba"@,
            "-s"@,
            decimal_spec(width as nat) + "x"@ + decimal_spec(height as nat),
            "-framerate"@,
            decimal_spec(RECORD_FPS as nat),
            "-i"@,
            "-"@,
        ]);
    }
    if x264 {
        push_text(&mut v, "-c:v");
        push_text(&mut v, "libx264");
        push_text(&mut v, "-preset");
        push_text(&mut v, "veryfast");
        push_text(&mut v, "-crf");
        push_text(&mut v, "23");
    } else {
        push_text(&mut v, "-c:v");
        push_text(&mut v, "mpeg4");
        push_text(&mut v, "-q:v");
        push_text(&mut v, "3");
    }
    let ghost encoded = strings_view(v@);
    proof {
        assert(encoded =~= head + encoder_args(x264));
    }
    push_text(&mut v, "-pix_fmt");
    push_text(&mut v, "yuv420p");
    push_text(&mut v, "-vf");
    push_text(&mut v, "scale=trunc(iw/2)*2:trunc(ih/2)*2");
    push_text(&mut v, "-movflags");
    push_text(&mut v, "+faststart");
    proof {
        assert(strings_view(v@) =~= encoded + seq![
            "-pix_fmt"@,
            "yuv420p"@,
            "-vf"@,
            "scale=trunc(iw/2)*2:trunc(ih/2)*2"@,
            "-movflags"@,
            "+faststart"@,
        ]);
    }
    v
}

/// The last `n` characters of `s` (all of it when shorter).
pub open spec fn last_chars(s: Seq<char>, n: nat) -> Seq<char> {
    if s.len() <= n {
        s
    } else {
        s.skip(s.len() - n)
    }
}

/// The end of ffmpeg's error output as one log line: its last 300
/// characters, whitespace runs collapsed to single spaces.
pub fn stderr_tail(text: &str) -> (line: String)
    ensures
        line@ == join_spaces(words_spec(last_chars(text@, 300))),
{
    let chars = chars_of(text);
    let tail = if chars.len() <= 300 {
        chars
    } else {
        chars_skip(chars.as_slice(), chars.len() - 300)
    };
    let words = split_whitespace(tail.as_slice());
    let joined = join_words(&words);
    string_of(joined.as_slice())
}

} // verus!
