//! The control protocol: the requests the compositor's socket accepts and
//! their replies, and the `novactl` client's request line and exit status.
use vstd::prelude::*;
use crate::text::{
    chars_of, deep, parse_unsigned, parse_unsigned_spec, push_chars, push_str, split_whitespace,
    str_eq, string_of, strings_of, strings_view, words_spec, eq_chars_lit, join_spaces, clean_word,
    lemma_words_of_joined,
};

verus! {

/// A layout that `layout set` accepts.
#[derive(Clone, Copy, Debug, PartialEq, Eq, Structural)]
pub enum LayoutName {
    Scroll,
    Dwindle,
    Canvas,
}

/// The config name of a layout.
pub open spec fn layout_text(l: LayoutName) -> Seq<char> {
    match l {
        LayoutName::Scroll => "scroll"@,
        LayoutName::Dwindle => "dwindle"@,
        LayoutName::Canvas => "canvas"@,
    }
}

impl LayoutName {
    /// The config name of this layout.
    pub fn as_str(&self) -> (s: &'static str)
        ensures
            s@ == layout_text(*self),
    {
        match self {
            LayoutName::Scroll => "scroll",
            LayoutName::Dwindle => "dwindle",
            LayoutName::Canvas => "canvas",
        }
    }
}

/// One request line of the control socket, parsed.
#[derive(Clone, Debug)]
pub enum IpcRequest {
    ListWindows,
    Monitors,
    Layers,
    /// `layout get`.
    LayoutGet,
    /// `layout set <name>` with a known layout.
    LayoutSet(LayoutName),
    /// `close`: the focused window.
    CloseFocused,
    /// `close <index>`: the window at that position of `list-windows`.
    CloseIndex(usize),
    /// `screenshot ...` with its arguments.
    Screenshot(Vec<String>),
    /// `record ...` with its arguments.
    Record(Vec<String>),
    /// `stop`: quit the compositor.
    Stop,
    /// A request answered at once with this reply (usage or unknown).
    Reply(String),
}

/// `E unknown layout: <name> (scroll|dwindle|canvas)\n`.
pub open spec fn unknown_layout_reply(name: Seq<char>) -> Seq<char> {
    "E unknown layout: "@ + name + " (scroll|dwindle|canvas)\n"@
}

/// `E unknown command: <name>\n`.
pub open spec fn unknown_command_reply(name: Seq<char>) -> Seq<char> {
    "E unknown command: "@ + name + "\n"@
}

/// What the arguments of `layout` ask for.
pub open spec fn layout_request_ok(args: Seq<Seq<char>>, r: IpcRequest) -> bool {
    if args.len() > 0 && args[0] == "get"@ {
        r is LayoutGet
    } else if args.len() > 0 && args[0] == "set"@ {
        if args.len() < 2 {
            r matches IpcRequest::Reply(s) && s@ == "E usage: layout set <scroll|dwindle|canvas>\n"@
        } else if args[1] == "scroll"@ || args[1] == "scrolling"@ {
            r == IpcRequest::LayoutSet(LayoutName::Scroll)
        } else if args[1] == "dwindle"@ {
            r == IpcRequest::LayoutSet(LayoutName::Dwindle)
        } else if args[1] == "canvas"@ {
            r == IpcRequest::LayoutSet(LayoutName::Canvas)
        } else {
            r matches IpcRequest::Reply(s) && s@ == unknown_layout_reply(args[1])
        }
    } else {
        r matches IpcRequest::Reply(s) && s@
            == "E usage: layout get | layout set <scroll|dwindle|canvas>\n"@
    }
}

/// What the arguments of `close` ask for.
pub open spec fn close_request_ok(args: Seq<Seq<char>>, r: IpcRequest) -> bool {
    if args.len() == 0 {
        r is CloseFocused
    } else {
        match parse_unsigned_spec(args[0], usize::MAX as nat) {
            Some(i) => r == IpcRequest::CloseIndex(i as usize),
            None => r matches IpcRequest::Reply(s) && s@ == "E close: index must be an integer\n"@,
        }
    }
}

/// What a request line asks for: its first word names the command, the
/// other words are its arguments.
pub open spec fn ipc_request_ok(request: Seq<char>, r: IpcRequest) -> bool {
    let words = words_spec(request);
    let command = if words.len() > 0 {
        words[0]
    } else {
        Seq::<char>::empty()
    };
    let args = if words.len() > 0 {
        words.drop_first()
    } else {
        Seq::<Seq<char>>::empty()
    };
    if command == "list-windows"@ {
        r is ListWindows
    } else if command == "monitors"@ {
        r is Monitors
    } else if command == "layers"@ {
        r is Layers
    } else if command == "layout"@ {
        layout_request_ok(args, r)
    } else if command == "close"@ {
        close_request_ok(args, r)
    } else if command == "screenshot"@ {
        r matches IpcRequest::Screenshot(a) && strings_view(a@) == args
    } else if command == "record"@ {
        r matches IpcRequest::Record(a) && strings_view(a@) == args
    } else if command == "stop"@ {
        r is Stop
    } else {
        r matches IpcRequest::Reply(s) && s@ == unknown_command_reply(command)
    }
}

fn reply(text: &str) -> (r: IpcRequest)
    ensures
        r matches IpcRequest::Reply(s) && s@ == text@,
{
    let v = chars_of(text);
    IpcRequest::Reply(string_of(v.as_slice()))
}

fn layout_request(args: &Vec<Vec<char>>) -> (r: IpcRequest)
    ensures
        layout_request_ok(deep(args@), r),
{
    let ghost a = deep(args@);
    proof {
        if args@.len() > 0 {
            assert(a[0] == args@[0]@);
        }
        if args@.len() > 1 {
            assert(a[1] == args@[1]@);
        }
    }
    if args.len() > 0 && eq_chars_lit(args[0].as_slice(), "get") {
        IpcRequest::LayoutGet
    } else if args.len() > 0 && eq_chars_lit(args[0].as_slice(), "set") {
        if args.len() < 2 {
            reply("E usage: layout set <scroll|dwindle|canvas>\n")
        } else {
            let t = args[1].as_slice();
            if eq_chars_lit(t, "scroll") || eq_chars_lit(t, "scrolling") {
                IpcRequest::LayoutSet(LayoutName::Scroll)
            } else if eq_chars_lit(t, "dwindle") {
                IpcRequest::LayoutSet(LayoutName::Dwindle)
            } else if eq_chars_lit(t, "canvas") {
                IpcRequest::LayoutSet(LayoutName::Canvas)
            } else {
                let mut out: Vec<char> = Vec::new();
                push_str(&mut out, "E unknown layout: ");
                push_chars(&mut out, t);
                push_str(&mut out, " (scroll|dwindle|canvas)\n");
                IpcRequest::Reply(string_of(out.as_slice()))
            }
        }
    } else {
        reply("E usage: layout get | layout set <scroll|dwindle|canvas>\n")
    }
}

fn close_request(args: &Vec<Vec<char>>) -> (r: IpcRequest)
    ensures
        close_request_ok(deep(args@), r),
{
    if args.len() == 0 {
        return IpcRequest::CloseFocused;
    }
    proof {
        assert(deep(args@)[0] == args@[0]@);
    }
    match parse_unsigned(args[0].as_slice(), usize::MAX as u64) {
        Some(i) => IpcRequest::CloseIndex(i as usize),
        None => reply("E close: index must be an integer\n"),
    }
}

/// Parse one request line of the control socket.
pub fn parse_ipc_request(request: &str) -> (r: IpcRequest)
    ensures
        ipc_request_ok(request@, r),
{
    let chars = chars_of(request);
    let words = split_whitespace(chars.as_slice());
    let n = words.len();
    let ghost ws = words_spec(request@);
    let command: Vec<char> = if n > 0 {
        words[0].clone()
    } else {
        Vec::new()
    };
    let mut args: Vec<Vec<char>> = Vec::new();
    let mut i: usize = 1;
    while i < n
        invariant
            1 <= i <= n || (n == 0 && i == 1),
            n == words@.len(),
            deep(words@) == ws,
            n > 0 ==> deep(args@) == ws.subrange(1, i as int),
            n > 0 ==> args@.len() == i - 1,
            n == 0 ==> args@.len() == 0,
        decreases n - i,
    {
        args.push(words[i].clone());
        proof {
            assert(args@[i - 1]@ == words@[i as int]@);
            assert(deep(words@)[i as int] == words@[i as int]@);
            assert(deep(args@) =~= ws.subrange(1, i + 1));
        }
        i = i + 1;
    }
    proof {
        if n > 0 {
            assert(ws.subrange(1, n as int) =~= ws.drop_first());
            assert(command@ == ws[0]);
        } else {
            assert(deep(args@) =~= Seq::<Seq<char>>::empty());
        }
    }
    let c = command.as_slice();
    if eq_chars_lit(c, "list-windows") {
        IpcRequest::ListWindows
    } else if eq_chars_lit(c, "monitors") {
        IpcRequest::Monitors
    } else if eq_chars_lit(c, "layers") {
        IpcRequest::Layers
    } else if eq_chars_lit(c, "layout") {
        layout_request(&args)
    } else if eq_chars_lit(c, "close") {
        close_request(&args)
    } else if eq_chars_lit(c, "screenshot") {
        let a = strings_of(args.as_slice(), 0, args.len());
        proof {
            assert(deep(args@).subrange(0, args@.len() as int) =~= deep(args@));
        }
        IpcRequest::Screenshot(a)
    } else if eq_chars_lit(c, "record") {
        let a = strings_of(args.as_slice(), 0, args.len());
        proof {
            assert(deep(args@).subrange(0, args@.len() as int) =~= deep(args@));
        }
        IpcRequest::Record(a)
    } else if eq_chars_lit(c, "stop") {
        IpcRequest::Stop
    } else {
        let mut out: Vec<char> = Vec::new();
        push_str(&mut out, "E unknown command: ");
        push_chars(&mut out, c);
        push_str(&mut out, "\n");
        IpcRequest::Reply(string_of(out.as_slice()))
    }
}

} // verus!

verus! {

/// The reply to a successful `layout set`: `ok layout=<name>\n`.
pub fn layout_set_reply(l: LayoutName) -> (r: String)
    ensures
        r@ == "ok layout="@ + layout_text(l) + "\n"@,
{
    let mut out: Vec<char> = Vec::new();
    push_str(&mut out, "ok layout=");
    push_str(&mut out, l.as_str());
    push_str(&mut out, "\n");
    string_of(out.as_slice())
}

/// The reply to `layout get`: the current layout's name and a newline.
pub fn layout_get_reply(current: &str) -> (r: String)
    ensures
        r@ == current@ + "\n"@,
{
    let mut out: Vec<char> = Vec::new();
    push_str(&mut out, current);
    push_str(&mut out, "\n");
    string_of(out.as_slice())
}

/// The reply to `close`: whether a window was found to close.
pub fn close_reply(found: bool) -> (r: String)
    ensures
        r@ == (if found {
            "ok closing\n"@
        } else {
            "E close: no matching window\n"@
        }),
{
    let mut out: Vec<char> = Vec::new();
    if found {
        push_str(&mut out, "ok closing\n");
    } else {
        push_str(&mut out, "E close: no matching window\n");
    }
    string_of(out.as_slice())
}

/// The client's usage line.
pub open spec fn usage_text() -> Seq<char> {
    "usage: novactl <list-windows|monitors|layers|layout get|layout set <scroll|dwindle|canvas>|close [index]|screenshot <area|monitor> <copy|save> [path]|screenshot cancel|record [output] [path]|record stop|status|cancel|toggle|stop>"@
}

/// The client's usage line.
pub fn usage() -> (u: String)
    ensures
        u@ == usage_text(),
{
    let mut out: Vec<char> = Vec::new();
    push_str(
        &mut out,
        "usage: novactl <list-windows|monitors|layers|layout get|layout set <scroll|dwindle|canvas>|close [index]|screenshot <area|monitor> <copy|save> [path]|screenshot cancel|record [output] [path]|record stop|status|cancel|toggle|stop>",
    );
    string_of(out.as_slice())
}

/// What the client does with its command line.
#[derive(Clone, Debug)]
pub enum CliRequest {
    /// Send this request line to the compositor.
    Send(String),
    /// Print the usage and succeed.
    Help,
    /// Print these lines on stderr and exit with status 2.
    Fail(Vec<String>),
}

/// Screenshot usage line of the client.
pub open spec fn shot_usage() -> Seq<char> {
    "usage: novactl screenshot <area|monitor> <copy|save> [path] | screenshot cancel"@
}

/// `a b` / `a b c` request lines.
pub open spec fn words2(a: Seq<char>, b: Seq<char>) -> Seq<char> {
    a + " "@ + b
}

/// The request line (or failure) that the client's arguments give.
pub open spec fn cli_ok(args: Seq<Seq<char>>, r: CliRequest) -> bool {
    let sends = |line: Seq<char>| r matches CliRequest::Send(s) && s@ == line;
    let fails1 = |line: Seq<char>| r matches CliRequest::Fail(v) && strings_view(v@) == seq![line];
    if args.len() == 0 {
        fails1(usage_text())
    } else {
        let c = args[0];
        if c == "list-windows"@ || c == "monitors"@ || c == "layers"@ || c == "stop"@ {
            sends(c)
        } else if c == "layout"@ {
            if args.len() > 1 && args[1] == "get"@ {
                sends("layout get"@)
            } else if args.len() > 1 && args[1] == "set"@ {
                if args.len() > 2 {
                    sends(words2("layout set"@, args[2]))
                } else {
                    fails1("usage: novactl layout set <scroll|dwindle|canvas>"@)
                }
            } else {
                fails1("usage: novactl layout get | layout set <scroll|dwindle|canvas>"@)
            }
        } else if c == "close"@ {
            if args.len() > 1 {
                sends(words2("close"@, args[1]))
            } else {
                sends("close"@)
            }
        } else if c == "screenshot"@ {
            if args.len() > 1 && args[1] == "cancel"@ {
                sends("screenshot cancel"@)
            } else if args.len() > 1 && (args[1] == "area"@ || args[1] == "monitor"@) {
                if args.len() > 2 && (args[2] == "copy"@ || args[2] == "save"@) {
                    if args.len() > 3 {
                        sends(words2(words2(words2("screenshot"@, args[1]), args[2]), args[3]))
                    } else {
                        sends(words2(words2("screenshot"@, args[1]), args[2]))
                    }
                } else {
                    fails1(shot_usage())
                }
            } else {
                fails1(shot_usage())
            }
        } else if c == "record"@ {
            if args.len() == 1 {
                sends("record"@)
            } else if args[1] == "stop"@ || args[1] == "status"@ || args[1] == "cancel"@ || args[1]
                == "toggle"@ {
                sends(words2("record"@, args[1]))
            } else if args.len() > 2 {
                sends(words2(words2("record"@, args[1]), args[2]))
            } else {
                sends(words2("record"@, args[1]))
            }
        } else if c == "help"@ || c == "-h"@ || c == "--help"@ {
            r is Help
        } else {
            r matches CliRequest::Fail(v) && strings_view(v@) == seq![
                "novactl: unknown command: "@ + c,
                usage_text(),
            ]
        }
    }
}

fn send1(a: &str) -> (r: CliRequest)
    ensures
        r matches CliRequest::Send(s) && s@ == a@,
{
    CliRequest::Send(lit(a))
}

fn send2(a: &str, b: &str) -> (r: CliRequest)
    ensures
        r matches CliRequest::Send(s) && s@ == words2(a@, b@),
{
    let mut out: Vec<char> = Vec::new();
    push_str(&mut out, a);
    push_str(&mut out, " ");
    push_str(&mut out, b);
    CliRequest::Send(string_of(out.as_slice()))
}

fn send3(a: &str, b: &str, c: &str) -> (r: CliRequest)
    ensures
        r matches CliRequest::Send(s) && s@ == words2(words2(a@, b@), c@),
{
    let mut out: Vec<char> = Vec::new();
    push_str(&mut out, a);
    push_str(&mut out, " ");
    push_str(&mut out, b);
    push_str(&mut out, " ");
    push_str(&mut out, c);
    CliRequest::Send(string_of(out.as_slice()))
}

fn send4(a: &str, b: &str, c: &str, d: &str) -> (r: CliRequest)
    ensures
        r matches CliRequest::Send(s) && s@ == words2(words2(words2(a@, b@), c@), d@),
{
    let mut out: Vec<char> = Vec::new();
    push_str(&mut out, a);
    push_str(&mut out, " ");
    push_str(&mut out, b);
    push_str(&mut out, " ");
    push_str(&mut out, c);
    push_str(&mut out, " ");
    push_str(&mut out, d);
    CliRequest::Send(string_of(out.as_slice()))
}

fn fail_with(line: String) -> (r: CliRequest)
    ensures
        r matches CliRequest::Fail(v) && strings_view(v@) == seq![line@],
{
    let mut v: Vec<String> = Vec::new();
    v.push(line);
    proof {
        assert(strings_view(v@) =~= seq![line@]);
    }
    CliRequest::Fail(v)
}

fn lit(s: &str) -> (r: String)
    ensures
        r@ == s@,
{
    let v = chars_of(s);
    string_of(v.as_slice())
}

/// Turn the client's arguments (after the program name) into a request
/// line, the help, or a usage failure.
pub fn cli_request(args: &[String]) -> (r: CliRequest)
    ensures
        cli_ok(strings_view(args@), r),
{
    let ghost a = strings_view(args@);
    if args.len() == 0 {
        return fail_with(usage());
    }
    proof {
        assert(a[0] == args@[0]@);
        if args@.len() > 1 {
            assert(a[1] == args@[1]@);
        }
        if args@.len() > 2 {
            assert(a[2] == args@[2]@);
        }
        if args@.len() > 3 {
            assert(a[3] == args@[3]@);
        }
    }
    let c = args[0].as_str();
    let n = args.len();
    if str_eq(c, "list-windows") || str_eq(c, "monitors") || str_eq(c, "layers") || str_eq(
        c,
        "stop",
    ) {
        send1(c)
    } else if str_eq(c, "layout") {
        if n > 1 && str_eq(args[1].as_str(), "get") {
            send1("layout get")
        } else if n > 1 && str_eq(args[1].as_str(), "set") {
            if n > 2 {
                send2("layout set", args[2].as_str())
            } else {
                fail_with(lit("usage: novactl layout set <scroll|dwindle|canvas>"))
            }
        } else {
            fail_with(lit("usage: novactl layout get | layout set <scroll|dwindle|canvas>"))
        }
    } else if str_eq(c, "close") {
        if n > 1 {
            send2("close", args[1].as_str())
        } else {
            send1("close")
        }
    } else if str_eq(c, "screenshot") {
        if n > 1 && str_eq(args[1].as_str(), "cancel") {
            send1("screenshot cancel")
        } else if n > 1 && (str_eq(args[1].as_str(), "area") || str_eq(args[1].as_str(), "monitor")) {
            if n > 2 && (str_eq(args[2].as_str(), "copy") || str_eq(args[2].as_str(), "save")) {
                if n > 3 {
                    send4("screenshot", args[1].as_str(), args[2].as_str(), args[3].as_str())
                } else {
                    send3("screenshot", args[1].as_str(), args[2].as_str())
                }
            } else {
                fail_with(lit("usage: novactl screenshot <area|monitor> <copy|save> [path] | screenshot cancel"))
            }
        } else {
            fail_with(lit("usage: novactl screenshot <area|monitor> <copy|save> [path] | screenshot cancel"))
        }
    } else if str_eq(c, "record") {
        if n == 1 {
            send1("record")
        } else {
            let o = args[1].as_str();
            if str_eq(o, "stop") || str_eq(o, "status") || str_eq(o, "cancel") || str_eq(o, "toggle") {
                send2("record", o)
            } else if n > 2 {
                send3("record", o, args[2].as_str())
            } else {
                send2("record", o)
            }
        }
    } else if str_eq(c, "help") || str_eq(c, "-h") || str_eq(c, "--help") {
        CliRequest::Help
    } else {
        let mut line: Vec<char> = Vec::new();
        push_str(&mut line, "novactl: unknown command: ");
        push_str(&mut line, c);
        let mut v: Vec<String> = Vec::new();
        v.push(string_of(line.as_slice()));
        v.push(usage());
        proof {
            assert(strings_view(v@) =~= seq!["novactl: unknown command: "@ + c@, usage_text()]);
        }
        CliRequest::Fail(v)
    }
}

/// What the client makes of the compositor's reply.
#[derive(Clone, Debug)]
pub enum ResponseOutcome {
    /// Nothing came back: a failure.
    NoResponse,
    /// An `E `-prefixed reply: print the rest on stderr, fail.
    Failure(String),
    /// Print the reply, succeed.
    Success,
}

/// Classify a reply of the compositor.
pub fn response_outcome(response: &str) -> (o: ResponseOutcome)
    ensures
        response@.len() == 0 ==> o is NoResponse,
        response@.len() > 0 && crate::keybind::has_prefix(response@, "E "@) ==> (o matches ResponseOutcome::Failure(rest) && rest@ == response@.skip("E "@.len() as int)),
        response@.len() > 0 && !crate::keybind::has_prefix(response@, "E "@) ==> o is Success,
{
    let chars = chars_of(response);
    if chars.len() == 0 {
        return ResponseOutcome::NoResponse;
    }
    let prefix = chars_of("E ");
    if crate::text::chars_starts_with(chars.as_slice(), prefix.as_slice()) {
        let rest = crate::text::chars_skip(chars.as_slice(), prefix.len());
        ResponseOutcome::Failure(string_of(rest.as_slice()))
    } else {
        ResponseOutcome::Success
    }
}

} // verus!

verus! {

proof fn lemma_join_first(args: Seq<Seq<char>>)
    requires
        args.len() >= 1,
    ensures
        join_spaces(args.take(1)) == args[0],
{
    assert(args.take(1).len() == 1);
    assert(args.take(1)[0] == args[0]);
}

proof fn lemma_join_next(args: Seq<Seq<char>>, k: int)
    requires
        1 <= k < args.len(),
    ensures
        join_spaces(args.take(k + 1)) == words2(join_spaces(args.take(k)), args[k]),
{
    reveal_strlit(" ");
    assert(args.take(k + 1).drop_last() =~= args.take(k));
    assert(args.take(k + 1).last() == args[k]);
    assert(join_spaces(args.take(k)).push(' ') + args[k] =~= words2(join_spaces(args.take(k)), args[k]));
}

/// The request line is the first `k` arguments joined by spaces.
proof fn lemma_line_is_prefix(args: Seq<Seq<char>>, line: Seq<char>, k: int)
    requires
        1 <= k <= args.len(),
        line == join_spaces(args.take(k)),
        forall|i: int| 0 <= i < args.len() ==> clean_word(#[trigger] args[i]),
    ensures
        words_spec(line) == args.take(k),
{
    assert forall|i: int| 0 <= i < args.take(k).len() implies clean_word(#[trigger] args.take(k)[i]) by {
        assert(args.take(k)[i] == args[i]);
    }
    lemma_words_of_joined(args.take(k));
}

/// Every request line that the client sends, for arguments that are plain
/// words, splits on the compositor's side into the first words of those
/// arguments: the compositor reads the command and arguments the user typed.
pub proof fn lemma_sent_line_is_argument_prefix(args: Seq<Seq<char>>, r: CliRequest)
    requires
        cli_ok(args, r),
        r is Send,
        forall|i: int| 0 <= i < args.len() ==> clean_word(#[trigger] args[i]),
    ensures
        match r {
            CliRequest::Send(line) => {
                let k = words_spec(line@).len() as int;
                1 <= k <= args.len() && words_spec(line@) == args.take(k)
            },
            _ => true,
        },
{
    reveal_strlit("layout get");
    reveal_strlit("layout set");
    reveal_strlit("screenshot cancel");
    reveal_strlit("layout");
    reveal_strlit("get");
    reveal_strlit("set");
    reveal_strlit("screenshot");
    reveal_strlit("cancel");
    reveal_strlit(" ");
    let line = match r {
        CliRequest::Send(l) => l@,
        _ => Seq::<char>::empty(),
    };
    assert(args.len() > 0);
    lemma_join_first(args);
    let c = args[0];
    let k: int = if c == "list-windows"@ || c == "monitors"@ || c == "layers"@ || c == "stop"@ {
        1
    } else if c == "layout"@ {
        if args[1] == "get"@ {
            lemma_join_next(args, 1);
            assert(line =~= join_spaces(args.take(2)));
            2
        } else {
            lemma_join_next(args, 1);
            lemma_join_next(args, 2);
            assert(words2("layout"@, "set"@) =~= "layout set"@);
            3
        }
    } else if c == "close"@ {
        if args.len() > 1 {
            lemma_join_next(args, 1);
            2
        } else {
            1
        }
    } else if c == "screenshot"@ {
        lemma_join_next(args, 1);
        if args[1] == "cancel"@ {
            assert(words2("screenshot"@, "cancel"@) =~= "screenshot cancel"@);
            2
        } else {
            lemma_join_next(args, 2);
            if args.len() > 3 {
                lemma_join_next(args, 3);
                4
            } else {
                3
            }
        }
    } else {
        if args.len() == 1 {
            1
        } else {
            lemma_join_next(args, 1);
            if args[1] == "stop"@ || args[1] == "status"@ || args[1] == "cancel"@ || args[1]
                == "toggle"@ || args.len() <= 2 {
                2
            } else {
                lemma_join_next(args, 2);
                3
            }
        }
    };
    assert(line == join_spaces(args.take(k)));
    lemma_line_is_prefix(args, line, k);
}

} // verus!
