use novawm::ipc::{
    cli_request, close_reply, layout_get_reply, layout_set_reply, parse_ipc_request,
    response_outcome, usage, CliRequest, IpcRequest, LayoutName, ResponseOutcome,
};

fn args(v: &[&str]) -> Vec<String> {
    v.iter().map(|x| x.to_string()).collect()
}

fn sent(r: CliRequest) -> String {
    match r {
        CliRequest::Send(s) => s,
        other => panic!("expected a request line, got {other:?}"),
    }
}

fn failed(r: CliRequest) -> Vec<String> {
    match r {
        CliRequest::Fail(v) => v,
        other => panic!("expected a failure, got {other:?}"),
    }
}

#[test]
fn socket_requests_parse() {
    assert!(matches!(parse_ipc_request("list-windows\n"), IpcRequest::ListWindows));
    assert!(matches!(parse_ipc_request("  monitors "), IpcRequest::Monitors));
    assert!(matches!(parse_ipc_request("layers"), IpcRequest::Layers));
    assert!(matches!(parse_ipc_request("layout get"), IpcRequest::LayoutGet));
    assert!(matches!(parse_ipc_request("layout set scrolling"), IpcRequest::LayoutSet(LayoutName::Scroll)));
    assert!(matches!(parse_ipc_request("layout set canvas"), IpcRequest::LayoutSet(LayoutName::Canvas)));
    assert!(matches!(parse_ipc_request("close"), IpcRequest::CloseFocused));
    assert!(matches!(parse_ipc_request("close 4"), IpcRequest::CloseIndex(4)));
    assert!(matches!(parse_ipc_request("stop"), IpcRequest::Stop));
    match parse_ipc_request("record DP-1 /tmp/a.mp4") {
        IpcRequest::Record(a) => assert_eq!(a, args(&["DP-1", "/tmp/a.mp4"])),
        other => panic!("unexpected {other:?}"),
    }
    match parse_ipc_request("screenshot area copy") {
        IpcRequest::Screenshot(a) => assert_eq!(a, args(&["area", "copy"])),
        other => panic!("unexpected {other:?}"),
    }
}

#[test]
fn bad_socket_requests_get_replies() {
    let reply = |r: IpcRequest| match r {
        IpcRequest::Reply(s) => s,
        other => panic!("expected a reply, got {other:?}"),
    };
    assert_eq!(reply(parse_ipc_request("frobnicate now")), "E unknown command: frobnicate\n");
    assert_eq!(reply(parse_ipc_request("")), "E unknown command: \n");
    assert_eq!(reply(parse_ipc_request("layout")), "E usage: layout get | layout set <scroll|dwindle|canvas>\n");
    assert_eq!(reply(parse_ipc_request("layout set")), "E usage: layout set <scroll|dwindle|canvas>\n");
    assert_eq!(reply(parse_ipc_request("layout set grid")), "E unknown layout: grid (scroll|dwindle|canvas)\n");
    assert_eq!(reply(parse_ipc_request("close -1")), "E close: index must be an integer\n");
}

#[test]
fn socket_replies() {
    assert_eq!(layout_set_reply(LayoutName::Dwindle), "ok layout=dwindle\n");
    assert_eq!(layout_get_reply("scroll"), "scroll\n");
    assert_eq!(close_reply(true), "ok closing\n");
    assert_eq!(close_reply(false), "E close: no matching window\n");
}

#[test]
fn client_builds_request_lines() {
    assert_eq!(sent(cli_request(&args(&["list-windows"]))), "list-windows");
    assert_eq!(sent(cli_request(&args(&["layout", "set", "canvas"]))), "layout set canvas");
    assert_eq!(sent(cli_request(&args(&["layout", "get"]))), "layout get");
    assert_eq!(sent(cli_request(&args(&["close", "3"]))), "close 3");
    assert_eq!(sent(cli_request(&args(&["close"]))), "close");
    assert_eq!(sent(cli_request(&args(&["screenshot", "area", "save", "/tmp/s.png"]))), "screenshot area save /tmp/s.png");
    assert_eq!(sent(cli_request(&args(&["screenshot", "monitor", "copy"]))), "screenshot monitor copy");
    assert_eq!(sent(cli_request(&args(&["screenshot", "cancel"]))), "screenshot cancel");
    assert_eq!(sent(cli_request(&args(&["record"]))), "record");
    assert_eq!(sent(cli_request(&args(&["record", "status", "extra"]))), "record status");
    assert_eq!(sent(cli_request(&args(&["record", "DP-1", "/v/x.mp4"]))), "record DP-1 /v/x.mp4");
    assert!(matches!(cli_request(&args(&["--help"])), CliRequest::Help));
}

#[test]
fn client_usage_failures() {
    assert_eq!(failed(cli_request(&[])), vec![usage()]);
    assert_eq!(failed(cli_request(&args(&["layout", "set"]))), args(&["usage: novactl layout set <scroll|dwindle|canvas>"]));
    assert_eq!(failed(cli_request(&args(&["layout"]))), args(&["usage: novactl layout get | layout set <scroll|dwindle|canvas>"]));
    assert_eq!(
        failed(cli_request(&args(&["screenshot", "area", "paste"]))),
        args(&["usage: novactl screenshot <area|monitor> <copy|save> [path] | screenshot cancel"])
    );
    let unknown = failed(cli_request(&args(&["dance"])));
    assert_eq!(unknown, vec!["novactl: unknown command: dance".to_string(), usage()]);
    assert!(usage().starts_with("usage: novactl <list-windows|"));
}

#[test]
fn client_classifies_replies() {
    assert!(matches!(response_outcome(""), ResponseOutcome::NoResponse));
    assert!(matches!(response_outcome("E busy\n"), ResponseOutcome::Failure(rest) if rest == "busy\n"));
    assert!(matches!(response_outcome("ok\n"), ResponseOutcome::Success));
}

#[test]
fn client_lines_parse_back_to_the_typed_words() {
    let roundtrip = |a: &[&str]| parse_ipc_request(&sent(cli_request(&args(a))));
    assert!(matches!(roundtrip(&["layout", "set", "dwindle"]), IpcRequest::LayoutSet(LayoutName::Dwindle)));
    assert!(matches!(roundtrip(&["layout", "get", "extra"]), IpcRequest::LayoutGet));
    assert!(matches!(roundtrip(&["close", "3"]), IpcRequest::CloseIndex(3)));
    assert!(matches!(roundtrip(&["list-windows"]), IpcRequest::ListWindows));
    match roundtrip(&["screenshot", "area", "save", "/tmp/s.png", "ignored"]) {
        IpcRequest::Screenshot(a) => assert_eq!(a, args(&["area", "save", "/tmp/s.png"])),
        other => panic!("unexpected {other:?}"),
    }
    match roundtrip(&["record", "stop", "ignored"]) {
        IpcRequest::Record(a) => assert_eq!(a, args(&["stop"])),
        other => panic!("unexpected {other:?}"),
    }
}
