use signal::cli::{
    build_request, fmt_ms, parse_args, parse_command, queue_line, server_line, status_line,
    render_reply, ControlRequest, Reply,
};

fn words(ws: &[&str]) -> Vec<String> {
    ws.iter().map(|w| (*w).to_owned()).collect()
}

#[test]
fn simple_commands() {
    assert_eq!(build_request("status", &words(&[])).unwrap(), r#"{"cmd":"status"}"#);
    assert_eq!(build_request("play-pause", &words(&[])).unwrap(), r#"{"cmd":"toggle"}"#);
    assert_eq!(build_request("queue", &words(&[])).unwrap(), r#"{"cmd":"queue-list"}"#);
    assert_eq!(
        build_request("server", &words(&["start"])).unwrap(),
        r#"{"cmd":"server-start"}"#
    );
}

#[test]
fn commands_with_arguments() {
    assert_eq!(
        build_request("play", &words(&["boards", "of", "canada"])).unwrap(),
        r#"{"cmd":"play","query":"boards of canada"}"#
    );
    assert_eq!(
        build_request("seek", &words(&["+10"])).unwrap(),
        r#"{"cmd":"seek","to":"+10"}"#
    );
    assert_eq!(
        build_request("vol", &words(&["50"])).unwrap(),
        r#"{"cmd":"volume","to":"50"}"#
    );
    assert_eq!(
        build_request("add", &words(&["say \"hi\""])).unwrap(),
        r#"{"cmd":"queue-add","query":"say \"hi\""}"#
    );
}

#[test]
fn bad_commands_are_refused() {
    assert!(build_request("play", &words(&[])).is_none());
    assert!(build_request("seek", &words(&["1", "2"])).is_none());
    assert!(build_request("server", &words(&["reboot"])).is_none());
    assert!(build_request("dance", &words(&[])).is_none());
}

#[test]
fn json_flag_anywhere() {
    let (json, rest) = parse_args(&words(&["status", "--json"]));
    assert!(json);
    assert_eq!(rest, vec!["status"]);
    let (json, rest) = parse_args(&words(&["play", "x"]));
    assert!(!json);
    assert_eq!(rest, vec!["play", "x"]);
}

#[test]
fn clock_format() {
    assert_eq!(fmt_ms(0), "0:00");
    assert_eq!(fmt_ms(61_999), "1:01");
    assert_eq!(fmt_ms(3_600_000), "60:00");
}

#[test]
fn printed_lines() {
    assert_eq!(
        status_line("playing", "Cerati", "Puente", 61_000, 300_000, true),
        "\u{25B6} Cerati \u{2014} Puente  1:01/5:00 \u{00B7} bit-perfect"
    );
    assert_eq!(
        status_line("idle", "A", "B", 0, 0, false),
        "\u{25A0} A \u{2014} B  0:00/0:00"
    );
    assert_eq!(server_line(false, 0, None), "\u{25CB} off");
    assert_eq!(server_line(true, 4533, Some("10.0.0.2")), "\u{25CF} http://10.0.0.2:4533");
    assert_eq!(server_line(true, 4533, None), "\u{25CF} serving on port 4533");
    assert_eq!(queue_line(0, "Puente"), " 1  Puente");
    assert_eq!(queue_line(9, "Crimen"), "10  Crimen");
}

#[test]
fn commands_map_to_requests() {
    assert_eq!(parse_command("toggle", &words(&[])), Some(ControlRequest::Toggle));
    assert_eq!(parse_command("volume", &words(&["7"])), Some(ControlRequest::Volume { to: "7".to_owned() }));
    assert_eq!(
        parse_command("search", &words(&["a", "b"])),
        Some(ControlRequest::Search { query: "a b".to_owned() })
    );
    assert_eq!(parse_command("server", &words(&["status"])), Some(ControlRequest::ServerStatus));
    assert_eq!(parse_command("vol", &words(&[])), None);
    assert_eq!(parse_command("server", &words(&[])), None);
}

#[test]
fn request_framing() {
    let q = ControlRequest::QueueAdd { query: "x".to_owned() };
    assert_eq!(q.frame("\"x\""), r#"{"cmd":"queue-add","query":"x"}"#);
    assert_eq!(ControlRequest::Next.frame("ignored"), r#"{"cmd":"next"}"#);
    let s = ControlRequest::Seek { to: "a\\b".to_owned() };
    assert_eq!(s.to_json(), r#"{"cmd":"seek","to":"a\\b"}"#);
    let q = ControlRequest::Search { query: "a\nb\u{1}\u{1f}\t\u{7f}é".to_owned() };
    assert_eq!(q.to_json(), "{\"cmd\":\"search\",\"query\":\"a\\nb\\u0001\\u001f\\t\u{7f}é\"}");
}

fn reply(ok: bool) -> Reply {
    Reply {
        ok,
        error: None,
        data_json: "null".to_owned(),
        state: None,
        title: None,
        artist: None,
        position_ms: 0,
        duration_ms: 0,
        bit_perfect: false,
        queue_titles: None,
        running: false,
        port: 0,
        lan_ip: None,
        entries: None,
    }
}

#[test]
fn failed_replies_go_to_stderr() {
    let out = render_reply("status", &reply(false), false);
    assert_eq!(out.lines, vec!["signal: unknown error"]);
    assert!(out.to_stderr && !out.success);
    let r = Reply { error: Some("no track".to_owned()), ..reply(false) };
    assert_eq!(render_reply("next", &r, true).lines, vec!["signal: no track"]);
}

#[test]
fn replies_render_per_command() {
    let r = Reply { data_json: "{\"a\":1}".to_owned(), ..reply(true) };
    let out = render_reply("status", &r, true);
    assert_eq!(out.lines, vec!["{\"a\":1}"]);
    assert!(out.success && !out.to_stderr);
    assert_eq!(render_reply("status", &reply(true), false).lines, vec!["\u{25A0} stopped"]);
    let s = Reply {
        state: Some("paused".to_owned()),
        title: Some("Puente".to_owned()),
        position_ms: 1_000,
        duration_ms: 2_000,
        ..reply(true)
    };
    assert_eq!(render_reply("status", &s, false).lines, vec!["\u{23F8} ? \u{2014} Puente  0:01/0:02"]);
    assert_eq!(render_reply("queue", &reply(true), false).lines, vec!["queue empty"]);
    let q = Reply { queue_titles: Some(vec![Some("A".to_owned()), None]), ..reply(true) };
    assert_eq!(render_reply("queue", &q, false).lines, vec![" 1  A", " 2  ?"]);
    assert_eq!(render_reply("search", &r, false).lines, vec!["{\"a\":1}"]);
    let v = Reply { running: true, port: 4533, ..reply(true) };
    assert_eq!(render_reply("server", &v, false).lines, vec!["\u{25CF} serving on port 4533"]);
    assert_eq!(render_reply("next", &reply(true), false).lines, vec!["ok"]);
    let e = Reply { entries: Some(vec![("volume".to_owned(), "50".to_owned())]), ..reply(true) };
    assert_eq!(render_reply("vol", &e, false).lines, vec!["volume: 50"]);
}
