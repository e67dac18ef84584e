//! The terminal companion's logic: reading its arguments, the JSON request
//! each command sends over the control socket, and the lines it prints.
//! Connecting to the socket and printing stay with the binary.
use vstd::prelude::*;

use crate::smart::{json_quote, json_quoted};
use crate::text::{chars_of, digit_char, nat_text, push_str, push_u64, string_of, window_is};

verus! {

pub open spec fn views(v: Seq<String>) -> Seq<Seq<char>> {
    v.map_values(|s: String| s@)
}

/// The arguments without every `--json` flag, in order.
pub open spec fn without_json_flag(args: Seq<Seq<char>>) -> Seq<Seq<char>>
    decreases args.len(),
{
    if args.len() == 0 {
        Seq::empty()
    } else {
        let rest = without_json_flag(args.drop_last());
        if args.last() == "--json"@ {
            rest
        } else {
            rest.push(args.last())
        }
    }
}

fn is_word(cs: &Vec<char>, lit: &str) -> (b: bool)
    ensures
        b == (cs@ == lit@),
{
    let r = window_is(cs, 0, cs.len(), lit);
    assert(cs@.subrange(0, cs@.len() as int) =~= cs@);
    r
}

/// Splits off the `--json` flag (wherever it stands): whether it was
/// given, and the other arguments.
pub fn parse_args(args: &Vec<String>) -> (r: (bool, Vec<String>))
    ensures
        r.0 == exists|i: int| 0 <= i < args@.len() && #[trigger] args@[i]@ == "--json"@,
        views(r.1@) == without_json_flag(views(args@)),
{
    let mut flag = false;
    let mut rest: Vec<String> = Vec::new();
    let mut i: usize = 0;
    assert(views(args@.subrange(0, 0)) =~= Seq::<Seq<char>>::empty());
    while i < args.len()
        invariant
            i <= args@.len(),
            flag == exists|j: int| 0 <= j < i && #[trigger] args@[j]@ == "--json"@,
            views(rest@) == without_json_flag(views(args@.subrange(0, i as int))),
        decreases args@.len() - i,
    {
        let ghost pre = views(args@.subrange(0, i as int));
        assert(views(args@.subrange(0, i + 1)).drop_last() =~= pre);
        assert(views(args@.subrange(0, i + 1)).last() == args@[i as int]@);
        let cs = chars_of(args[i].as_str());
        if is_word(&cs, "--json") {
            flag = true;
        } else {
            let ghost before = rest@;
            rest.push(args[i].clone());
            assert(views(rest@) =~= views(before).push(args@[i as int]@));
        }
        i = i + 1;
    }
    assert(args@.subrange(0, args@.len() as int) =~= args@);
    (flag, rest)
}

/// The words joined with single spaces.
pub open spec fn words_joined(w: Seq<Seq<char>>) -> Seq<char>
    decreases w.len(),
{
    if w.len() == 0 {
        Seq::empty()
    } else if w.len() == 1 {
        w[0]
    } else {
        words_joined(w.drop_last()) + seq![' '] + w.last()
    }
}

/// A control request, as the app's socket understands it.
#[derive(Debug, Clone, PartialEq, Eq)]
pub enum ControlRequest {
    Status,
    Toggle,
    Next,
    Prev,
    Stop,
    Play { query: String },
    Seek { to: String },
    Volume { to: String },
    QueueAdd { query: String },
    QueueList,
    Search { query: String },
    ServerStart,
    ServerStop,
    ServerStatus,
}

pub enum RequestModel {
    Status,
    Toggle,
    Next,
    Prev,
    Stop,
    Play(Seq<char>),
    Seek(Seq<char>),
    Volume(Seq<char>),
    QueueAdd(Seq<char>),
    QueueList,
    Search(Seq<char>),
    ServerStart,
    ServerStop,
    ServerStatus,
}

impl View for ControlRequest {
    type V = RequestModel;

    open spec fn view(&self) -> RequestModel {
        match self {
            ControlRequest::Status => RequestModel::Status,
            ControlRequest::Toggle => RequestModel::Toggle,
            ControlRequest::Next => RequestModel::Next,
            ControlRequest::Prev => RequestModel::Prev,
            ControlRequest::Stop => RequestModel::Stop,
            ControlRequest::Play { query } => RequestModel::Play(query@),
            ControlRequest::Seek { to } => RequestModel::Seek(to@),
            ControlRequest::Volume { to } => RequestModel::Volume(to@),
            ControlRequest::QueueAdd { query } => RequestModel::QueueAdd(query@),
            ControlRequest::QueueList => RequestModel::QueueList,
            ControlRequest::Search { query } => RequestModel::Search(query@),
            ControlRequest::ServerStart => RequestModel::ServerStart,
            ControlRequest::ServerStop => RequestModel::ServerStop,
            ControlRequest::ServerStatus => RequestModel::ServerStatus,
        }
    }
}

/// Which request a command and its arguments ask for: the query commands
/// need at least one word (joined with spaces), `seek`, `vol`/`volume` and
/// `server` exactly one argument; anything else is not understood.
pub open spec fn command_for(cmd: Seq<char>, rest: Seq<Seq<char>>) -> Option<RequestModel> {
    let joined = words_joined(rest);
    if cmd == "status"@ {
        Some(RequestModel::Status)
    } else if cmd == "toggle"@ || cmd == "play-pause"@ {
        Some(RequestModel::Toggle)
    } else if cmd == "next"@ {
        Some(RequestModel::Next)
    } else if cmd == "prev"@ {
        Some(RequestModel::Prev)
    } else if cmd == "stop"@ {
        Some(RequestModel::Stop)
    } else if cmd == "play"@ && joined.len() > 0 {
        Some(RequestModel::Play(joined))
    } else if cmd == "seek"@ && rest.len() == 1 {
        Some(RequestModel::Seek(rest[0]))
    } else if (cmd == "vol"@ || cmd == "volume"@) && rest.len() == 1 {
        Some(RequestModel::Volume(rest[0]))
    } else if cmd == "add"@ && joined.len() > 0 {
        Some(RequestModel::QueueAdd(joined))
    } else if cmd == "queue"@ {
        Some(RequestModel::QueueList)
    } else if cmd == "search"@ && joined.len() > 0 {
        Some(RequestModel::Search(joined))
    } else if cmd == "server"@ && rest.len() == 1 {
        if rest[0] == "start"@ {
            Some(RequestModel::ServerStart)
        } else if rest[0] == "stop"@ {
            Some(RequestModel::ServerStop)
        } else if rest[0] == "status"@ {
            Some(RequestModel::ServerStatus)
        } else {
            None
        }
    } else {
        None
    }
}

fn join_words(rest: &Vec<String>) -> (s: Vec<char>)
    ensures
        s@ == words_joined(views(rest@)),
{
    let mut out: Vec<char> = Vec::new();
    let mut i: usize = 0;
    assert(views(rest@.subrange(0, 0)) =~= Seq::<Seq<char>>::empty());
    while i < rest.len()
        invariant
            i <= rest@.len(),
            out@ == words_joined(views(rest@.subrange(0, i as int))),
        decreases rest@.len() - i,
    {
        let ghost pre = views(rest@.subrange(0, i as int));
        assert(views(rest@.subrange(0, i + 1)).drop_last() =~= pre);
        assert(views(rest@.subrange(0, i + 1)).last() == rest@[i as int]@);
        if i > 0 {
            out.push(' ');
        }
        push_str(&mut out, rest[i].as_str());
        proof {
            if i == 0 {
                assert(out@ =~= rest@[0]@);
                assert(views(rest@.subrange(0, 1))[0] == rest@[0]@);
            } else {
                assert(out@ =~= words_joined(pre) + seq![' '] + rest@[i as int]@);
            }
        }
        i = i + 1;
    }
    assert(rest@.subrange(0, rest@.len() as int) =~= rest@);
    out
}

/// The request for `cmd` with the remaining arguments `rest`.
pub fn parse_command(cmd: &str, rest: &Vec<String>) -> (r: Option<ControlRequest>)
    ensures
        match r {
            Some(q) => command_for(cmd@, views(rest@)) == Some(q@),
            None => command_for(cmd@, views(rest@)) is None,
        },
{
    let c = chars_of(cmd);
    let jv = join_words(rest);
    let joined = string_of(jv.as_slice());
    let has_words = jv.len() > 0;
    let one = rest.len() == 1;
    if is_word(&c, "status") {
        Some(ControlRequest::Status)
    } else if is_word(&c, "toggle") || is_word(&c, "play-pause") {
        Some(ControlRequest::Toggle)
    } else if is_word(&c, "next") {
        Some(ControlRequest::Next)
    } else if is_word(&c, "prev") {
        Some(ControlRequest::Prev)
    } else if is_word(&c, "stop") {
        Some(ControlRequest::Stop)
    } else if is_word(&c, "play") && has_words {
        Some(ControlRequest::Play { query: joined })
    } else if is_word(&c, "seek") && one {
        Some(ControlRequest::Seek { to: rest[0].clone() })
    } else if (is_word(&c, "vol") || is_word(&c, "volume")) && one {
        Some(ControlRequest::Volume { to: rest[0].clone() })
    } else if is_word(&c, "add") && has_words {
        Some(ControlRequest::QueueAdd { query: joined })
    } else if is_word(&c, "queue") {
        Some(ControlRequest::QueueList)
    } else if is_word(&c, "search") && has_words {
        Some(ControlRequest::Search { query: joined })
    } else if is_word(&c, "server") && one {
        let a = chars_of(rest[0].as_str());
        if is_word(&a, "start") {
            Some(ControlRequest::ServerStart)
        } else if is_word(&a, "stop") {
            Some(ControlRequest::ServerStop)
        } else if is_word(&a, "status") {
            Some(ControlRequest::ServerStatus)
        } else {
            None
        }
    } else {
        None
    }
}

/// The `cmd` value a request is sent under.
pub open spec fn cmd_name(r: RequestModel) -> Seq<char> {
    match r {
        RequestModel::Status => "status"@,
        RequestModel::Toggle => "toggle"@,
        RequestModel::Next => "next"@,
        RequestModel::Prev => "prev"@,
        RequestModel::Stop => "stop"@,
        RequestModel::Play(_) => "play"@,
        RequestModel::Seek(_) => "seek"@,
        RequestModel::Volume(_) => "volume"@,
        RequestModel::QueueAdd(_) => "queue-add"@,
        RequestModel::QueueList => "queue-list"@,
        RequestModel::Search(_) => "search"@,
        RequestModel::ServerStart => "server-start"@,
        RequestModel::ServerStop => "server-stop"@,
        RequestModel::ServerStatus => "server-status"@,
    }
}

/// The request's argument, if it has one: its key and its text.
pub open spec fn request_arg(r: RequestModel) -> Option<(Seq<char>, Seq<char>)> {
    match r {
        RequestModel::Play(q) => Some(("query"@, q)),
        RequestModel::Seek(t) => Some(("to"@, t)),
        RequestModel::Volume(t) => Some(("to"@, t)),
        RequestModel::QueueAdd(q) => Some(("query"@, q)),
        RequestModel::Search(q) => Some(("query"@, q)),
        _ => None,
    }
}

/// The JSON object of a request, its argument (if any) given as the
/// already-quoted JSON string `quoted`; keys come in sorted order.
pub open spec fn framed(r: RequestModel, quoted: Seq<char>) -> Seq<char> {
    match request_arg(r) {
        Some((key, _)) => "{\"cmd\":\""@ + cmd_name(r) + "\",\""@ + key + "\":"@ + quoted + "}"@,
        None => "{\"cmd\":\""@ + cmd_name(r) + "\"}"@,
    }
}

/// The JSON text a request is sent as.
pub open spec fn request_text(r: RequestModel) -> Seq<char> {
    match request_arg(r) {
        Some((_, v)) => framed(r, json_quoted(v)),
        None => framed(r, Seq::empty()),
    }
}

impl ControlRequest {
    fn cmd_str(&self) -> (s: &'static str)
        ensures
            s@ == cmd_name(self@),
    {
        match self {
            ControlRequest::Status => "status",
            ControlRequest::Toggle => "toggle",
            ControlRequest::Next => "next",
            ControlRequest::Prev => "prev",
            ControlRequest::Stop => "stop",
            ControlRequest::Play { .. } => "play",
            ControlRequest::Seek { .. } => "seek",
            ControlRequest::Volume { .. } => "volume",
            ControlRequest::QueueAdd { .. } => "queue-add",
            ControlRequest::QueueList => "queue-list",
            ControlRequest::Search { .. } => "search",
            ControlRequest::ServerStart => "server-start",
            ControlRequest::ServerStop => "server-stop",
            ControlRequest::ServerStatus => "server-status",
        }
    }

    /// The argument's key and text, if the request has one.
    fn arg(&self) -> (r: Option<(&'static str, &str)>)
        ensures
            match (r, request_arg(self@)) {
                (Some((k, v)), Some((mk, mv))) => k@ == mk && v@ == mv,
                (None, None) => true,
                _ => false,
            },
    {
        match self {
            ControlRequest::Play { query } => Some(("query", query.as_str())),
            ControlRequest::Seek { to } => Some(("to", to.as_str())),
            ControlRequest::Volume { to } => Some(("to", to.as_str())),
            ControlRequest::QueueAdd { query } => Some(("query", query.as_str())),
            ControlRequest::Search { query } => Some(("query", query.as_str())),
            _ => None,
        }
    }

    /// The JSON object of the request around its already-quoted argument.
    pub fn frame(&self, quoted: &str) -> (s: String)
        ensures
            s@ == framed(self@, quoted@),
    {
        let mut out: Vec<char> = Vec::new();
        push_str(&mut out, "{\"cmd\":\"");
        push_str(&mut out, self.cmd_str());
        match self.arg() {
            Some((key, _)) => {
                push_str(&mut out, "\",\"");
                push_str(&mut out, key);
                push_str(&mut out, "\":");
                push_str(&mut out, quoted);
                push_str(&mut out, "}");
            },
            None => {
                push_str(&mut out, "\"}");
            },
        }
        string_of(out.as_slice())
    }

    /// The JSON text the request is sent as.
    pub fn to_json(&self) -> (s: String)
        ensures
            s@ == request_text(self@),
    {
        match self.arg() {
            Some((_, v)) => {
                let q = json_quote(v);
                self.frame(q.as_str())
            },
            None => self.frame(""),
        }
    }
}

/// The JSON request for `cmd` with the remaining arguments `rest`, or none
/// when the command is not understood.
pub fn build_request(cmd: &str, rest: &Vec<String>) -> (r: Option<String>)
    ensures
        match r {
            Some(s) => command_for(cmd@, views(rest@)) matches Some(q) && s@ == request_text(q),
            None => command_for(cmd@, views(rest@)) is None,
        },
{
    match parse_command(cmd, rest) {
        Some(q) => Some(q.to_json()),
        None => None,
    }
}

/// Two decimal digits, zero-padded (`{:02}` of a number below 100).
pub open spec fn two_digits(n: nat) -> Seq<char> {
    seq![digit_char(n / 10), digit_char(n % 10)]
}

/// `m:ss` of a millisecond count, whole seconds.
pub open spec fn clock_text(ms: u64) -> Seq<char> {
    nat_text((ms / 1000 / 60) as nat) + seq![':'] + two_digits((ms / 1000 % 60) as nat)
}

/// A position or duration as minutes and zero-padded seconds.
pub fn fmt_ms(ms: u64) -> (s: String)
    ensures
        s@ == clock_text(ms),
{
    let secs = ms / 1000;
    let mut out: Vec<char> = Vec::new();
    push_u64(&mut out, secs / 60);
    out.push(':');
    let r = secs % 60;
    let tens = ((r / 10) as u8 + 48u8) as char;
    let ones = ((r % 10) as u8 + 48u8) as char;
    out.push(tens);
    out.push(ones);
    assert(out@ =~= clock_text(ms));
    string_of(out.as_slice())
}

/// The playback glyph of a state name.
pub open spec fn glyph_of(state: Seq<char>) -> Seq<char> {
    if state == "playing"@ {
        "\u{25B6}"@
    } else if state == "paused"@ {
        "\u{23F8}"@
    } else {
        "\u{25A0}"@
    }
}

/// The `status` line: glyph, artist, title, position and duration, and a
/// bit-perfect mark.
pub open spec fn status_text(
    state: Seq<char>,
    artist: Seq<char>,
    title: Seq<char>,
    position_ms: u64,
    duration_ms: u64,
    bit_perfect: bool,
) -> Seq<char> {
    glyph_of(state) + seq![' '] + artist + " \u{2014} "@ + title + "  "@ + clock_text(position_ms)
        + seq!['/'] + clock_text(duration_ms) + if bit_perfect {
        " \u{00B7} bit-perfect"@
    } else {
        Seq::empty()
    }
}

pub fn status_line(
    state: &str,
    artist: &str,
    title: &str,
    position_ms: u64,
    duration_ms: u64,
    bit_perfect: bool,
) -> (s: String)
    ensures
        s@ == status_text(state@, artist@, title@, position_ms, duration_ms, bit_perfect),
{
    let st = chars_of(state);
    let mut out: Vec<char> = Vec::new();
    if is_word(&st, "playing") {
        push_str(&mut out, "\u{25B6}");
    } else if is_word(&st, "paused") {
        push_str(&mut out, "\u{23F8}");
    } else {
        push_str(&mut out, "\u{25A0}");
    }
    out.push(' ');
    push_str(&mut out, artist);
    push_str(&mut out, " \u{2014} ");
    push_str(&mut out, title);
    push_str(&mut out, "  ");
    let pos = fmt_ms(position_ms);
    push_str(&mut out, pos.as_str());
    out.push('/');
    let dur = fmt_ms(duration_ms);
    push_str(&mut out, dur.as_str());
    if bit_perfect {
        push_str(&mut out, " \u{00B7} bit-perfect");
    }
    assert(out@ =~= status_text(state@, artist@, title@, position_ms, duration_ms, bit_perfect));
    string_of(out.as_slice())
}

/// The `server` line: where the embedded server listens, or that it is
/// off.
pub open spec fn server_text(running: bool, port: u64, lan_ip: Option<Seq<char>>) -> Seq<char> {
    if !running {
        "\u{25CB} off"@
    } else {
        match lan_ip {
            Some(ip) => "\u{25CF} http://"@ + ip + seq![':'] + nat_text(port as nat),
            None => "\u{25CF} serving on port "@ + nat_text(port as nat),
        }
    }
}

pub fn server_line(running: bool, port: u64, lan_ip: Option<&str>) -> (s: String)
    ensures
        s@ == server_text(
            running,
            port,
            match lan_ip {
                Some(ip) => Some(ip@),
                None => None,
            },
        ),
{
    let mut out: Vec<char> = Vec::new();
    if !running {
        push_str(&mut out, "\u{25CB} off");
    } else {
        match lan_ip {
            Some(ip) => {
                push_str(&mut out, "\u{25CF} http://");
                push_str(&mut out, ip);
                out.push(':');
                push_u64(&mut out, port);
            },
            None => {
                push_str(&mut out, "\u{25CF} serving on port ");
                push_u64(&mut out, port);
            },
        }
    }
    assert(out@ =~= server_text(
        running,
        port,
        match lan_ip {
            Some(ip) => Some(ip@),
            None => None,
        },
    ));
    string_of(out.as_slice())
}

/// One queue entry: its 1-based position right-aligned in two columns,
/// two spaces, the title.
pub open spec fn queue_text(position: nat, title: Seq<char>) -> Seq<char> {
    (if position < 10 {
        seq![' ']
    } else {
        Seq::empty()
    }) + nat_text(position) + "  "@ + title
}

pub fn queue_line(index: usize, title: &str) -> (s: String)
    requires
        index < usize::MAX,
    ensures
        s@ == queue_text((index + 1) as nat, title@),
{
    let pos = index + 1;
    let mut out: Vec<char> = Vec::new();
    if pos < 10 {
        out.push(' ');
    }
    push_u64(&mut out, pos as u64);
    push_str(&mut out, "  ");
    push_str(&mut out, title);
    assert(out@ =~= queue_text((index + 1) as nat, title@));
    string_of(out.as_slice())
}

// ---------------------------------------------------------------- replies

/// What the terminal reads of the app's reply, as plain values: whether it
/// succeeded, its error text, the `data` member as JSON text (`null` when
/// absent), and the members each command's output uses (absent or
/// mistyped members are `None`, `0` or `false`).
#[derive(Debug, Clone)]
pub struct Reply {
    pub ok: bool,
    pub error: Option<String>,
    pub data_json: String,
    /// `status`: `state`, `title`, `artist`, `position_ms`, `duration_ms`,
    /// `bit_perfect`.
    pub state: Option<String>,
    pub title: Option<String>,
    pub artist: Option<String>,
    pub position_ms: u64,
    pub duration_ms: u64,
    pub bit_perfect: bool,
    /// `queue`: the entries' titles when `data` is an array.
    pub queue_titles: Option<Vec<Option<String>>>,
    /// `server`: `running`, `port`, `lanIp`.
    pub running: bool,
    pub port: u64,
    pub lan_ip: Option<String>,
    /// Any other command: `data`'s members (name, JSON text) when it is an
    /// object.
    pub entries: Option<Vec<(String, String)>>,
}

/// What to print for a reply, and how the process exits.
#[derive(Debug, Clone)]
pub struct Rendered {
    pub lines: Vec<String>,
    /// The lines go to standard error.
    pub to_stderr: bool,
    pub success: bool,
}

pub open spec fn text_or(o: Option<String>, fallback: Seq<char>) -> Seq<char> {
    match o {
        Some(t) => t@,
        None => fallback,
    }
}

pub open spec fn queue_lines(titles: Seq<Option<String>>) -> Seq<Seq<char>> {
    Seq::new(titles.len(), |i: int| queue_text((i + 1) as nat, text_or(titles[i], "?"@)))
}

pub open spec fn entry_lines(entries: Seq<(String, String)>) -> Seq<Seq<char>> {
    Seq::new(entries.len(), |i: int| entries[i].0@ + ": "@ + entries[i].1@)
}

/// The lines printed for a successful reply to `cmd`, in plain mode.
pub open spec fn reply_lines(cmd: Seq<char>, r: Reply) -> Seq<Seq<char>> {
    if cmd == "status"@ {
        match r.title {
            Some(t) => seq![
                status_text(
                    text_or(r.state, "?"@),
                    text_or(r.artist, "?"@),
                    t@,
                    r.position_ms,
                    r.duration_ms,
                    r.bit_perfect,
                ),
            ],
            None => seq!["\u{25A0} stopped"@],
        }
    } else if cmd == "queue"@ {
        match r.queue_titles {
            Some(ts) => if ts@.len() > 0 {
                queue_lines(ts@)
            } else {
                seq!["queue empty"@]
            },
            None => seq!["queue empty"@],
        }
    } else if cmd == "search"@ {
        seq![r.data_json@]
    } else if cmd == "server"@ {
        seq![
            server_text(
                r.running,
                r.port,
                match r.lan_ip {
                    Some(ip) => Some(ip@),
                    None => None,
                },
            ),
        ]
    } else {
        match r.entries {
            Some(es) => entry_lines(es@),
            None => seq!["ok"@],
        }
    }
}

fn one_line(s: String) -> (v: Vec<String>)
    ensures
        views(v@) == seq![s@],
{
    let mut v: Vec<String> = Vec::new();
    v.push(s);
    assert(views(v@) =~= seq![s@]);
    v
}

fn lit_line(s: &str) -> (v: Vec<String>)
    ensures
        views(v@) == seq![s@],
{
    one_line(String::from_str(s))
}

fn opt_or<'a>(o: &'a Option<String>, fallback: &'a str) -> (s: &'a str)
    ensures
        s@ == text_or(*o, fallback@),
{
    match o {
        Some(t) => t.as_str(),
        None => fallback,
    }
}

/// What the terminal prints for the app's reply to `cmd`: the error on
/// standard error and a failing exit when the reply is not `ok` (`unknown
/// error` when it names none); with `--json`, the `data` text; else the
/// command's own lines.
pub fn render_reply(cmd: &str, r: &Reply, json_flag: bool) -> (out: Rendered)
    ensures
        !r.ok ==> views(out.lines@) == seq!["signal: "@ + text_or(r.error, "unknown error"@)]
            && out.to_stderr && !out.success,
        r.ok && json_flag ==> views(out.lines@) == seq![r.data_json@] && !out.to_stderr
            && out.success,
        r.ok && !json_flag ==> views(out.lines@) == reply_lines(cmd@, *r) && !out.to_stderr
            && out.success,
{
    if !r.ok {
        let mut t: Vec<char> = Vec::new();
        push_str(&mut t, "signal: ");
        push_str(&mut t, opt_or(&r.error, "unknown error"));
        return Rendered { lines: one_line(string_of(t.as_slice())), to_stderr: true, success: false };
    }
    if json_flag {
        return Rendered { lines: one_line(r.data_json.clone()), to_stderr: false, success: true };
    }
    let c = chars_of(cmd);
    let lines = if is_word(&c, "status") {
        match &r.title {
            Some(t) => one_line(
                status_line(
                    opt_or(&r.state, "?"),
                    opt_or(&r.artist, "?"),
                    t.as_str(),
                    r.position_ms,
                    r.duration_ms,
                    r.bit_perfect,
                ),
            ),
            None => lit_line("\u{25A0} stopped"),
        }
    } else if is_word(&c, "queue") {
        match &r.queue_titles {
            Some(ts) => if ts.len() > 0 {
                let mut v: Vec<String> = Vec::new();
                let mut i: usize = 0;
                while i < ts.len()
                    invariant
                        i <= ts@.len(),
                        views(v@) =~= queue_lines(ts@).subrange(0, i as int),
                    decreases ts@.len() - i,
                {
                    let line = queue_line(i, opt_or(&ts[i], "?"));
                    let ghost before = v@;
                    v.push(line);
                    assert(views(v@) =~= views(before).push(line@));
                    i = i + 1;
                }
                assert(queue_lines(ts@).subrange(0, ts@.len() as int) =~= queue_lines(ts@));
                v
            } else {
                lit_line("queue empty")
            },
            None => lit_line("queue empty"),
        }
    } else if is_word(&c, "search") {
        one_line(r.data_json.clone())
    } else if is_word(&c, "server") {
        let ip: Option<&str> = match &r.lan_ip {
            Some(s) => Some(s.as_str()),
            None => None,
        };
        one_line(server_line(r.running, r.port, ip))
    } else {
        match &r.entries {
            Some(es) => {
                let mut v: Vec<String> = Vec::new();
                let mut i: usize = 0;
                while i < es.len()
                    invariant
                        i <= es@.len(),
                        views(v@) =~= entry_lines(es@).subrange(0, i as int),
                    decreases es@.len() - i,
                {
                    let mut t: Vec<char> = Vec::new();
                    push_str(&mut t, es[i].0.as_str());
                    push_str(&mut t, ": ");
                    push_str(&mut t, es[i].1.as_str());
                    let line = string_of(t.as_slice());
                    let ghost before = v@;
                    v.push(line);
                    assert(views(v@) =~= views(before).push(line@));
                    i = i + 1;
                }
                assert(entry_lines(es@).subrange(0, es@.len() as int) =~= entry_lines(es@));
                v
            },
            None => lit_line("ok"),
        }
    };
    Rendered { lines, to_stderr: false, success: true }
}

} // verus!
