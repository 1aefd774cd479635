//! Control requests: one JSON object per line, `{"cmd": "<name>"}`, read
//! from the daemon's socket.
use vstd::prelude::*;

use crate::daemon::Command;
use crate::injector::{decimal, decimal_string};
use crate::text::{trim, trimmed};

verus! {

/// A request as the server understands it.
#[derive(Debug, Clone, Copy, PartialEq, Eq, Structural)]
pub enum Request {
    Toggle,
    Stop,
    Status,
    /// Any other command name, or none.
    Unknown,
}

/// The request that a command name asks for.
pub open spec fn request_of(cmd: Seq<char>) -> Request {
    if cmd == "toggle"@ {
        Request::Toggle
    } else if cmd == "stop"@ {
        Request::Stop
    } else if cmd == "status"@ {
        Request::Status
    } else {
        Request::Unknown
    }
}

/// The request that the command name `cmd` asks for.
pub fn classify(cmd: &str) -> (r: Request)
    ensures
        r == request_of(cmd@),
{
    let c = String::from_str(cmd);
    if c == String::from_str("toggle") {
        Request::Toggle
    } else if c == String::from_str("stop") {
        Request::Stop
    } else if c == String::from_str("status") {
        Request::Status
    } else {
        Request::Unknown
    }
}

/// A JSON scalar as the library reads it from a member of an object.
pub enum JsonScalar {
    Str(String),
    U64(u64),
    Bool(bool),
}

/// The value of a `JsonScalar`.
pub enum JsonScalarView {
    Str(Seq<char>),
    U64(u64),
    Bool(bool),
}

impl DeepView for JsonScalar {
    type V = JsonScalarView;

    open spec fn deep_view(&self) -> JsonScalarView {
        match self {
            JsonScalar::Str(s) => JsonScalarView::Str(s@),
            JsonScalar::U64(n) => JsonScalarView::U64(*n),
            JsonScalar::Bool(b) => JsonScalarView::Bool(*b),
        }
    }
}

/// Names what serde_json reads from the JSON text `text` as its member
/// `key`: `None` when the text is not one valid JSON value; `Some(None)`
/// when it is, but is not an object with that member, or the member is not
/// a string, a number that fits in `u64`, or a boolean; otherwise
/// `Some(Some(v))` with the member's value `v`.
pub uninterp spec fn json_member(text: Seq<char>, key: Seq<char>) -> Option<Option<JsonScalarView>>;

/// Parses `text` with `serde_json::from_str` into a `serde_json::Value`
/// and looks `key` up with `Value::get`, telling a string, a boolean and a
/// number (through `Number::as_u64`) apart; the result is `json_member` of
/// the text and the key.
#[verifier::external_body]
fn json_member_of(text: &str, key: &str) -> (r: Option<Option<JsonScalar>>)
    ensures
        r.deep_view() == json_member(text@, key@),
{
    match serde_json::from_str::<serde_json::Value>(text) {
        Err(_) => None,
        Ok(value) => Some(match value.get(key) {
            Some(serde_json::Value::String(s)) => Some(JsonScalar::Str(s.clone())),
            Some(serde_json::Value::Bool(b)) => Some(JsonScalar::Bool(*b)),
            Some(serde_json::Value::Number(n)) => match n.as_u64() {
                Some(u) => Some(JsonScalar::U64(u)),
                None => None,
            },
            _ => None,
        }),
    }
}

/// Names the compact text that serde_json writes (`Display` of
/// `serde_json::Value`) for the value it parses from `text`, or `None` when
/// `text` is not one valid JSON value.
pub uninterp spec fn json_compact(text: Seq<char>) -> Option<Seq<char>>;

/// Parses `text` with `serde_json::from_str` into a `serde_json::Value`
/// and writes it back with its `Display`; the result is `json_compact` of
/// the text.
#[verifier::external_body]
fn json_compact_of(text: &str) -> (r: Option<String>)
    ensures
        r.deep_view() == json_compact(text@),
{
    match serde_json::from_str::<serde_json::Value>(text) {
        Ok(value) => Some(value.to_string()),
        Err(_) => None,
    }
}

/// The request on a line, or `None` when the line, trimmed, is not valid
/// JSON (such a line gets no answer). A `"cmd"` member that is missing or
/// not a string counts as the empty command name.
pub open spec fn request_on_line(line: Seq<char>) -> Option<Request> {
    match json_member(trim(line), "cmd"@) {
        None => None,
        Some(Some(JsonScalarView::Str(c))) => Some(request_of(c)),
        Some(_) => Some(request_of(Seq::empty())),
    }
}

/// Reads the request on one line received by the server.
pub fn parse_request(line: &str) -> (r: Option<Request>)
    ensures
        r == request_on_line(line@),
{
    let text = trimmed(line);
    match json_member_of(text.as_str(), "cmd") {
        None => None,
        Some(Some(JsonScalar::Str(cmd))) => Some(classify(cmd.as_str())),
        Some(_) => {
            let empty = String::new();
            Some(classify(empty.as_str()))
        },
    }
}

/// The lines that report a status given its `"mode"`, `"uptime_secs"` and
/// `"running"` members: the mode (`unknown` unless a string), the uptime
/// in seconds (0 unless a number that fits in `u64`) and whether the daemon
/// runs (`false` unless a boolean).
pub open spec fn status_lines_of(
    mode: Option<JsonScalarView>,
    uptime: Option<JsonScalarView>,
    running: Option<JsonScalarView>,
) -> Seq<Seq<char>> {
    seq![
        "Mode: "@ + match mode {
            Some(JsonScalarView::Str(s)) => s,
            _ => "unknown"@,
        },
        "Uptime: "@ + decimal(
            match uptime {
                Some(JsonScalarView::U64(n)) => n as nat,
                _ => 0,
            },
        ) + "s"@,
        "Running: "@ + match running {
            Some(JsonScalarView::Bool(true)) => "true"@,
            _ => "false"@,
        },
    ]
}

/// The lines that report the daemon's status reply `text`; `None` when the
/// reply cannot be read.
pub open spec fn status_lines(text: Seq<char>) -> Option<Seq<Seq<char>>> {
    match (json_member(text, "mode"@), json_member(text, "uptime_secs"@), json_member(text, "running"@)) {
        (Some(m), Some(u), Some(r)) => Some(status_lines_of(m, u, r)),
        _ => None,
    }
}

/// The lines that report a status given the values of its `"mode"`,
/// `"uptime_secs"` and `"running"` members.
pub fn status_lines_from(
    mode: Option<JsonScalar>,
    uptime: Option<JsonScalar>,
    running: Option<JsonScalar>,
) -> (r: Vec<String>)
    ensures
        r.deep_view() == status_lines_of(mode.deep_view(), uptime.deep_view(), running.deep_view()),
{
    let mode_line = match mode {
        Some(JsonScalar::Str(s)) => String::from_str("Mode: ").concat(s.as_str()),
        _ => String::from_str("Mode: unknown"),
    };
    let secs: u64 = match uptime {
        Some(JsonScalar::U64(n)) => n,
        _ => 0,
    };
    let uptime_line = String::from_str("Uptime: ").concat(decimal_string(secs).as_str()).concat(
        "s",
    );
    let running_line = match running {
        Some(JsonScalar::Bool(true)) => String::from_str("Running: true"),
        _ => String::from_str("Running: false"),
    };
    proof {
        reveal_strlit("Mode: unknown");
        reveal_strlit("Mode: ");
        reveal_strlit("unknown");
        reveal_strlit("Running: true");
        reveal_strlit("Running: false");
        reveal_strlit("Running: ");
        reveal_strlit("true");
        reveal_strlit("false");
        assert("Mode: unknown"@ =~= "Mode: "@ + "unknown"@);
        assert("Running: true"@ =~= "Running: "@ + "true"@);
        assert("Running: false"@ =~= "Running: "@ + "false"@);
    }
    let lines = vec![mode_line, uptime_line, running_line];
    assert(lines.deep_view() =~= status_lines_of(
        mode.deep_view(),
        uptime.deep_view(),
        running.deep_view(),
    ));
    lines
}

/// The lines that report a status reply received from the daemon.
pub fn status_report(response: &str) -> (r: Option<Vec<String>>)
    ensures
        r.deep_view() == status_lines(trim(response@)),
{
    let text = trimmed(response);
    let mode = json_member_of(text.as_str(), "mode");
    let uptime = json_member_of(text.as_str(), "uptime_secs");
    let running = json_member_of(text.as_str(), "running");
    match (mode, uptime, running) {
        (Some(m), Some(u), Some(r)) => Some(status_lines_from(m, u, r)),
        _ => None,
    }
}

/// The lines that a client prints for the daemon's reply `text` to the
/// command `cmd`; `None` when the reply cannot be read.
pub open spec fn reply_lines_of(cmd: Seq<char>, text: Seq<char>) -> Option<Seq<Seq<char>>> {
    if cmd == "status"@ {
        status_lines(text)
    } else {
        match json_compact(text) {
            None => None,
            Some(c) => Some(
                if cmd == "toggle"@ {
                    seq!["Toggled. "@ + c]
                } else if cmd == "stop"@ {
                    seq!["Stopping daemon..."@]
                } else {
                    seq![c]
                },
            ),
        }
    }
}

/// The lines that a client prints for the daemon's reply `response` to
/// the command `cmd`.
pub fn reply_lines(cmd: &str, response: &str) -> (r: Option<Vec<String>>)
    ensures
        r.deep_view() == reply_lines_of(cmd@, trim(response@)),
{
    let c = String::from_str(cmd);
    if c == String::from_str("status") {
        return status_report(response);
    }
    let text = trimmed(response);
    match json_compact_of(text.as_str()) {
        None => None,
        Some(compact) => {
            let line = if c == String::from_str("toggle") {
                String::from_str("Toggled. ").concat(compact.as_str())
            } else if c == String::from_str("stop") {
                String::from_str("Stopping daemon...")
            } else {
                compact
            };
            let lines = vec![line];
            assert(lines.deep_view() =~= reply_lines_of(cmd@, trim(response@))->0);
            Some(lines)
        },
    }
}

/// The command that a request passes on to the daemon's loop, if any.
pub open spec fn command_of(r: Request) -> Option<Command> {
    match r {
        Request::Toggle => Some(Command::Toggle),
        Request::Stop => Some(Command::Stop),
        Request::Status => Some(Command::Status),
        Request::Unknown => None,
    }
}

/// How the server answers a request.
#[derive(Debug, Clone, Copy, PartialEq, Eq, Structural)]
pub enum Reply {
    /// Success, the mode was toggled.
    Toggled,
    /// Success, the daemon is stopping.
    Stopping,
    /// The daemon's own status report, relayed.
    RelayStatus,
    /// Failure: an unknown command.
    UnknownCommand,
}

/// The answer to a request.
pub open spec fn reply_of(r: Request) -> Reply {
    match r {
        Request::Toggle => Reply::Toggled,
        Request::Stop => Reply::Stopping,
        Request::Status => Reply::RelayStatus,
        Request::Unknown => Reply::UnknownCommand,
    }
}

/// The text relayed for the daemon's status report `status`: the report
/// as serde_json writes it back, or `None` when it cannot be read (then a
/// failure is answered).
pub fn relay_status(status: &str) -> (r: Option<String>)
    ensures
        r.deep_view() == json_compact(status@),
{
    json_compact_of(status)
}

impl Request {
    /// The command passed on to the daemon's loop; an unknown request is
    /// answered with an error and passes nothing on.
    pub fn command(&self) -> (c: Option<Command>)
        ensures
            c == command_of(*self),
    {
        match self {
            Request::Toggle => Some(Command::Toggle),
            Request::Stop => Some(Command::Stop),
            Request::Status => Some(Command::Status),
            Request::Unknown => None,
        }
    }

    /// How the server answers the request.
    pub fn reply(&self) -> (a: Reply)
        ensures
            a == reply_of(*self),
    {
        match self {
            Request::Toggle => Reply::Toggled,
            Request::Stop => Reply::Stopping,
            Request::Status => Reply::RelayStatus,
            Request::Unknown => Reply::UnknownCommand,
        }
    }
}

} // verus!
