//! What the inspector endpoint answers: the DevTools discovery JSON, the
//! WebSocket upgrade for the one session, and what a session does with each
//! message a client sends.
use vstd::prelude::*;
use vstd::utf8::encode_utf8;

use crate::codec::{json_quote, json_quoted};
use crate::inspector::frames::{Frame, FrameModel};
use crate::inspector::http::{
    accept_key_spec, empty_response, empty_response_text, handshake_response, handshake_text,
    is_upgrade_spec, json_response, json_response_text, lookup_header, Request, RequestModel,
};
use crate::numbers::{decimal, push_decimal};
use crate::text::{append_str, same_text, str_chars, string_from_chars};

verus! {

/// The lower-case hexadecimal digit for `n < 16`.
pub open spec fn hex_digit(n: nat) -> char {
    if n < 10 {
        (n + 48) as char
    } else {
        (n + 87) as char
    }
}

/// Each byte as two lower-case hexadecimal digits, as `format!("{b:02x}")` writes it.
pub open spec fn hex_text(bytes: Seq<u8>) -> Seq<char>
    decreases bytes.len(),
{
    if bytes.len() == 0 {
        Seq::empty()
    } else {
        hex_text(bytes.drop_last()).push(hex_digit((bytes.last() / 16) as nat)).push(
            hex_digit((bytes.last() % 16) as nat),
        )
    }
}

pub(crate) fn hex_char(n: u8) -> (c: char)
    requires
        n < 16,
    ensures
        c == hex_digit(n as nat),
{
    if n < 10 {
        (n + 48) as char
    } else {
        (n + 87) as char
    }
}

/// The session id written for the given random bytes.
pub fn session_id_from_bytes(bytes: &[u8]) -> (r: String)
    ensures
        r@ == hex_text(bytes@),
{
    let mut out: Vec<char> = Vec::new();
    let mut i: usize = 0;
    while i < bytes.len()
        invariant
            i <= bytes@.len(),
            out@ == hex_text(bytes@.take(i as int)),
        decreases bytes@.len() - i,
    {
        let b = bytes[i];
        out.push(hex_char(b / 16));
        out.push(hex_char(b % 16));
        i = i + 1;
        proof {
            assert(bytes@.take(i as int).drop_last() =~= bytes@.take(i - 1));
        }
    }
    proof {
        assert(bytes@.take(i as int) =~= bytes@);
    }
    string_from_chars(out.as_slice())
}

/// Draws 16 random bytes with `rand::thread_rng`. Trusted: exactly 16 bytes come
/// back; what they are is left to chance.
#[verifier::external_body]
fn random_bytes16() -> (r: Vec<u8>)
    ensures
        r@.len() == 16,
{
    let bytes: [u8; 16] = rand::Rng::gen(&mut rand::thread_rng());
    bytes.to_vec()
}

/// A fresh session id: 16 random bytes in hexadecimal. It serves as the
/// DevTools target id and as the WebSocket path segment.
pub fn random_session_id() -> (r: String)
    ensures
        exists|b: Seq<u8>| b.len() == 16 && r@ == hex_text(b),
{
    let bytes = random_bytes16();
    session_id_from_bytes(bytes.as_slice())
}

/// `"127.0.0.1:{port}/ws/{session_id}"`, the host and path of the session's socket.
pub open spec fn socket_address(port: u16, session_id: Seq<char>) -> Seq<char> {
    "127.0.0.1:"@ + decimal(port as nat) + "/ws/"@ + session_id
}

/// The `/json/list` body: the one debuggable target, with keys in the order
/// `serde_json` writes an object's keys (sorted).
pub open spec fn json_list_text(port: u16, session_id: Seq<char>) -> Seq<char> {
    "[{\"description\":\"Myco JavaScript Runtime\",\"devtoolsFrontendUrl\":"@ + json_quoted(
        "devtools://devtools/bundled/js_app.html?experiments=true&v8only=true&ws="@
            + socket_address(port, session_id),
    ) + ",\"id\":"@ + json_quoted(session_id)
        + ",\"title\":\"Myco JavaScript Runtime\",\"type\":\"myco\",\"url\":\"file://\",\"webSocketDebuggerUrl\":"@
        + json_quoted("ws://"@ + socket_address(port, session_id)) + "}]"@
}

/// The `/json/version` body.
pub open spec fn json_version_text() -> Seq<char> {
    "{\"Browser\":\"Myco JavaScript Runtime/1.0.0\",\"Protocol-Version\":\"1.3\",\"Runtime\":\"Myco\",\"Runtime-Version\":\"1.0.0\",\"User-Agent\":\"Myco JavaScript Runtime/1.0.0\",\"V8-Version\":\"12.4.254.20\",\"WebKit-Version\":\"537.36\"}"@
}

fn push_socket_address(out: &mut Vec<char>, port: u16, session_id: &str)
    ensures
        final(out)@ == old(out)@ + socket_address(port, session_id@),
{
    append_str(out, "127.0.0.1:");
    push_decimal(out, port as u64);
    append_str(out, "/ws/");
    append_str(out, session_id);
    proof {
        assert(final(out)@ =~= old(out)@ + socket_address(port, session_id@));
    }
}

/// The `/json/list` body for the session.
pub fn json_list_body(port: u16, session_id: &str) -> (r: String)
    ensures
        r@ == json_list_text(port, session_id@),
{
    let mut frontend: Vec<char> = Vec::new();
    append_str(&mut frontend, "devtools://devtools/bundled/js_app.html?experiments=true&v8only=true&ws=");
    push_socket_address(&mut frontend, port, session_id);
    let frontend = string_from_chars(frontend.as_slice());
    let mut socket: Vec<char> = Vec::new();
    append_str(&mut socket, "ws://");
    push_socket_address(&mut socket, port, session_id);
    let socket = string_from_chars(socket.as_slice());
    let mut out: Vec<char> = Vec::new();
    append_str(&mut out, "[{\"description\":\"Myco JavaScript Runtime\",\"devtoolsFrontendUrl\":");
    append_str(&mut out, json_quote(frontend.as_str()).as_str());
    append_str(&mut out, ",\"id\":");
    append_str(&mut out, json_quote(session_id).as_str());
    append_str(
        &mut out,
        ",\"title\":\"Myco JavaScript Runtime\",\"type\":\"myco\",\"url\":\"file://\",\"webSocketDebuggerUrl\":",
    );
    append_str(&mut out, json_quote(socket.as_str()).as_str());
    append_str(&mut out, "}]");
    proof {
        assert(out@ =~= json_list_text(port, session_id@));
    }
    string_from_chars(out.as_slice())
}

/// The `/json/version` body.
pub fn json_version_body() -> (r: String)
    ensures
        r@ == json_version_text(),
{
    "{\"Browser\":\"Myco JavaScript Runtime/1.0.0\",\"Protocol-Version\":\"1.3\",\"Runtime\":\"Myco\",\"Runtime-Version\":\"1.0.0\",\"User-Agent\":\"Myco JavaScript Runtime/1.0.0\",\"V8-Version\":\"12.4.254.20\",\"WebKit-Version\":\"537.36\"}".to_owned()
}

/// How the endpoint answers a request.
pub enum Reply {
    /// Write these bytes and close the connection.
    Respond(Vec<u8>),
    /// Write the handshake bytes, then serve the WebSocket session.
    Upgrade(Vec<u8>),
}

/// What a `Reply` holds.
pub enum ReplyModel {
    Respond(Seq<u8>),
    Upgrade(Seq<u8>),
}

impl View for Reply {
    type V = ReplyModel;

    open spec fn view(&self) -> ReplyModel {
        match self {
            Reply::Respond(b) => ReplyModel::Respond(b@),
            Reply::Upgrade(b) => ReplyModel::Upgrade(b@),
        }
    }
}

/// The answer to a request: CORS preflights get `204`, other methods than GET
/// `405`; `/json` and `/json/list` list the target, `/json/version` describes
/// the runtime; an upgrade on the session's own path gets the handshake, and
/// anything else `404`.
pub open spec fn reply_spec(req: RequestModel, port: u16, session_id: Seq<char>) -> ReplyModel {
    if req.method == "OPTIONS"@ {
        ReplyModel::Respond(encode_utf8(empty_response_text("204 No Content"@)))
    } else if req.method != "GET"@ {
        ReplyModel::Respond(encode_utf8(empty_response_text("405 Method Not Allowed"@)))
    } else if req.path == "/json"@ || req.path == "/json/list"@ {
        ReplyModel::Respond(encode_utf8(json_response_text(json_list_text(port, session_id))))
    } else if req.path == "/json/version"@ {
        ReplyModel::Respond(encode_utf8(json_response_text(json_version_text())))
    } else if req.path == "/ws/"@ + session_id && is_upgrade_spec(req.headers) {
        ReplyModel::Upgrade(
            encode_utf8(
                handshake_text(
                    accept_key_spec(lookup_header(req.headers, "sec-websocket-key"@).unwrap()),
                ),
            ),
        )
    } else {
        ReplyModel::Respond(encode_utf8(empty_response_text("404 Not Found"@)))
    }
}

/// Answers a request on the inspector endpoint for the given port and session.
pub fn reply(req: &Request, port: u16, session_id: &str) -> (r: Reply)
    ensures
        r@ == reply_spec(req@, port, session_id@),
{
    if same_text(req.method.as_str(), "OPTIONS") {
        return Reply::Respond(empty_response("204 No Content"));
    }
    if !same_text(req.method.as_str(), "GET") {
        return Reply::Respond(empty_response("405 Method Not Allowed"));
    }
    let path = req.path.as_str();
    if same_text(path, "/json") || same_text(path, "/json/list") {
        let body = json_list_body(port, session_id);
        return Reply::Respond(json_response(body.as_str()));
    }
    if same_text(path, "/json/version") {
        let body = json_version_body();
        return Reply::Respond(json_response(body.as_str()));
    }
    let mut expected: Vec<char> = Vec::new();
    append_str(&mut expected, "/ws/");
    append_str(&mut expected, session_id);
    let expected = string_from_chars(expected.as_slice());
    if same_text(path, expected.as_str()) && req.is_websocket_upgrade() {
        match req.header("sec-websocket-key") {
            Some(key) => {
                return Reply::Upgrade(handshake_response(key));
            },
            None => {},
        }
    }
    Reply::Respond(empty_response("404 Not Found"))
}

/// What a session does with a message from the client.
pub enum SessionAction {
    /// Hand the CDP message to the runtime.
    Forward(String),
    /// Send this frame back (a pong for a ping).
    Send(Frame),
    /// Send a close frame back, then end the session.
    Close,
    /// Nothing to do: CDP is text-only, so binary and pong frames are dropped.
    Ignore,
}

/// The action a message calls for.
pub open spec fn action_spec(m: FrameModel) -> (Option<Seq<char>>, Option<FrameModel>, bool) {
    match m {
        FrameModel::Text(t) => (Some(t), None, false),
        FrameModel::Ping(p) => (None, Some(FrameModel::Pong(p)), false),
        FrameModel::Close => (None, None, true),
        _ => (None, None, false),
    }
}

/// Decides what to do with a message the client sent.
pub fn session_action(message: Frame) -> (r: SessionAction)
    ensures
        match r {
            SessionAction::Forward(t) => action_spec(message@) == (
                Some(t@),
                Option::<FrameModel>::None,
                false,
            ),
            SessionAction::Send(f) => action_spec(message@) == (
                Option::<Seq<char>>::None,
                Some(f@),
                false,
            ),
            SessionAction::Close => action_spec(message@) == (
                Option::<Seq<char>>::None,
                Option::<FrameModel>::None,
                true,
            ),
            SessionAction::Ignore => action_spec(message@) == (
                Option::<Seq<char>>::None,
                Option::<FrameModel>::None,
                false,
            ),
        },
{
    match message {
        Frame::Text(t) => SessionAction::Forward(t),
        Frame::Ping(p) => SessionAction::Send(Frame::Pong(p)),
        Frame::Close => SessionAction::Close,
        _ => SessionAction::Ignore,
    }
}

} // verus!
