//! The upstream RPC client's pure core: the closed error taxonomy with its
//! HTTP status mapping, the preparation of a send-message request, and the
//! handling of its response. The HTTP transport itself lives outside the
//! library; it hands statuses and records in and takes prepared requests
//! out.

use vstd::prelude::*;
use crate::convert::{spec_from_kritor, ConvError};
use crate::element::ser_tag;
use crate::kritor::{view_kritor_seq, Contact, KritorElement, Scene, SendMessageResponse};
use crate::element::Root;
use crate::schema::Message;

verus! {

/// Why an upstream RPC failed: a non-2xx HTTP status, categorized, or a
/// transport-level failure wrapping the underlying cause's text.
#[derive(Debug)]
pub enum RpcError {
    BadRequest,
    Unauthorized,
    Forbidden,
    NotFound,
    MethodNotAllowed,
    ServerSide,
    NonStandardResponseStatus,
    Transport(String),
}

/// The kind of a status answered on the served RPC surface.
#[derive(Clone, Copy, Debug, PartialEq, Eq, Structural)]
pub enum ServedStatusKind {
    InvalidArgument,
    Unauthenticated,
    PermissionDenied,
    NotFound,
    Unimplemented,
    Internal,
}

/// A status answered on the served RPC surface: a kind and a
/// human-readable message.
#[derive(Debug)]
pub struct ServedStatus {
    pub kind: ServedStatusKind,
    pub message: String,
}

/// Whether an HTTP status code counts as success.
pub open spec fn is_success(code: u16) -> bool {
    200 <= code < 300
}

/// The error a non-2xx HTTP status maps to.
pub open spec fn spec_status_error(code: u16) -> RpcError {
    if code == 400 {
        RpcError::BadRequest
    } else if code == 401 {
        RpcError::Unauthorized
    } else if code == 403 {
        RpcError::Forbidden
    } else if code == 404 {
        RpcError::NotFound
    } else if code == 405 {
        RpcError::MethodNotAllowed
    } else if 500 <= code < 600 {
        RpcError::ServerSide
    } else {
        RpcError::NonStandardResponseStatus
    }
}

/// Categorize an HTTP status: 2xx is success, everything else maps to the
/// closed error taxonomy.
pub fn classify_status(code: u16) -> (r: Result<(), RpcError>)
    ensures
        match r {
            Ok(_) => is_success(code),
            Err(e) => !is_success(code) && e == spec_status_error(code),
        },
{
    if 200 <= code && code < 300 {
        Ok(())
    } else if code == 400 {
        Err(RpcError::BadRequest)
    } else if code == 401 {
        Err(RpcError::Unauthorized)
    } else if code == 403 {
        Err(RpcError::Forbidden)
    } else if code == 404 {
        Err(RpcError::NotFound)
    } else if code == 405 {
        Err(RpcError::MethodNotAllowed)
    } else if 500 <= code && code < 600 {
        Err(RpcError::ServerSide)
    } else {
        Err(RpcError::NonStandardResponseStatus)
    }
}

/// The text of an error, as its debug form reads.
pub open spec fn spec_rpc_error_text(e: RpcError) -> Seq<char> {
    match e {
        RpcError::BadRequest => "BadRequest"@,
        RpcError::Unauthorized => "Unauthorized"@,
        RpcError::Forbidden => "Forbidden"@,
        RpcError::NotFound => "NotFound"@,
        RpcError::MethodNotAllowed => "MethodNotAllowed"@,
        RpcError::ServerSide => "ServerSide"@,
        RpcError::NonStandardResponseStatus => "NonStandardResponseStatus"@,
        RpcError::Transport(m) => "Transport("@ + m@ + ")"@,
    }
}

impl RpcError {
    pub fn text(&self) -> (r: String)
        ensures
            r@ == spec_rpc_error_text(*self),
    {
        match self {
            RpcError::BadRequest => String::from_str("BadRequest"),
            RpcError::Unauthorized => String::from_str("Unauthorized"),
            RpcError::Forbidden => String::from_str("Forbidden"),
            RpcError::NotFound => String::from_str("NotFound"),
            RpcError::MethodNotAllowed => String::from_str("MethodNotAllowed"),
            RpcError::ServerSide => String::from_str("ServerSide"),
            RpcError::NonStandardResponseStatus => String::from_str("NonStandardResponseStatus"),
            RpcError::Transport(m) => {
                let mut out = String::from_str("Transport(");
                out.append(m.as_str());
                out.append(")");
                out
            },
        }
    }

    /// The status served to a caller when an upstream RPC fails.
    pub fn into_served_status(self) -> (r: ServedStatus)
        ensures
            r.kind == (match self {
                RpcError::Transport(_) => ServedStatusKind::Internal,
                RpcError::BadRequest => ServedStatusKind::InvalidArgument,
                RpcError::Unauthorized => ServedStatusKind::Unauthenticated,
                RpcError::Forbidden => ServedStatusKind::PermissionDenied,
                RpcError::NotFound => ServedStatusKind::NotFound,
                RpcError::MethodNotAllowed => ServedStatusKind::Unimplemented,
                RpcError::ServerSide => ServedStatusKind::Internal,
                RpcError::NonStandardResponseStatus => ServedStatusKind::Internal,
            }),
            r.message@ == (match self {
                RpcError::Transport(m) => "Request failed: "@ + m@,
                RpcError::BadRequest => "\u{8bf7}\u{6c42}\u{683c}\u{5f0f}\u{9519}\u{8bef}"@,
                RpcError::Unauthorized => "\u{7f3a}\u{5931}\u{9274}\u{6743}"@,
                RpcError::Forbidden => "\u{6743}\u{9650}\u{4e0d}\u{8db3}"@,
                RpcError::NotFound => "\u{8d44}\u{6e90}\u{4e0d}\u{5b58}\u{5728}"@,
                RpcError::MethodNotAllowed => "\u{8bf7}\u{6c42}\u{65b9}\u{6cd5}\u{4e0d}\u{652f}\u{6301}"@,
                RpcError::ServerSide => "\u{670d}\u{52a1}\u{5668}\u{9519}\u{8bef}"@,
                RpcError::NonStandardResponseStatus => "Non Standard Response Status"@,
            }),
    {
        match self {
            RpcError::Transport(m) => {
                let mut message = String::from_str("Request failed: ");
                message.append(m.as_str());
                ServedStatus { kind: ServedStatusKind::Internal, message }
            },
            RpcError::BadRequest => ServedStatus {
                kind: ServedStatusKind::InvalidArgument,
                message: String::from_str("\u{8bf7}\u{6c42}\u{683c}\u{5f0f}\u{9519}\u{8bef}"),
            },
            RpcError::Unauthorized => ServedStatus {
                kind: ServedStatusKind::Unauthenticated,
                message: String::from_str("\u{7f3a}\u{5931}\u{9274}\u{6743}"),
            },
            RpcError::Forbidden => ServedStatus {
                kind: ServedStatusKind::PermissionDenied,
                message: String::from_str("\u{6743}\u{9650}\u{4e0d}\u{8db3}"),
            },
            RpcError::NotFound => ServedStatus {
                kind: ServedStatusKind::NotFound,
                message: String::from_str("\u{8d44}\u{6e90}\u{4e0d}\u{5b58}\u{5728}"),
            },
            RpcError::MethodNotAllowed => ServedStatus {
                kind: ServedStatusKind::Unimplemented,
                message: String::from_str(
                    "\u{8bf7}\u{6c42}\u{65b9}\u{6cd5}\u{4e0d}\u{652f}\u{6301}",
                ),
            },
            RpcError::ServerSide => ServedStatus {
                kind: ServedStatusKind::Internal,
                message: String::from_str("\u{670d}\u{52a1}\u{5668}\u{9519}\u{8bef}"),
            },
            RpcError::NonStandardResponseStatus => ServedStatus {
                kind: ServedStatusKind::Internal,
                message: String::from_str("Non Standard Response Status"),
            },
        }
    }
}

/// The authorization header value carrying the configured token.
pub fn bearer_header(token: &str) -> (r: String)
    ensures
        r@ == "Bearer "@ + token@,
{
    let mut out = String::from_str("Bearer ");
    out.append(token);
    out
}

// ---------------------------------------------------------------------------
// Send-message preparation and response handling
// ---------------------------------------------------------------------------

/// A prepared upstream send request: the channel to post to and the markup
/// content.
#[derive(Debug)]
pub struct SendRequest {
    pub channel_id: String,
    pub content: String,
}

/// The upstream channel id a contact addresses: the peer for a group, the
/// peer behind the `private:` prefix for a friend, nothing for any other
/// scene.
pub open spec fn spec_channel_id(scene: Scene, peer: Seq<char>) -> Option<Seq<char>> {
    match scene {
        Scene::Group => Some(peer),
        Scene::Friend => Some("private:"@ + peer),
        Scene::Unspecified => None,
    }
}

/// Prepare a send-message request: resolve the channel id from the contact
/// and serialize the elements into markup. An unsupported scene and a
/// failing conversion are rejected as invalid arguments, exactly as the
/// serving surface reports them.
pub fn prepare_send(contact: Contact, elements: Vec<KritorElement>) -> (r: Result<
    SendRequest,
    ServedStatus,
>)
    ensures
        match r {
            Ok(req) => {
                &&& spec_channel_id(contact.scene, contact.peer@) == Some(req.channel_id@)
                &&& spec_from_kritor(view_kritor_seq(elements@)) is Ok
                &&& req.content@ == ser_tag(spec_from_kritor(view_kritor_seq(elements@))->Ok_0)
            },
            Err(st) => {
                if spec_channel_id(contact.scene, contact.peer@) is None {
                    &&& st.kind == ServedStatusKind::InvalidArgument
                    &&& st.message@ == "The scene is not supported by satori"@
                } else {
                    &&& spec_from_kritor(view_kritor_seq(elements@)) is Err
                    &&& st.kind == ServedStatusKind::InvalidArgument
                    &&& st.message@ == "Failed to convert kritor elements to satori elements:"@
                        + crate::convert::spec_conv_error_text(
                        spec_from_kritor(view_kritor_seq(elements@))->Err_0,
                    )
                }
            },
        },
{
    let channel_id = match contact.scene {
        Scene::Group => contact.peer,
        Scene::Friend => {
            let mut s = String::from_str("private:");
            s.append(contact.peer.as_str());
            s
        },
        Scene::Unspecified => {
            return Err(
                ServedStatus {
                    kind: ServedStatusKind::InvalidArgument,
                    message: String::from_str("The scene is not supported by satori"),
                },
            );
        },
    };
    match Root::try_from_kritor_elements(elements) {
        Ok(root) => {
            let content = root.root_element.serialize();
            proof {
                assert(ser_tag(spec_from_kritor(view_kritor_seq(elements@))->Ok_0) == content@);
            }
            Ok(SendRequest { channel_id, content })
        },
        Err(e) => {
            let mut message = String::from_str(
                "Failed to convert kritor elements to satori elements:",
            );
            message.append(e.message());
            Err(ServedStatus { kind: ServedStatusKind::InvalidArgument, message })
        },
    }
}

/// The served time of a created message: its creation timestamp in
/// seconds-bearing form, zero when absent or negative.
pub open spec fn spec_created_time(t: Option<i64>) -> u64 {
    match t {
        Some(v) => if v >= 0 {
            v as u64
        } else {
            0
        },
        None => 0,
    }
}

/// Turn the upstream's answer to a send into the served response: the last
/// created message supplies the id and time; an empty list is a server-side
/// failure.
pub fn send_response_from(resp: Vec<Message>) -> (r: Result<SendMessageResponse, ServedStatus>)
    ensures
        match r {
            Ok(out) => {
                &&& resp@.len() > 0
                &&& out.message_id@ == resp@.last().id@
                &&& out.message_time == spec_created_time(resp@.last().created_at)
            },
            Err(st) => {
                &&& resp@.len() == 0
                &&& st.kind == ServedStatusKind::Internal
                &&& st.message@ == "satori returned a empty message list"@
            },
        },
{
    let mut resp = resp;
    match resp.pop() {
        Some(last) => {
            let message_time: u64 = match last.created_at {
                Some(v) => if v >= 0 {
                    v as u64
                } else {
                    0
                },
                None => 0,
            };
            Ok(SendMessageResponse { message_id: last.id, message_time })
        },
        None => Err(
            ServedStatus {
                kind: ServedStatusKind::Internal,
                message: String::from_str("satori returned a empty message list"),
            },
        ),
    }
}

/// The status served when the upstream answers a send with an error.
pub fn send_failure_status(e: RpcError) -> (r: ServedStatus)
    ensures
        r.kind == ServedStatusKind::Internal,
        r.message@ == "satori returned a error for "@ + spec_rpc_error_text(e),
{
    let mut message = String::from_str("satori returned a error for ");
    let text = e.text();
    message.append(text.as_str());
    ServedStatus { kind: ServedStatusKind::Internal, message }
}

} // verus!
