//! The served protocol's data types: the closed set of typed message
//! elements, chat scenes, senders and event payloads, together with their
//! mathematical models.

use vstd::prelude::*;

verus! {

/// The chat context kind. `Friend` maps to the upstream channel-id
/// convention `private:<peer>`, `Group` maps to the peer id directly.
#[derive(Clone, Copy, Debug, PartialEq, Eq, Structural)]
pub enum Scene {
    Group,
    Friend,
    Unspecified,
}

#[derive(Debug)]
pub struct Contact {
    pub scene: Scene,
    pub peer: String,
    pub sub_peer: Option<String>,
}

/// A media payload: a remote URL, a local file path, or inline bytes.
#[derive(Debug)]
pub enum MediaData {
    FileUrl(String),
    FilePath(String),
    FileBytes(Vec<u8>),
}

/// One typed message element of the served protocol.
#[derive(Debug)]
pub enum KritorElement {
    Text { text: String },
    At { uin: Option<u64>, mention_all: bool },
    Face { id: u32 },
    Image { data: Option<MediaData> },
    Voice { data: Option<MediaData> },
    Video { data: Option<MediaData> },
    File { url: Option<String>, name: Option<String> },
    Forward { uniseq: String },
}

/// The sender of a pushed message: a private chat sender or a group sender.
#[derive(Debug)]
pub enum Sender {
    Private { nick: String, uin: u64, uid: Option<String> },
    Group { nick: String, uin: u64, uid: Option<String>, group_id: String },
}

/// A "message created" event as served to subscribers.
#[derive(Debug)]
pub struct PushMessageBody {
    pub time: u64,
    pub message_seq: u64,
    pub scene: Scene,
    pub sender: Option<Sender>,
    pub elements: Vec<KritorElement>,
    pub message_id: String,
}

#[derive(Debug)]
pub struct SendMessageResponse {
    pub message_id: String,
    pub message_time: u64,
}

#[derive(Debug)]
pub struct GetCurrentAccountResponse {
    pub account_name: String,
    pub account_uin: u64,
    pub account_uid: String,
}

// ---------------------------------------------------------------------------
// Models
// ---------------------------------------------------------------------------

#[verifier::ext_equal]
pub enum MediaModel {
    FileUrl(Seq<char>),
    FilePath(Seq<char>),
    FileBytes(Seq<u8>),
}

#[verifier::ext_equal]
pub enum KritorModel {
    Text { text: Seq<char> },
    At { uin: Option<u64>, mention_all: bool },
    Face { id: u32 },
    Image { data: Option<MediaModel> },
    Voice { data: Option<MediaModel> },
    Video { data: Option<MediaModel> },
    File { url: Option<Seq<char>>, name: Option<Seq<char>> },
    Forward { uniseq: Seq<char> },
}

#[verifier::ext_equal]
pub enum SenderModel {
    Private { nick: Seq<char>, uin: u64, uid: Option<Seq<char>> },
    Group { nick: Seq<char>, uin: u64, uid: Option<Seq<char>>, group_id: Seq<char> },
}

#[verifier::ext_equal]
pub struct PushModel {
    pub time: u64,
    pub message_seq: u64,
    pub scene: Scene,
    pub sender: Option<SenderModel>,
    pub elements: Seq<KritorModel>,
    pub message_id: Seq<char>,
}

pub open spec fn view_media(m: MediaData) -> MediaModel {
    match m {
        MediaData::FileUrl(u) => MediaModel::FileUrl(u@),
        MediaData::FilePath(p) => MediaModel::FilePath(p@),
        MediaData::FileBytes(b) => MediaModel::FileBytes(b@),
    }
}

pub open spec fn view_opt_media(m: Option<MediaData>) -> Option<MediaModel> {
    match m {
        Some(d) => Some(view_media(d)),
        None => None,
    }
}

pub open spec fn view_opt_string(s: Option<String>) -> Option<Seq<char>> {
    match s {
        Some(x) => Some(x@),
        None => None,
    }
}

pub open spec fn view_kritor(e: KritorElement) -> KritorModel {
    match e {
        KritorElement::Text { text } => KritorModel::Text { text: text@ },
        KritorElement::At { uin, mention_all } => KritorModel::At { uin, mention_all },
        KritorElement::Face { id } => KritorModel::Face { id },
        KritorElement::Image { data } => KritorModel::Image { data: view_opt_media(data) },
        KritorElement::Voice { data } => KritorModel::Voice { data: view_opt_media(data) },
        KritorElement::Video { data } => KritorModel::Video { data: view_opt_media(data) },
        KritorElement::File { url, name } => KritorModel::File {
            url: view_opt_string(url),
            name: view_opt_string(name),
        },
        KritorElement::Forward { uniseq } => KritorModel::Forward { uniseq: uniseq@ },
    }
}

pub open spec fn view_kritor_seq(es: Seq<KritorElement>) -> Seq<KritorModel> {
    es.map_values(|e: KritorElement| view_kritor(e))
}

pub open spec fn view_sender(s: Sender) -> SenderModel {
    match s {
        Sender::Private { nick, uin, uid } => SenderModel::Private {
            nick: nick@,
            uin,
            uid: view_opt_string(uid),
        },
        Sender::Group { nick, uin, uid, group_id } => SenderModel::Group {
            nick: nick@,
            uin,
            uid: view_opt_string(uid),
            group_id: group_id@,
        },
    }
}

pub open spec fn view_push(p: PushMessageBody) -> PushModel {
    PushModel {
        time: p.time,
        message_seq: p.message_seq,
        scene: p.scene,
        sender: match p.sender {
            Some(s) => Some(view_sender(s)),
            None => None,
        },
        elements: view_kritor_seq(p.elements@),
        message_id: p.message_id@,
    }
}

} // verus!
