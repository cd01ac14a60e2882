//! The upstream protocol's JSON event records as typed data, and the
//! conversion of "message created" events into the served protocol's event
//! payload.

use vstd::prelude::*;
use crate::convert::{numeric_of, spec_to_kritor};
use crate::element::ElemModel;
use crate::kritor::{
    view_kritor_seq, view_push, GetCurrentAccountResponse, KritorModel, PushMessageBody, PushModel,
    Scene, Sender, SenderModel,
};
use crate::parser::{spec_parse, Parser};
use crate::text::parse_u64;

verus! {

/// The upstream login record.
#[derive(Debug)]
pub struct Login {
    pub user: Option<User>,
    pub self_id: Option<String>,
    pub platform: Option<String>,
    pub status: Status,
}

/// An upstream user.
#[derive(Debug)]
pub struct User {
    pub id: String,
    pub name: Option<String>,
    pub nick: Option<String>,
    pub avatar: Option<String>,
    pub is_bot: Option<bool>,
}

/// The upstream login status, carried on the wire as a number `0..=4`.
#[allow(non_camel_case_types)]
#[derive(Clone, Copy, Debug, PartialEq, Eq, Structural)]
pub enum Status {
    OFFLINE,
    ONLINE,
    CONNECT,
    DISCONNECT,
    RECONNECT,
}

impl Status {
    /// The wire code of this status.
    pub fn code(&self) -> (r: u8)
        ensures
            r == status_code(*self),
    {
        match self {
            Status::OFFLINE => 0,
            Status::ONLINE => 1,
            Status::CONNECT => 2,
            Status::DISCONNECT => 3,
            Status::RECONNECT => 4,
        }
    }

    /// The status a wire code stands for; codes above 4 stand for nothing.
    pub fn from_code(code: u8) -> (r: Option<Status>)
        ensures
            match r {
                Some(s) => code == status_code(s),
                None => code > 4,
            },
    {
        match code {
            0 => Some(Status::OFFLINE),
            1 => Some(Status::ONLINE),
            2 => Some(Status::CONNECT),
            3 => Some(Status::DISCONNECT),
            4 => Some(Status::RECONNECT),
            _ => None,
        }
    }
}

pub open spec fn status_code(s: Status) -> u8 {
    match s {
        Status::OFFLINE => 0,
        Status::ONLINE => 1,
        Status::CONNECT => 2,
        Status::DISCONNECT => 3,
        Status::RECONNECT => 4,
    }
}

/// An upstream event record, as decoded from a dispatch frame's body.
#[derive(Debug)]
pub struct Event {
    pub id: i32,
    pub _type: String,
    pub platform: String,
    pub self_id: String,
    pub timestamp: i64,
    pub argv: Option<Argv>,
    pub button: Option<Button>,
    pub channel: Option<Channel>,
    pub guild: Option<Guild>,
    pub login: Option<Login>,
    pub member: Option<GuildMember>,
    pub message: Option<Message>,
    pub operator: Option<User>,
    pub role: Option<GuildRole>,
    pub user: Option<User>,
}

/// An interaction command. The arguments and options are carried as raw
/// JSON text; nothing in this library reads inside them.
#[derive(Debug)]
pub struct Argv {
    pub name: String,
    pub arguments: Vec<String>,
    pub options: String,
}

#[derive(Debug)]
pub struct Button {
    pub id: String,
}

/// An upstream channel.
#[derive(Debug)]
pub struct Channel {
    pub id: String,
    pub _type: ChannelType,
    pub name: Option<String>,
    pub parent_id: Option<String>,
}

/// The upstream channel kind, carried on the wire as a number `0..=3`.
#[allow(non_camel_case_types)]
#[derive(Clone, Copy, Debug, PartialEq, Eq, Structural)]
pub enum ChannelType {
    TEXT,
    DIRECT,
    CATEGORY,
    VOICE,
}

impl ChannelType {
    pub fn code(&self) -> (r: u8)
        ensures
            r == channel_type_code(*self),
    {
        match self {
            ChannelType::TEXT => 0,
            ChannelType::DIRECT => 1,
            ChannelType::CATEGORY => 2,
            ChannelType::VOICE => 3,
        }
    }

    pub fn from_code(code: u8) -> (r: Option<ChannelType>)
        ensures
            match r {
                Some(t) => code == channel_type_code(t),
                None => code > 3,
            },
    {
        match code {
            0 => Some(ChannelType::TEXT),
            1 => Some(ChannelType::DIRECT),
            2 => Some(ChannelType::CATEGORY),
            3 => Some(ChannelType::VOICE),
            _ => None,
        }
    }
}

pub open spec fn channel_type_code(t: ChannelType) -> u8 {
    match t {
        ChannelType::TEXT => 0,
        ChannelType::DIRECT => 1,
        ChannelType::CATEGORY => 2,
        ChannelType::VOICE => 3,
    }
}

#[derive(Debug)]
pub struct Guild {
    pub id: String,
    pub name: Option<String>,
    pub avatar: Option<String>,
}

#[derive(Debug)]
pub struct GuildMember {
    pub user: Option<User>,
    pub nick: Option<String>,
    pub avatar: Option<String>,
    pub joined_at: Option<i64>,
}

/// An upstream message record.
#[derive(Debug)]
pub struct Message {
    pub id: String,
    pub content: String,
    pub channel: Option<Channel>,
    pub guild: Option<Guild>,
    pub member: Option<GuildMember>,
    pub user: Option<User>,
    pub created_at: Option<i64>,
    pub updated_at: Option<i64>,
}

#[derive(Debug)]
pub struct GuildRole {
    pub id: String,
    pub name: Option<String>,
}

// ---------------------------------------------------------------------------
// Channel helpers
// ---------------------------------------------------------------------------

/// The scene a channel kind maps to: direct channels are friend chats,
/// everything else is treated as a group.
pub open spec fn spec_scene(t: ChannelType) -> Scene {
    match t {
        ChannelType::TEXT => Scene::Group,
        ChannelType::DIRECT => Scene::Friend,
        ChannelType::CATEGORY => Scene::Group,
        ChannelType::VOICE => Scene::Group,
    }
}

/// The peer id of a channel: its id with the `private:` prefix removed, if
/// it carries one.
pub open spec fn spec_peer(id: Seq<char>) -> Seq<char> {
    if id.len() >= 8 && id.take(8) == "private:"@ {
        id.skip(8)
    } else {
        id
    }
}

fn has_private_prefix(s: &str) -> (r: bool)
    ensures
        r == (s@.len() >= 8 && s@.take(8) == "private:"@),
{
    let n = s.unicode_len();
    if n < 8 {
        return false;
    }
    let head = String::from_str(s.substring_char(0, 8));
    let r = head == String::from_str("private:");
    proof {
        assert(head@ == s@.take(8));
    }
    r
}

impl Channel {
    pub fn scene(&self) -> (r: Scene)
        ensures
            r == spec_scene(self._type),
    {
        match self._type {
            ChannelType::TEXT => Scene::Group,
            ChannelType::DIRECT => Scene::Friend,
            ChannelType::CATEGORY => Scene::Group,
            ChannelType::VOICE => Scene::Group,
        }
    }

    pub fn into_peer(self) -> (r: String)
        ensures
            r@ == spec_peer(self.id@),
    {
        if has_private_prefix(self.id.as_str()) {
            let n = self.id.as_str().unicode_len();
            String::from_str(self.id.as_str().substring_char(8, n))
        } else {
            self.id
        }
    }

    pub fn peer(&self) -> (r: &str)
        ensures
            r@ == spec_peer(self.id@),
    {
        if has_private_prefix(self.id.as_str()) {
            let n = self.id.as_str().unicode_len();
            self.id.as_str().substring_char(8, n)
        } else {
            self.id.as_str()
        }
    }

    /// The served-protocol contact a channel stands for.
    pub fn into_contact(self) -> (r: crate::kritor::Contact)
        ensures
            r.scene == spec_scene(self._type),
            r.peer@ == spec_peer(self.id@),
            r.sub_peer is None,
    {
        let scene = self.scene();
        crate::kritor::Contact { scene, peer: self.into_peer(), sub_peer: None }
    }
}

// ---------------------------------------------------------------------------
// Event conversion
// ---------------------------------------------------------------------------

/// An event that cannot be served: its type is not "message-created", or
/// its message record is missing. The caller treats this as
/// drop-and-continue, never as fatal.
#[derive(Clone, Copy, Debug, PartialEq, Eq, Structural)]
pub struct EventError;

/// A numeric identity read from a string id, zero when the id is not
/// numeric.
pub open spec fn uin_of(id: Seq<char>) -> u64 {
    match numeric_of(id) {
        Some(u) => u,
        None => 0,
    }
}

pub open spec fn opt_view(s: Option<String>) -> Seq<char> {
    match s {
        Some(x) => x@,
        None => Seq::<char>::empty(),
    }
}

/// The sender synthesized from the event's user and channel: a private
/// sender in a direct channel, a group sender in a text channel, nothing
/// otherwise.
pub open spec fn spec_sender(user: Option<User>, channel: Option<Channel>) -> Option<SenderModel> {
    match (user, channel) {
        (Some(u), Some(c)) => match c._type {
            ChannelType::DIRECT => Some(
                SenderModel::Private { nick: opt_view(u.nick), uin: uin_of(u.id@), uid: None },
            ),
            ChannelType::TEXT => Some(
                SenderModel::Group {
                    nick: opt_view(u.nick),
                    uin: uin_of(u.id@),
                    uid: None,
                    group_id: spec_peer(c.id@),
                },
            ),
            _ => None,
        },
        _ => None,
    }
}

/// Message timestamps arrive in milliseconds and are served in seconds. A
/// negative timestamp (which the upstream never sends) is served as zero.
pub open spec fn spec_msg_time(t: i64) -> u64 {
    if t >= 0 {
        ((t as int) / 1000) as u64
    } else {
        0
    }
}

/// The served elements of a message: its content parsed as markup and
/// flattened breadth-first; any parse or conversion failure degrades to an
/// empty element list rather than dropping the event.
pub open spec fn spec_content_elements(content: Seq<char>) -> Seq<KritorModel> {
    match spec_parse(content) {
        Ok(root) => match spec_to_kritor(ElemModel::Tag(root)) {
            Ok(ks) => ks,
            Err(_) => Seq::<KritorModel>::empty(),
        },
        Err(_) => Seq::<KritorModel>::empty(),
    }
}

/// Whether an event converts at all: only "message-created" events with a
/// message record do.
pub open spec fn event_convertible(ev: Event) -> bool {
    ev._type@ == "message-created"@ && ev.message is Some
}

/// The served event payload of a convertible event.
pub open spec fn spec_event_push(ev: Event) -> PushModel {
    let msg = ev.message->0;
    PushModel {
        time: spec_msg_time(ev.timestamp),
        message_seq: 0,
        scene: match ev.channel {
            Some(c) => spec_scene(c._type),
            None => Scene::Unspecified,
        },
        sender: spec_sender(ev.user, ev.channel),
        elements: spec_content_elements(msg.content@),
        message_id: msg.id@,
    }
}

/// Convert an upstream event into the served "message created" payload.
/// Exactly the "message-created" events that carry a message record
/// convert; everything else is rejected.
pub fn convert_event(ev: Event) -> (r: Result<PushMessageBody, EventError>)
    ensures
        match r {
            Ok(p) => event_convertible(ev) && view_push(p) == spec_event_push(ev),
            Err(_) => !event_convertible(ev),
        },
{
    if !(ev._type == String::from_str("message-created")) {
        return Err(EventError);
    }
    let msg = match ev.message {
        Some(m) => m,
        None => {
            return Err(EventError);
        },
    };
    let time: u64 = if ev.timestamp >= 0 {
        (ev.timestamp as u64) / 1000
    } else {
        0
    };
    let scene = match &ev.channel {
        Some(c) => c.scene(),
        None => Scene::Unspecified,
    };
    let sender = figure_sender(ev.user, &ev.channel);
    let elements = content_elements(msg.content.as_str());
    Ok(
        PushMessageBody {
            time,
            message_seq: 0,
            scene,
            sender,
            elements,
            message_id: msg.id,
        },
    )
}

pub open spec fn sender_views(s: Option<Sender>) -> Option<SenderModel> {
    match s {
        Some(x) => Some(crate::kritor::view_sender(x)),
        None => None,
    }
}

fn figure_sender(user: Option<User>, channel: &Option<Channel>) -> (r: Option<Sender>)
    ensures
        sender_views(r) == spec_sender(user, *channel),
{
    match (user, channel) {
        (Some(u), Some(c)) => {
            match c._type {
                ChannelType::DIRECT => {
                    let nick = match u.nick {
                        Some(n) => n,
                        None => String::new(),
                    };
                    let uin = match parse_u64(u.id.as_str()) {
                        Some(v) => v,
                        None => 0,
                    };
                    Some(Sender::Private { nick, uin, uid: None })
                },
                ChannelType::TEXT => {
                    let nick = match u.nick {
                        Some(n) => n,
                        None => String::new(),
                    };
                    let uin = match parse_u64(u.id.as_str()) {
                        Some(v) => v,
                        None => 0,
                    };
                    let group_id = String::from_str(c.peer());
                    Some(Sender::Group { nick, uin, uid: None, group_id })
                },
                _ => None,
            }
        },
        _ => None,
    }
}

fn content_elements(content: &str) -> (r: Vec<crate::kritor::KritorElement>)
    ensures
        view_kritor_seq(r@) == spec_content_elements(content@),
{
    let mut parser = Parser::new(content);
    match parser.parse() {
        Ok(root) => {
            match root.try_into_kritor_elements() {
                Ok(v) => v,
                Err(_) => {
                    let v: Vec<crate::kritor::KritorElement> = Vec::new();
                    proof {
                        assert(view_kritor_seq(v@) =~= Seq::<KritorModel>::empty());
                    }
                    v
                },
            }
        },
        Err(_) => {
            let v: Vec<crate::kritor::KritorElement> = Vec::new();
            proof {
                assert(view_kritor_seq(v@) =~= Seq::<KritorModel>::empty());
            }
            v
        },
    }
}

// ---------------------------------------------------------------------------
// Account identity
// ---------------------------------------------------------------------------

/// The served account identity a login record stands for: the user's name
/// and id when a user object is present, otherwise the bare platform
/// account id.
pub fn account_from_login(login: Login) -> (r: GetCurrentAccountResponse)
    ensures
        match login.user {
            Some(user) => r.account_name@ == opt_view(user.name) && r.account_uin == uin_of(
                user.id@,
            ) && r.account_uid@ == user.id@,
            None => {
                &&& r.account_name@ == Seq::<char>::empty()
                &&& r.account_uin == uin_of(opt_view(login.self_id))
                &&& r.account_uid@ == opt_view(login.self_id)
            },
        },
{
    match login.user {
        Some(user) => {
            let account_name = match user.name {
                Some(n) => n,
                None => String::new(),
            };
            let account_uin = match parse_u64(user.id.as_str()) {
                Some(v) => v,
                None => 0,
            };
            GetCurrentAccountResponse { account_name, account_uin, account_uid: user.id }
        },
        None => {
            let id = match login.self_id {
                Some(i) => i,
                None => String::new(),
            };
            let account_uin = match parse_u64(id.as_str()) {
                Some(v) => v,
                None => 0,
            };
            GetCurrentAccountResponse {
                account_name: String::new(),
                account_uin,
                account_uid: id,
            }
        },
    }
}

} // verus!
