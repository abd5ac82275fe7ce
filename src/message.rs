use vstd::prelude::*;
use crate::types::{Addr, FileStatus, Instructions, Member, MusicState};
use crate::directory::{table_view, Entry};
use crate::store::copy_bytes;

verus! {

/// The tagged payload of a notification.
#[derive(Debug)]
pub enum Content {
    PushToDB { key: String, value: Vec<u8>, from: Addr },
    RedundantPushToDB { key: String, value: Vec<u8>, from: Addr },
    ChangePeerName { value: String },
    SendNetworkTable { value: Vec<Member> },
    SendNetworkUpdateTable { value: Vec<Member> },
    RequestForTable { value: String },
    FindFile { instr: Instructions, song_name: String },
    GetFile { instr: Instructions, key: String },
    GetFileResponse { instr: Instructions, key: String, value: Vec<u8> },
    ExistFile { song_name: String, id: u64 },
    ExitPeer { addr: Addr },
    DeleteFromNetwork { name: String },
    ExistFileResponse { song_name: String, id: u64 },
    StatusRequest,
    SelfStatusRequest,
    StatusResponse { files: Vec<String>, name: String },
    PlayAudioRequest { name: Option<String>, state: MusicState },
    DroppedPeer { addr: Addr },
    Heartbeat,
    OrderSongRequest { song_name: String },
    DeleteFileRequest { song_name: String },
}

/// `Content` with strings and byte vectors as sequences.
pub enum ContentModel {
    PushToDB { key: Seq<char>, value: Seq<u8>, from: Addr },
    RedundantPushToDB { key: Seq<char>, value: Seq<u8>, from: Addr },
    ChangePeerName { value: Seq<char> },
    SendNetworkTable { value: Seq<Entry> },
    SendNetworkUpdateTable { value: Seq<Entry> },
    RequestForTable { value: Seq<char> },
    FindFile { instr: Instructions, song_name: Seq<char> },
    GetFile { instr: Instructions, key: Seq<char> },
    GetFileResponse { instr: Instructions, key: Seq<char>, value: Seq<u8> },
    ExistFile { song_name: Seq<char>, id: u64 },
    ExitPeer { addr: Addr },
    DeleteFromNetwork { name: Seq<char> },
    ExistFileResponse { song_name: Seq<char>, id: u64 },
    StatusRequest,
    SelfStatusRequest,
    StatusResponse { files: Seq<Seq<char>>, name: Seq<char> },
    PlayAudioRequest { name: Option<Seq<char>>, state: MusicState },
    DroppedPeer { addr: Addr },
    Heartbeat,
    OrderSongRequest { song_name: Seq<char> },
    DeleteFileRequest { song_name: Seq<char> },
}

pub open spec fn strings_view(t: Seq<String>) -> Seq<Seq<char>> {
    t.map_values(|s: String| s@)
}

pub open spec fn opt_string_view(o: Option<String>) -> Option<Seq<char>> {
    match o {
        Some(s) => Some(s@),
        None => None,
    }
}

impl View for Content {
    type V = ContentModel;

    open spec fn view(&self) -> ContentModel {
        match self {
            Content::PushToDB { key, value, from } => ContentModel::PushToDB { key: key@, value: value@, from: *from },
            Content::RedundantPushToDB { key, value, from } => ContentModel::RedundantPushToDB { key: key@, value: value@, from: *from },
            Content::ChangePeerName { value } => ContentModel::ChangePeerName { value: value@ },
            Content::SendNetworkTable { value } => ContentModel::SendNetworkTable { value: table_view(value@) },
            Content::SendNetworkUpdateTable { value } => ContentModel::SendNetworkUpdateTable { value: table_view(value@) },
            Content::RequestForTable { value } => ContentModel::RequestForTable { value: value@ },
            Content::FindFile { instr, song_name } => ContentModel::FindFile { instr: *instr, song_name: song_name@ },
            Content::GetFile { instr, key } => ContentModel::GetFile { instr: *instr, key: key@ },
            Content::GetFileResponse { instr, key, value } => ContentModel::GetFileResponse { instr: *instr, key: key@, value: value@ },
            Content::ExistFile { song_name, id } => ContentModel::ExistFile { song_name: song_name@, id: *id },
            Content::ExitPeer { addr } => ContentModel::ExitPeer { addr: *addr },
            Content::DeleteFromNetwork { name } => ContentModel::DeleteFromNetwork { name: name@ },
            Content::ExistFileResponse { song_name, id } => ContentModel::ExistFileResponse { song_name: song_name@, id: *id },
            Content::StatusRequest => ContentModel::StatusRequest,
            Content::SelfStatusRequest => ContentModel::SelfStatusRequest,
            Content::StatusResponse { files, name } => ContentModel::StatusResponse { files: strings_view(files@), name: name@ },
            Content::PlayAudioRequest { name, state } => ContentModel::PlayAudioRequest { name: opt_string_view(*name), state: *state },
            Content::DroppedPeer { addr } => ContentModel::DroppedPeer { addr: *addr },
            Content::Heartbeat => ContentModel::Heartbeat,
            Content::OrderSongRequest { song_name } => ContentModel::OrderSongRequest { song_name: song_name@ },
            Content::DeleteFileRequest { song_name } => ContentModel::DeleteFileRequest { song_name: song_name@ },
        }
    }
}

/// The wire unit: who sent it, and what it says.
#[derive(Debug)]
pub struct Notification {
    pub content: Content,
    pub from: Addr,
}

pub struct NotificationModel {
    pub content: ContentModel,
    pub from: Addr,
}

impl View for Notification {
    type V = NotificationModel;

    open spec fn view(&self) -> NotificationModel {
        NotificationModel { content: self.content@, from: self.from }
    }
}

/// A command for the local audio sink.
#[derive(Debug)]
pub enum SinkCommand {
    Play(Vec<u8>),
    Pause,
    Stop,
    Resume,
}

pub enum SinkModel {
    Play(Seq<u8>),
    Pause,
    Stop,
    Resume,
}

impl View for SinkCommand {
    type V = SinkModel;

    open spec fn view(&self) -> SinkModel {
        match self {
            SinkCommand::Play(v) => SinkModel::Play(v@),
            SinkCommand::Pause => SinkModel::Pause,
            SinkCommand::Stop => SinkModel::Stop,
            SinkCommand::Resume => SinkModel::Resume,
        }
    }
}

/// What the dispatcher asks its surroundings to do after handling a notification.
#[derive(Debug)]
pub enum Effect {
    /// Send `notification` to `target` over a fresh connection.
    Send { target: Addr, notification: Notification },
    /// Upcall `file_status_changed`.
    FileStatusChanged { name: String, status: FileStatus },
    /// Upcall `notify_status`.
    NotifyStatus { files: Vec<String>, name: String },
    /// Upcall `player_playing`.
    PlayerPlaying { title: Option<String> },
    /// Upcall `player_stopped`.
    PlayerStopped,
    /// Drive the audio sink.
    Sink { command: SinkCommand },
    /// Upcall `lookup_failed`: no answer came for the lookup of `title` in time.
    LookupFailed { title: String, instr: Instructions },
}

pub enum EffectModel {
    Send { target: Addr, notification: NotificationModel },
    FileStatusChanged { name: Seq<char>, status: FileStatus },
    NotifyStatus { files: Seq<Seq<char>>, name: Seq<char> },
    PlayerPlaying { title: Option<Seq<char>> },
    PlayerStopped,
    Sink { command: SinkModel },
    LookupFailed { title: Seq<char>, instr: Instructions },
}

impl View for Effect {
    type V = EffectModel;

    open spec fn view(&self) -> EffectModel {
        match self {
            Effect::Send { target, notification } => EffectModel::Send { target: *target, notification: notification@ },
            Effect::FileStatusChanged { name, status } => EffectModel::FileStatusChanged { name: name@, status: *status },
            Effect::NotifyStatus { files, name } => EffectModel::NotifyStatus { files: strings_view(files@), name: name@ },
            Effect::PlayerPlaying { title } => EffectModel::PlayerPlaying { title: opt_string_view(*title) },
            Effect::PlayerStopped => EffectModel::PlayerStopped,
            Effect::Sink { command } => EffectModel::Sink { command: command@ },
            Effect::LookupFailed { title, instr } => EffectModel::LookupFailed { title: title@, instr: *instr },
        }
    }
}

/// The effects as models.
pub open spec fn effects_view(e: Seq<Effect>) -> Seq<EffectModel> {
    e.map_values(|x: Effect| x@)
}

/// A copy of a table of members.
pub fn copy_table(t: &Vec<Member>) -> (r: Vec<Member>)
    ensures
        table_view(r@) == table_view(t@),
{
    let mut r: Vec<Member> = Vec::new();
    let mut i: usize = 0;
    while i < t.len()
        invariant
            i <= t@.len(),
            r@.len() == i,
            forall|k: int| 0 <= k < i ==> #[trigger] r@[k].name@ == t@[k].name@ && r@[k].addr == t@[k].addr,
        decreases t@.len() - i,
    {
        r.push(Member { name: t[i].name.clone(), addr: t[i].addr });
        i = i + 1;
    }
    assert(table_view(r@) =~= table_view(t@));
    r
}

/// A copy of a list of strings.
pub fn copy_strings(t: &Vec<String>) -> (r: Vec<String>)
    ensures
        strings_view(r@) == strings_view(t@),
{
    let mut r: Vec<String> = Vec::new();
    let mut i: usize = 0;
    while i < t.len()
        invariant
            i <= t@.len(),
            r@.len() == i,
            forall|k: int| 0 <= k < i ==> #[trigger] r@[k]@ == t@[k]@,
        decreases t@.len() - i,
    {
        r.push(t[i].clone());
        i = i + 1;
    }
    assert(strings_view(r@) =~= strings_view(t@));
    r
}

fn copy_opt_string(o: &Option<String>) -> (r: Option<String>)
    ensures
        opt_string_view(r) == opt_string_view(*o),
{
    match o {
        Some(s) => Some(s.clone()),
        None => None,
    }
}

impl Content {
    /// A copy of the payload.
    pub fn copy(&self) -> (r: Content)
        ensures
            r@ == self@,
    {
        match self {
            Content::PushToDB { key, value, from } => Content::PushToDB { key: key.clone(), value: copy_bytes(value), from: *from },
            Content::RedundantPushToDB { key, value, from } => Content::RedundantPushToDB { key: key.clone(), value: copy_bytes(value), from: *from },
            Content::ChangePeerName { value } => Content::ChangePeerName { value: value.clone() },
            Content::SendNetworkTable { value } => Content::SendNetworkTable { value: copy_table(value) },
            Content::SendNetworkUpdateTable { value } => Content::SendNetworkUpdateTable { value: copy_table(value) },
            Content::RequestForTable { value } => Content::RequestForTable { value: value.clone() },
            Content::FindFile { instr, song_name } => Content::FindFile { instr: *instr, song_name: song_name.clone() },
            Content::GetFile { instr, key } => Content::GetFile { instr: *instr, key: key.clone() },
            Content::GetFileResponse { instr, key, value } => Content::GetFileResponse { instr: *instr, key: key.clone(), value: copy_bytes(value) },
            Content::ExistFile { song_name, id } => Content::ExistFile { song_name: song_name.clone(), id: *id },
            Content::ExitPeer { addr } => Content::ExitPeer { addr: *addr },
            Content::DeleteFromNetwork { name } => Content::DeleteFromNetwork { name: name.clone() },
            Content::ExistFileResponse { song_name, id } => Content::ExistFileResponse { song_name: song_name.clone(), id: *id },
            Content::StatusRequest => Content::StatusRequest,
            Content::SelfStatusRequest => Content::SelfStatusRequest,
            Content::StatusResponse { files, name } => Content::StatusResponse { files: copy_strings(files), name: name.clone() },
            Content::PlayAudioRequest { name, state } => Content::PlayAudioRequest { name: copy_opt_string(name), state: *state },
            Content::DroppedPeer { addr } => Content::DroppedPeer { addr: *addr },
            Content::Heartbeat => Content::Heartbeat,
            Content::OrderSongRequest { song_name } => Content::OrderSongRequest { song_name: song_name.clone() },
            Content::DeleteFileRequest { song_name } => Content::DeleteFileRequest { song_name: song_name.clone() },
        }
    }
}

/// The effects that send `content`, from `from`, to each address of `targets` in turn.
pub open spec fn broadcast_spec(targets: Seq<Addr>, from: Addr, content: ContentModel) -> Seq<EffectModel> {
    targets.map_values(|t: Addr| EffectModel::Send { target: t, notification: NotificationModel { content, from } })
}

/// Appends one `Send` of `content` per address of `targets`.
pub fn broadcast(effects: &mut Vec<Effect>, targets: &Vec<Addr>, from: Addr, content: &Content)
    ensures
        effects_view(final(effects)@) == effects_view(old(effects)@) + broadcast_spec(targets@, from, content@),
{
    let mut i: usize = 0;
    while i < targets.len()
        invariant
            i <= targets@.len(),
            effects@.len() == old(effects)@.len() + i,
            forall|k: int| 0 <= k < old(effects)@.len() ==> #[trigger] effects@[k] == old(effects)@[k],
            forall|k: int| 0 <= k < i ==> #[trigger] effects@[old(effects)@.len() + k]@
                == (EffectModel::Send { target: targets@[k], notification: NotificationModel { content: content@, from } }),
        decreases targets@.len() - i,
    {
        let c = content.copy();
        effects.push(Effect::Send { target: targets[i], notification: Notification { content: c, from } });
        i = i + 1;
    }
    assert(effects_view(effects@) =~= effects_view(old(effects)@) + broadcast_spec(targets@, from, content@)) by {
        assert forall|k: int| 0 <= k < effects@.len() implies effects_view(effects@)[k]
            == (effects_view(old(effects)@) + broadcast_spec(targets@, from, content@))[k] by {
            if k >= old(effects)@.len() {
                let j = k - old(effects)@.len();
                assert(effects@[old(effects)@.len() + j] == effects@[k]);
            }
        }
    }
}

} // verus!
