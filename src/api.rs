use vstd::prelude::*;
use crate::types::{Addr, FileStatus, Instructions, MusicState};
use crate::message::{opt_string_view, Content, ContentModel, Notification, NotificationModel};
use crate::peer::Peer;

verus! {

/// Why a port given at startup was refused.
#[derive(PartialEq, Eq, Structural, Clone, Copy, Debug)]
pub enum PortError {
    NotNumeric,
    NotFourDigits,
}

impl PortError {
    /// The message shown to the user.
    pub fn message(&self) -> (r: String)
        ensures
            *self == PortError::NotNumeric ==> r@ == "The supplied port is not numeric"@,
            *self == PortError::NotFourDigits ==> r@ == "The supplied port does not have four digits"@,
    {
        match self {
            PortError::NotNumeric => String::from_str("The supplied port is not numeric"),
            PortError::NotFourDigits => String::from_str("The supplied port does not have four digits"),
        }
    }
}

pub open spec fn is_digit(c: char) -> bool {
    '0' <= c <= '9'
}

/// A non-empty string of decimal digits.
pub open spec fn is_numeric(s: Seq<char>) -> bool {
    s.len() > 0 && forall|i: int| 0 <= i < s.len() ==> is_digit(s[i])
}

/// Accepts a port made of exactly four decimal digits.
pub fn validate_port(port: &str) -> (r: Result<&str, PortError>)
    ensures
        r == Err::<&str, PortError>(PortError::NotNumeric) <==> !is_numeric(port@),
        r == Err::<&str, PortError>(PortError::NotFourDigits) <==> is_numeric(port@) && port@.len() != 4,
        r is Ok <==> is_numeric(port@) && port@.len() == 4,
        r matches Ok(p) ==> p@ == port@,
{
    let n = port.unicode_len();
    if n == 0 {
        return Err(PortError::NotNumeric);
    }
    let mut i: usize = 0;
    while i < n
        invariant
            i <= n,
            n == port@.len(),
            forall|k: int| 0 <= k < i ==> is_digit(port@[k]),
        decreases n - i,
    {
        let c = port.get_char(i);
        if !('0' <= c && c <= '9') {
            return Err(PortError::NotNumeric);
        }
        i = i + 1;
    }
    if n != 4 {
        return Err(PortError::NotFourDigits);
    }
    Ok(port)
}

/// The notification that asks the local dispatcher to find `name` and act on it per `instr`.
pub fn send_read_request(peer: &Peer, name: &str, instr: Instructions) -> (n: Notification)
    ensures
        n@ == (NotificationModel {
            content: ContentModel::FindFile { instr, song_name: name@ },
            from: peer.ip_address,
        }),
{
    Notification {
        content: Content::FindFile { instr, song_name: String::from_str(name) },
        from: peer.ip_address,
    }
}

/// The notification that makes the local dispatcher announce this peer's exit.
pub fn send_delete_peer_request(peer: &Peer) -> (n: Notification)
    ensures
        n@ == (NotificationModel {
            content: ContentModel::ExitPeer { addr: peer.ip_address },
            from: peer.ip_address,
        }),
{
    Notification { content: Content::ExitPeer { addr: peer.ip_address }, from: peer.ip_address }
}

/// The notification that drives the local player.
pub fn send_play_request(name: Option<String>, peer: &Peer, state: MusicState) -> (n: Notification)
    ensures
        n@ == (NotificationModel {
            content: ContentModel::PlayAudioRequest { name: opt_string_view(name), state },
            from: peer.ip_address,
        }),
{
    Notification { content: Content::PlayAudioRequest { name, state }, from: peer.ip_address }
}

/// The notification that asks a peer for the titles it holds and its name.
pub fn send_status_request(from: Addr) -> (n: Notification)
    ensures
        n@ == (NotificationModel { content: ContentModel::StatusRequest, from }),
{
    Notification { content: Content::StatusRequest, from }
}

/// The notification that stores `content` under `name` in the network, pushed from `addr`.
pub fn push_request(name: &str, content: Vec<u8>, addr: Addr) -> (n: Notification)
    ensures
        n@ == (NotificationModel {
            content: ContentModel::PushToDB { key: name@, value: content@, from: addr },
            from: addr,
        }),
{
    Notification {
        content: Content::PushToDB { key: String::from_str(name), value: content, from: addr },
        from: addr,
    }
}

/// The upcalls a front-end receives from the dispatcher.
pub trait AppListener {
    fn notify(&self);

    fn notify_status(&self, files: Vec<String>, name: String);

    fn file_status_changed(&mut self, name: String, status: FileStatus);

    fn player_playing(&mut self, title: Option<String>);

    fn player_stopped(&mut self);

    fn lookup_failed(&mut self, title: String, instr: Instructions);
}

/// The front-end's view of the local peer: its address, and whether the player holds a track.
pub struct MEFFM {
    pub addr: Addr,
    pub is_playing: bool,
}

impl MEFFM {
    pub fn new(addr: Addr) -> (r: MEFFM)
        ensures
            r.addr == addr,
            !r.is_playing,
    {
        MEFFM { addr, is_playing: false }
    }

    fn music_control(&self, song: Option<String>, state: MusicState) -> (n: Notification)
        ensures
            n@ == (NotificationModel {
                content: ContentModel::PlayAudioRequest { name: opt_string_view(song), state },
                from: self.addr,
            }),
    {
        Notification { content: Content::PlayAudioRequest { name: song, state }, from: self.addr }
    }

    /// Asks every holder of `title` to delete it.
    pub fn remove_title(&self, title: &str) -> (n: Notification)
        ensures
            n@ == (NotificationModel {
                content: ContentModel::FindFile { instr: Instructions::REMOVE, song_name: title@ },
                from: self.addr,
            }),
    {
        Notification {
            content: Content::FindFile { instr: Instructions::REMOVE, song_name: String::from_str(title) },
            from: self.addr,
        }
    }

    /// Fetches `title` into the local store.
    pub fn download(&self, title: &str) -> (n: Notification)
        ensures
            n@ == (NotificationModel {
                content: ContentModel::FindFile { instr: Instructions::GET, song_name: title@ },
                from: self.addr,
            }),
    {
        Notification {
            content: Content::FindFile { instr: Instructions::GET, song_name: String::from_str(title) },
            from: self.addr,
        }
    }

    /// Plays `search`, wherever it is stored.
    pub fn stream(&self, search: String) -> (n: Notification)
        ensures
            n@ == (NotificationModel {
                content: ContentModel::PlayAudioRequest { name: Some(search@), state: MusicState::PLAY },
                from: self.addr,
            }),
    {
        self.music_control(Some(search), MusicState::PLAY)
    }

    /// Resumes the paused track when the player holds one, else plays `title`.
    pub fn play(&self, title: Option<String>) -> (n: Notification)
        ensures
            self.is_playing ==> n@ == (NotificationModel {
                content: ContentModel::PlayAudioRequest { name: None, state: MusicState::CONTINUE },
                from: self.addr,
            }),
            !self.is_playing ==> n@ == (NotificationModel {
                content: ContentModel::PlayAudioRequest { name: opt_string_view(title), state: MusicState::PLAY },
                from: self.addr,
            }),
    {
        if self.is_playing {
            self.music_control(None, MusicState::CONTINUE)
        } else {
            self.music_control(title, MusicState::PLAY)
        }
    }

    pub fn pause(&self) -> (n: Notification)
        ensures
            n@ == (NotificationModel {
                content: ContentModel::PlayAudioRequest { name: None, state: MusicState::PAUSE },
                from: self.addr,
            }),
    {
        self.music_control(None, MusicState::PAUSE)
    }

    /// Stops the player; afterwards `play` starts a track again.
    pub fn stop(&mut self) -> (n: Notification)
        ensures
            !final(self).is_playing,
            final(self).addr == old(self).addr,
            n@ == (NotificationModel {
                content: ContentModel::PlayAudioRequest { name: None, state: MusicState::STOP },
                from: old(self).addr,
            }),
    {
        self.is_playing = false;
        self.music_control(None, MusicState::STOP)
    }

    /// Leaves the network.
    pub fn quit(&self) -> (n: Notification)
        ensures
            n@ == (NotificationModel { content: ContentModel::ExitPeer { addr: self.addr }, from: self.addr }),
    {
        Notification { content: Content::ExitPeer { addr: self.addr }, from: self.addr }
    }

    /// The upcall that a track has started: `play` now resumes.
    pub fn player_playing(&mut self)
        ensures
            final(self).is_playing,
            final(self).addr == old(self).addr,
    {
        self.is_playing = true;
    }
}

} // verus!
