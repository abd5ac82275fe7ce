use vstd::prelude::*;
use rand::Rng;
use crate::types::{Addr, FileStatus, Instructions, MusicState};
use crate::directory::{
    has_addr, has_name, insert_spec, is_first_free, merge_spec, ring_dist, without_addr, without_name, Directory,
    Entry,
};
use crate::store::{copy_bytes, holds_title, put_spec, without_title, FileEntry, FileStore};
use crate::pending::{awaits, expired, fresh_only, lookups_seq, without_song, Lookup, PendingTable};
use crate::message::{
    broadcast, broadcast_spec, effects_view, Content, ContentModel, Effect, EffectModel,
    Notification, NotificationModel, SinkCommand, SinkModel, opt_string_view, strings_view,
};

verus! {

/// How long a lookup may wait for an answer: two heartbeat periods, in milliseconds.
pub const LOOKUP_TIMEOUT_MS: u64 = 20000;

/// Up to this many peers every other peer gets a heartbeat.
pub const FULL_HEARTBEAT_LIMIT: usize = 20;

/// The playback state of the local sink.
#[derive(PartialEq, Eq, Structural, Clone, Copy, Debug)]
pub enum PlayerState {
    Idle,
    Playing,
    Paused,
}

/// The state of a peer as a mathematical value.
pub struct PeerModel {
    pub name: Seq<char>,
    pub addr: Addr,
    pub directory: Set<Entry>,
    pub files: Set<FileEntry>,
    pub pending: Set<Lookup>,
    pub player: PlayerState,
}

/// The addresses in `d` other than `me`.
pub open spec fn others_of(d: Set<Entry>, me: Addr) -> Set<Addr> {
    Set::new(|a: Addr| has_addr(d, a) && a != me)
}

/// `ts` lists exactly the addresses of `s`.
pub open spec fn lists(ts: Seq<Addr>, s: Set<Addr>) -> bool {
    &&& ts.no_duplicates()
    &&& forall|a: Addr| ts.contains(a) <==> s.contains(a)
}

/// `fs` lists exactly the titles held in `f`.
pub open spec fn lists_titles(fs: Seq<Seq<char>>, f: Set<FileEntry>) -> bool {
    forall|t: Seq<char>| fs.contains(t) <==> holds_title(f, t)
}

/// A peer that may receive the redundant copy of a file pushed from `origin`.
pub open spec fn is_candidate(m: PeerModel, origin: Addr, a: Addr) -> bool {
    has_addr(m.directory, a) && a != m.addr && a != origin
}

pub open spec fn send_model(target: Addr, from: Addr, content: ContentModel) -> EffectModel {
    EffectModel::Send { target, notification: NotificationModel { content, from } }
}

pub open spec fn status_changed(name: Seq<char>, status: FileStatus) -> EffectModel {
    EffectModel::FileStatusChanged { name, status }
}

/// A send of the redundant copy of `(key, value)` to a candidate.
pub open spec fn redundant_copy(m: PeerModel, key: Seq<char>, value: Seq<u8>, origin: Addr, x: EffectModel) -> bool {
    x matches EffectModel::Send { target, notification } && is_candidate(m, origin, target)
        && notification == (NotificationModel {
            content: ContentModel::RedundantPushToDB { key, value, from: origin },
            from: m.addr,
        })
}

/// Storing `value` under `key` and handing a redundant copy to one candidate, if there is one.
pub open spec fn push_spec(m: PeerModel, key: Seq<char>, value: Seq<u8>, origin: Addr, m2: PeerModel, e: Seq<EffectModel>) -> bool {
    &&& m2 == PeerModel { files: put_spec(m.files, key, value), ..m }
    &&& {
        ||| (e.len() == 2 && e[1] == status_changed(key, FileStatus::NEW)
            && redundant_copy(m, key, value, origin, e[0]))
        ||| (e == seq![status_changed(key, FileStatus::NEW)] && forall|a: Addr| !is_candidate(m, origin, a))
    }
}

/// Handing `bytes` to the sink as the track `title`, stopping what it held first.
pub open spec fn start_play_spec(m: PeerModel, title: Seq<char>, bytes: Seq<u8>, m2: PeerModel, e: Seq<EffectModel>) -> bool {
    &&& m2 == PeerModel { player: PlayerState::Playing, ..m }
    &&& e == stop_first(m.player) + seq![
        EffectModel::Sink { command: SinkModel::Play(bytes) },
        EffectModel::PlayerPlaying { title: Some(title) },
    ]
}

/// A `Stop` for the sink unless it is idle.
pub open spec fn stop_first(p: PlayerState) -> Seq<EffectModel> {
    if p == PlayerState::Idle {
        Seq::empty()
    } else {
        seq![EffectModel::Sink { command: SinkModel::Stop }]
    }
}

/// Opening a lookup for `song` and asking every other peer whether it holds it.
pub open spec fn lookup_spec(m: PeerModel, song: Seq<char>, instr: Instructions, now: u64, m2: PeerModel, e: Seq<EffectModel>) -> bool {
    &&& m2 == PeerModel {
        pending: without_song(m.pending, song).insert((song, now, m.addr, instr)),
        ..m
    }
    &&& exists|ts: Seq<Addr>| lists(ts, others_of(m.directory, m.addr))
        && e == broadcast_spec(ts, m.addr, ContentModel::ExistFile { song_name: song, id: now })
}

/// `FindFile { instr, song }`.
pub open spec fn find_spec(m: PeerModel, instr: Instructions, song: Seq<char>, now: u64, m2: PeerModel, e: Seq<EffectModel>) -> bool {
    if instr == Instructions::REMOVE {
        m2 == m && exists|ts: Seq<Addr>| lists(ts, others_of(m.directory, m.addr).insert(m.addr))
            && e == broadcast_spec(ts, m.addr, ContentModel::DeleteFileRequest { song_name: song })
    } else if holds_title(m.files, song) {
        match instr {
            Instructions::PLAY => exists|b: Seq<u8>| m.files.contains((song, b)) && start_play_spec(m, song, b, m2, e),
            Instructions::GET => m2 == m && e == seq![status_changed(song, FileStatus::DOWNLOAD)],
            _ => m2 == m && e == seq![status_changed(song, FileStatus::NEW)],
        }
    } else {
        lookup_spec(m, song, instr, now, m2, e)
    }
}

/// `PlayAudioRequest { name, state }`: the playback table.
pub open spec fn play_spec(m: PeerModel, name: Option<Seq<char>>, state: MusicState, now: u64, m2: PeerModel, e: Seq<EffectModel>) -> bool {
    match state {
        MusicState::PLAY => match name {
            Some(t) => if holds_title(m.files, t) {
                exists|b: Seq<u8>| m.files.contains((t, b)) && start_play_spec(m, t, b, m2, e)
            } else {
                &&& m2 == PeerModel {
                    player: PlayerState::Idle,
                    pending: without_song(m.pending, t).insert((t, now, m.addr, Instructions::PLAY)),
                    ..m
                }
                &&& exists|ts: Seq<Addr>| lists(ts, others_of(m.directory, m.addr))
                    && e == stop_first(m.player) + broadcast_spec(ts, m.addr, ContentModel::ExistFile { song_name: t, id: now })
            },
            None => m2 == m && e == Seq::<EffectModel>::empty(),
        },
        MusicState::PAUSE => if m.player == PlayerState::Playing {
            m2 == PeerModel { player: PlayerState::Paused, ..m } && e == seq![EffectModel::Sink { command: SinkModel::Pause }]
        } else {
            m2 == m && e == Seq::<EffectModel>::empty()
        },
        MusicState::STOP => if m.player != PlayerState::Idle {
            m2 == PeerModel { player: PlayerState::Idle, ..m }
                && e == seq![EffectModel::Sink { command: SinkModel::Stop }, EffectModel::PlayerStopped]
        } else {
            m2 == m && e == Seq::<EffectModel>::empty()
        },
        MusicState::CONTINUE => if m.player == PlayerState::Paused {
            m2 == PeerModel { player: PlayerState::Playing, ..m } && e == seq![EffectModel::Sink { command: SinkModel::Resume }]
        } else {
            m2 == m && e == Seq::<EffectModel>::empty()
        },
    }
}

/// `RequestForTable { proposed }` from `s`: admit the newcomer under a free name and tell everyone.
pub open spec fn join_spec(m: PeerModel, proposed: Seq<char>, s: Addr, m2: PeerModel, e: Seq<EffectModel>) -> bool {
    if s == m.addr {
        m2 == m && e == Seq::<EffectModel>::empty()
    } else {
        let d1 = without_addr(m.directory, s);
        exists|fresh: Seq<char>, ts: Seq<Addr>, tv: Seq<Entry>| {
            &&& is_first_free(d1, proposed, fresh)
            &&& m2 == PeerModel { directory: insert_spec(d1, fresh, s), ..m }
            &&& lists(ts, others_of(m2.directory, m.addr))
            &&& tv.to_set() == m2.directory
            &&& e == (if fresh != proposed {
                seq![send_model(s, m.addr, ContentModel::ChangePeerName { value: fresh })]
            } else {
                Seq::empty()
            }) + broadcast_spec(ts, m.addr, ContentModel::SendNetworkUpdateTable { value: tv })
        }
    }
}

/// `ExitPeer { a }`: announce our own exit, or forget the peer that left and tell the others.
pub open spec fn exit_spec(m: PeerModel, a: Addr, m2: PeerModel, e: Seq<EffectModel>) -> bool {
    if a == m.addr {
        m2 == m && exists|ts: Seq<Addr>| lists(ts, others_of(m.directory, m.addr))
            && e == broadcast_spec(ts, m.addr, ContentModel::ExitPeer { addr: a })
    } else {
        &&& m2 == PeerModel { directory: without_addr(m.directory, a), ..m }
        &&& has_addr(m.directory, a) ==> exists|n: Seq<char>, ts: Seq<Addr>| m.directory.contains((n, a))
            && lists(ts, others_of(m2.directory, m.addr))
            && e == broadcast_spec(ts, m.addr, ContentModel::DeleteFromNetwork { name: n })
        &&& !has_addr(m.directory, a) ==> e == Seq::<EffectModel>::empty()
    }
}

/// What handling one notification `n` does to the peer `m`, whose stale lookups are already gone.
pub open spec fn step_spec(m: PeerModel, n: NotificationModel, now: u64, m2: PeerModel, e: Seq<EffectModel>) -> bool {
    let s = n.from;
    match n.content {
        ContentModel::PushToDB { key, value, from } => push_spec(m, key, value, from, m2, e),
        ContentModel::RedundantPushToDB { key, value, .. } =>
            m2 == PeerModel { files: put_spec(m.files, key, value), ..m }
                && e == seq![status_changed(key, FileStatus::NEW)],
        ContentModel::ChangePeerName { value } =>
            m2 == PeerModel {
                name: value,
                directory: insert_spec(without_addr(m.directory, m.addr), value, m.addr),
                ..m
            } && e == Seq::<EffectModel>::empty(),
        ContentModel::SendNetworkTable { value } =>
            m2 == PeerModel { directory: insert_spec(merge_spec(Set::empty(), value), m.name, m.addr), ..m }
                && e == Seq::<EffectModel>::empty(),
        ContentModel::SendNetworkUpdateTable { value } =>
            m2 == PeerModel { directory: insert_spec(merge_spec(m.directory, value), m.name, m.addr), ..m }
                && e == Seq::<EffectModel>::empty(),
        ContentModel::RequestForTable { value } => join_spec(m, value, s, m2, e),
        ContentModel::FindFile { instr, song_name } => find_spec(m, instr, song_name, now, m2, e),
        ContentModel::OrderSongRequest { song_name } => find_spec(m, Instructions::ORDER, song_name, now, m2, e),
        ContentModel::ExistFile { song_name, id } => m2 == m && e == if holds_title(m.files, song_name) {
            seq![send_model(s, m.addr, ContentModel::ExistFileResponse { song_name, id })]
        } else {
            Seq::empty()
        },
        ContentModel::ExistFileResponse { song_name, .. } => if awaits(m.pending, song_name) {
            exists|p: Lookup| m.pending.contains(p) && p.0 == song_name
                && m2 == PeerModel { pending: without_song(m.pending, song_name), ..m }
                && e == seq![send_model(s, m.addr, ContentModel::GetFile { instr: p.3, key: song_name })]
        } else {
            m2 == m && e == Seq::<EffectModel>::empty()
        },
        ContentModel::GetFile { instr, key } => m2 == m && if holds_title(m.files, key) {
            exists|b: Seq<u8>| m.files.contains((key, b))
                && e == seq![send_model(s, m.addr, ContentModel::GetFileResponse { instr, key, value: b })]
        } else {
            e == Seq::<EffectModel>::empty()
        },
        ContentModel::GetFileResponse { instr, key, value } => match instr {
            Instructions::PLAY => start_play_spec(m, key, value, m2, e),
            Instructions::GET => m2 == PeerModel { files: put_spec(m.files, key, value), ..m }
                && e == seq![status_changed(key, FileStatus::DOWNLOAD)],
            Instructions::ORDER => push_spec(m, key, value, m.addr, m2, e),
            Instructions::REMOVE => m2 == m && e == Seq::<EffectModel>::empty(),
        },
        ContentModel::DeleteFileRequest { song_name } =>
            m2 == PeerModel { files: without_title(m.files, song_name), ..m }
                && e == seq![status_changed(song_name, FileStatus::DELETE)],
        ContentModel::ExitPeer { addr } => exit_spec(m, addr, m2, e),
        ContentModel::DeleteFromNetwork { name } => e == Seq::<EffectModel>::empty() && if name == m.name {
            m2 == m
        } else {
            m2 == PeerModel { directory: without_name(m.directory, name), ..m }
        },
        ContentModel::DroppedPeer { addr } => e == Seq::<EffectModel>::empty() && if addr == m.addr {
            m2 == m
        } else {
            m2 == PeerModel { directory: without_addr(m.directory, addr), ..m }
        },
        ContentModel::StatusRequest => m2 == m && exists|fs: Seq<Seq<char>>| lists_titles(fs, m.files)
            && e == seq![send_model(s, m.addr, ContentModel::StatusResponse { files: fs, name: m.name })],
        ContentModel::SelfStatusRequest => m2 == m && exists|fs: Seq<Seq<char>>| lists_titles(fs, m.files)
            && e == seq![EffectModel::NotifyStatus { files: fs, name: m.name }],
        ContentModel::StatusResponse { files, name } => m2 == m && e == seq![EffectModel::NotifyStatus { files, name }],
        ContentModel::PlayAudioRequest { name, state } => play_spec(m, name, state, now, m2, e),
        ContentModel::Heartbeat => m2 == m && e == Seq::<EffectModel>::empty(),
    }
}

/// One `LookupFailed` upcall for each lookup of `ls`, in order.
pub open spec fn failed_spec(ls: Seq<Lookup>) -> Seq<EffectModel> {
    ls.map_values(|l: Lookup| EffectModel::LookupFailed { title: l.0, instr: l.3 })
}

/// `m` with the lookups older than the timeout at `now` dropped.
pub open spec fn swept(m: PeerModel, now: u64) -> PeerModel {
    PeerModel { pending: fresh_only(m.pending, now, LOOKUP_TIMEOUT_MS), ..m }
}

/// Relies on rand's `thread_rng().gen_range(low, high)`: a value in `[low, high)`; it panics
/// when `low >= high`, which `requires` rules out.
#[verifier::external_body]
fn random_below(n: usize) -> (r: usize)
    requires
        n > 0,
    ensures
        r < n,
{
    rand::thread_rng().gen_range(0, n)
}

/// One peer: its identity, directory, file store, open lookups and player.
pub struct Peer {
    pub name: String,
    pub ip_address: Addr,
    pub network_table: Directory,
    pub files: FileStore,
    pub pending: PendingTable,
    pub player: PlayerState,
}

impl Peer {
    pub open spec fn model(&self) -> PeerModel {
        PeerModel {
            name: self.name@,
            addr: self.ip_address,
            directory: self.network_table@,
            files: self.files@,
            pending: self.pending@,
            player: self.player,
        }
    }

    /// The tables are well formed and the peer is listed under its own name and address.
    pub open spec fn wf(&self) -> bool {
        &&& self.network_table.wf()
        &&& self.files.wf()
        &&& self.pending.wf()
        &&& self.network_table@.contains((self.name@, self.ip_address))
    }

    /// A peer alone in its network.
    pub fn new(name: String, ip_address: Addr) -> (p: Peer)
        ensures
            p.wf(),
            p.model() == (PeerModel {
                name: name@,
                addr: ip_address,
                directory: set![(name@, ip_address)],
                files: Set::empty(),
                pending: Set::empty(),
                player: PlayerState::Idle,
            }),
    {
        let network_table = Directory::new(name.clone(), ip_address);
        Peer {
            name,
            ip_address,
            network_table,
            files: FileStore::new(),
            pending: PendingTable::new(),
            player: PlayerState::Idle,
        }
    }

    /// Picks one peer, other than this one and `origin`, uniformly at random; `None` when
    /// there is none.
    pub fn other_random_target(&self, origin: Addr) -> (r: Option<Addr>)
        requires
            self.wf(),
        ensures
            match r {
                Some(a) => is_candidate(self.model(), origin, a),
                None => forall|a: Addr| !is_candidate(self.model(), origin, a),
            },
    {
        let all = self.network_table.others(self.ip_address);
        let mut candidates: Vec<Addr> = Vec::new();
        let mut i: usize = 0;
        while i < all.len()
            invariant
                i <= all@.len(),
                forall|a: Addr| candidates@.contains(a) <==> a != origin && exists|k: int| 0 <= k < i && all@[k] == a,
            decreases all@.len() - i,
        {
            let ghost before = candidates@;
            if all[i] != origin {
                candidates.push(all[i]);
                assert forall|a: Addr| candidates@.contains(a) <==> before.contains(a) || a == all@[i as int] by {
                    if before.contains(a) {
                        let j = choose|j: int| 0 <= j < before.len() && before[j] == a;
                        assert(candidates@[j] == a);
                    }
                    if candidates@.contains(a) && a != all@[i as int] {
                        let j = choose|j: int| 0 <= j < candidates@.len() && candidates@[j] == a;
                        assert(before[j] == a);
                    }
                    if a == all@[i as int] {
                        assert(candidates@[candidates@.len() - 1] == a);
                    }
                }
            }
            assert forall|a: Addr| candidates@.contains(a) <==> a != origin && exists|k: int| 0 <= k < i + 1 && all@[k] == a by {
                if a != origin && exists|k: int| 0 <= k < i + 1 && all@[k] == a {
                    let k = choose|k: int| 0 <= k < i + 1 && all@[k] == a;
                    if k < i {
                        assert(before.contains(a));
                    }
                }
                if before.contains(a) {
                    let k = choose|k: int| 0 <= k < i && all@[k] == a;
                    assert(0 <= k < i + 1 && all@[k] == a);
                }
            }
            i = i + 1;
        }
        assert forall|a: Addr| candidates@.contains(a) <==> is_candidate(self.model(), origin, a) by {
            if all@.contains(a) {
                let k = choose|k: int| 0 <= k < all@.len() && all@[k] == a;
                assert(exists|k: int| 0 <= k < i && all@[k] == a);
            }
        }
        if candidates.len() == 0 {
            assert forall|a: Addr| !is_candidate(self.model(), origin, a) by {
                if candidates@.contains(a) {
                    let j = choose|j: int| 0 <= j < candidates@.len() && candidates@[j] == a;
                }
            }
            None
        } else {
            let k = random_below(candidates.len());
            assert(candidates@.contains(candidates@[k as int]));
            Some(candidates[k])
        }
    }
}

/// After the connection to `a` failed: forget `a` and tell the remaining peers.
pub open spec fn lost_spec(m: PeerModel, a: Addr, m2: PeerModel, e: Seq<EffectModel>) -> bool {
    if a == m.addr {
        m2 == m && e == Seq::<EffectModel>::empty()
    } else {
        &&& m2 == PeerModel { directory: without_addr(m.directory, a), ..m }
        &&& exists|ts: Seq<Addr>| lists(ts, others_of(m2.directory, m.addr))
            && e == broadcast_spec(ts, m.addr, ContentModel::DroppedPeer { addr: a })
    }
}

impl Peer {
    fn file_titles(&self) -> (r: Vec<String>)
        ensures
            lists_titles(strings_view(r@), self.files@),
    {
        let r = self.files.titles();
        assert forall|t: Seq<char>| strings_view(r@).contains(t) <==> holds_title(self.files@, t) by {
            if strings_view(r@).contains(t) {
                let k = choose|k: int| 0 <= k < strings_view(r@).len() && strings_view(r@)[k] == t;
                assert(r@[k]@ == t);
            }
            if holds_title(self.files@, t) {
                let k = choose|k: int| 0 <= k < r@.len() && #[trigger] r@[k]@ == t;
                assert(strings_view(r@)[k] == t);
            }
        }
        r
    }

    fn push_file(&mut self, key: String, value: Vec<u8>, origin: Addr) -> (r: Vec<Effect>)
        requires
            old(self).wf(),
        ensures
            final(self).wf(),
            push_spec(old(self).model(), key@, value@, origin, final(self).model(), effects_view(r@)),
    {
        let ghost m = self.model();
        let target = self.other_random_target(origin);
        let mut effects: Vec<Effect> = Vec::new();
        if let Some(t) = target {
            let c = Content::RedundantPushToDB { key: key.clone(), value: copy_bytes(&value), from: origin };
            effects.push(Effect::Send { target: t, notification: Notification { content: c, from: self.ip_address } });
        }
        effects.push(Effect::FileStatusChanged { name: key.clone(), status: FileStatus::NEW });
        self.files.put(key, value);
        if target.is_some() {
            assert(redundant_copy(m, key@, value@, origin, effects_view(effects@)[0]));
        } else {
            assert(effects_view(effects@) =~= seq![status_changed(key@, FileStatus::NEW)]);
        }
        effects
    }

    fn start_play(&mut self, title: String, bytes: Vec<u8>) -> (r: Vec<Effect>)
        requires
            old(self).wf(),
        ensures
            final(self).wf(),
            start_play_spec(old(self).model(), title@, bytes@, final(self).model(), effects_view(r@)),
    {
        let mut effects: Vec<Effect> = Vec::new();
        if self.player != PlayerState::Idle {
            effects.push(Effect::Sink { command: SinkCommand::Stop });
        }
        let ghost t = title@;
        let ghost b = bytes@;
        effects.push(Effect::Sink { command: SinkCommand::Play(bytes) });
        effects.push(Effect::PlayerPlaying { title: Some(title) });
        self.player = PlayerState::Playing;
        assert(effects_view(effects@) =~= stop_first(old(self).player) + seq![
            EffectModel::Sink { command: SinkModel::Play(b) },
            EffectModel::PlayerPlaying { title: Some(t) },
        ]);
        effects
    }

    fn lookup(&mut self, song: String, instr: Instructions, now: u64, effects: &mut Vec<Effect>)
        requires
            old(self).wf(),
        ensures
            final(self).wf(),
            final(self).model() == (PeerModel {
                pending: without_song(old(self).model().pending, song@).insert((song@, now, old(self).ip_address, instr)),
                ..old(self).model()
            }),
            exists|ts: Seq<Addr>| lists(ts, others_of(old(self).network_table@, old(self).ip_address))
                && effects_view(final(effects)@) == effects_view(old(effects)@)
                    + broadcast_spec(ts, old(self).ip_address, ContentModel::ExistFile { song_name: song@, id: now }),
    {
        let ts = self.network_table.others(self.ip_address);
        let c = Content::ExistFile { song_name: song.clone(), id: now };
        broadcast(effects, &ts, self.ip_address, &c);
        self.pending.record(song, now, self.ip_address, instr);
        assert(lists(ts@, others_of(old(self).network_table@, old(self).ip_address)));
    }

    fn find(&mut self, instr: Instructions, song: String, now: u64) -> (r: Vec<Effect>)
        requires
            old(self).wf(),
        ensures
            final(self).wf(),
            find_spec(old(self).model(), instr, song@, now, final(self).model(), effects_view(r@)),
    {
        let ghost m = self.model();
        let mut effects: Vec<Effect> = Vec::new();
        if instr == Instructions::REMOVE {
            let mut ts = self.network_table.others(self.ip_address);
            let ghost before = ts@;
            ts.push(self.ip_address);
            assert(ts@.drop_last() =~= before);
            assert(!before.contains(m.addr));
            assert forall|x: int, y: int| 0 <= x < ts@.len() && 0 <= y < ts@.len() && x != y implies ts@[x] != ts@[y] by {
                if x < before.len() && y < before.len() {
                    assert(ts@[x] == before[x] && ts@[y] == before[y]);
                } else if x < before.len() {
                    assert(ts@[x] == before[x]);
                    assert(before.contains(ts@[x]));
                } else {
                    assert(ts@[y] == before[y]);
                    assert(before.contains(ts@[y]));
                }
            }
            let c = Content::DeleteFileRequest { song_name: song };
            broadcast(&mut effects, &ts, self.ip_address, &c);
            assert(effects_view(effects@) =~= broadcast_spec(ts@, m.addr, c@));
            assert forall|a: Addr| ts@.contains(a) <==> others_of(m.directory, m.addr).insert(m.addr).contains(a) by {
                if ts@.contains(a) && a != m.addr {
                    let j = choose|j: int| 0 <= j < ts@.len() && ts@[j] == a;
                    assert(ts@.drop_last()[j] == a);
                }
                if others_of(m.directory, m.addr).contains(a) {
                    assert(before.contains(a));
                    let j = choose|j: int| 0 <= j < before.len() && before[j] == a;
                    assert(ts@[j] == a);
                }
                if a == m.addr {
                    assert(ts@[ts@.len() - 1] == a);
                }
            }
            return effects;
        }
        match self.files.get(&song) {
            Some(b) => {
                if instr == Instructions::PLAY {
                    return self.start_play(song, b);
                }
                let status = if instr == Instructions::GET { FileStatus::DOWNLOAD } else { FileStatus::NEW };
                effects.push(Effect::FileStatusChanged { name: song, status });
                assert(effects_view(effects@) =~= seq![status_changed(song@, status)]);
                effects
            },
            None => {
                self.lookup(song, instr, now, &mut effects);
                assert(effects_view(effects@) =~= Seq::<EffectModel>::empty() + effects_view(effects@));
                effects
            },
        }
    }

    fn play_request(&mut self, name: Option<String>, state: MusicState, now: u64) -> (r: Vec<Effect>)
        requires
            old(self).wf(),
        ensures
            final(self).wf(),
            play_spec(old(self).model(), opt_string_view(name), state, now, final(self).model(), effects_view(r@)),
    {
        let mut effects: Vec<Effect> = Vec::new();
        match state {
            MusicState::PLAY => {
                if let Some(t) = name {
                    match self.files.get(&t) {
                        Some(b) => {
                            return self.start_play(t, b);
                        },
                        None => {
                            if self.player != PlayerState::Idle {
                                effects.push(Effect::Sink { command: SinkCommand::Stop });
                            }
                            assert(effects_view(effects@) =~= stop_first(old(self).player));
                            self.player = PlayerState::Idle;
                            self.lookup(t, Instructions::PLAY, now, &mut effects);
                        },
                    }
                } else {
                    assert(effects_view(effects@) =~= Seq::<EffectModel>::empty());
                }
            },
            MusicState::PAUSE => {
                if self.player == PlayerState::Playing {
                    self.player = PlayerState::Paused;
                    effects.push(Effect::Sink { command: SinkCommand::Pause });
                    assert(effects_view(effects@) =~= seq![EffectModel::Sink { command: SinkModel::Pause }]);
                } else {
                    assert(effects_view(effects@) =~= Seq::<EffectModel>::empty());
                }
            },
            MusicState::STOP => {
                if self.player != PlayerState::Idle {
                    self.player = PlayerState::Idle;
                    effects.push(Effect::Sink { command: SinkCommand::Stop });
                    effects.push(Effect::PlayerStopped);
                    assert(effects_view(effects@) =~= seq![
                        EffectModel::Sink { command: SinkModel::Stop },
                        EffectModel::PlayerStopped,
                    ]);
                } else {
                    assert(effects_view(effects@) =~= Seq::<EffectModel>::empty());
                }
            },
            MusicState::CONTINUE => {
                if self.player == PlayerState::Paused {
                    self.player = PlayerState::Playing;
                    effects.push(Effect::Sink { command: SinkCommand::Resume });
                    assert(effects_view(effects@) =~= seq![EffectModel::Sink { command: SinkModel::Resume }]);
                } else {
                    assert(effects_view(effects@) =~= Seq::<EffectModel>::empty());
                }
            },
        }
        effects
    }
}

impl Peer {
    fn join(&mut self, proposed: String, s: Addr) -> (r: Vec<Effect>)
        requires
            old(self).wf(),
        ensures
            final(self).wf(),
            join_spec(old(self).model(), proposed@, s, final(self).model(), effects_view(r@)),
    {
        let mut effects: Vec<Effect> = Vec::new();
        if s == self.ip_address {
            assert(effects_view(effects@) =~= Seq::<EffectModel>::empty());
            return effects;
        }
        let ghost m = self.model();
        self.network_table.remove_addr(s);
        let ghost d1 = self.network_table@;
        assert(d1.contains((m.name, m.addr)));
        let fresh = self.network_table.fresh_name(&proposed);
        let changed = !(fresh == proposed);
        if changed {
            effects.push(Effect::Send {
                target: s,
                notification: Notification {
                    content: Content::ChangePeerName { value: fresh.clone() },
                    from: self.ip_address,
                },
            });
        }
        let ghost first = effects_view(effects@);
        assert(first =~= if fresh@ != proposed@ {
            seq![send_model(s, m.addr, ContentModel::ChangePeerName { value: fresh@ })]
        } else {
            Seq::<EffectModel>::empty()
        });
        let ghost f = fresh@;
        self.network_table.insert(fresh, s);
        let table = self.network_table.members();
        let ts = self.network_table.others(self.ip_address);
        let c = Content::SendNetworkUpdateTable { value: table };
        broadcast(&mut effects, &ts, self.ip_address, &c);
        assert(lists(ts@, others_of(self.network_table@, m.addr)));
        assert(self.model() == PeerModel { directory: insert_spec(d1, f, s), ..m });
        effects
    }

    fn exit(&mut self, a: Addr) -> (r: Vec<Effect>)
        requires
            old(self).wf(),
        ensures
            final(self).wf(),
            exit_spec(old(self).model(), a, final(self).model(), effects_view(r@)),
    {
        let mut effects: Vec<Effect> = Vec::new();
        let ghost m = self.model();
        if a == self.ip_address {
            let ts = self.network_table.others(self.ip_address);
            broadcast(&mut effects, &ts, self.ip_address, &Content::ExitPeer { addr: a });
            assert(lists(ts@, others_of(m.directory, m.addr)));
            assert(effects_view(effects@) =~= broadcast_spec(ts@, m.addr, ContentModel::ExitPeer { addr: a }));
            return effects;
        }
        let n = self.network_table.name_of(a);
        self.network_table.remove_addr(a);
        match n {
            Some(n) => {
                let ts = self.network_table.others(self.ip_address);
                let ghost nv = n@;
                broadcast(&mut effects, &ts, self.ip_address, &Content::DeleteFromNetwork { name: n });
                assert(lists(ts@, others_of(self.network_table@, m.addr)));
                assert(effects_view(effects@) =~= broadcast_spec(ts@, m.addr, ContentModel::DeleteFromNetwork { name: nv }));
            },
            None => {
                assert(effects_view(effects@) =~= Seq::<EffectModel>::empty());
            },
        }
        effects
    }

    /// Called when a connection to `addr` could not be made: `addr` is taken to be gone,
    /// is removed, and every remaining peer is sent `DroppedPeer { addr }`.
    pub fn handle_lost_connection(&mut self, addr: Addr) -> (r: Vec<Effect>)
        requires
            old(self).wf(),
        ensures
            final(self).wf(),
            lost_spec(old(self).model(), addr, final(self).model(), effects_view(r@)),
    {
        let mut effects: Vec<Effect> = Vec::new();
        let ghost m = self.model();
        if addr == self.ip_address {
            assert(effects_view(effects@) =~= Seq::<EffectModel>::empty());
            return effects;
        }
        self.network_table.remove_addr(addr);
        let ts = self.network_table.others(self.ip_address);
        broadcast(&mut effects, &ts, self.ip_address, &Content::DroppedPeer { addr });
        assert(lists(ts@, others_of(self.network_table@, m.addr)));
        assert(effects_view(effects@) =~= broadcast_spec(ts@, m.addr, ContentModel::DroppedPeer { addr }));
        effects
    }

    /// Applies one notification: first drops the lookups that waited too long at `now` and
    /// reports each of them as failed, then acts on the notification. Returns what is to be
    /// sent, upcalled and played.
    pub fn handle_notification(&mut self, n: Notification, now: u64) -> (r: Vec<Effect>)
        requires
            old(self).wf(),
        ensures
            final(self).wf(),
            exists|ls: Seq<Lookup>, rest: Seq<EffectModel>| {
                &&& ls.no_duplicates()
                &&& ls.to_set() == expired(old(self).pending@, now, LOOKUP_TIMEOUT_MS)
                &&& effects_view(r@) == failed_spec(ls) + rest
                &&& step_spec(swept(old(self).model(), now), n@, now, final(self).model(), rest)
            },
    {
        let dropped = self.pending.sweep(now, LOOKUP_TIMEOUT_MS);
        let mut effects: Vec<Effect> = Vec::new();
        let mut i: usize = 0;
        while i < dropped.len()
            invariant
                i <= dropped@.len(),
                effects@.len() == i,
                forall|k: int| 0 <= k < i ==> #[trigger] effects@[k]@
                    == (EffectModel::LookupFailed { title: dropped@[k].song@, instr: dropped@[k].instr }),
            decreases dropped@.len() - i,
        {
            effects.push(Effect::LookupFailed { title: dropped[i].song.clone(), instr: dropped[i].instr });
            i = i + 1;
        }
        let ghost ls = lookups_seq(dropped@);
        assert(effects_view(effects@) =~= failed_spec(ls));
        assert(self.model() == swept(old(self).model(), now));
        let mut rest = self.dispatch(n, now);
        let ghost rv = effects_view(rest@);
        let ghost before = effects@;
        effects.append(&mut rest);
        assert(effects_view(effects@) =~= effects_view(before) + rv);
        effects
    }

    fn dispatch(&mut self, n: Notification, now: u64) -> (r: Vec<Effect>)
        requires
            old(self).wf(),
        ensures
            final(self).wf(),
            step_spec(old(self).model(), n@, now, final(self).model(), effects_view(r@)),
    {
        let ghost m = self.model();
        let ghost nv = n@;
        let s = n.from;
        let me = self.ip_address;
        let mut effects: Vec<Effect> = Vec::new();
        match n.content {
            Content::PushToDB { key, value, from } => {
                return self.push_file(key, value, from);
            },
            Content::RedundantPushToDB { key, value, .. } => {
                effects.push(Effect::FileStatusChanged { name: key.clone(), status: FileStatus::NEW });
                assert(effects_view(effects@) =~= seq![status_changed(key@, FileStatus::NEW)]);
                self.files.put(key, value);
            },
            Content::ChangePeerName { value } => {
                self.network_table.remove_addr(me);
                self.network_table.insert(value.clone(), me);
                self.name = value;
                assert(effects_view(effects@) =~= Seq::<EffectModel>::empty());
            },
            Content::SendNetworkTable { value } => {
                let mut d = Directory::empty();
                d.merge(&value);
                d.insert(self.name.clone(), me);
                self.network_table = d;
                assert(effects_view(effects@) =~= Seq::<EffectModel>::empty());
            },
            Content::SendNetworkUpdateTable { value } => {
                self.network_table.merge(&value);
                self.network_table.insert(self.name.clone(), me);
                assert(effects_view(effects@) =~= Seq::<EffectModel>::empty());
            },
            Content::RequestForTable { value } => {
                return self.join(value, s);
            },
            Content::FindFile { instr, song_name } => {
                return self.find(instr, song_name, now);
            },
            Content::OrderSongRequest { song_name } => {
                return self.find(Instructions::ORDER, song_name, now);
            },
            Content::ExistFile { song_name, id } => {
                let ghost sv = song_name@;
                if self.files.contains(&song_name) {
                    let c = Content::ExistFileResponse { song_name, id };
                    effects.push(Effect::Send { target: s, notification: Notification { content: c, from: me } });
                }
                assert(effects_view(effects@) =~= if holds_title(m.files, sv) {
                    seq![send_model(s, me, ContentModel::ExistFileResponse { song_name: sv, id })]
                } else {
                    Seq::<EffectModel>::empty()
                });
            },
            Content::ExistFileResponse { song_name, .. } => {
                match self.pending.take(&song_name) {
                    Some(p) => {
                        let c = Content::GetFile { instr: p.instr, key: song_name };
                        effects.push(Effect::Send { target: s, notification: Notification { content: c, from: me } });
                        assert(effects_view(effects@) =~= seq![send_model(s, me, ContentModel::GetFile { instr: p.model().3, key: p.song@ })]);
                        assert(m.pending.contains(p.model()));
                    },
                    None => {
                        assert(self.pending@ =~= m.pending);
                        assert(effects_view(effects@) =~= Seq::<EffectModel>::empty());
                    },
                }
            },
            Content::GetFile { instr, key } => {
                match self.files.get(&key) {
                    Some(b) => {
                        let ghost bv = b@;
                        let ghost kv = key@;
                        let c = Content::GetFileResponse { instr, key, value: b };
                        effects.push(Effect::Send { target: s, notification: Notification { content: c, from: me } });
                        assert(effects_view(effects@) =~= seq![send_model(s, me, ContentModel::GetFileResponse { instr, key: kv, value: bv })]);
                    },
                    None => {
                        assert(effects_view(effects@) =~= Seq::<EffectModel>::empty());
                    },
                }
            },
            Content::GetFileResponse { instr, key, value } => {
                match instr {
                    Instructions::PLAY => {
                        return self.start_play(key, value);
                    },
                    Instructions::GET => {
                        effects.push(Effect::FileStatusChanged { name: key.clone(), status: FileStatus::DOWNLOAD });
                        assert(effects_view(effects@) =~= seq![status_changed(key@, FileStatus::DOWNLOAD)]);
                        self.files.put(key, value);
                    },
                    Instructions::ORDER => {
                        return self.push_file(key, value, me);
                    },
                    Instructions::REMOVE => {
                        assert(effects_view(effects@) =~= Seq::<EffectModel>::empty());
                    },
                }
            },
            Content::DeleteFileRequest { song_name } => {
                let ghost sv = song_name@;
                self.files.remove(&song_name);
                effects.push(Effect::FileStatusChanged { name: song_name, status: FileStatus::DELETE });
                assert(effects_view(effects@) =~= seq![status_changed(sv, FileStatus::DELETE)]);
            },
            Content::ExitPeer { addr } => {
                return self.exit(addr);
            },
            Content::DeleteFromNetwork { name } => {
                if !(name == self.name) {
                    self.network_table.remove_name(&name);
                }
                assert(effects_view(effects@) =~= Seq::<EffectModel>::empty());
            },
            Content::DroppedPeer { addr } => {
                if addr != me {
                    self.network_table.remove_addr(addr);
                }
                assert(effects_view(effects@) =~= Seq::<EffectModel>::empty());
            },
            Content::StatusRequest => {
                let fs = self.file_titles();
                let ghost fv = strings_view(fs@);
                let c = Content::StatusResponse { files: fs, name: self.name.clone() };
                effects.push(Effect::Send { target: s, notification: Notification { content: c, from: me } });
                assert(effects_view(effects@) =~= seq![send_model(s, me, ContentModel::StatusResponse { files: fv, name: m.name })]);
            },
            Content::SelfStatusRequest => {
                let fs = self.file_titles();
                let ghost fv = strings_view(fs@);
                effects.push(Effect::NotifyStatus { files: fs, name: self.name.clone() });
                assert(effects_view(effects@) =~= seq![EffectModel::NotifyStatus { files: fv, name: m.name }]);
            },
            Content::StatusResponse { files, name } => {
                let ghost fv = strings_view(files@);
                let ghost nmv = name@;
                effects.push(Effect::NotifyStatus { files, name });
                assert(effects_view(effects@) =~= seq![EffectModel::NotifyStatus { files: fv, name: nmv }]);
            },
            Content::PlayAudioRequest { name, state } => {
                return self.play_request(name, state, now);
            },
            Content::Heartbeat => {
                assert(effects_view(effects@) =~= Seq::<EffectModel>::empty());
            },
        }
        effects
    }
}

/// The number of successors a peer sends heartbeats to in a large network.
pub const HEARTBEAT_SUCCESSORS: usize = 2;

/// `a` is the entry of `d` nearest to `me` going forward in the ring, leaving out `me` and `skip`.
pub open spec fn is_ring_next(d: Set<Entry>, me: Addr, skip: Option<Addr>, a: Addr) -> bool {
    &&& has_addr(d, a)
    &&& a != me
    &&& skip != Some(a)
    &&& forall|b: Addr| has_addr(d, b) && b != me && skip != Some(b) ==> ring_dist(me, a) <= ring_dist(me, b)
}

impl Peer {
    /// Whom to send a heartbeat this period: every other peer in a network of at most
    /// `FULL_HEARTBEAT_LIMIT` peers, else only the successors of this peer in address order.
    pub fn heartbeat_targets(&self) -> (r: Vec<Addr>)
        requires
            self.wf(),
        ensures
            self.network_table.size() <= FULL_HEARTBEAT_LIMIT ==> lists(r@, others_of(self.network_table@, self.ip_address)),
            self.network_table.size() > FULL_HEARTBEAT_LIMIT ==> {
                &&& r@.len() <= HEARTBEAT_SUCCESSORS
                &&& r@.len() >= 1 ==> is_ring_next(self.network_table@, self.ip_address, None, r@[0])
                &&& r@.len() >= 2 ==> is_ring_next(self.network_table@, self.ip_address, Some(r@[0]), r@[1])
                &&& r@.len() == 0 ==> others_of(self.network_table@, self.ip_address) == Set::<Addr>::empty()
                &&& r@.len() == 1 ==> others_of(self.network_table@, self.ip_address) == set![r@[0]]
            },
    {
        if self.network_table.len() <= FULL_HEARTBEAT_LIMIT {
            let r = self.network_table.others(self.ip_address);
            assert(lists(r@, others_of(self.network_table@, self.ip_address)));
            return r;
        }
        let mut r: Vec<Addr> = Vec::new();
        match self.network_table.nearest(self.ip_address, None) {
            Some(first) => {
                r.push(first);
                match self.network_table.nearest(self.ip_address, Some(first)) {
                    Some(second) => {
                        r.push(second);
                    },
                    None => {
                        assert(others_of(self.network_table@, self.ip_address) =~= set![first]);
                    },
                }
            },
            None => {
                assert(others_of(self.network_table@, self.ip_address) =~= Set::<Addr>::empty());
            },
        }
        r
    }
}

} // verus!
