use vstd::prelude::*;
use crate::types::{Addr, Instructions};
use crate::directory::{has_addr, has_name, insert_spec, merge_spec, unique_addrs, unique_names, without_addr, without_name, Entry};
use crate::store::{holds_title, without_title};
use crate::pending::{awaits, without_song};
use crate::message::{ContentModel, EffectModel, NotificationModel};
use crate::peer::{is_candidate, push_spec, send_model, step_spec, swept, PeerModel, LOOKUP_TIMEOUT_MS};

verus! {

/// No two entries of the table share a name or an address.
pub open spec fn distinct_entries(t: Seq<Entry>) -> bool {
    forall|i: int, j: int| 0 <= i < t.len() && 0 <= j < t.len() && i != j ==> t[i].0 != t[j].0 && t[i].1 != t[j].1
}

/// Every name of `d` also occurs in the table `t`.
pub open spec fn names_covered(d: Set<Entry>, t: Seq<Entry>) -> bool {
    forall|e: Entry| d.contains(e) ==> exists|i: int| 0 <= i < t.len() && t[i].0 == e.0
}

/// Setting `x` displaces `e`: they share the name or the address.
pub open spec fn clash(x: Entry, e: Entry) -> bool {
    x.0 == e.0 || x.1 == e.1
}

proof fn lemma_merge_contains(d: Set<Entry>, t: Seq<Entry>, e: Entry)
    ensures
        merge_spec(d, t).contains(e) <==> (d.contains(e) && forall|i: int| 0 <= i < t.len() ==> !clash(t[i], e))
            || (exists|i: int| 0 <= i < t.len() && t[i] == e && forall|j: int| i < j < t.len() ==> !clash(t[j], e)),
    decreases t.len(),
{
    if t.len() > 0 {
        let p = t.drop_last();
        let l = t.last();
        lemma_merge_contains(d, p, e);
        if e == l {
            assert(0 <= t.len() - 1 < t.len() && t[t.len() - 1] == e);
        } else if clash(l, e) {
            assert(!merge_spec(d, t).contains(e));
            if exists|i: int| 0 <= i < t.len() && t[i] == e && forall|j: int| i < j < t.len() ==> !clash(t[j], e) {
                let i = choose|i: int| 0 <= i < t.len() && t[i] == e && forall|j: int| i < j < t.len() ==> !clash(t[j], e);
                assert(i != t.len() - 1);
                assert(!clash(t[t.len() - 1], e));
            }
            assert(!(forall|i: int| 0 <= i < t.len() ==> !clash(t[i], e)) || !d.contains(e)) by {
                assert(clash(t[t.len() - 1], e));
            }
        } else {
            if merge_spec(d, t).contains(e) {
                assert(merge_spec(d, p).contains(e));
                if exists|i: int| 0 <= i < p.len() && p[i] == e && forall|j: int| i < j < p.len() ==> !clash(p[j], e) {
                    let i = choose|i: int| 0 <= i < p.len() && p[i] == e && forall|j: int| i < j < p.len() ==> !clash(p[j], e);
                    assert(t[i] == e);
                    assert forall|j: int| i < j < t.len() implies !clash(t[j], e) by {
                        if j < p.len() {
                            assert(t[j] == p[j]);
                        }
                    }
                } else {
                    assert forall|i: int| 0 <= i < t.len() implies !clash(t[i], e) by {
                        if i < p.len() {
                            assert(t[i] == p[i]);
                        }
                    }
                }
            }
            if d.contains(e) && forall|i: int| 0 <= i < t.len() ==> !clash(t[i], e) {
                assert forall|i: int| 0 <= i < p.len() implies !clash(p[i], e) by {
                    assert(t[i] == p[i]);
                }
            }
            if exists|i: int| 0 <= i < t.len() && t[i] == e && forall|j: int| i < j < t.len() ==> !clash(t[j], e) {
                let i = choose|i: int| 0 <= i < t.len() && t[i] == e && forall|j: int| i < j < t.len() ==> !clash(t[j], e);
                assert(i < p.len());
                assert(p[i] == e);
                assert forall|j: int| i < j < p.len() implies !clash(p[j], e) by {
                    assert(t[j] == p[j]);
                }
            }
        }
    }
}

/// Every peer adopts the full table that a membership change broadcasts. Two peers whose
/// directories name no member that the table lacks, and who are both listed in it, end with
/// identical directories: the table itself.
pub proof fn lemma_directories_converge(d1: Set<Entry>, d2: Set<Entry>, t: Seq<Entry>, me1: Entry, me2: Entry)
    requires
        distinct_entries(t),
        names_covered(d1, t),
        names_covered(d2, t),
        t.contains(me1),
        t.contains(me2),
    ensures
        insert_spec(merge_spec(d1, t), me1.0, me1.1) == t.to_set(),
        insert_spec(merge_spec(d2, t), me2.0, me2.1) == t.to_set(),
{
    lemma_adopt_table(d1, t, me1);
    lemma_adopt_table(d2, t, me2);
}

proof fn lemma_adopt_table(d: Set<Entry>, t: Seq<Entry>, me: Entry)
    requires
        distinct_entries(t),
        names_covered(d, t),
        t.contains(me),
    ensures
        insert_spec(merge_spec(d, t), me.0, me.1) == t.to_set(),
{
    assert forall|e: Entry| merge_spec(d, t).contains(e) <==> t.contains(e) by {
        lemma_merge_contains(d, t, e);
        if t.contains(e) {
            let i = choose|i: int| 0 <= i < t.len() && t[i] == e;
            assert forall|j: int| i < j < t.len() implies !clash(t[j], e) by {}
        }
        if d.contains(e) && forall|i: int| 0 <= i < t.len() ==> !clash(t[i], e) {
            let i = choose|i: int| 0 <= i < t.len() && t[i].0 == e.0;
            assert(clash(t[i], e));
        }
    }
    assert forall|e: Entry| insert_spec(merge_spec(d, t), me.0, me.1).contains(e) <==> t.to_set().contains(e) by {
        if t.contains(e) && clash(me, e) {
            let i = choose|i: int| 0 <= i < t.len() && t[i] == e;
            let k = choose|k: int| 0 <= k < t.len() && t[k] == me;
            assert(i == k);
        }
    }
    assert(insert_spec(merge_spec(d, t), me.0, me.1) =~= t.to_set());
}

/// A survivor that removes a departed peer by its address (`ExitPeer`, `DroppedPeer`) and one
/// that removes it by its name (`DeleteFromNetwork`) end with the same directory.
pub proof fn lemma_exit_paths_agree(d: Set<Entry>, n: Seq<char>, a: Addr)
    requires
        unique_names(d),
        unique_addrs(d),
        d.contains((n, a)),
    ensures
        without_addr(d, a) == without_name(d, n),
{
    assert(without_addr(d, a) =~= without_name(d, n));
}

proof fn lemma_insert_unique(d: Set<Entry>, n: Seq<char>, a: Addr)
    requires
        unique_names(d),
    ensures
        unique_names(insert_spec(d, n, a)),
        unique_addrs(d) ==> unique_addrs(insert_spec(d, n, a)),
{
}

proof fn lemma_merge_unique(d: Set<Entry>, t: Seq<Entry>)
    requires
        unique_names(d),
    ensures
        unique_names(merge_spec(d, t)),
        unique_addrs(d) ==> unique_addrs(merge_spec(d, t)),
    decreases t.len(),
{
    if t.len() > 0 {
        lemma_merge_unique(d, t.drop_last());
        lemma_insert_unique(merge_spec(d, t.drop_last()), t.last().0, t.last().1);
    }
}

/// Two peers whose directories agree still agree after both handle the same membership
/// notification: a full table that lists both of them, or the removal of a third peer by
/// address or by name. So any run of joins and exits that both peers see keeps them in step.
pub proof fn lemma_same_membership_step(
    m1: PeerModel, m2: PeerModel, n: NotificationModel, now1: u64, now2: u64,
    r1: PeerModel, e1: Seq<EffectModel>, r2: PeerModel, e2: Seq<EffectModel>,
)
    requires
        m1.directory == m2.directory,
        unique_names(m1.directory),
        unique_addrs(m1.directory),
        step_spec(m1, n, now1, r1, e1),
        step_spec(m2, n, now2, r2, e2),
        match n.content {
            ContentModel::SendNetworkUpdateTable { value } => distinct_entries(value)
                && value.contains((m1.name, m1.addr)) && value.contains((m2.name, m2.addr)),
            ContentModel::DroppedPeer { addr } => addr != m1.addr && addr != m2.addr,
            ContentModel::ExitPeer { addr } => addr != m1.addr && addr != m2.addr,
            ContentModel::DeleteFromNetwork { name } => name != m1.name && name != m2.name,
            _ => false,
        },
    ensures
        r1.directory == r2.directory,
{
    if let ContentModel::SendNetworkUpdateTable { value } = n.content {
        let d = m1.directory;
        let x = merge_spec(d, value);
        lemma_merge_unique(d, value);
        lemma_keeps_own_entry(d, value, (m1.name, m1.addr));
        lemma_keeps_own_entry(d, value, (m2.name, m2.addr));
        assert(insert_spec(x, m1.name, m1.addr) =~= x);
        assert(insert_spec(x, m2.name, m2.addr) =~= x);
    }
}

proof fn lemma_keeps_own_entry(d: Set<Entry>, t: Seq<Entry>, me: Entry)
    requires
        distinct_entries(t),
        t.contains(me),
    ensures
        merge_spec(d, t).contains(me),
{
    lemma_merge_contains(d, t, me);
    let i = choose|i: int| 0 <= i < t.len() && t[i] == me;
    assert forall|j: int| i < j < t.len() implies !clash(t[j], me) by {}
}

/// PLAY of a title held elsewhere stops what the player held and leaves it idle; once the
/// bytes arrive the player plays them and the listener hears of the title.
pub proof fn lemma_remote_play_starts_when_bytes_arrive(
    m: PeerModel, t: Seq<char>, from: Addr, now: u64, m1: PeerModel, e1: Seq<EffectModel>,
    b: Seq<u8>, s: Addr, later: u64, m2: PeerModel, e2: Seq<EffectModel>,
)
    requires
        !holds_title(m.files, t),
        step_spec(m, NotificationModel { content: ContentModel::PlayAudioRequest { name: Some(t), state: crate::types::MusicState::PLAY }, from }, now, m1, e1),
        step_spec(m1, NotificationModel { content: ContentModel::GetFileResponse { instr: Instructions::PLAY, key: t, value: b }, from: s }, later, m2, e2),
    ensures
        m1.player == crate::peer::PlayerState::Idle,
        m2.player == crate::peer::PlayerState::Playing,
        e2 == seq![
            EffectModel::Sink { command: crate::message::SinkModel::Play(b) },
            EffectModel::PlayerPlaying { title: Some(t) },
        ],
{
    assert(crate::peer::stop_first(m1.player) =~= Seq::<EffectModel>::empty());
}

/// Whatever notification a peer handles, no two entries of its directory share a name
/// afterwards; in particular a newcomer is admitted under a name no other peer carries.
pub proof fn lemma_names_stay_unique(m: PeerModel, n: NotificationModel, now: u64, m2: PeerModel, e: Seq<EffectModel>)
    requires
        unique_names(m.directory),
        step_spec(m, n, now, m2, e),
    ensures
        unique_names(m2.directory),
{
    match n.content {
        ContentModel::ChangePeerName { value } => {
            lemma_insert_unique(without_addr(m.directory, m.addr), value, m.addr);
        },
        ContentModel::SendNetworkTable { value } => {
            lemma_merge_unique(Set::empty(), value);
            lemma_insert_unique(merge_spec(Set::empty(), value), m.name, m.addr);
        },
        ContentModel::SendNetworkUpdateTable { value } => {
            lemma_merge_unique(m.directory, value);
            lemma_insert_unique(merge_spec(m.directory, value), m.name, m.addr);
        },
        ContentModel::RequestForTable { value } => {
            if n.from != m.addr {
                let d1 = without_addr(m.directory, n.from);
                let (f, ts, tv) = choose|f: Seq<char>, ts: Seq<Addr>, tv: Seq<Entry>|
                    crate::directory::is_first_free(d1, value, f)
                    && m2 == PeerModel { directory: insert_spec(d1, f, n.from), ..m }
                    && crate::peer::lists(ts, crate::peer::others_of(m2.directory, m.addr))
                    && tv.to_set() == m2.directory
                    && e == (if f != value {
                        seq![crate::peer::send_model(n.from, m.addr, ContentModel::ChangePeerName { value: f })]
                    } else {
                        Seq::empty()
                    }) + crate::message::broadcast_spec(ts, m.addr, ContentModel::SendNetworkUpdateTable { value: tv });
                lemma_insert_unique(d1, f, n.from);
            }
        },
        _ => {},
    }
}

/// A file pushed at a peer that knows another peer is stored there, and its copy goes to a
/// different peer, which stores it on receipt: two peers then hold it.
pub proof fn lemma_push_is_redundant(
    m: PeerModel, key: Seq<char>, value: Seq<u8>, origin: Addr, m2: PeerModel, e: Seq<EffectModel>,
    q: PeerModel, now: u64, q2: PeerModel, e2: Seq<EffectModel>,
)
    requires
        push_spec(m, key, value, origin, m2, e),
        exists|a: Addr| is_candidate(m, origin, a),
        e[0] matches EffectModel::Send { target, notification } && q.addr == target
            && step_spec(q, notification, now, q2, e2),
    ensures
        m2.files.contains((key, value)),
        q.addr != m.addr,
        q2.files.contains((key, value)),
{
}

/// For one lookup at most one `GetFile` goes out: once the first answer has been acted on,
/// a second answer for the same title sends nothing.
pub proof fn lemma_fetch_at_most_once(
    m: PeerModel, song: Seq<char>, id1: u64, id2: u64, s1: Addr, s2: Addr, now1: u64, now2: u64,
    m1: PeerModel, e1: Seq<EffectModel>, m2: PeerModel, e2: Seq<EffectModel>,
)
    requires
        step_spec(m, NotificationModel { content: ContentModel::ExistFileResponse { song_name: song, id: id1 }, from: s1 }, now1, m1, e1),
        step_spec(m1, NotificationModel { content: ContentModel::ExistFileResponse { song_name: song, id: id2 }, from: s2 }, now2, m2, e2),
    ensures
        !awaits(m1.pending, song),
        e2 == Seq::<EffectModel>::empty(),
        m2 == m1,
{
    if awaits(m.pending, song) {
        assert(m1.pending == without_song(m.pending, song));
    }
}

/// Removing a peer, a name or a file twice leaves the same state as removing it once.
pub proof fn lemma_removals_idempotent(m: PeerModel, n: NotificationModel, now: u64, m1: PeerModel, e1: Seq<EffectModel>, m2: PeerModel, e2: Seq<EffectModel>)
    requires
        n.content is DroppedPeer || n.content is DeleteFromNetwork || n.content is ExitPeer || n.content is DeleteFileRequest,
        step_spec(m, n, now, m1, e1),
        step_spec(m1, n, now, m2, e2),
    ensures
        m2 == m1,
{
    match n.content {
        ContentModel::DroppedPeer { addr } => {
            if addr != m.addr {
                assert(without_addr(m1.directory, addr) =~= m1.directory);
            }
        },
        ContentModel::ExitPeer { addr } => {
            if addr != m.addr {
                assert(without_addr(m1.directory, addr) =~= m1.directory);
            }
        },
        ContentModel::DeleteFromNetwork { name } => {
            if name != m.name {
                assert(without_name(m1.directory, name) =~= m1.directory);
            }
        },
        ContentModel::DeleteFileRequest { song_name } => {
            assert(without_title(m1.files, song_name) =~= m1.files);
        },
        _ => {},
    }
}

/// A download asked for at peer `p` reaches a holder `q` that `p` knows of: `p` asks `q`
/// whether it holds the title, `q` says so, `p` (still within the lookup timeout) asks `q`
/// for the file, and `q` sends back its bytes.
pub proof fn lemma_lookup_reaches_holder(
    p: PeerModel, q: PeerModel, k: Seq<char>, v: Seq<u8>,
    now: u64, p1: PeerModel, e1: Seq<EffectModel>,
    q1: PeerModel, e2: Seq<EffectModel>, later: u64,
    p2: PeerModel, e3: Seq<EffectModel>,
    q2: PeerModel, e4: Seq<EffectModel>,
)
    requires
        p.addr != q.addr,
        has_addr(p.directory, q.addr),
        !holds_title(p.files, k),
        q.files.contains((k, v)),
        forall|b: Seq<u8>| q.files.contains((k, b)) ==> b == v,
        now <= later <= now + LOOKUP_TIMEOUT_MS,
        step_spec(p, NotificationModel { content: ContentModel::FindFile { instr: Instructions::GET, song_name: k }, from: p.addr }, now, p1, e1),
        step_spec(q, NotificationModel { content: ContentModel::ExistFile { song_name: k, id: now }, from: p.addr }, now, q1, e2),
        step_spec(swept(p1, later), NotificationModel { content: ContentModel::ExistFileResponse { song_name: k, id: now }, from: q.addr }, later, p2, e3),
        step_spec(q1, NotificationModel { content: ContentModel::GetFile { instr: Instructions::GET, key: k }, from: p.addr }, later, q2, e4),
    ensures
        e1.contains(send_model(q.addr, p.addr, ContentModel::ExistFile { song_name: k, id: now })),
        e2 == seq![send_model(p.addr, q.addr, ContentModel::ExistFileResponse { song_name: k, id: now })],
        e3 == seq![send_model(q.addr, p.addr, ContentModel::GetFile { instr: Instructions::GET, key: k })],
        e4 == seq![send_model(p.addr, q.addr, ContentModel::GetFileResponse { instr: Instructions::GET, key: k, value: v })],
{
    let ts = choose|ts: Seq<Addr>| crate::peer::lists(ts, crate::peer::others_of(p.directory, p.addr))
        && e1 == crate::message::broadcast_spec(ts, p.addr, ContentModel::ExistFile { song_name: k, id: now });
    assert(crate::peer::others_of(p.directory, p.addr).contains(q.addr));
    let i = choose|i: int| 0 <= i < ts.len() && ts[i] == q.addr;
    assert(e1[i] == send_model(q.addr, p.addr, ContentModel::ExistFile { song_name: k, id: now }));
    let entry = (k, now, p.addr, Instructions::GET);
    assert(p1.pending.contains(entry));
    assert(swept(p1, later).pending.contains(entry));
    assert(awaits(swept(p1, later).pending, k));
    let lk = choose|lk: crate::pending::Lookup| swept(p1, later).pending.contains(lk) && lk.0 == k
        && p2 == PeerModel { pending: without_song(swept(p1, later).pending, k), ..swept(p1, later) }
        && e3 == seq![send_model(q.addr, p.addr, ContentModel::GetFile { instr: lk.3, key: k })];
    assert(p1.pending.contains(lk));
    assert(lk == entry);
    assert(holds_title(q1.files, k));
}

} // verus!
