use meff::api::{
    push_request, send_delete_peer_request, send_play_request, send_read_request,
    send_status_request, validate_port,
    PortError, MEFFM,
};
use meff::directory::{decimal_string, Directory};
use meff::message::{Content, Effect, Notification, SinkCommand};
use meff::pending::PendingTable;
use meff::peer::{Peer, PlayerState, HEARTBEAT_SUCCESSORS, LOOKUP_TIMEOUT_MS};
use meff::store::FileStore;
use meff::types::{Addr, FileStatus, Instructions, Member, MusicState};

fn addr(port: u16) -> Addr {
    Addr { ip: 0x0A00_0001, port }
}

fn note(content: Content, from: Addr) -> Notification {
    Notification { content, from }
}

fn dir_of(p: &Peer) -> Vec<(String, u16)> {
    let mut d: Vec<(String, u16)> =
        p.network_table.members().into_iter().map(|m| (m.name, m.addr.port)).collect();
    d.sort();
    d
}

fn table(entries: &[(&str, u16)]) -> Vec<Member> {
    entries.iter().map(|(n, p)| Member { name: n.to_string(), addr: addr(*p) }).collect()
}

fn sinks(effects: &[Effect]) -> Vec<String> {
    effects
        .iter()
        .filter_map(|e| match e {
            Effect::Sink { command } => Some(match command {
                SinkCommand::Play(b) => format!("Play{}", b.len()),
                other => format!("{:?}", other),
            }),
            Effect::PlayerStopped => Some("stopped".to_string()),
            Effect::PlayerPlaying { .. } => Some("playing".to_string()),
            _ => None,
        })
        .collect()
}

#[test]
fn port_rules() {
    assert_eq!(validate_port("4000"), Ok("4000"));
    assert_eq!(validate_port("40a0"), Err(PortError::NotNumeric));
    assert_eq!(validate_port(""), Err(PortError::NotNumeric));
    assert_eq!(validate_port("400"), Err(PortError::NotFourDigits));
    assert_eq!(validate_port("40000"), Err(PortError::NotFourDigits));
    assert_eq!(PortError::NotNumeric.message(), "The supplied port is not numeric");
    assert_eq!(PortError::NotFourDigits.message(), "The supplied port does not have four digits");
}

#[test]
fn decimal_notation() {
    assert_eq!(decimal_string(0), "0");
    assert_eq!(decimal_string(7), "7");
    assert_eq!(decimal_string(1203), "1203");
    assert_eq!(decimal_string(u64::MAX), u64::MAX.to_string());
}

#[test]
fn fresh_names() {
    let mut d = Directory::new("a".to_string(), addr(1));
    assert_eq!(d.fresh_name(&"b".to_string()), "b");
    assert_eq!(d.fresh_name(&"a".to_string()), "a#1");
    d.insert("a#1".to_string(), addr(2));
    assert_eq!(d.fresh_name(&"a".to_string()), "a#2");
}

#[test]
fn directory_merge_and_removals() {
    let mut d = Directory::new("a".to_string(), addr(1));
    d.merge(&table(&[("b", 2), ("c", 3), ("b", 4)]));
    assert_eq!(d.len(), 3);
    assert_eq!(d.name_of(addr(4)), Some("b".to_string()));
    assert_eq!(d.name_of(addr(2)), None);
    d.remove_addr(addr(3));
    assert!(!d.contains_name(&"c".to_string()));
    d.remove_name(&"b".to_string());
    assert_eq!(d.len(), 1);
    assert!(d.contains_addr(addr(1)));
}

#[test]
fn store_put_replaces() {
    let mut s = FileStore::new();
    s.put("x".to_string(), vec![1]);
    s.put("x".to_string(), vec![2, 3]);
    assert_eq!(s.get(&"x".to_string()), Some(vec![2, 3]));
    assert_eq!(s.titles(), vec!["x".to_string()]);
    s.remove(&"x".to_string());
    assert_eq!(s.get(&"x".to_string()), None);
}

#[test]
fn pending_sweep_drops_old_lookups() {
    let mut p = PendingTable::new();
    p.record("old".to_string(), 100, addr(1), Instructions::GET);
    p.record("new".to_string(), 5000, addr(1), Instructions::PLAY);
    p.sweep(100 + LOOKUP_TIMEOUT_MS + 1, LOOKUP_TIMEOUT_MS);
    assert!(p.take(&"old".to_string()).is_none());
    let kept = p.take(&"new".to_string()).unwrap();
    assert_eq!(kept.instr, Instructions::PLAY);
    assert!(p.take(&"new".to_string()).is_none());
}

#[test]
fn request_notifications() {
    let peer = Peer::new("a".to_string(), addr(4000));
    let n = send_read_request(&peer, "song", Instructions::GET);
    assert!(matches!(n.content, Content::FindFile { instr: Instructions::GET, ref song_name } if song_name == "song"));
    assert_eq!(n.from, addr(4000));
    let n = send_delete_peer_request(&peer);
    assert!(matches!(n.content, Content::ExitPeer { addr: a } if a == addr(4000)));
    let n = send_play_request(Some("t".to_string()), &peer, MusicState::PLAY);
    assert!(matches!(n.content, Content::PlayAudioRequest { state: MusicState::PLAY, name: Some(ref t) } if t == "t"));
    let n = push_request("k", vec![1, 2], addr(4000));
    assert!(matches!(n.content, Content::PushToDB { ref key, ref value, .. } if key == "k" && *value == vec![1, 2]));
}

#[test]
fn front_end_play_toggles() {
    let mut f = MEFFM::new(addr(4000));
    let n = f.play(Some("t".to_string()));
    assert!(matches!(n.content, Content::PlayAudioRequest { state: MusicState::PLAY, .. }));
    f.player_playing();
    let n = f.play(Some("t".to_string()));
    assert!(matches!(n.content, Content::PlayAudioRequest { state: MusicState::CONTINUE, name: None }));
    let n = f.stop();
    assert!(matches!(n.content, Content::PlayAudioRequest { state: MusicState::STOP, .. }));
    assert!(!f.is_playing);
    let n = f.pause();
    assert!(matches!(n.content, Content::PlayAudioRequest { state: MusicState::PAUSE, .. }));
}

fn play(p: &mut Peer, name: Option<&str>, state: MusicState) -> Vec<String> {
    let n = note(Content::PlayAudioRequest { name: name.map(|s| s.to_string()), state }, p.ip_address);
    sinks(&p.handle_notification(n, 0))
}

#[test]
fn playback_table() {
    let mut p = Peer::new("a".to_string(), addr(4000));
    p.files.put("t".to_string(), vec![1, 2]);
    for cmd in [MusicState::PAUSE, MusicState::STOP, MusicState::CONTINUE] {
        assert!(play(&mut p, None, cmd).is_empty());
        assert_eq!(p.player, PlayerState::Idle);
    }
    assert_eq!(play(&mut p, Some("t"), MusicState::PLAY), vec!["Play2", "playing"]);
    assert_eq!(p.player, PlayerState::Playing);
    assert!(play(&mut p, None, MusicState::CONTINUE).is_empty());
    assert_eq!(play(&mut p, None, MusicState::PAUSE), vec!["Pause"]);
    assert_eq!(p.player, PlayerState::Paused);
    assert!(play(&mut p, None, MusicState::PAUSE).is_empty());
    assert_eq!(play(&mut p, None, MusicState::CONTINUE), vec!["Resume"]);
    assert_eq!(p.player, PlayerState::Playing);
    assert_eq!(play(&mut p, Some("t"), MusicState::PLAY), vec!["Stop", "Play2", "playing"]);
    assert_eq!(play(&mut p, None, MusicState::STOP), vec!["Stop", "stopped"]);
    assert_eq!(p.player, PlayerState::Idle);
    play(&mut p, Some("t"), MusicState::PLAY);
    play(&mut p, None, MusicState::PAUSE);
    assert_eq!(play(&mut p, None, MusicState::STOP), vec!["Stop", "stopped"]);
    assert_eq!(p.player, PlayerState::Idle);
}

#[test]
fn play_of_remote_track_starts_lookup() {
    let mut p = Peer::new("a".to_string(), addr(4000));
    p.network_table.insert("b".to_string(), addr(4001));
    let e = p.handle_notification(note(Content::PlayAudioRequest { name: Some("t".to_string()), state: MusicState::PLAY }, addr(4000)), 50);
    assert_eq!(e.len(), 1);
    assert!(matches!(&e[0], Effect::Send { target, notification: Notification { content: Content::ExistFile { song_name, id: 50 }, .. } } if *target == addr(4001) && song_name == "t"));
}

#[test]
fn removals_are_idempotent() {
    let mut p = Peer::new("a".to_string(), addr(4000));
    p.network_table.merge(&table(&[("b", 4001), ("c", 4002)]));
    p.files.put("x".to_string(), vec![1]);
    for _ in 0..2 {
        p.handle_notification(note(Content::DroppedPeer { addr: addr(4001) }, addr(4002)), 0);
        assert_eq!(dir_of(&p), vec![("a".to_string(), 4000), ("c".to_string(), 4002)]);
    }
    for _ in 0..2 {
        p.handle_notification(note(Content::DeleteFromNetwork { name: "c".to_string() }, addr(4002)), 0);
        assert_eq!(dir_of(&p), vec![("a".to_string(), 4000)]);
    }
    for _ in 0..2 {
        let e = p.handle_notification(note(Content::DeleteFileRequest { song_name: "x".to_string() }, addr(4000)), 0);
        assert!(!p.files.contains(&"x".to_string()));
        assert!(matches!(&e[0], Effect::FileStatusChanged { name, status: FileStatus::DELETE } if name == "x"));
    }
    p.handle_notification(note(Content::DroppedPeer { addr: addr(4000) }, addr(4002)), 0);
    assert_eq!(dir_of(&p), vec![("a".to_string(), 4000)]);
}

#[test]
fn second_answer_fetches_nothing() {
    let mut p = Peer::new("a".to_string(), addr(4000));
    p.network_table.merge(&table(&[("b", 4001), ("c", 4002)]));
    let e = p.handle_notification(note(Content::FindFile { instr: Instructions::GET, song_name: "t".to_string() }, addr(4000)), 10);
    assert_eq!(e.len(), 2);
    let e1 = p.handle_notification(note(Content::ExistFileResponse { song_name: "t".to_string(), id: 10 }, addr(4002)), 11);
    assert!(matches!(&e1[..], [Effect::Send { target, notification: Notification { content: Content::GetFile { instr: Instructions::GET, .. }, .. } }] if *target == addr(4002)));
    let e2 = p.handle_notification(note(Content::ExistFileResponse { song_name: "t".to_string(), id: 10 }, addr(4001)), 12);
    assert!(e2.is_empty());
}

#[test]
fn stale_lookup_is_dropped() {
    let mut p = Peer::new("a".to_string(), addr(4000));
    p.network_table.insert("b".to_string(), addr(4001));
    p.handle_notification(note(Content::FindFile { instr: Instructions::GET, song_name: "t".to_string() }, addr(4000)), 10);
    let e = p.handle_notification(note(Content::ExistFileResponse { song_name: "t".to_string(), id: 10 }, addr(4001)), 10 + LOOKUP_TIMEOUT_MS + 1);
    assert_eq!(e.len(), 1);
    assert!(matches!(&e[0], Effect::LookupFailed { title, instr: Instructions::GET } if title == "t"));
}

#[test]
fn lookup_failure_is_reported_once() {
    let mut p = Peer::new("a".to_string(), addr(4000));
    p.network_table.insert("b".to_string(), addr(4001));
    p.handle_notification(note(Content::FindFile { instr: Instructions::PLAY, song_name: "s".to_string() }, addr(4000)), 10);
    let young = p.handle_notification(note(Content::Heartbeat, addr(4001)), 10 + LOOKUP_TIMEOUT_MS);
    assert!(young.is_empty());
    let e = p.handle_notification(note(Content::Heartbeat, addr(4001)), 11 + LOOKUP_TIMEOUT_MS);
    assert_eq!(e.len(), 1);
    assert!(matches!(&e[0], Effect::LookupFailed { title, instr: Instructions::PLAY } if title == "s"));
    let again = p.handle_notification(note(Content::Heartbeat, addr(4001)), 12 + LOOKUP_TIMEOUT_MS);
    assert!(again.is_empty());
}

#[test]
fn one_address_one_entry() {
    let mut p = Peer::new("a".to_string(), addr(4000));
    p.network_table.merge(&table(&[("b", 4001), ("c", 4001)]));
    assert_eq!(dir_of(&p), vec![("a".to_string(), 4000), ("c".to_string(), 4001)]);
    assert_eq!(p.heartbeat_targets(), vec![addr(4001)]);
    let e = p.handle_notification(note(Content::FindFile { instr: Instructions::GET, song_name: "t".to_string() }, addr(4000)), 0);
    assert_eq!(e.len(), 1);
}

#[test]
fn status_request_notification() {
    let n = send_status_request(addr(4000));
    assert!(matches!(n.content, Content::StatusRequest));
    assert_eq!(n.from, addr(4000));
}

#[test]
fn heartbeat_suppression() {
    let mut p = Peer::new("p0".to_string(), addr(100));
    for i in 1..20u16 {
        p.network_table.insert(format!("p{}", i), addr(100 + i));
    }
    assert_eq!(p.heartbeat_targets().len(), 19);
    for i in 20..30u16 {
        p.network_table.insert(format!("p{}", i), addr(100 + i));
    }
    let t = p.heartbeat_targets();
    assert!(t.len() <= HEARTBEAT_SUCCESSORS);
    assert_eq!(t, vec![addr(101), addr(102)]);
    let mut last = Peer::new("p29".to_string(), addr(129));
    last.network_table.merge(&p.network_table.members());
    assert_eq!(last.heartbeat_targets(), vec![addr(100), addr(101)]);
}

#[test]
fn random_target_excludes_self_and_origin() {
    let mut p = Peer::new("a".to_string(), addr(4000));
    assert_eq!(p.other_random_target(addr(4000)), None);
    p.network_table.merge(&table(&[("b", 4001), ("c", 4002)]));
    for _ in 0..50 {
        assert_eq!(p.other_random_target(addr(4001)), Some(addr(4002)));
        let t = p.other_random_target(addr(4000)).unwrap();
        assert!(t == addr(4001) || t == addr(4002));
    }
}

#[test]
fn status_and_tables() {
    let mut p = Peer::new("a".to_string(), addr(4000));
    p.files.put("x".to_string(), vec![1]);
    let e = p.handle_notification(note(Content::StatusRequest, addr(4001)), 0);
    assert!(matches!(&e[..], [Effect::Send { target, notification: Notification { content: Content::StatusResponse { files, name }, .. } }] if *target == addr(4001) && *files == vec!["x".to_string()] && name == "a"));
    p.handle_notification(note(Content::SendNetworkTable { value: table(&[("b", 4001), ("a", 4000)]) }, addr(4001)), 0);
    assert_eq!(dir_of(&p), vec![("a".to_string(), 4000), ("b".to_string(), 4001)]);
    p.handle_notification(note(Content::ChangePeerName { value: "z".to_string() }, addr(4001)), 0);
    assert_eq!(p.name, "z");
    assert_eq!(dir_of(&p), vec![("b".to_string(), 4001), ("z".to_string(), 4000)]);
}
