use meff::api::{push_request, MEFFM};
use meff::message::{Content, Effect, Notification, SinkCommand};
use meff::peer::{Peer, PlayerState};
use meff::types::{Addr, FileStatus};

const HOST: u32 = 0xC0A8_0001;

fn addr(port: u16) -> Addr {
    Addr { ip: HOST, port }
}

/// A set of peers that exchange notifications in memory, as the transport would.
struct Net {
    peers: Vec<Peer>,
    alive: Vec<bool>,
    events: Vec<Vec<String>>,
    received: Vec<Vec<String>>,
    now: u64,
}

fn kind(c: &Content) -> String {
    match c {
        Content::ExitPeer { .. } => "ExitPeer".to_string(),
        Content::DeleteFromNetwork { name } => format!("DeleteFromNetwork {}", name),
        Content::GetFile { .. } => "GetFile".to_string(),
        Content::ExistFileResponse { .. } => "ExistFileResponse".to_string(),
        Content::GetFileResponse { value, .. } => format!("GetFileResponse {}", value.len()),
        Content::Heartbeat => "Heartbeat".to_string(),
        _ => "other".to_string(),
    }
}

impl Net {
    fn new() -> Net {
        Net { peers: Vec::new(), alive: Vec::new(), events: Vec::new(), received: Vec::new(), now: 1000 }
    }

    fn start(&mut self, name: &str, port: u16) -> usize {
        self.peers.push(Peer::new(name.to_string(), addr(port)));
        self.alive.push(true);
        self.events.push(Vec::new());
        self.received.push(Vec::new());
        self.peers.len() - 1
    }

    fn index(&self, a: Addr) -> Option<usize> {
        self.peers.iter().position(|p| p.ip_address == a)
    }

    fn record(&mut self, who: usize, e: Effect, queue: &mut Vec<(usize, Addr, Notification)>) {
        match e {
            Effect::Send { target, notification } => queue.push((who, target, notification)),
            Effect::FileStatusChanged { name, status } => self.events[who].push(format!("file {} {:?}", name, status)),
            Effect::NotifyStatus { files, name } => self.events[who].push(format!("status {} {}", name, files.len())),
            Effect::PlayerPlaying { title } => self.events[who].push(format!("playing {:?}", title)),
            Effect::PlayerStopped => self.events[who].push("stopped".to_string()),
            Effect::LookupFailed { title, instr } => self.events[who].push(format!("failed {} {:?}", title, instr)),
            Effect::Sink { command } => match command {
                SinkCommand::Play(b) => self.events[who].push(format!("sink play {}", b.len())),
                other => self.events[who].push(format!("sink {:?}", other)),
            },
        }
    }

    /// Delivers `n` to the peer at `to` as if sent by the peer `from`, then everything it causes.
    fn send(&mut self, from: usize, to: Addr, n: Notification) {
        let mut queue = vec![(from, to, n)];
        let mut steps = 0;
        while let Some((sender, target, n)) = if queue.is_empty() { None } else { Some(queue.remove(0)) } {
            steps += 1;
            assert!(steps < 10_000);
            match self.index(target) {
                Some(i) if self.alive[i] => {
                    self.received[i].push(kind(&n.content));
                    let effects = self.peers[i].handle_notification(n, self.now);
                    for e in effects {
                        self.record(i, e, &mut queue);
                    }
                }
                _ => {
                    if self.alive[sender] {
                        let effects = self.peers[sender].handle_lost_connection(target);
                        for e in effects {
                            self.record(sender, e, &mut queue);
                        }
                    }
                }
            }
        }
    }

    /// Hands `n` to the peer's own dispatcher.
    fn local(&mut self, who: usize, n: Notification) {
        let a = self.peers[who].ip_address;
        self.send(who, a, n);
    }

    fn join(&mut self, who: usize, bootstrap: usize) {
        let n = Notification {
            content: Content::RequestForTable { value: self.peers[who].name.clone() },
            from: self.peers[who].ip_address,
        };
        let b = self.peers[bootstrap].ip_address;
        self.send(who, b, n);
    }

    fn heartbeat(&mut self, who: usize) {
        let targets = self.peers[who].heartbeat_targets();
        for t in targets {
            let n = Notification { content: Content::Heartbeat, from: self.peers[who].ip_address };
            self.send(who, t, n);
        }
    }

    fn directory(&self, who: usize) -> Vec<(String, u16)> {
        let mut d: Vec<(String, u16)> =
            self.peers[who].network_table.members().into_iter().map(|m| (m.name, m.addr.port)).collect();
        d.sort();
        d
    }

    fn holds(&self, who: usize, title: &str) -> bool {
        self.peers[who].files.contains(&title.to_string())
    }
}

fn entries(v: &[(&str, u16)]) -> Vec<(String, u16)> {
    v.iter().map(|(n, p)| (n.to_string(), *p)).collect()
}

fn two_peers() -> Net {
    let mut net = Net::new();
    let a = net.start("a", 4000);
    let b = net.start("b", 4001);
    net.join(b, a);
    net
}

#[test]
fn two_peer_join() {
    let net = two_peers();
    let expected = entries(&[("a", 4000), ("b", 4001)]);
    assert_eq!(net.directory(0), expected);
    assert_eq!(net.directory(1), expected);
}

#[test]
fn name_collision_is_renamed() {
    let mut net = Net::new();
    let a = net.start("a", 4000);
    let b = net.start("a", 4001);
    net.join(b, a);
    assert_eq!(net.peers[b].name, "a#1");
    let expected = entries(&[("a", 4000), ("a#1", 4001)]);
    assert_eq!(net.directory(a), expected);
    assert_eq!(net.directory(b), expected);
}

#[test]
fn push_and_remote_stream() {
    let mut net = two_peers();
    let song = vec![7u8; 1 << 20];
    net.local(0, push_request("song", song, addr(4000)));
    assert!(net.holds(0, "song"));
    assert!(net.holds(1, "song"));
    let before = net.directory(1);
    let front = MEFFM::new(addr(4001));
    net.local(1, front.stream("song".to_string()));
    assert!(net.events[1].contains(&format!("sink play {}", 1 << 20)));
    assert!(net.events[1].contains(&"playing Some(\"song\")".to_string()));
    assert_eq!(net.peers[1].player, PlayerState::Playing);
    assert_eq!(net.directory(1), before);
}

#[test]
fn remote_stream_fetches_bytes() {
    let mut net = two_peers();
    net.peers[0].files.put("song".to_string(), vec![1, 2, 3]);
    let front = MEFFM::new(addr(4001));
    net.local(1, front.stream("song".to_string()));
    assert!(net.received[1].contains(&"GetFileResponse 3".to_string()));
    assert!(net.events[1].contains(&"sink play 3".to_string()));
    assert!(net.events[1].contains(&"playing Some(\"song\")".to_string()));
    assert!(!net.holds(1, "song"));
}

#[test]
fn drop_detection() {
    let mut net = two_peers();
    net.alive[1] = false;
    net.heartbeat(0);
    assert_eq!(net.directory(0), entries(&[("a", 4000)]));
    assert!(!net.events[0].contains(&"stopped".to_string()));
}

#[test]
fn graceful_exit() {
    let mut net = Net::new();
    let a = net.start("a", 4000);
    let b = net.start("b", 4001);
    let c = net.start("c", 4002);
    net.join(b, a);
    net.join(c, a);
    let all = entries(&[("a", 4000), ("b", 4001), ("c", 4002)]);
    assert_eq!(net.directory(a), all);
    assert_eq!(net.directory(b), all);
    assert_eq!(net.directory(c), all);
    let front = MEFFM::new(addr(4002));
    net.local(c, front.quit());
    let rest = entries(&[("a", 4000), ("b", 4001)]);
    assert_eq!(net.directory(a), rest);
    assert_eq!(net.directory(b), rest);
    for p in [a, b] {
        let exit = net.received[p].iter().position(|k| k == "ExitPeer").unwrap();
        let gone = net.received[p].iter().position(|k| k == "DeleteFromNetwork c").unwrap();
        assert!(exit < gone);
    }
}

#[test]
fn delete_propagates() {
    let mut net = two_peers();
    net.local(0, push_request("x", vec![9, 9], addr(4000)));
    assert!(net.holds(0, "x") && net.holds(1, "x"));
    let front = MEFFM::new(addr(4000));
    net.local(0, front.remove_title("x"));
    assert!(!net.holds(0, "x"));
    assert!(!net.holds(1, "x"));
    assert!(net.events[0].contains(&format!("file x {:?}", FileStatus::DELETE)));
    assert!(net.events[1].contains(&format!("file x {:?}", FileStatus::DELETE)));
}

#[test]
fn only_first_answer_fetches() {
    let mut net = Net::new();
    let a = net.start("a", 4000);
    let b = net.start("b", 4001);
    let c = net.start("c", 4002);
    net.join(b, a);
    net.join(c, a);
    net.peers[b].files.put("t".to_string(), vec![1]);
    net.peers[c].files.put("t".to_string(), vec![1]);
    let front = MEFFM::new(addr(4000));
    net.local(a, front.download("t"));
    let gets = net.received[b].iter().chain(net.received[c].iter()).filter(|k| *k == "GetFile").count();
    assert_eq!(gets, 1);
    assert!(net.holds(a, "t"));
    assert!(net.events[a].contains(&format!("file t {:?}", FileStatus::DOWNLOAD)));
}

#[test]
fn push_lands_on_two_peers() {
    let mut net = Net::new();
    for i in 0..5u16 {
        net.start(&format!("p{}", i), 5000 + i);
    }
    for i in 1..5 {
        net.join(i, 0);
    }
    net.local(2, push_request("k", vec![4, 2], addr(5002)));
    let holders = (0..5).filter(|i| net.holds(*i, "k")).count();
    assert_eq!(holders, 2);
}

#[test]
fn directories_converge_after_joins_and_exit() {
    let mut net = Net::new();
    for i in 0..4u16 {
        net.start(&format!("p{}", i), 6000 + i);
    }
    for i in 1..4 {
        net.join(i, 0);
    }
    let front = MEFFM::new(addr(6003));
    net.local(3, front.quit());
    let d = net.directory(0);
    assert_eq!(d.len(), 3);
    assert_eq!(net.directory(1), d);
    assert_eq!(net.directory(2), d);
}
