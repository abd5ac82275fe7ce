use vstd::prelude::*;

verus! {

/// What a file lookup is for: the follow-up action once the bytes arrive.
#[derive(PartialEq, Eq, Structural, Clone, Copy, Debug)]
pub enum Instructions {
    PLAY,
    GET,
    ORDER,
    REMOVE,
}

/// A command for the local audio sink.
#[derive(PartialEq, Eq, Structural, Clone, Copy, Debug)]
pub enum MusicState {
    PLAY,
    PAUSE,
    STOP,
    CONTINUE,
}

/// How a file in the local store changed, as reported to the listener.
#[derive(PartialEq, Eq, Structural, Clone, Copy, Debug)]
pub enum FileStatus {
    NEW,
    DOWNLOAD,
    DELETE,
}

/// An IPv4 endpoint: the address as a 32-bit number and the port.
#[derive(PartialEq, Eq, Structural, Clone, Copy, Debug)]
pub struct Addr {
    pub ip: u32,
    pub port: u16,
}

/// One directory entry: a peer's name and the endpoint it listens on.
#[derive(Debug)]
pub struct Member {
    pub name: String,
    pub addr: Addr,
}

impl Addr {
    /// The position of the address in the sorted order of endpoints.
    pub open spec fn key(self) -> int {
        self.ip as int * 65536 + self.port as int
    }

    pub fn key_of(&self) -> (r: u64)
        ensures
            r as int == self.key(),
    {
        self.ip as u64 * 65536 + self.port as u64
    }
}

} // verus!
