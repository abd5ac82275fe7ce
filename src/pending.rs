use vstd::prelude::*;
use crate::types::{Addr, Instructions};

verus! {

/// An open lookup as a mathematical value: title, start time, requester, intent.
pub type Lookup = (Seq<char>, u64, Addr, Instructions);

/// A lookup that waits for its first `ExistFileResponse`.
pub struct PendingLookup {
    pub song: String,
    pub since: u64,
    pub requester: Addr,
    pub instr: Instructions,
}

impl PendingLookup {
    pub open spec fn model(&self) -> Lookup {
        (self.song@, self.since, self.requester, self.instr)
    }
}

pub open spec fn lookups_of(s: Seq<PendingLookup>) -> Set<Lookup> {
    Set::new(|e: Lookup| exists|i: int| 0 <= i < s.len() && s[i].model() == e)
}

pub open spec fn songs_unique(s: Seq<PendingLookup>) -> bool {
    forall|i: int, j: int|
        0 <= i < s.len() && 0 <= j < s.len() && i != j ==> s[i].song@ != s[j].song@
}

pub open spec fn awaits(p: Set<Lookup>, song: Seq<char>) -> bool {
    exists|e: Lookup| p.contains(e) && e.0 == song
}

pub open spec fn without_song(p: Set<Lookup>, song: Seq<char>) -> Set<Lookup> {
    p.filter(|e: Lookup| e.0 != song)
}

/// Whether a lookup started at `since` is still young at `now`.
pub open spec fn is_fresh(since: u64, now: u64, max_age: u64) -> bool {
    now as int - since as int <= max_age as int
}

/// The lookups that are still young at `now`.
pub open spec fn fresh_only(p: Set<Lookup>, now: u64, max_age: u64) -> Set<Lookup> {
    p.filter(|e: Lookup| is_fresh(e.1, now, max_age))
}

/// The lookups that have waited longer than `max_age` at `now`.
pub open spec fn expired(p: Set<Lookup>, now: u64, max_age: u64) -> Set<Lookup> {
    p.filter(|e: Lookup| !is_fresh(e.1, now, max_age))
}

/// The lookups of a sequence as mathematical values.
pub open spec fn lookups_seq(s: Seq<PendingLookup>) -> Seq<Lookup> {
    s.map_values(|p: PendingLookup| p.model())
}

proof fn lemma_remove_lookup(s: Seq<PendingLookup>, i: int)
    requires
        songs_unique(s),
        0 <= i < s.len(),
    ensures
        songs_unique(s.remove(i)),
        lookups_of(s.remove(i)) == without_song(lookups_of(s), s[i].song@),
        lookups_of(s.remove(i)) == lookups_of(s).remove(s[i].model()),
{
    let r = s.remove(i);
    assert forall|e: Lookup| lookups_of(r).contains(e) implies lookups_of(s).contains(e) && e.0 != s[i].song@ by {
        let k = choose|k: int| 0 <= k < r.len() && r[k].model() == e;
        if k < i {
            assert(s[k] == r[k]);
        } else {
            assert(s[k + 1] == r[k]);
        }
    }
    assert forall|e: Lookup| lookups_of(s).contains(e) && e.0 != s[i].song@ implies lookups_of(r).contains(e) by {
        let k = choose|k: int| 0 <= k < s.len() && s[k].model() == e;
        if k < i {
            assert(s[k] == r[k]);
        } else {
            assert(s[k] == r[k - 1]);
        }
    }
    assert(lookups_of(r) =~= without_song(lookups_of(s), s[i].song@));
    assert(lookups_of(r) =~= lookups_of(s).remove(s[i].model()));
}

/// The open lookups of this peer, at most one per title.
pub struct PendingTable {
    entries: Vec<PendingLookup>,
}

impl View for PendingTable {
    type V = Set<Lookup>;

    closed spec fn view(&self) -> Set<Lookup> {
        lookups_of(self.entries@)
    }
}

impl PendingTable {
    pub closed spec fn wf(&self) -> bool {
        songs_unique(self.entries@)
    }

    pub fn new() -> (r: PendingTable)
        ensures
            r.wf(),
            r@ == Set::<Lookup>::empty(),
    {
        let r = PendingTable { entries: Vec::new() };
        assert(r@ =~= Set::<Lookup>::empty());
        r
    }

    fn find(&self, song: &String) -> (r: Option<usize>)
        ensures
            match r {
                Some(i) => i < self.entries@.len() && self.entries@[i as int].song@ == song@,
                None => !awaits(self@, song@),
            },
    {
        let mut i: usize = 0;
        while i < self.entries.len()
            invariant
                i <= self.entries@.len(),
                forall|k: int| 0 <= k < i ==> self.entries@[k].song@ != song@,
            decreases self.entries@.len() - i,
        {
            if self.entries[i].song == *song {
                return Some(i);
            }
            i = i + 1;
        }
        None
    }

    /// Opens a lookup for `song`, replacing an older one for the same title.
    pub fn record(&mut self, song: String, since: u64, requester: Addr, instr: Instructions)
        requires
            old(self).wf(),
        ensures
            final(self).wf(),
            final(self)@ == without_song(old(self)@, song@).insert((song@, since, requester, instr)),
    {
        let ghost t = song@;
        if let Some(i) = self.find(&song) {
            proof {
                lemma_remove_lookup(self.entries@, i as int);
            }
            self.entries.remove(i);
        }
        let ghost before = self.entries@;
        assert(lookups_of(before) == without_song(old(self)@, t)) by {
            if !awaits(old(self)@, t) {
                assert(lookups_of(before) =~= without_song(old(self)@, t));
            }
        }
        self.entries.push(PendingLookup { song, since, requester, instr });
        let ghost added: Lookup = (t, since, requester, instr);
        assert forall|e: Lookup| self@.contains(e) <==> lookups_of(before).insert(added).contains(e) by {
            if self@.contains(e) {
                let k = choose|k: int| 0 <= k < self.entries@.len() && self.entries@[k].model() == e;
                if k < before.len() {
                    assert(before[k] == self.entries@[k]);
                }
            }
            if lookups_of(before).contains(e) {
                let k = choose|k: int| 0 <= k < before.len() && before[k].model() == e;
                assert(before[k] == self.entries@[k]);
            }
            if e == added {
                assert(self.entries@[before.len() as int].model() == added);
            }
        }
        assert(self@ =~= lookups_of(before).insert(added));
        assert forall|a: int, b: int|
            0 <= a < self.entries@.len() && 0 <= b < self.entries@.len() && a != b
            implies self.entries@[a].song@ != self.entries@[b].song@ by {
            if a < before.len() && b < before.len() {
                assert(before[a] == self.entries@[a] && before[b] == self.entries@[b]);
            } else if a < before.len() {
                assert(before[a] == self.entries@[a]);
                assert(lookups_of(before).contains(before[a].model()));
            } else {
                assert(before[b] == self.entries@[b]);
                assert(lookups_of(before).contains(before[b].model()));
            }
        }
    }

    /// Closes the lookup for `song` and hands it back; `None` when there is none.
    pub fn take(&mut self, song: &String) -> (r: Option<PendingLookup>)
        requires
            old(self).wf(),
        ensures
            final(self).wf(),
            final(self)@ == without_song(old(self)@, song@),
            match r {
                Some(p) => p.song@ == song@ && old(self)@.contains(p.model()),
                None => !awaits(old(self)@, song@),
            },
    {
        match self.find(song) {
            Some(i) => {
                proof {
                    lemma_remove_lookup(self.entries@, i as int);
                }
                assert(old(self)@.contains(self.entries@[i as int].model()));
                Some(self.entries.remove(i))
            },
            None => {
                assert(self@ =~= without_song(old(self)@, song@));
                None
            },
        }
    }

    /// Drops every lookup older than `max_age` at `now`, and hands the dropped ones back.
    pub fn sweep(&mut self, now: u64, max_age: u64) -> (dropped: Vec<PendingLookup>)
        requires
            old(self).wf(),
        ensures
            final(self).wf(),
            final(self)@ == fresh_only(old(self)@, now, max_age),
            lookups_seq(dropped@).no_duplicates(),
            lookups_seq(dropped@).to_set() == expired(old(self)@, now, max_age),
    {
        let mut dropped: Vec<PendingLookup> = Vec::new();
        loop
            invariant
                self.wf(),
                fresh_only(self@, now, max_age) == fresh_only(old(self)@, now, max_age),
                self@.subset_of(old(self)@),
                lookups_seq(dropped@).no_duplicates(),
                forall|l: Lookup| lookups_seq(dropped@).contains(l)
                    <==> old(self)@.contains(l) && !is_fresh(l.1, now, max_age) && !self@.contains(l),
            decreases self.entries@.len(),
        {
            let mut i: usize = 0;
            let mut found: Option<usize> = None;
            while found.is_none() && i < self.entries.len()
                invariant
                    i <= self.entries@.len(),
                    found is None ==> forall|k: int| 0 <= k < i ==> is_fresh(self.entries@[k].since, now, max_age),
                    match found {
                        Some(j) => j < self.entries@.len() && !is_fresh(self.entries@[j as int].since, now, max_age),
                        None => true,
                    },
                decreases self.entries@.len() - i,
            {
                let s = self.entries[i].since;
                if s < now && now - s > max_age {
                    found = Some(i);
                }
                i = i + 1;
            }
            match found {
                Some(j) => {
                    proof {
                        lemma_remove_lookup(self.entries@, j as int);
                    }
                    let ghost before = self@;
                    let ghost old_d = lookups_seq(dropped@);
                    let ghost x = self.entries@[j as int].model();
                    assert(before.contains(x));
                    let p = self.entries.remove(j);
                    assert(fresh_only(self@, now, max_age) =~= fresh_only(before, now, max_age));
                    dropped.push(p);
                    assert(lookups_seq(dropped@) =~= old_d.push(x));
                    assert(!old_d.contains(x));
                    assert forall|l: Lookup| lookups_seq(dropped@).contains(l) <==> old_d.contains(l) || l == x by {
                        if old_d.contains(l) {
                            let k = choose|k: int| 0 <= k < old_d.len() && old_d[k] == l;
                            assert(lookups_seq(dropped@)[k] == l);
                        }
                        if lookups_seq(dropped@).contains(l) && l != x {
                            let k = choose|k: int| 0 <= k < lookups_seq(dropped@).len() && lookups_seq(dropped@)[k] == l;
                            assert(old_d[k] == l);
                        }
                        if l == x {
                            assert(lookups_seq(dropped@)[old_d.len() as int] == l);
                        }
                    }
                    assert forall|a: int, b: int| 0 <= a < lookups_seq(dropped@).len() && 0 <= b < lookups_seq(dropped@).len() && a != b
                        implies lookups_seq(dropped@)[a] != lookups_seq(dropped@)[b] by {
                        if a < old_d.len() && b < old_d.len() {
                        } else if a < old_d.len() {
                            assert(old_d.contains(lookups_seq(dropped@)[a]));
                        } else {
                            assert(old_d.contains(lookups_seq(dropped@)[b]));
                        }
                    }
                },
                None => {
                    assert forall|e: Lookup| self@.contains(e) implies is_fresh(e.1, now, max_age) by {
                        let k = choose|k: int| 0 <= k < self.entries@.len() && self.entries@[k].model() == e;
                    }
                    assert(self@ =~= fresh_only(self@, now, max_age));
                    assert forall|l: Lookup| lookups_seq(dropped@).to_set().contains(l) <==> expired(old(self)@, now, max_age).contains(l) by {
                        if old(self)@.contains(l) && !is_fresh(l.1, now, max_age) {
                            assert(!self@.contains(l));
                        }
                    }
                    assert(lookups_seq(dropped@).to_set() =~= expired(old(self)@, now, max_age));
                    return dropped;
                },
            }
        }
    }
}

} // verus!
