use vstd::prelude::*;

verus! {

/// A stored file as a mathematical value: its title and its bytes.
pub type FileEntry = (Seq<char>, Seq<u8>);

/// One file of the local store.
pub struct StoredFile {
    pub title: String,
    pub data: Vec<u8>,
}

pub open spec fn files_of(s: Seq<StoredFile>) -> Set<FileEntry> {
    Set::new(|e: FileEntry| exists|i: int| 0 <= i < s.len() && s[i].title@ == e.0 && s[i].data@ == e.1)
}

pub open spec fn titles_unique(s: Seq<StoredFile>) -> bool {
    forall|i: int, j: int|
        0 <= i < s.len() && 0 <= j < s.len() && i != j ==> s[i].title@ != s[j].title@
}

pub open spec fn holds_title(f: Set<FileEntry>, t: Seq<char>) -> bool {
    exists|v: Seq<u8>| f.contains((t, v))
}

/// The store after `t` is set to `v`: an older file under that title is replaced.
pub open spec fn put_spec(f: Set<FileEntry>, t: Seq<char>, v: Seq<u8>) -> Set<FileEntry> {
    f.filter(|e: FileEntry| e.0 != t).insert((t, v))
}

/// The store without the file titled `t`.
pub open spec fn without_title(f: Set<FileEntry>, t: Seq<char>) -> Set<FileEntry> {
    f.filter(|e: FileEntry| e.0 != t)
}

/// A byte-for-byte copy.
pub fn copy_bytes(v: &Vec<u8>) -> (r: Vec<u8>)
    ensures
        r@ == v@,
{
    let mut r: Vec<u8> = Vec::new();
    let mut i: usize = 0;
    while i < v.len()
        invariant
            i <= v@.len(),
            r@ == v@.take(i as int),
        decreases v@.len() - i,
    {
        r.push(v[i]);
        assert(v@.take(i + 1) =~= v@.take(i as int).push(v@[i as int]));
        i = i + 1;
    }
    assert(v@.take(i as int) =~= v@);
    r
}

proof fn lemma_remove_file(s: Seq<StoredFile>, i: int)
    requires
        titles_unique(s),
        0 <= i < s.len(),
    ensures
        titles_unique(s.remove(i)),
        files_of(s.remove(i)) == without_title(files_of(s), s[i].title@),
{
    let r = s.remove(i);
    assert forall|e: FileEntry| files_of(r).contains(e) implies files_of(s).contains(e) && e.0 != s[i].title@ by {
        let k = choose|k: int| 0 <= k < r.len() && r[k].title@ == e.0 && r[k].data@ == e.1;
        if k < i {
            assert(s[k] == r[k]);
        } else {
            assert(s[k + 1] == r[k]);
        }
    }
    assert forall|e: FileEntry| files_of(s).contains(e) && e.0 != s[i].title@ implies files_of(r).contains(e) by {
        let k = choose|k: int| 0 <= k < s.len() && s[k].title@ == e.0 && s[k].data@ == e.1;
        if k < i {
            assert(s[k] == r[k]);
        } else {
            assert(s[k] == r[k - 1]);
        }
    }
    assert(files_of(r) =~= without_title(files_of(s), s[i].title@));
}

/// The files held by this peer, each title once.
pub struct FileStore {
    files: Vec<StoredFile>,
}

impl View for FileStore {
    type V = Set<FileEntry>;

    closed spec fn view(&self) -> Set<FileEntry> {
        files_of(self.files@)
    }
}

impl FileStore {
    pub closed spec fn wf(&self) -> bool {
        titles_unique(self.files@)
    }

    pub fn new() -> (r: FileStore)
        ensures
            r.wf(),
            r@ == Set::<FileEntry>::empty(),
    {
        let r = FileStore { files: Vec::new() };
        assert(r@ =~= Set::<FileEntry>::empty());
        r
    }

    fn find(&self, title: &String) -> (r: Option<usize>)
        ensures
            match r {
                Some(i) => i < self.files@.len() && self.files@[i as int].title@ == title@,
                None => !holds_title(self@, title@),
            },
    {
        let mut i: usize = 0;
        while i < self.files.len()
            invariant
                i <= self.files@.len(),
                forall|k: int| 0 <= k < i ==> self.files@[k].title@ != title@,
            decreases self.files@.len() - i,
        {
            if self.files[i].title == *title {
                return Some(i);
            }
            i = i + 1;
        }
        None
    }

    /// Whether a file with this title is held.
    pub fn contains(&self, title: &String) -> (r: bool)
        ensures
            r == holds_title(self@, title@),
    {
        match self.find(title) {
            Some(i) => {
                assert(self@.contains((title@, self.files@[i as int].data@)));
                true
            },
            None => false,
        }
    }

    /// A copy of the bytes stored under `title`.
    pub fn get(&self, title: &String) -> (r: Option<Vec<u8>>)
        ensures
            match r {
                Some(v) => self@.contains((title@, v@)),
                None => !holds_title(self@, title@),
            },
    {
        match self.find(title) {
            Some(i) => Some(copy_bytes(&self.files[i].data)),
            None => None,
        }
    }

    /// Stores `data` under `title`, replacing an older file of that title.
    pub fn put(&mut self, title: String, data: Vec<u8>)
        requires
            old(self).wf(),
        ensures
            final(self).wf(),
            final(self)@ == put_spec(old(self)@, title@, data@),
    {
        let ghost t = title@;
        let ghost v = data@;
        if let Some(i) = self.find(&title) {
            proof {
                lemma_remove_file(self.files@, i as int);
            }
            self.files.remove(i);
        }
        let ghost before = self.files@;
        assert(files_of(before) == without_title(old(self)@, t)) by {
            if !holds_title(old(self)@, t) {
                assert(files_of(before) =~= without_title(old(self)@, t));
            }
        }
        self.files.push(StoredFile { title, data });
        assert forall|e: FileEntry| self@.contains(e) <==> put_spec(old(self)@, t, v).contains(e) by {
            if self@.contains(e) {
                let k = choose|k: int| 0 <= k < self.files@.len() && self.files@[k].title@ == e.0 && self.files@[k].data@ == e.1;
                if k < before.len() {
                    assert(before[k] == self.files@[k]);
                    assert(files_of(before).contains(e));
                }
            }
            if files_of(before).contains(e) {
                let k = choose|k: int| 0 <= k < before.len() && before[k].title@ == e.0 && before[k].data@ == e.1;
                assert(before[k] == self.files@[k]);
            }
            if e == (t, v) {
                assert(self.files@[before.len() as int].title@ == t);
            }
        }
        assert(self@ =~= put_spec(old(self)@, t, v));
        assert forall|a: int, b: int|
            0 <= a < self.files@.len() && 0 <= b < self.files@.len() && a != b
            implies self.files@[a].title@ != self.files@[b].title@ by {
            if a < before.len() && b < before.len() {
                assert(before[a] == self.files@[a] && before[b] == self.files@[b]);
            } else if a < before.len() {
                assert(before[a] == self.files@[a]);
                assert(files_of(before).contains((before[a].title@, before[a].data@)));
            } else {
                assert(before[b] == self.files@[b]);
                assert(files_of(before).contains((before[b].title@, before[b].data@)));
            }
        }
    }

    /// Removes the file titled `title`, if there is one.
    pub fn remove(&mut self, title: &String)
        requires
            old(self).wf(),
        ensures
            final(self).wf(),
            final(self)@ == without_title(old(self)@, title@),
    {
        match self.find(title) {
            Some(i) => {
                proof {
                    lemma_remove_file(self.files@, i as int);
                }
                self.files.remove(i);
            },
            None => {
                assert(self@ =~= without_title(old(self)@, title@));
            },
        }
    }

    /// The titles of the stored files.
    pub fn titles(&self) -> (r: Vec<String>)
        ensures
            forall|t: Seq<char>| (exists|i: int| 0 <= i < r@.len() && #[trigger] r@[i]@ == t)
                <==> holds_title(self@, t),
    {
        let mut r: Vec<String> = Vec::new();
        let mut i: usize = 0;
        while i < self.files.len()
            invariant
                i <= self.files@.len(),
                r@.len() == i,
                forall|k: int| 0 <= k < i ==> #[trigger] r@[k]@ == self.files@[k].title@,
            decreases self.files@.len() - i,
        {
            r.push(self.files[i].title.clone());
            i = i + 1;
        }
        assert forall|t: Seq<char>| (exists|i: int| 0 <= i < r@.len() && #[trigger] r@[i]@ == t)
            <==> holds_title(self@, t) by {
            if exists|i: int| 0 <= i < r@.len() && #[trigger] r@[i]@ == t {
                let k = choose|k: int| 0 <= k < r@.len() && #[trigger] r@[k]@ == t;
                assert(self@.contains((t, self.files@[k].data@)));
            }
            if holds_title(self@, t) {
                let v = choose|v: Seq<u8>| self@.contains((t, v));
                let k = choose|k: int| 0 <= k < self.files@.len() && self.files@[k].title@ == t && self.files@[k].data@ == v;
                assert(r@[k]@ == t);
            }
        }
        r
    }
}

} // verus!
