use vstd::prelude::*;
use vstd::relations::injective_on;
use vstd::set_lib::{lemma_int_range, lemma_len_subset, lemma_map_size, set_int_range};
use crate::types::{Addr, Member};

verus! {

/// A directory entry as a mathematical value: the name and the address.
pub type Entry = (Seq<char>, Addr);

/// The entries held by a sequence of members.
pub open spec fn entries_of(s: Seq<Member>) -> Set<Entry> {
    Set::new(|e: Entry| exists|i: int| 0 <= i < s.len() && s[i].name@ == e.0 && s[i].addr == e.1)
}

/// No two members of the sequence carry the same name.
pub open spec fn names_unique(s: Seq<Member>) -> bool {
    forall|i: int, j: int|
        0 <= i < s.len() && 0 <= j < s.len() && i != j ==> s[i].name@ != s[j].name@
}

/// No two entries of the set carry the same name.
pub open spec fn unique_names(d: Set<Entry>) -> bool {
    forall|a: Entry, b: Entry| d.contains(a) && d.contains(b) && a.0 == b.0 ==> a == b
}

/// No two members of the sequence listen on the same address.
pub open spec fn addrs_unique(s: Seq<Member>) -> bool {
    forall|i: int, j: int|
        0 <= i < s.len() && 0 <= j < s.len() && i != j ==> s[i].addr != s[j].addr
}

/// No two entries of the set point at the same address.
pub open spec fn unique_addrs(d: Set<Entry>) -> bool {
    forall|a: Entry, b: Entry| d.contains(a) && d.contains(b) && a.1 == b.1 ==> a == b
}

pub open spec fn has_name(d: Set<Entry>, n: Seq<char>) -> bool {
    exists|a: Addr| d.contains((n, a))
}

pub open spec fn has_addr(d: Set<Entry>, a: Addr) -> bool {
    exists|n: Seq<char>| d.contains((n, a))
}

/// The directory after `name` is set to `addr`: an older entry under that name, or at that
/// address, is replaced.
pub open spec fn insert_spec(d: Set<Entry>, name: Seq<char>, addr: Addr) -> Set<Entry> {
    d.filter(|e: Entry| e.0 != name && e.1 != addr).insert((name, addr))
}

/// The directory after the members of `t` are set one after the other.
pub open spec fn merge_spec(d: Set<Entry>, t: Seq<Entry>) -> Set<Entry>
    decreases t.len(),
{
    if t.len() == 0 {
        d
    } else {
        insert_spec(merge_spec(d, t.drop_last()), t.last().0, t.last().1)
    }
}

/// A table of members as a sequence of entries.
pub open spec fn table_view(t: Seq<Member>) -> Seq<Entry> {
    t.map_values(|m: Member| (m.name@, m.addr))
}

/// The directory without the entries that point at `a`.
pub open spec fn without_addr(d: Set<Entry>, a: Addr) -> Set<Entry> {
    d.filter(|e: Entry| e.1 != a)
}

/// The directory without the entry named `n`.
pub open spec fn without_name(d: Set<Entry>, n: Seq<char>) -> Set<Entry> {
    d.filter(|e: Entry| e.0 != n)
}

proof fn lemma_remove_index(s: Seq<Member>, i: int)
    requires
        names_unique(s),
        0 <= i < s.len(),
    ensures
        names_unique(s.remove(i)),
        addrs_unique(s) ==> addrs_unique(s.remove(i)),
        entries_of(s.remove(i)) == entries_of(s).remove((s[i].name@, s[i].addr)),
        entries_of(s.remove(i)) == without_name(entries_of(s), s[i].name@),
{
    let r = s.remove(i);
    if addrs_unique(s) {
        assert forall|a: int, b: int| 0 <= a < r.len() && 0 <= b < r.len() && a != b implies r[a].addr != r[b].addr by {
            let a2 = if a < i { a } else { a + 1 };
            let b2 = if b < i { b } else { b + 1 };
            assert(r[a] == s[a2] && r[b] == s[b2]);
        }
    }
    assert forall|e: Entry| entries_of(r).contains(e) implies entries_of(s).contains(e) && e.0 != s[i].name@ by {
        let k = choose|k: int| 0 <= k < r.len() && r[k].name@ == e.0 && r[k].addr == e.1;
        if k < i {
            assert(s[k] == r[k]);
        } else {
            assert(s[k + 1] == r[k]);
        }
    }
    assert forall|e: Entry| entries_of(s).contains(e) && e.0 != s[i].name@ implies entries_of(r).contains(e) by {
        let k = choose|k: int| 0 <= k < s.len() && s[k].name@ == e.0 && s[k].addr == e.1;
        if k < i {
            assert(s[k] == r[k]);
        } else {
            assert(s[k] == r[k - 1]);
        }
    }
    assert(entries_of(r) =~= entries_of(s).remove((s[i].name@, s[i].addr)));
    assert(entries_of(r) =~= without_name(entries_of(s), s[i].name@));
}

proof fn lemma_unique(s: Seq<Member>)
    requires
        names_unique(s),
    ensures
        unique_names(entries_of(s)),
{
}

/// The replicated table of who is online: a set of (name, address) entries in which
/// each name occurs once.
pub struct Directory {
    members: Vec<Member>,
}

impl View for Directory {
    type V = Set<Entry>;

    closed spec fn view(&self) -> Set<Entry> {
        entries_of(self.members@)
    }
}

impl Directory {
    pub closed spec fn wf(&self) -> bool {
        names_unique(self.members@) && addrs_unique(self.members@)
    }

    /// The number of entries.
    pub closed spec fn size(&self) -> nat {
        self.members@.len()
    }

    pub proof fn lemma_wf(&self)
        requires
            self.wf(),
        ensures
            unique_names(self@),
            unique_addrs(self@),
            self@.finite(),
            self@.len() == self.size(),
    {
        lemma_unique(self.members@);
        lemma_entries_len(self.members@);
    }

    /// A directory that holds only the given entry.
    pub fn new(name: String, addr: Addr) -> (d: Directory)
        ensures
            d.wf(),
            d@ == set![(name@, addr)],
            d.size() == 1,
    {
        let ghost n = name@;
        let mut members: Vec<Member> = Vec::new();
        members.push(Member { name, addr });
        let d = Directory { members };
        assert(d.members@[0].name@ == n);
        assert(d@ =~= set![(n, addr)]);
        d
    }

    /// A directory with no entry.
    pub fn empty() -> (d: Directory)
        ensures
            d.wf(),
            d@ == Set::<Entry>::empty(),
    {
        let d = Directory { members: Vec::new() };
        assert(d@ =~= Set::<Entry>::empty());
        d
    }

    /// The number of entries.
    pub fn len(&self) -> (r: usize)
        ensures
            r == self.size(),
    {
        self.members.len()
    }

    fn find_name(&self, name: &String) -> (r: Option<usize>)
        requires
            self.wf(),
        ensures
            match r {
                Some(i) => i < self.members@.len() && self.members@[i as int].name@ == name@,
                None => !has_name(self@, name@),
            },
    {
        let mut i: usize = 0;
        while i < self.members.len()
            invariant
                i <= self.members@.len(),
                forall|k: int| 0 <= k < i ==> self.members@[k].name@ != name@,
            decreases self.members@.len() - i,
        {
            if self.members[i].name == *name {
                return Some(i);
            }
            i = i + 1;
        }
        None
    }

    fn find_addr(&self, addr: Addr) -> (r: Option<usize>)
        ensures
            match r {
                Some(i) => i < self.members@.len() && self.members@[i as int].addr == addr,
                None => !has_addr(self@, addr),
            },
    {
        let mut i: usize = 0;
        while i < self.members.len()
            invariant
                i <= self.members@.len(),
                forall|k: int| 0 <= k < i ==> self.members@[k].addr != addr,
            decreases self.members@.len() - i,
        {
            if self.members[i].addr == addr {
                return Some(i);
            }
            i = i + 1;
        }
        None
    }

    /// Whether some entry carries `name`.
    pub fn contains_name(&self, name: &String) -> (r: bool)
        requires
            self.wf(),
        ensures
            r == has_name(self@, name@),
    {
        match self.find_name(name) {
            Some(i) => {
                assert(self@.contains((name@, self.members@[i as int].addr)));
                true
            },
            None => false,
        }
    }

    /// Whether some entry points at `addr`.
    pub fn contains_addr(&self, addr: Addr) -> (r: bool)
        ensures
            r == has_addr(self@, addr),
    {
        match self.find_addr(addr) {
            Some(i) => {
                assert(self@.contains((self.members@[i as int].name@, addr)));
                true
            },
            None => false,
        }
    }

    /// The name under which `addr` is listed, if any.
    pub fn name_of(&self, addr: Addr) -> (r: Option<String>)
        ensures
            match r {
                Some(n) => self@.contains((n@, addr)),
                None => !has_addr(self@, addr),
            },
    {
        match self.find_addr(addr) {
            Some(i) => Some(self.members[i].name.clone()),
            None => None,
        }
    }

    /// Sets `name` to `addr`, replacing an older entry under that name or at that address.
    pub fn insert(&mut self, name: String, addr: Addr)
        requires
            old(self).wf(),
        ensures
            final(self).wf(),
            final(self)@ == insert_spec(old(self)@, name@, addr),
    {
        let ghost n = name@;
        self.remove_addr(addr);
        self.remove_name(&name);
        let ghost before = self.members@;
        assert(entries_of(before) =~= insert_spec(old(self)@, n, addr).remove((n, addr)));
        self.members.push(Member { name, addr });
        assert forall|e: Entry| self@.contains(e) <==> insert_spec(old(self)@, n, addr).contains(e) by {
            if self@.contains(e) {
                let k = choose|k: int| 0 <= k < self.members@.len() && self.members@[k].name@ == e.0 && self.members@[k].addr == e.1;
                if k < before.len() {
                    assert(before[k] == self.members@[k]);
                    assert(entries_of(before).contains(e));
                }
            }
            if entries_of(before).contains(e) {
                let k = choose|k: int| 0 <= k < before.len() && before[k].name@ == e.0 && before[k].addr == e.1;
                assert(before[k] == self.members@[k]);
            }
            if e == (n, addr) {
                assert(self.members@[before.len() as int].name@ == n);
            }
        }
        assert(self@ =~= insert_spec(old(self)@, n, addr));
        assert forall|a: int, b: int|
            0 <= a < self.members@.len() && 0 <= b < self.members@.len() && a != b
            implies self.members@[a].name@ != self.members@[b].name@ && self.members@[a].addr != self.members@[b].addr by {
            if a < before.len() && b < before.len() {
                assert(before[a] == self.members@[a] && before[b] == self.members@[b]);
            } else if a < before.len() {
                assert(before[a] == self.members@[a]);
                assert(entries_of(before).contains((before[a].name@, before[a].addr)));
            } else {
                assert(before[b] == self.members@[b]);
                assert(entries_of(before).contains((before[b].name@, before[b].addr)));
            }
        }
    }
}

impl Directory {
    /// Removes the entry named `name`, if there is one.
    pub fn remove_name(&mut self, name: &String)
        requires
            old(self).wf(),
        ensures
            final(self).wf(),
            final(self)@ == without_name(old(self)@, name@),
    {
        match self.find_name(name) {
            Some(i) => {
                proof {
                    lemma_remove_index(self.members@, i as int);
                }
                self.members.remove(i);
            },
            None => {
                assert(self@ =~= without_name(old(self)@, name@));
            },
        }
    }

    /// Removes every entry that points at `addr`.
    pub fn remove_addr(&mut self, addr: Addr)
        requires
            old(self).wf(),
        ensures
            final(self).wf(),
            final(self)@ == without_addr(old(self)@, addr),
    {
        loop
            invariant
                self.wf(),
                without_addr(self@, addr) == without_addr(old(self)@, addr),
                self@.subset_of(old(self)@),
            decreases self.members@.len(),
        {
            match self.find_addr(addr) {
                Some(i) => {
                    proof {
                        lemma_remove_index(self.members@, i as int);
                    }
                    let ghost before = self@;
                    self.members.remove(i);
                    assert(without_addr(self@, addr) =~= without_addr(before, addr));
                },
                None => {
                    assert(self@ =~= without_addr(self@, addr));
                    return;
                },
            }
        }
    }

    /// Sets each member of `table` in turn, as `insert` does.
    pub fn merge(&mut self, table: &Vec<Member>)
        requires
            old(self).wf(),
        ensures
            final(self).wf(),
            final(self)@ == merge_spec(old(self)@, table_view(table@)),
    {
        let mut i: usize = 0;
        while i < table.len()
            invariant
                i <= table@.len(),
                self.wf(),
                self@ == merge_spec(old(self)@, table_view(table@).take(i as int)),
            decreases table@.len() - i,
        {
            let name = table[i].name.clone();
            self.insert(name, table[i].addr);
            assert(table_view(table@).take(i + 1).drop_last() =~= table_view(table@).take(i as int));
            i = i + 1;
        }
        assert(table_view(table@).take(i as int) =~= table_view(table@));
    }

    /// A copy of the entries, to be sent to other peers.
    pub fn members(&self) -> (r: Vec<Member>)
        requires
            self.wf(),
        ensures
            names_unique(r@),
            entries_of(r@) == self@,
            table_view(r@).to_set() == self@,
    {
        let mut r: Vec<Member> = Vec::new();
        let mut i: usize = 0;
        while i < self.members.len()
            invariant
                i <= self.members@.len(),
                r@.len() == i,
                forall|k: int| 0 <= k < i ==> #[trigger] r@[k].name@ == self.members@[k].name@
                    && r@[k].addr == self.members@[k].addr,
            decreases self.members@.len() - i,
        {
            r.push(Member { name: self.members[i].name.clone(), addr: self.members[i].addr });
            i = i + 1;
        }
        assert forall|e: Entry| entries_of(r@).contains(e) <==> self@.contains(e) by {
            if entries_of(r@).contains(e) {
                let k = choose|k: int| 0 <= k < r@.len() && r@[k].name@ == e.0 && r@[k].addr == e.1;
                assert(self.members@[k].name@ == e.0);
            }
            if self@.contains(e) {
                let k = choose|k: int| 0 <= k < self.members@.len() && self.members@[k].name@ == e.0 && self.members@[k].addr == e.1;
                assert(r@[k].name@ == e.0);
            }
        }
        assert(entries_of(r@) =~= self@);
        assert forall|e: Entry| table_view(r@).to_set().contains(e) <==> entries_of(r@).contains(e) by {
            if table_view(r@).contains(e) {
                let k = choose|k: int| 0 <= k < table_view(r@).len() && table_view(r@)[k] == e;
                assert(r@[k].name@ == e.0);
            }
            if entries_of(r@).contains(e) {
                let k = choose|k: int| 0 <= k < r@.len() && r@[k].name@ == e.0 && r@[k].addr == e.1;
                assert(table_view(r@)[k] == e);
            }
        }
        assert(table_view(r@).to_set() =~= self@);
        assert forall|a: int, b: int| 0 <= a < r@.len() && 0 <= b < r@.len() && a != b
            implies r@[a].name@ != r@[b].name@ by {
            assert(r@[a].name@ == self.members@[a].name@);
            assert(r@[b].name@ == self.members@[b].name@);
        }
        r
    }

    /// The addresses of the entries, leaving out `me`.
    pub fn others(&self, me: Addr) -> (r: Vec<Addr>)
        requires
            self.wf(),
        ensures
            forall|a: Addr| r@.contains(a) <==> has_addr(self@, a) && a != me,
            r@.no_duplicates(),
            r@.len() <= self.size(),
    {
        let mut r: Vec<Addr> = Vec::new();
        let mut i: usize = 0;
        while i < self.members.len()
            invariant
                i <= self.members@.len(),
                r@.len() <= i,
                self.wf(),
                r@.no_duplicates(),
                forall|a: Addr| r@.contains(a) <==> a != me && exists|k: int| 0 <= k < i && self.members@[k].addr == a,
            decreases self.members@.len() - i,
        {
            let a = self.members[i].addr;
            let ghost old_r = r@;
            if a != me {
                assert(!old_r.contains(a)) by {
                    if old_r.contains(a) {
                        let k = choose|k: int| 0 <= k < i && self.members@[k].addr == a;
                        assert(self.members@[k].addr != self.members@[i as int].addr);
                    }
                }
                r.push(a);
                assert forall|x: int, y: int| 0 <= x < r@.len() && 0 <= y < r@.len() && x != y implies r@[x] != r@[y] by {
                    if x < old_r.len() && y < old_r.len() {
                        assert(r@[x] == old_r[x] && r@[y] == old_r[y]);
                    } else if x < old_r.len() {
                        assert(r@[x] == old_r[x]);
                        assert(old_r.contains(r@[x]));
                    } else {
                        assert(r@[y] == old_r[y]);
                        assert(old_r.contains(r@[y]));
                    }
                }
                assert forall|b: Addr| r@.contains(b) <==> old_r.contains(b) || b == a by {
                    if old_r.contains(b) {
                        let j = choose|j: int| 0 <= j < old_r.len() && old_r[j] == b;
                        assert(r@[j] == b);
                    }
                    if r@.contains(b) && b != a {
                        let j = choose|j: int| 0 <= j < r@.len() && r@[j] == b;
                        assert(old_r[j] == b);
                    }
                    if b == a {
                        assert(r@[r@.len() - 1] == b);
                    }
                }
            }
            assert forall|b: Addr| r@.contains(b) <==> b != me && exists|k: int| 0 <= k < i + 1 && self.members@[k].addr == b by {
                if b != me && exists|k: int| 0 <= k < i + 1 && self.members@[k].addr == b {
                    let k = choose|k: int| 0 <= k < i + 1 && self.members@[k].addr == b;
                    if k < i {
                        assert(old_r.contains(b));
                    }
                }
                if old_r.contains(b) {
                    let k = choose|k: int| 0 <= k < i && self.members@[k].addr == b;
                    assert(0 <= k < i + 1 && self.members@[k].addr == b);
                }
                if a != me && b == a {
                    assert(self.members@[i as int].addr == b);
                }
            }
            i = i + 1;
        }
        assert forall|a: Addr| has_addr(self@, a) implies exists|k: int| 0 <= k < i && self.members@[k].addr == a by {
            let n = choose|n: Seq<char>| self@.contains((n, a));
            let k = choose|k: int| 0 <= k < self.members@.len() && self.members@[k].name@ == n && self.members@[k].addr == a;
        }
        assert forall|a: Addr| (exists|k: int| 0 <= k < i && self.members@[k].addr == a) implies has_addr(self@, a) by {
            let k = choose|k: int| 0 <= k < i && self.members@[k].addr == a;
            assert(self@.contains((self.members@[k].name@, a)));
        }
        r
    }
}

/// The decimal digit `d` as a character.
pub open spec fn digit_char(d: nat) -> char {
    if d == 0 { '0' } else if d == 1 { '1' } else if d == 2 { '2' } else if d == 3 { '3' }
    else if d == 4 { '4' } else if d == 5 { '5' } else if d == 6 { '6' } else if d == 7 { '7' }
    else if d == 8 { '8' } else { '9' }
}

/// The decimal notation of `n`.
pub open spec fn decimal(n: nat) -> Seq<char>
    decreases n,
{
    if n < 10 {
        seq![digit_char(n)]
    } else {
        decimal(n / 10) + seq![digit_char(n % 10)]
    }
}

/// The name `p#n`, offered when `p` is taken.
pub open spec fn suffixed(p: Seq<char>, n: nat) -> Seq<char> {
    p + seq!['#'] + decimal(n)
}

/// `r` is `p` when no entry of `d` carries `p`, else the first `p#n` (n = 1, 2, ...) that no
/// entry carries.
pub open spec fn is_first_free(d: Set<Entry>, p: Seq<char>, r: Seq<char>) -> bool {
    &&& !has_name(d, r)
    &&& !has_name(d, p) ==> r == p
    &&& has_name(d, p) ==> exists|n: nat| 1 <= n && r == suffixed(p, n)
        && forall|m: nat| 1 <= m < n ==> has_name(d, #[trigger] suffixed(p, m))
}

proof fn lemma_decimal_nonempty(n: nat)
    ensures
        decimal(n).len() >= 1,
    decreases n,
{
    if n >= 10 {
        lemma_decimal_nonempty(n / 10);
    }
}

proof fn lemma_decimal_injective(n: nat, m: nat)
    requires
        decimal(n) == decimal(m),
    ensures
        n == m,
    decreases n,
{
    if n < 10 && m < 10 {
        assert(decimal(n)[0] == digit_char(n));
        assert(decimal(m)[0] == digit_char(m));
    } else if n < 10 {
        lemma_decimal_nonempty(m / 10);
        assert(decimal(m).len() >= 2);
    } else if m < 10 {
        lemma_decimal_nonempty(n / 10);
        assert(decimal(n).len() >= 2);
    } else {
        let dn = decimal(n);
        let dm = decimal(m);
        assert(dn.drop_last() =~= decimal(n / 10));
        assert(dm.drop_last() =~= decimal(m / 10));
        lemma_decimal_injective(n / 10, m / 10);
        assert(dn.last() == digit_char(n % 10));
        assert(dm.last() == digit_char(m % 10));
    }
}

proof fn lemma_suffixed_injective(p: Seq<char>, n: nat, m: nat)
    requires
        suffixed(p, n) == suffixed(p, m),
    ensures
        n == m,
{
    let k = p.len() + 1;
    assert(suffixed(p, n).subrange(k as int, suffixed(p, n).len() as int) =~= decimal(n));
    assert(suffixed(p, m).subrange(k as int, suffixed(p, m).len() as int) =~= decimal(m));
    lemma_decimal_injective(n, m);
}

fn digit_str(d: u64) -> (r: &'static str)
    requires
        d < 10,
    ensures
        r@ == seq![digit_char(d as nat)],
{
    proof {
        reveal_strlit("0");
        reveal_strlit("1");
        reveal_strlit("2");
        reveal_strlit("3");
        reveal_strlit("4");
        reveal_strlit("5");
        reveal_strlit("6");
        reveal_strlit("7");
        reveal_strlit("8");
        reveal_strlit("9");
    }
    let r = if d == 0 { "0" } else if d == 1 { "1" } else if d == 2 { "2" } else if d == 3 { "3" }
    else if d == 4 { "4" } else if d == 5 { "5" } else if d == 6 { "6" } else if d == 7 { "7" }
    else if d == 8 { "8" } else { "9" };
    assert(r@ =~= seq![digit_char(d as nat)]);
    r
}

/// Writes `n` in decimal.
pub fn decimal_string(n: u64) -> (r: String)
    ensures
        r@ == decimal(n as nat),
    decreases n,
{
    if n < 10 {
        String::from_str(digit_str(n))
    } else {
        let mut s = decimal_string(n / 10);
        s.append(digit_str(n % 10));
        s
    }
}

/// The distance from `me` forward to `a` in the ring of endpoints sorted by key.
pub open spec fn ring_dist(me: Addr, a: Addr) -> int {
    if a.key() > me.key() {
        a.key() - me.key()
    } else {
        a.key() - me.key() + 0x1_0000_0000_0000
    }
}

impl Directory {
    fn suffixed_name(proposed: &String, n: u64) -> (r: String)
        ensures
            r@ == suffixed(proposed@, n as nat),
    {
        proof {
            reveal_strlit("#");
        }
        let mut c = proposed.clone();
        c.append("#");
        let d = decimal_string(n);
        c.append(d.as_str());
        assert(c@ =~= suffixed(proposed@, n as nat));
        c
    }

    /// A name that no entry carries: `proposed` itself when free, otherwise the first free
    /// `proposed#n` for n = 1, 2, ...
    pub fn fresh_name(&self, proposed: &String) -> (r: String)
        requires
            self.wf(),
        ensures
            is_first_free(self@, proposed@, r@),
    {
        if !self.contains_name(proposed) {
            return proposed.clone();
        }
        let bound: usize = self.members.len();
        let mut i: usize = 0;
        while i < bound
            invariant
                i <= bound,
                bound == self.size(),
                self.wf(),
                has_name(self@, proposed@),
                forall|m: nat| 1 <= m <= i ==> has_name(self@, #[trigger] suffixed(proposed@, m)),
            decreases bound - i,
        {
            let c = Self::suffixed_name(proposed, i as u64 + 1);
            if !self.contains_name(&c) {
                assert(c@ == suffixed(proposed@, (i + 1) as nat));
                return c;
            }
            i = i + 1;
        }
        proof {
            self.lemma_some_candidate_free(proposed@);
        }
        proposed.clone()
    }

    /// The entry nearest to `me` going forward in the ring of endpoints, leaving out `me`
    /// and `skip`.
    pub fn nearest(&self, me: Addr, skip: Option<Addr>) -> (r: Option<Addr>)
        ensures
            match r {
                Some(a) => has_addr(self@, a) && a != me && skip != Some(a)
                    && forall|b: Addr| has_addr(self@, b) && b != me && skip != Some(b)
                        ==> ring_dist(me, a) <= ring_dist(me, b),
                None => forall|b: Addr| has_addr(self@, b) ==> b == me || skip == Some(b),
            },
    {
        let mut best: Option<Addr> = None;
        let mut best_dist: u64 = 0;
        let me_key = me.key_of();
        let mut i: usize = 0;
        while i < self.members.len()
            invariant
                i <= self.members@.len(),
                me_key == me.key(),
                match best {
                    Some(a) => has_addr(self@, a) && a != me && skip != Some(a)
                        && best_dist == ring_dist(me, a)
                        && forall|k: int| 0 <= k < i && self.members@[k].addr != me && skip != Some(self.members@[k].addr)
                            ==> ring_dist(me, a) <= ring_dist(me, #[trigger] self.members@[k].addr),
                    None => forall|k: int| 0 <= k < i ==> self.members@[k].addr == me || skip == Some(#[trigger] self.members@[k].addr),
                },
            decreases self.members@.len() - i,
        {
            let a = self.members[i].addr;
            let k = a.key_of();
            if a != me && skip != Some(a) {
                let d: u64 = if k > me_key { k - me_key } else { k + 0x1_0000_0000_0000 - me_key };
                let better = match best {
                    Some(_) => d < best_dist,
                    None => true,
                };
                if better {
                    best = Some(a);
                    best_dist = d;
                    assert(self@.contains((self.members@[i as int].name@, a)));
                }
            }
            i = i + 1;
        }
        proof {
            assert forall|b: Addr| has_addr(self@, b) implies exists|k: int| 0 <= k < self.members@.len() && self.members@[k].addr == b by {
                let n = choose|n: Seq<char>| self@.contains((n, b));
            }
        }
        best
    }
}

impl Directory {
    /// Among `p`, `p#1`, ..., `p#size` some name is free: there are more of them than entries.
    proof fn lemma_some_candidate_free(&self, p: Seq<char>)
        requires
            self.wf(),
        ensures
            !(has_name(self@, p) && forall|m: nat| 1 <= m <= self.size() ==> has_name(self@, #[trigger] suffixed(p, m))),
    {
        if has_name(self@, p) && forall|m: nat| 1 <= m <= self.size() ==> has_name(self@, #[trigger] suffixed(p, m)) {
            self.lemma_wf();
            let size = self.size() as int;
            let x = set_int_range(0, size + 1);
            lemma_int_range(0, size + 1);
            let cand = |j: int| if j == 0 { p } else { suffixed(p, j as nat) };
            let g = |j: int| (cand(j), choose|a: Addr| #[trigger] self@.contains((cand(j), a)));
            let y = x.map(g);
            assert forall|i: int, j: int| x.contains(i) && x.contains(j) && #[trigger] g(i) == #[trigger] g(j) implies i == j by {
                lemma_decimal_nonempty(i as nat);
                lemma_decimal_nonempty(j as nat);
                if i != 0 && j != 0 {
                    lemma_suffixed_injective(p, i as nat, j as nat);
                } else if i == 0 && j != 0 {
                    assert(cand(j).len() > p.len());
                } else if i != 0 && j == 0 {
                    assert(cand(i).len() > p.len());
                }
            }
            assert(injective_on(g, x));
            lemma_map_size(x, y, g);
            assert forall|e: Entry| y.contains(e) implies self@.contains(e) by {
                let j = choose|j: int| x.contains(j) && g(j) == e;
                if j != 0 {
                    assert(has_name(self@, suffixed(p, j as nat)));
                }
            }
            lemma_len_subset(y, self@);
        }
    }
}

proof fn lemma_entries_len(s: Seq<Member>)
    requires
        names_unique(s),
    ensures
        entries_of(s).finite(),
        entries_of(s).len() == s.len(),
    decreases s.len(),
{
    if s.len() == 0 {
        assert(entries_of(s) =~= Set::empty());
    } else {
        let i = s.len() - 1;
        lemma_remove_index(s, i);
        lemma_entries_len(s.remove(i));
        assert(entries_of(s).contains((s[i].name@, s[i].addr)));
        assert(entries_of(s) =~= entries_of(s.remove(i)).insert((s[i].name@, s[i].addr)));
    }
}

} // verus!
