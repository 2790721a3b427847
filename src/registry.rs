use vstd::prelude::*;

use crate::address::Addr;
use crate::peer::Peer;

verus! {

/// No two entries share an address.
pub open spec fn keys_unique(s: Seq<(Addr, Peer)>) -> bool {
    forall|i: int, j: int|
        0 <= i < s.len() && 0 <= j < s.len() && #[trigger] s[i].0 == #[trigger] s[j].0 ==> i == j
}

/// Some entry is stored under `k`.
pub open spec fn has_key(s: Seq<(Addr, Peer)>, k: Addr) -> bool {
    exists|i: int| 0 <= i < s.len() && #[trigger] s[i].0 == k
}

/// The mapping that a list of entries with unique addresses stands for.
pub open spec fn entries_map(s: Seq<(Addr, Peer)>) -> Map<Addr, Peer> {
    Map::new(
        |k: Addr| has_key(s, k),
        |k: Addr| s[choose|i: int| 0 <= i < s.len() && #[trigger] s[i].0 == k].1,
    )
}

/// The addresses of a list of entries, in order.
pub open spec fn entry_keys(s: Seq<(Addr, Peer)>) -> Seq<Addr> {
    s.map_values(|e: (Addr, Peer)| e.0)
}

pub(crate) proof fn lemma_entry(s: Seq<(Addr, Peer)>, i: int)
    requires
        keys_unique(s),
        0 <= i < s.len(),
    ensures
        entries_map(s).contains_key(s[i].0),
        entries_map(s)[s[i].0] == s[i].1,
{
    let k = s[i].0;
    assert(has_key(s, k));
    let j = choose|j: int| 0 <= j < s.len() && #[trigger] s[j].0 == k;
    assert(s[j].0 == s[i].0);
}

proof fn lemma_entries_agree(s: Seq<(Addr, Peer)>, m: Map<Addr, Peer>)
    requires
        keys_unique(s),
        forall|k: Addr| m.contains_key(k) <==> has_key(s, k),
        forall|i: int| 0 <= i < s.len() ==> m[#[trigger] s[i].0] == s[i].1,
    ensures
        entries_map(s) == m,
{
    assert forall|k: Addr| #[trigger] entries_map(s).contains_key(k) implies entries_map(s)[k] == m[k] by {
        let i = choose|i: int| 0 <= i < s.len() && #[trigger] s[i].0 == k;
        lemma_entry(s, i);
    }
    assert(entries_map(s) =~= m);
}

/// The known peers of a node: at most one descriptor per address.
pub struct PeerRegistry {
    entries: Vec<(Addr, Peer)>,
}

impl View for PeerRegistry {
    type V = Map<Addr, Peer>;

    closed spec fn view(&self) -> Map<Addr, Peer> {
        entries_map(self.entries@)
    }
}

impl PeerRegistry {
    /// Entries are unique by address.
    pub closed spec fn wf(&self) -> bool {
        keys_unique(self.entries@)
    }

    pub fn new() -> (r: PeerRegistry)
        ensures
            r.wf(),
            r@ == Map::<Addr, Peer>::empty(),
    {
        let r = PeerRegistry { entries: Vec::new() };
        assert(r@ =~= Map::<Addr, Peer>::empty());
        r
    }

    fn find(&self, addr: &Addr) -> (r: Option<usize>)
        ensures
            match r {
                Some(i) => i < self.entries@.len() && self.entries@[i as int].0 == *addr,
                None => !has_key(self.entries@, *addr),
            },
    {
        let mut i: usize = 0;
        while i < self.entries.len()
            invariant
                i <= self.entries@.len(),
                forall|j: int| 0 <= j < i ==> #[trigger] self.entries@[j].0 != *addr,
            decreases self.entries@.len() - i,
        {
            if self.entries[i].0 == *addr {
                return Some(i);
            }
            i = i + 1;
        }
        None
    }

    /// Whether an entry is stored under `addr`.
    pub fn contains(&self, addr: &Addr) -> (r: bool)
        requires
            self.wf(),
        ensures
            r == self@.contains_key(*addr),
    {
        self.find(addr).is_some()
    }

    /// The descriptor stored under `addr`, if any.
    pub fn get(&self, addr: &Addr) -> (r: Option<Peer>)
        requires
            self.wf(),
        ensures
            r == self@.get(*addr),
    {
        match self.find(addr) {
            Some(i) => {
                proof {
                    lemma_entry(self.entries@, i as int);
                }
                Some(self.entries[i].1)
            },
            None => None,
        }
    }

    /// The stored addresses, each once, in the order they were first stored.
    pub fn addresses(&self) -> (r: Vec<Addr>)
        requires
            self.wf(),
        ensures
            r@.no_duplicates(),
            forall|a: Addr| r@.contains(a) <==> self@.contains_key(a),
    {
        let mut r: Vec<Addr> = Vec::new();
        let mut i: usize = 0;
        while i < self.entries.len()
            invariant
                i <= self.entries@.len(),
                keys_unique(self.entries@),
                r@ == entry_keys(self.entries@.take(i as int)),
            decreases self.entries@.len() - i,
        {
            r.push(self.entries[i].0);
            proof {
                assert(self.entries@.take(i + 1) =~= self.entries@.take(i as int).push(self.entries@[i as int]));
                assert(entry_keys(self.entries@.take(i + 1)) =~= entry_keys(self.entries@.take(i as int)).push(self.entries@[i as int].0));
            }
            i = i + 1;
        }
        proof {
            let s = self.entries@;
            assert(s.take(s.len() as int) =~= s);
            assert forall|a: int, b: int| 0 <= a < r@.len() && 0 <= b < r@.len() && a != b implies r@[a] != r@[b] by {
                assert(r@[a] == s[a].0 && r@[b] == s[b].0);
            }
            assert forall|a: Addr| r@.contains(a) <==> self@.contains_key(a) by {
                if r@.contains(a) {
                    let j = choose|j: int| 0 <= j < r@.len() && r@[j] == a;
                    assert(s[j].0 == a);
                }
                if has_key(s, a) {
                    let j = choose|j: int| 0 <= j < s.len() && #[trigger] s[j].0 == a;
                    assert(r@[j] == a);
                }
            }
        }
        r
    }

    /// A copy of the registry, to be read while the original changes.
    pub fn snapshot(&self) -> (r: PeerRegistry)
        requires
            self.wf(),
        ensures
            r.wf(),
            r@ == self@,
    {
        let mut entries: Vec<(Addr, Peer)> = Vec::new();
        let mut i: usize = 0;
        while i < self.entries.len()
            invariant
                i <= self.entries@.len(),
                entries@ == self.entries@.take(i as int),
            decreases self.entries@.len() - i,
        {
            entries.push(self.entries[i]);
            proof {
                assert(self.entries@.take(i + 1) =~= self.entries@.take(i as int).push(self.entries@[i as int]));
            }
            i = i + 1;
        }
        proof {
            assert(self.entries@.take(self.entries@.len() as int) =~= self.entries@);
        }
        PeerRegistry { entries }
    }

    /// The stored entries, each address once.
    pub fn entries(&self) -> (r: Vec<(Addr, Peer)>)
        requires
            self.wf(),
        ensures
            keys_unique(r@),
            entries_map(r@) == self@,
    {
        self.snapshot().entries
    }

    /// The number of stored entries.
    pub fn len(&self) -> (r: usize)
        requires
            self.wf(),
        ensures
            r == self@.len(),
    {
        proof {
            lemma_len_of(self.entries@);
        }
        self.entries.len()
    }

    /// Stores `peer` under `addr`, replacing what was there.
    pub fn put(&mut self, addr: Addr, peer: Peer)
        requires
            old(self).wf(),
        ensures
            final(self).wf(),
            final(self)@ == old(self)@.insert(addr, peer),
    {
        let ghost s0 = self.entries@;
        match self.find(&addr) {
            Some(i) => {
                self.entries.set(i, (addr, peer));
                let ghost s1 = self.entries@;
                proof {
                    assert forall|a: int, b: int|
                        0 <= a < s1.len() && 0 <= b < s1.len() && #[trigger] s1[a].0 == #[trigger] s1[b].0 implies a == b by {
                        assert(s0[a].0 == s1[a].0 && s0[b].0 == s1[b].0);
                    }
                    let m = entries_map(s0).insert(addr, peer);
                    assert forall|k: Addr| m.contains_key(k) <==> has_key(s1, k) by {
                        if has_key(s0, k) {
                            let j = choose|j: int| 0 <= j < s0.len() && #[trigger] s0[j].0 == k;
                            assert(s1[j].0 == k);
                        }
                        if has_key(s1, k) {
                            let j = choose|j: int| 0 <= j < s1.len() && #[trigger] s1[j].0 == k;
                            assert(s0[j].0 == k);
                        }
                        assert(s1[i as int].0 == addr);
                    }
                    assert forall|j: int| 0 <= j < s1.len() implies m[#[trigger] s1[j].0] == s1[j].1 by {
                        if j != i {
                            lemma_entry(s0, j);
                        }
                    }
                    lemma_entries_agree(s1, m);
                }
            },
            None => {
                self.entries.push((addr, peer));
                let ghost s1 = self.entries@;
                proof {
                    assert forall|a: int, b: int|
                        0 <= a < s1.len() && 0 <= b < s1.len() && #[trigger] s1[a].0 == #[trigger] s1[b].0 implies a == b by {
                        if a < s0.len() {
                            assert(s0[a].0 == s1[a].0);
                        }
                        if b < s0.len() {
                            assert(s0[b].0 == s1[b].0);
                        }
                    }
                    let m = entries_map(s0).insert(addr, peer);
                    assert forall|k: Addr| m.contains_key(k) <==> has_key(s1, k) by {
                        if has_key(s0, k) {
                            let j = choose|j: int| 0 <= j < s0.len() && #[trigger] s0[j].0 == k;
                            assert(s1[j].0 == k);
                        }
                        if has_key(s1, k) && k != addr {
                            let j = choose|j: int| 0 <= j < s1.len() && #[trigger] s1[j].0 == k;
                            assert(s0[j].0 == k);
                        }
                        assert(s1[s0.len() as int].0 == addr);
                    }
                    assert forall|j: int| 0 <= j < s1.len() implies m[#[trigger] s1[j].0] == s1[j].1 by {
                        if j < s0.len() {
                            lemma_entry(s0, j);
                        }
                    }
                    lemma_entries_agree(s1, m);
                }
            },
        }
    }

    /// Removes the entry stored under `addr`; nothing happens if there is none.
    pub fn remove(&mut self, addr: &Addr)
        requires
            old(self).wf(),
        ensures
            final(self).wf(),
            final(self)@ == old(self)@.remove(*addr),
    {
        let ghost s0 = self.entries@;
        match self.find(addr) {
            Some(i) => {
                self.entries.remove(i);
                let ghost s1 = self.entries@;
                proof {
                    assert forall|j: int| 0 <= j < s1.len() implies #[trigger] s1[j] == s0[if j < i { j } else { j + 1 }] by {}
                    assert forall|a: int, b: int|
                        0 <= a < s1.len() && 0 <= b < s1.len() && #[trigger] s1[a].0 == #[trigger] s1[b].0 implies a == b by {
                        let a0 = if a < i { a } else { a + 1 };
                        let b0 = if b < i { b } else { b + 1 };
                        assert(s0[a0].0 == s1[a].0 && s0[b0].0 == s1[b].0);
                    }
                    let m = entries_map(s0).remove(*addr);
                    assert forall|k: Addr| m.contains_key(k) <==> has_key(s1, k) by {
                        if has_key(s0, k) && k != *addr {
                            let j = choose|j: int| 0 <= j < s0.len() && #[trigger] s0[j].0 == k;
                            assert(j != i);
                            let j1 = if j < i { j } else { j - 1 };
                            assert(s1[j1].0 == k);
                        }
                        if has_key(s1, k) {
                            let j = choose|j: int| 0 <= j < s1.len() && #[trigger] s1[j].0 == k;
                            let j0 = if j < i { j } else { j + 1 };
                            assert(s0[j0].0 == k);
                            assert(j0 != i);
                        }
                    }
                    assert forall|j: int| 0 <= j < s1.len() implies m[#[trigger] s1[j].0] == s1[j].1 by {
                        let j0 = if j < i { j } else { j + 1 };
                        lemma_entry(s0, j0);
                        assert(s0[j0].0 != s0[i as int].0);
                    }
                    lemma_entries_agree(s1, m);
                }
            },
            None => {
                proof {
                    assert(old(self)@.remove(*addr) =~= old(self)@);
                }
            },
        }
    }
}

proof fn lemma_len_of(s: Seq<(Addr, Peer)>)
    requires
        keys_unique(s),
    ensures
        entries_map(s).dom().finite(),
        entries_map(s).len() == s.len(),
    decreases s.len(),
{
    if s.len() == 0 {
        assert(entries_map(s).dom() =~= Set::<Addr>::empty());
    } else {
        let t = s.drop_last();
        assert forall|a: int, b: int|
            0 <= a < t.len() && 0 <= b < t.len() && #[trigger] t[a].0 == #[trigger] t[b].0 implies a == b by {
            assert(s[a].0 == t[a].0 && s[b].0 == t[b].0);
        }
        lemma_len_of(t);
        let k = s[s.len() - 1].0;
        assert(!has_key(t, k)) by {
            if has_key(t, k) {
                let j = choose|j: int| 0 <= j < t.len() && #[trigger] t[j].0 == k;
                assert(s[j].0 == s[s.len() - 1].0);
            }
        }
        assert forall|a: Addr|
            #[trigger] entries_map(s).dom().contains(a) <==> entries_map(t).dom().insert(k).contains(a) by {
            if has_key(s, a) && a != k {
                let j = choose|j: int| 0 <= j < s.len() && #[trigger] s[j].0 == a;
                assert(t[j].0 == a);
            }
            if has_key(t, a) {
                let j = choose|j: int| 0 <= j < t.len() && #[trigger] t[j].0 == a;
                assert(s[j].0 == a);
            }
        }
        assert(entries_map(s).dom() =~= entries_map(t).dom().insert(k));
    }
}

} // verus!
