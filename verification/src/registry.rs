//! The peer registry: the set of live peer connections.
//!
//! Each entry pairs a peer identifier (the peer's address string, the unique
//! key) with an opaque connection token that the surrounding runtime maps to
//! the actual socket. An entry exists iff its connection is believed live:
//! the per-connection handler removes it on read error or orderly close.
//! Viewed abstractly the registry is a map from identifier to token; no two
//! entries ever share a `peer_id`, whatever sequence of inserts and removes
//! produced the registry — the uniqueness is a type invariant, so it holds
//! of every reachable value.
use vstd::prelude::*;

verus! {

pub struct PeerRegistry {
    entries: Vec<(String, u64)>,
}

/// No two entries share a peer identifier.
pub open spec fn unique_keys(s: Seq<(String, u64)>) -> bool {
    forall|i: int, j: int|
        0 <= i < j < s.len() ==> (#[trigger] s[i]).0@ != (#[trigger] s[j]).0@
}

impl PeerRegistry {
    #[verifier::type_invariant]
    spec fn wf(self) -> bool {
        unique_keys(self.entries@)
    }

    /// Index of the entry carrying key `k`, if one exists.
    spec fn key_index(s: Seq<(String, u64)>, k: Seq<char>) -> int {
        choose|i: int| 0 <= i < s.len() && (#[trigger] s[i]).0@ == k
    }

    /// With unique keys, any entry that carries `k` is the one the view uses.
    proof fn lemma_entry_at(self, i: int)
        requires
            self.wf(),
            0 <= i < self.entries@.len(),
        ensures
            self@.contains_key(self.entries@[i].0@),
            self@[self.entries@[i].0@] == self.entries@[i].1,
    {
        let k = self.entries@[i].0@;
        let j = Self::key_index(self.entries@, k);
        assert(0 <= j < self.entries@.len() && self.entries@[j].0@ == k);
        assert(j == i);
    }

    pub fn new() -> (r: Self)
        ensures
            r@ == Map::<Seq<char>, u64>::empty(),
    {
        let r = PeerRegistry { entries: Vec::new() };
        proof {
            assert(r@ =~= Map::<Seq<char>, u64>::empty());
        }
        r
    }

    /// Adds an entry, replacing any entry already registered under the same
    /// identifier.
    pub fn insert(&mut self, peer_id: String, conn: u64)
        ensures
            final(self)@ == old(self)@.insert(peer_id@, conn),
    {
        proof {
            use_type_invariant(&*self);
        }
        let ghost pre = self.entries@;
        let mut v: Vec<(String, u64)> = Vec::new();
        core::mem::swap(&mut v, &mut self.entries);
        let idx = Self::scan(&v, &peer_id);
        match idx {
            Some(i) => {
                v.swap_remove(i);
                proof {
                    Self::lemma_unique_after_swap_remove(pre, v@, i as int);
                }
            },
            None => {},
        }
        let ghost mid = v@;
        proof {
            assert forall|a: int| 0 <= a < mid.len() implies (#[trigger] mid[a]).0@
                != peer_id@ by {
                match idx {
                    Some(i) => {
                        if a == i as int {
                            assert(mid[a] == pre[pre.len() - 1]);
                        } else {
                            assert(mid[a] == pre[a]);
                        }
                    },
                    None => {},
                }
            }
        }
        v.push((peer_id, conn));
        proof {
            assert forall|a: int, b: int| 0 <= a < b < v@.len() implies (#[trigger] v@[a]).0@
                != (#[trigger] v@[b]).0@ by {
                if b == v@.len() - 1 {
                    assert(mid[a].0@ != peer_id@);
                }
            }
        }
        self.entries = v;
        proof {
            Self::lemma_view_after_upsert(pre, mid, self.entries@, peer_id@, conn, idx, *old(self), *self);
        }
    }

    /// Deletes the entry under `peer_id` if one is present; removing an
    /// absent identifier leaves the registry unchanged.
    pub fn remove(&mut self, peer_id: &String)
        ensures
            final(self)@ == old(self)@.remove(peer_id@),
            !old(self)@.contains_key(peer_id@) ==> final(self)@ == old(self)@,
    {
        proof {
            use_type_invariant(&*self);
        }
        let ghost pre = self.entries@;
        let mut v: Vec<(String, u64)> = Vec::new();
        core::mem::swap(&mut v, &mut self.entries);
        let idx = Self::scan(&v, peer_id);
        match idx {
            Some(i) => {
                v.swap_remove(i);
                proof {
                    Self::lemma_unique_after_swap_remove(pre, v@, i as int);
                }
            },
            None => {},
        }
        self.entries = v;
        proof {
            match idx {
                Some(i) => {
                    Self::lemma_view_after_remove(pre, self.entries@, i as int, *old(self), *self);
                    assert(old(self)@.contains_key(peer_id@)) by {
                        old(self).lemma_entry_at(i as int);
                    }
                },
                None => {
                    assert(forall|i: int|
                        0 <= i < pre.len() ==> (#[trigger] pre[i]).0@ != peer_id@);
                    assert(!old(self)@.contains_key(peer_id@));
                    assert(final(self)@ =~= old(self)@.remove(peer_id@));
                },
            }
        }
    }

    /// Is a connection registered under `peer_id`?
    pub fn contains(&self, peer_id: &String) -> (r: bool)
        ensures
            r == self@.contains_key(peer_id@),
    {
        proof {
            use_type_invariant(self);
        }
        let idx = Self::scan(&self.entries, peer_id);
        match idx {
            Some(i) => {
                proof {
                    self.lemma_entry_at(i as int);
                }
                true
            },
            None => {
                proof {
                    assert(forall|i: int|
                        0 <= i < self.entries@.len() ==> (#[trigger] self.entries@[i]).0@
                            != peer_id@);
                }
                false
            },
        }
    }

    /// The token registered under `peer_id`, if any.
    pub fn conn_of(&self, peer_id: &String) -> (r: Option<u64>)
        ensures
            r == if self@.contains_key(peer_id@) {
                Some(self@[peer_id@])
            } else {
                None::<u64>
            },
    {
        proof {
            use_type_invariant(self);
        }
        let idx = Self::scan(&self.entries, peer_id);
        match idx {
            Some(i) => {
                proof {
                    self.lemma_entry_at(i as int);
                }
                Some(self.entries[i].1)
            },
            None => {
                proof {
                    assert(forall|i: int|
                        0 <= i < self.entries@.len() ==> (#[trigger] self.entries@[i]).0@
                            != peer_id@);
                }
                None
            },
        }
    }

    /// How many peers are registered.
    pub fn len(&self) -> (r: usize)
        ensures
            r == self@.len(),
    {
        proof {
            use_type_invariant(self);
            self.lemma_len();
        }
        self.entries.len()
    }

    /// A copy of every live entry, each registered identifier exactly once —
    /// what the broadcast scheduler walks, so that the registry lock need
    /// only be held while the copy is taken, never across a send.
    pub fn snapshot(&self) -> (r: Vec<(String, u64)>)
        ensures
            r@.len() == self@.len(),
            forall|i: int|
                0 <= i < r@.len() ==> self@.contains_key((#[trigger] r@[i]).0@) && self@[r@[i].0@]
                    == r@[i].1,
            forall|i: int, j: int|
                0 <= i < j < r@.len() ==> (#[trigger] r@[i]).0@ != (#[trigger] r@[j]).0@,
            forall|k: Seq<char>|
                self@.contains_key(k) ==> exists|i: int|
                    0 <= i < r@.len() && (#[trigger] r@[i]).0@ == k,
    {
        proof {
            use_type_invariant(self);
            self.lemma_len();
        }
        let n = self.entries.len();
        let mut r: Vec<(String, u64)> = Vec::new();
        let mut i: usize = 0;
        while i < n
            invariant
                n == self.entries@.len(),
                i <= n,
                self.wf(),
                r@.len() == i,
                forall|a: int|
                    0 <= a < i ==> (#[trigger] r@[a]).0@ == self.entries@[a].0@ && r@[a].1
                        == self.entries@[a].1,
            decreases n - i,
        {
            let id = self.entries[i].0.clone();
            let conn = self.entries[i].1;
            r.push((id, conn));
            i = i + 1;
        }
        proof {
            assert forall|a: int| 0 <= a < r@.len() implies self@.contains_key(
                (#[trigger] r@[a]).0@,
            ) && self@[r@[a].0@] == r@[a].1 by {
                self.lemma_entry_at(a);
            }
            assert forall|k: Seq<char>| self@.contains_key(k) implies exists|a: int|
                0 <= a < r@.len() && (#[trigger] r@[a]).0@ == k by {
                let w = Self::key_index(self.entries@, k);
                assert(0 <= w < self.entries@.len() && self.entries@[w].0@ == k);
                assert(r@[w].0@ == k);
            }
        }
        r
    }

    /// First index whose entry carries `peer_id`, scanning left to right.
    fn scan(v: &Vec<(String, u64)>, peer_id: &String) -> (r: Option<usize>)
        ensures
            match r {
                Some(i) => i < v@.len() && v@[i as int].0@ == peer_id@,
                None => forall|i: int|
                    0 <= i < v@.len() ==> (#[trigger] v@[i]).0@ != peer_id@,
            },
    {
        let n = v.len();
        let mut i: usize = 0;
        while i < n
            invariant
                n == v@.len(),
                i <= n,
                forall|a: int| 0 <= a < i ==> (#[trigger] v@[a]).0@ != peer_id@,
            decreases n - i,
        {
            if v[i].0 == *peer_id {
                return Some(i);
            }
            i = i + 1;
        }
        None
    }

    /// Swap-removing an entry keeps the remaining keys unique; the survivors
    /// are the old entries other than the one at `i`, the last one moved into
    /// its place.
    proof fn lemma_unique_after_swap_remove(pre: Seq<(String, u64)>, post: Seq<(String, u64)>, i: int)
        requires
            unique_keys(pre),
            0 <= i < pre.len(),
            post == pre.update(i, pre.last()).drop_last(),
        ensures
            unique_keys(post),
            post.len() == pre.len() - 1,
            forall|a: int| 0 <= a < post.len() && a != i ==> #[trigger] post[a] == pre[a],
            i < post.len() ==> post[i] == pre[pre.len() - 1],
    {
    }

    /// After swap-removing index `i`, the view is the old view without that key.
    proof fn lemma_view_after_remove(
        pre: Seq<(String, u64)>,
        post: Seq<(String, u64)>,
        i: int,
        before: Self,
        after: Self,
    )
        requires
            unique_keys(pre),
            unique_keys(post),
            0 <= i < pre.len(),
            post == pre.update(i, pre.last()).drop_last(),
            before.entries@ == pre,
            after.entries@ == post,
        ensures
            after@ == before@.remove(pre[i].0@),
    {
        let k = pre[i].0@;
        let last = pre.len() - 1;
        Self::lemma_unique_after_swap_remove(pre, post, i);
        assert forall|k2: Seq<char>| after@.contains_key(k2) implies before@.remove(
            k,
        ).contains_key(k2) && after@[k2] == before@.remove(k)[k2] by {
            let a = Self::key_index(post, k2);
            assert(0 <= a < post.len() && post[a].0@ == k2);
            after.lemma_entry_at(a);
            let b: int = if a == i { last } else { a };
            assert(post[a] == pre[b]);
            assert(b != i);
            before.lemma_entry_at(b);
            assert(k2 != k);
        }
        assert forall|k2: Seq<char>| before@.remove(k).contains_key(k2) implies after@.contains_key(
            k2,
        ) by {
            let b = Self::key_index(pre, k2);
            assert(0 <= b < pre.len() && pre[b].0@ == k2);
            assert(b != i);
            let a: int = if b == last { i } else { b };
            assert(0 <= a < post.len());
            assert(post[a] == pre[b]);
            after.lemma_entry_at(a);
        }
        assert(after@ =~= before@.remove(k));
    }

    /// After deleting any old entry under `k` and pushing `(k, conn)`, the
    /// view is the old view with `k` now mapped to `conn`.
    proof fn lemma_view_after_upsert(
        pre: Seq<(String, u64)>,
        mid: Seq<(String, u64)>,
        post: Seq<(String, u64)>,
        k: Seq<char>,
        conn: u64,
        idx: Option<usize>,
        before: Self,
        after: Self,
    )
        requires
            unique_keys(pre),
            unique_keys(mid),
            unique_keys(post),
            before.entries@ == pre,
            after.entries@ == post,
            match idx {
                Some(i) => 0 <= (i as int) < pre.len() && pre[i as int].0@ == k && mid
                    == pre.update(i as int, pre.last()).drop_last(),
                None => mid == pre && forall|i: int|
                    0 <= i < pre.len() ==> (#[trigger] pre[i]).0@ != k,
            },
            post.len() == mid.len() + 1,
            post.last().0@ == k,
            post.last().1 == conn,
            forall|i: int| 0 <= i < mid.len() ==> #[trigger] post[i] == mid[i],
        ensures
            after@ == before@.insert(k, conn),
    {
        if let Some(i) = idx {
            Self::lemma_unique_after_swap_remove(pre, mid, i as int);
        }
        let last = pre.len() - 1;
        after.lemma_entry_at(post.len() - 1);
        assert forall|k2: Seq<char>| after@.contains_key(k2) && k2 != k implies before@.insert(
            k,
            conn,
        ).contains_key(k2) && after@[k2] == before@.insert(k, conn)[k2] by {
            let a = Self::key_index(post, k2);
            assert(0 <= a < post.len() && post[a].0@ == k2);
            after.lemma_entry_at(a);
            assert(a < mid.len());
            assert(post[a] == mid[a]);
            match idx {
                Some(i) => {
                    let b: int = if a == i as int {
                        last
                    } else {
                        a
                    };
                    assert(mid[a] == pre[b]);
                    before.lemma_entry_at(b);
                },
                None => {
                    before.lemma_entry_at(a);
                },
            }
        }
        assert forall|k2: Seq<char>| before@.contains_key(k2) && k2 != k implies after@.contains_key(
            k2,
        ) by {
            let b = Self::key_index(pre, k2);
            assert(0 <= b < pre.len() && pre[b].0@ == k2);
            match idx {
                Some(i) => {
                    assert(b != i as int);
                    let a: int = if b == last {
                        i as int
                    } else {
                        b
                    };
                    assert(0 <= a < mid.len());
                    assert(mid[a] == pre[b]);
                    assert(post[a] == mid[a]);
                    after.lemma_entry_at(a);
                },
                None => {
                    assert(post[b] == mid[b]);
                    after.lemma_entry_at(b);
                },
            }
        }
        assert(after@ =~= before@.insert(k, conn));
    }

    /// The abstract map has exactly one key per stored entry.
    proof fn lemma_len(self)
        requires
            self.wf(),
        ensures
            self@.len() == self.entries@.len(),
    {
        let keys = self.entries@.map_values(|e: (String, u64)| e.0@);
        assert(keys.no_duplicates()) by {
            assert forall|i: int, j: int|
                0 <= i < keys.len() && 0 <= j < keys.len() && i != j implies keys[i]
                != keys[j] by {
                assert(keys[i] == self.entries@[i].0@);
                assert(keys[j] == self.entries@[j].0@);
            }
        }
        keys.unique_seq_to_set();
        assert forall|k: Seq<char>| self@.dom().contains(k) implies keys.to_set().contains(
            k,
        ) by {
            let i = Self::key_index(self.entries@, k);
            assert(0 <= i < self.entries@.len() && self.entries@[i].0@ == k);
            assert(keys[i] == k);
        }
        assert forall|k: Seq<char>| keys.to_set().contains(k) implies self@.dom().contains(
            k,
        ) by {
            let i = choose|i: int| 0 <= i < keys.len() && keys[i] == k;
            assert(self.entries@[i].0@ == k);
        }
        assert(self@.dom() =~= keys.to_set());
    }
}

impl View for PeerRegistry {
    type V = Map<Seq<char>, u64>;

    /// The registry viewed as a map from peer identifier to connection token.
    closed spec fn view(&self) -> Map<Seq<char>, u64> {
        Map::new(
            |k: Seq<char>|
                exists|i: int|
                    0 <= i < self.entries@.len() && (#[trigger] self.entries@[i]).0@ == k,
            |k: Seq<char>| self.entries@[PeerRegistry::key_index(self.entries@, k)].1,
        )
    }
}

} // verus!
