//! The keyspace: a map of key bytes to a payload with an optional
//! absolute expiry, with lazy expiry inside `get`.
//!
//! The model of a keyspace is a `Map<Seq<u8>, RecordModel>`; every
//! operation states exactly how it reads or rewrites that map.

use vstd::prelude::*;

use crate::glob::{glob_match, matches_glob};

verus! {

/// A stored record: payload bytes and an optional absolute expiry, in
/// milliseconds since the UNIX epoch.
pub type Record = (Vec<u8>, Option<u64>);

/// Model of a record.
pub type RecordModel = (Seq<u8>, Option<u64>);

pub open spec fn record_model(r: Record) -> RecordModel {
    (r.0@, r.1)
}

/// A record is live at `now` when it has no expiry or its expiry is
/// still in the future; `expiry <= now` counts as gone.
pub open spec fn record_live(r: RecordModel, now: u64) -> bool {
    match r.1 {
        None => true,
        Some(at) => at > now,
    }
}

/// One numbered keyspace.
#[derive(Debug)]
pub struct Database {
    id: u32,
    entries: Vec<(Vec<u8>, Record)>,
}

/// The map a run of entries denotes, later entries overriding earlier.
pub open spec fn entries_map(s: Seq<(Vec<u8>, Record)>) -> Map<Seq<u8>, RecordModel>
    decreases s.len(),
{
    if s.len() == 0 {
        Map::empty()
    } else {
        entries_map(s.drop_last()).insert(s.last().0@, record_model(s.last().1))
    }
}

impl View for Database {
    type V = Map<Seq<u8>, RecordModel>;

    closed spec fn view(&self) -> Map<Seq<u8>, RecordModel> {
        entries_map(self.entries@)
    }
}

/// Keys are pairwise distinct.
pub open spec fn unique_keys(s: Seq<(Vec<u8>, Record)>) -> bool {
    forall|i: int, j: int| 0 <= i < j < s.len() ==> (#[trigger] s[i]).0@ != (#[trigger] s[j]).0@
}

/// What a run of entries with distinct keys denotes: exactly its keys,
/// each bound to its record.
proof fn lemma_entries_map_char(s: Seq<(Vec<u8>, Record)>)
    requires
        unique_keys(s),
    ensures
        forall|i: int| 0 <= i < s.len() ==> entries_map(s).contains_key((#[trigger] s[i]).0@)
            && entries_map(s)[s[i].0@] == record_model(s[i].1),
        forall|k: Seq<u8>| entries_map(s).contains_key(k) ==> exists|i: int|
            0 <= i < s.len() && (#[trigger] s[i]).0@ == k,
    decreases s.len(),
{
    if s.len() > 0 {
        let head = s.drop_last();
        assert(unique_keys(head)) by {
            assert(forall|i: int| 0 <= i < head.len() ==> head[i] == s[i]);
        }
        lemma_entries_map_char(head);
        assert(forall|i: int| 0 <= i < head.len() ==> head[i] == s[i]);
        assert forall|i: int| 0 <= i < s.len() implies entries_map(s).contains_key(
            (#[trigger] s[i]).0@,
        ) && entries_map(s)[s[i].0@] == record_model(s[i].1) by {
            if i < s.len() - 1 {
                assert(s[i].0@ != s.last().0@);
            }
        }
        assert forall|k: Seq<u8>| entries_map(s).contains_key(k) implies exists|i: int|
            0 <= i < s.len() && (#[trigger] s[i]).0@ == k by {
            if k == s.last().0@ {
                assert(s[s.len() - 1].0@ == k);
            } else {
                assert(entries_map(head).contains_key(k));
                let i = choose|i: int| 0 <= i < head.len() && (#[trigger] head[i]).0@ == k;
                assert(s[i].0@ == k);
            }
        }
    }
}

/// Two byte strings are equal.
fn bytes_eq(a: &[u8], b: &[u8]) -> (r: bool)
    ensures
        r == (a@ == b@),
{
    if a.len() != b.len() {
        assert(a@ != b@);
        return false;
    }
    let n = a.len();
    let mut i: usize = 0;
    while i < n
        invariant
            i <= n,
            n == a@.len() == b@.len(),
            forall|k: int| 0 <= k < i ==> a@[k] == b@[k],
        decreases n - i,
    {
        if a[i] != b[i] {
            return false;
        }
        i = i + 1;
    }
    proof {
        assert(a@ =~= b@);
    }
    true
}

impl Database {
    /// Internal well-formedness: entry keys are pairwise distinct.
    pub closed spec fn wf(&self) -> bool {
        unique_keys(self.entries@)
    }

    /// The database number this keyspace answers to.
    pub closed spec fn spec_id(&self) -> u32 {
        self.id
    }

    /// The database number this keyspace answers to.
    pub fn db_id(&self) -> (r: u32)
        ensures
            r == self.spec_id(),
    {
        self.id
    }

    /// A fresh empty keyspace.
    pub fn new(id: u32) -> (r: Database)
        ensures
            r.wf(),
            r.spec_id() == id,
            r@ == Map::<Seq<u8>, RecordModel>::empty(),
    {
        Database { id, entries: Vec::new() }
    }

    /// Index of the entry holding `key`, if any.
    fn find_idx(&self, key: &[u8]) -> (r: Option<usize>)
        ensures
            match r {
                Some(i) => i < self.entries@.len() && self.entries@[i as int].0@ == key@,
                None => forall|i: int| 0 <= i < self.entries@.len() ==> (
                #[trigger] self.entries@[i]).0@ != key@,
            },
    {
        let n = self.entries.len();
        let mut i: usize = 0;
        while i < n
            invariant
                i <= n,
                n == self.entries@.len(),
                forall|k: int| 0 <= k < i ==> (#[trigger] self.entries@[k]).0@ != key@,
            decreases n - i,
        {
            if bytes_eq(self.entries[i].0.as_slice(), key) {
                return Some(i);
            }
            i = i + 1;
        }
        None
    }

    /// Look `key` up at time `now`, expiring it lazily: a record whose
    /// expiry has passed is removed, atomically with the absent answer.
    pub fn get(&mut self, key: &[u8], now: u64) -> (r: Option<Record>)
        requires
            old(self).wf(),
        ensures
            final(self).wf(),
            final(self).spec_id() == old(self).spec_id(),
            match r {
                Some(rec) => old(self)@.contains_key(key@) && record_model(rec) == old(
                    self,
                )@[key@] && record_live(record_model(rec), now) && final(self)@ == old(self)@,
                None => (!old(self)@.contains_key(key@) || !record_live(old(self)@[key@], now))
                    && final(self)@ == old(self)@.remove(key@),
            },
    {
        proof {
            lemma_entries_map_char(self.entries@);
        }
        match self.find_idx(key) {
            None => {
                proof {
                    if self@.contains_key(key@) {
                        let i = choose|i: int|
                            0 <= i < self.entries@.len() && (#[trigger] self.entries@[i]).0@
                                == key@;
                    }
                    assert(self@ =~= self@.remove(key@));
                }
                None
            },
            Some(i) => {
                let expired = match self.entries[i].1.1 {
                    Some(at) => at <= now,
                    None => false,
                };
                if expired {
                    self.remove_at(i);
                    None
                } else {
                    let payload = copy_bytes(self.entries[i].1.0.as_slice());
                    let exp = self.entries[i].1.1;
                    Some((payload, exp))
                }
            },
        }
    }

    /// Remove the entry at index `i`.
    fn remove_at(&mut self, i: usize)
        requires
            old(self).wf(),
            i < old(self).entries@.len(),
        ensures
            final(self).wf(),
            final(self).spec_id() == old(self).spec_id(),
            final(self)@ == old(self)@.remove(old(self).entries@[i as int].0@),
    {
        let ghost s0 = self.entries@;
        let ghost k = s0[i as int].0@;
        self.entries.remove(i);
        proof {
            let s1 = self.entries@;
            assert(forall|j: int| 0 <= j < i ==> s1[j] == s0[j]);
            assert(forall|j: int| i <= j < s1.len() ==> s1[j] == s0[j + 1]);
            assert(unique_keys(s1)) by {
                assert forall|a: int, b: int| 0 <= a < b < s1.len() implies (
                #[trigger] s1[a]).0@ != (#[trigger] s1[b]).0@ by {
                    let a0 = if a < i { a } else { a + 1 };
                    let b0 = if b < i { b } else { b + 1 };
                    assert(s1[a] == s0[a0] && s1[b] == s0[b0]);
                }
            }
            lemma_entries_map_char(s0);
            lemma_entries_map_char(s1);
            assert(entries_map(s1) =~= entries_map(s0).remove(k)) by {
                assert forall|kk: Seq<u8>| entries_map(s1).contains_key(kk) implies entries_map(
                    s0,
                ).remove(k).contains_key(kk) && entries_map(s1)[kk] == entries_map(s0).remove(
                    k,
                )[kk] by {
                    let j = choose|j: int| 0 <= j < s1.len() && (#[trigger] s1[j]).0@ == kk;
                    let j0 = if j < i { j } else { j + 1 };
                    assert(s0[j0].0@ == kk);
                    assert(kk != k);
                }
                assert forall|kk: Seq<u8>| entries_map(s0).remove(k).contains_key(kk)
                    implies entries_map(s1).contains_key(kk) by {
                    let j0 = choose|j0: int| 0 <= j0 < s0.len() && (#[trigger] s0[j0]).0@ == kk;
                    assert(j0 != i);
                    let j = if j0 < i { j0 } else { j0 - 1 };
                    assert(s1[j].0@ == kk);
                }
            }
        }
    }

    /// Upsert `key` to `(value, expire_at)`.
    pub fn insert(&mut self, key: Vec<u8>, value: Vec<u8>, expire_at: Option<u64>)
        requires
            old(self).wf(),
        ensures
            final(self).wf(),
            final(self).spec_id() == old(self).spec_id(),
            final(self)@ == old(self)@.insert(key@, (value@, expire_at)),
    {
        let ghost s0 = self.entries@;
        proof {
            lemma_entries_map_char(s0);
        }
        match self.find_idx(key.as_slice()) {
            Some(i) => {
                let ghost k = key@;
                self.entries.set(i, (key, (value, expire_at)));
                proof {
                    let s1 = self.entries@;
                    assert(forall|j: int| 0 <= j < s1.len() && j != i ==> s1[j] == s0[j]);
                    assert(unique_keys(s1)) by {
                        assert forall|a: int, b: int| 0 <= a < b < s1.len() implies (
                        #[trigger] s1[a]).0@ != (#[trigger] s1[b]).0@ by {
                            assert(s0[a].0@ != s0[b].0@);
                            assert(s1[a].0@ == s0[a].0@ && s1[b].0@ == s0[b].0@);
                        }
                    }
                    lemma_entries_map_char(s1);
                    assert(entries_map(s1) =~= entries_map(s0).insert(k, (value@, expire_at)))
                        by {
                        assert forall|kk: Seq<u8>| entries_map(s1).contains_key(kk)
                            implies entries_map(s0).insert(k, (value@, expire_at)).contains_key(
                            kk,
                        ) && entries_map(s1)[kk] == entries_map(s0).insert(
                            k,
                            (value@, expire_at),
                        )[kk] by {
                            let j = choose|j: int|
                                0 <= j < s1.len() && (#[trigger] s1[j]).0@ == kk;
                            if j != i {
                                assert(s0[j].0@ == kk);
                                assert(kk != k);
                            }
                        }
                        assert forall|kk: Seq<u8>| entries_map(s0).insert(
                            k,
                            (value@, expire_at),
                        ).contains_key(kk) implies entries_map(s1).contains_key(kk) by {
                            if kk == k {
                                assert(s1[i as int].0@ == kk);
                            } else {
                                let j = choose|j: int|
                                    0 <= j < s0.len() && (#[trigger] s0[j]).0@ == kk;
                                assert(j != i);
                                assert(s1[j].0@ == kk);
                            }
                        }
                    }
                }
            },
            None => {
                let ghost k = key@;
                self.entries.push((key, (value, expire_at)));
                proof {
                    let s1 = self.entries@;
                    assert(s1.drop_last() =~= s0);
                    assert(unique_keys(s1)) by {
                        assert forall|a: int, b: int| 0 <= a < b < s1.len() implies (
                        #[trigger] s1[a]).0@ != (#[trigger] s1[b]).0@ by {
                            if b < s1.len() - 1 {
                                assert(s1[a] == s0[a] && s1[b] == s0[b]);
                            } else {
                                assert(s1[a] == s0[a]);
                                assert(s0[a].0@ != k);
                            }
                        }
                    }
                    assert(entries_map(s1) == entries_map(s0).insert(k, (value@, expire_at)));
                }
            },
        }
    }

    /// Remove `key` outright.
    pub fn remove(&mut self, key: &[u8])
        requires
            old(self).wf(),
        ensures
            final(self).wf(),
            final(self).spec_id() == old(self).spec_id(),
            final(self)@ == old(self)@.remove(key@),
    {
        proof {
            lemma_entries_map_char(self.entries@);
        }
        match self.find_idx(key) {
            Some(i) => {
                self.remove_at(i);
            },
            None => {
                proof {
                    if self@.contains_key(key@) {
                        let i = choose|i: int|
                            0 <= i < self.entries@.len() && (#[trigger] self.entries@[i]).0@
                                == key@;
                    }
                    assert(self@ =~= self@.remove(key@));
                }
            },
        }
    }

    /// Whether `key` is present, expired or not.
    pub fn contains(&self, key: &[u8]) -> (r: bool)
        requires
            self.wf(),
        ensures
            r == self@.contains_key(key@),
    {
        proof {
            lemma_entries_map_char(self.entries@);
        }
        match self.find_idx(key) {
            Some(_) => true,
            None => {
                proof {
                    if self@.contains_key(key@) {
                        let i = choose|i: int|
                            0 <= i < self.entries@.len() && (#[trigger] self.entries@[i]).0@
                                == key@;
                    }
                }
                false
            },
        }
    }

    /// All keys, in no promised order, each exactly once.
    #[verifier::loop_isolation(false)]
    pub fn keys(&self) -> (r: Vec<Vec<u8>>)
        requires
            self.wf(),
        ensures
            forall|i: int| 0 <= i < r@.len() ==> self@.contains_key((#[trigger] r@[i])@),
            forall|k: Seq<u8>| self@.contains_key(k) ==> exists|i: int|
                0 <= i < r@.len() && (#[trigger] r@[i])@ == k,
            forall|i: int, j: int| 0 <= i < j < r@.len() ==> (#[trigger] r@[i])@ != (
            #[trigger] r@[j])@,
    {
        proof {
            lemma_entries_map_char(self.entries@);
        }
        let n = self.entries.len();
        let mut out: Vec<Vec<u8>> = Vec::new();
        let mut i: usize = 0;
        while i < n
            invariant
                i <= n,
                n == self.entries@.len(),
                self.wf(),
                out@.len() == i,
                forall|j: int| 0 <= j < i ==> (#[trigger] out@[j])@ == self.entries@[j].0@,
            decreases n - i,
        {
            out.push(copy_bytes(self.entries[i].0.as_slice()));
            i = i + 1;
        }
        proof {
            assert forall|k: Seq<u8>| self@.contains_key(k) implies exists|j: int|
                0 <= j < out@.len() && (#[trigger] out@[j])@ == k by {
                let j = choose|j: int|
                    0 <= j < self.entries@.len() && (#[trigger] self.entries@[j]).0@ == k;
                assert(out@[j]@ == k);
            }
        }
        out
    }

    /// The keys the glob `pattern` matches, in no promised order, each
    /// exactly once.
    #[verifier::loop_isolation(false)]
    pub fn keys_from_pattren(&self, pattern: &[u8]) -> (r: Vec<Vec<u8>>)
        requires
            self.wf(),
        ensures
            forall|i: int| 0 <= i < r@.len() ==> self@.contains_key((#[trigger] r@[i])@)
                && glob_match(pattern@, r@[i]@),
            forall|k: Seq<u8>| self@.contains_key(k) && glob_match(pattern@, k) ==> exists|i: int|
                0 <= i < r@.len() && (#[trigger] r@[i])@ == k,
            forall|i: int, j: int| 0 <= i < j < r@.len() ==> (#[trigger] r@[i])@ != (
            #[trigger] r@[j])@,
    {
        proof {
            lemma_entries_map_char(self.entries@);
        }
        let n = self.entries.len();
        let mut out: Vec<Vec<u8>> = Vec::new();
        let mut i: usize = 0;
        while i < n
            invariant
                i <= n,
                n == self.entries@.len(),
                self.wf(),
                forall|j: int| 0 <= j < out@.len() ==> self@.contains_key((#[trigger] out@[j])@)
                    && glob_match(pattern@, out@[j]@),
                forall|j: int| 0 <= j < out@.len() ==> exists|jj: int|
                    0 <= jj < i && (#[trigger] out@[j])@ == self.entries@[jj].0@,
                forall|j: int| 0 <= j < i ==> glob_match(pattern@, (
                #[trigger] self.entries@[j]).0@) ==> exists|jj: int|
                    0 <= jj < out@.len() && (#[trigger] out@[jj])@ == self.entries@[j].0@,
                forall|a: int, b: int| 0 <= a < b < out@.len() ==> (#[trigger] out@[a])@ != (
                #[trigger] out@[b])@,
            decreases n - i,
        {
            if matches_glob(pattern, self.entries[i].0.as_slice()) {
                let ghost before = out@;
                out.push(copy_bytes(self.entries[i].0.as_slice()));
                proof {
                    assert(out@[out@.len() - 1]@ == self.entries@[i as int].0@);
                    assert(forall|jj: int| 0 <= jj < before.len() ==> out@[jj] == before[jj]);
                    assert forall|a: int, b: int| 0 <= a < b < out@.len() implies (
                    #[trigger] out@[a])@ != (#[trigger] out@[b])@ by {
                        if b == out@.len() - 1 {
                            let ja = choose|ja: int|
                                0 <= ja < i && (#[trigger] before[a])@ == self.entries@[ja].0@;
                            assert(self.entries@[ja].0@ != self.entries@[i as int].0@);
                        }
                    }
                }
            }
            i = i + 1;
        }
        proof {
            assert forall|k: Seq<u8>| self@.contains_key(k) && glob_match(pattern@, k)
                implies exists|j: int| 0 <= j < out@.len() && (#[trigger] out@[j])@ == k by {
                let j = choose|j: int|
                    0 <= j < self.entries@.len() && (#[trigger] self.entries@[j]).0@ == k;
            }
        }
        out
    }
}

/// Copy a byte string.
pub fn copy_bytes(b: &[u8]) -> (r: Vec<u8>)
    ensures
        r@ == b@,
{
    vstd::slice::slice_to_vec(b)
}

} // verus!
