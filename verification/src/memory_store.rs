//! An embedded, in-memory implementation of the key/value store contract,
//! verified against a mathematical model of the store: a map from keys to
//! byte values plus a per-key version that changes on every write. The
//! version map is what gives the compare-and-swap sessions their guarantee:
//! a swap commits exactly when the watched key's version is the one the
//! session observed.

use vstd::prelude::*;

use crate::decimal::{dec_rep, parsed_int};
use crate::store::{Error, SwapError};
use crate::strutil::str_eq;

verus! {

/// The mathematical model of a store: its present contents, the version of
/// every key ever written (deleted keys keep their last version), and a
/// clock that every write advances.
pub struct StoreModel {
    /// The present key/value bindings.
    pub contents: Map<Seq<char>, Seq<u8>>,
    /// The version of each key that was ever touched by a write or delete.
    pub versions: Map<Seq<char>, nat>,
    /// The write clock; versions never exceed it.
    pub clock: nat,
}

/// Well-formedness of a store model: versions are positive, bounded by the
/// clock, and every present key has a version.
pub open spec fn wf_model(m: StoreModel) -> bool {
    &&& forall|k: Seq<char>| m.versions.dom().contains(k) ==> 1 <= #[trigger] m.versions[k]
        <= m.clock
    &&& forall|k: Seq<char>| #[trigger] m.contents.dom().contains(k) ==> m.versions.dom().contains(
        k,
    )
}

/// The value a read of `k` returns.
pub open spec fn get_t(m: StoreModel, k: Seq<char>) -> Option<Seq<u8>> {
    if m.contents.dom().contains(k) {
        Some(m.contents[k])
    } else {
        None
    }
}

/// The store after an upsert of `k` to `v`.
pub open spec fn set_t(m: StoreModel, k: Seq<char>, v: Seq<u8>) -> StoreModel {
    StoreModel {
        contents: m.contents.insert(k, v),
        versions: m.versions.insert(k, m.clock + 1),
        clock: m.clock + 1,
    }
}

/// The store after a delete of `k`; deleting an absent key changes nothing.
pub open spec fn delete_t(m: StoreModel, k: Seq<char>) -> StoreModel {
    if m.contents.dom().contains(k) {
        StoreModel {
            contents: m.contents.remove(k),
            versions: m.versions.insert(k, m.clock + 1),
            clock: m.clock + 1,
        }
    } else {
        m
    }
}

/// The store after upserting every pair in order.
pub open spec fn set_many_t(m: StoreModel, pairs: Seq<(Seq<char>, Seq<u8>)>) -> StoreModel
    decreases pairs.len(),
{
    if pairs.len() == 0 {
        m
    } else {
        set_t(set_many_t(m, pairs.drop_last()), pairs.last().0, pairs.last().1)
    }
}

/// The store after deleting every key in order.
pub open spec fn delete_many_t(m: StoreModel, keys: Seq<Seq<char>>) -> StoreModel
    decreases keys.len(),
{
    if keys.len() == 0 {
        m
    } else {
        delete_t(delete_many_t(m, keys.drop_last()), keys.last())
    }
}

/// The integer a counter key stands for: zero when the key is absent, and
/// otherwise the canonical decimal reading of the stored bytes.
pub open spec fn stored_int(m: StoreModel, k: Seq<char>) -> Option<int> {
    if m.contents.dom().contains(k) {
        parsed_int(m.contents[k])
    } else {
        Some(0)
    }
}

/// The value an increment by `delta` yields, when the stored value reads as
/// an integer and both it and the sum fit the signed 64-bit range.
pub open spec fn increment_result(m: StoreModel, k: Seq<char>, delta: int) -> Option<int> {
    match stored_int(m, k) {
        Some(v) => if i64::MIN <= v <= i64::MAX && i64::MIN <= v + delta <= i64::MAX {
            Some(v + delta)
        } else {
            None
        },
        None => None,
    }
}

/// Whether a `(key, optional value)` pair read from the store stands for
/// what a read of `k` gives on the model `m`.
pub open spec fn read_pair_models(
    p: (String, Option<Vec<u8>>),
    m: StoreModel,
    k: Seq<char>,
) -> bool {
    &&& p.0@ == k
    &&& match p.1 {
        Some(b) => get_t(m, k) == Some(b@),
        None => get_t(m, k) is None,
    }
}

/// What a compare-and-swap session observes of a key: `None` when the key
/// was never touched, otherwise the key's current version.
pub open spec fn version_state(m: StoreModel, k: Seq<char>) -> Option<nat> {
    if m.versions.dom().contains(k) {
        Some(m.versions[k])
    } else {
        None
    }
}

struct MemEntry {
    key: String,
    value: Vec<u8>,
    present: bool,
    version: u64,
}

/// An embedded in-memory key/value store.
pub struct MemoryStore {
    entries: Vec<MemEntry>,
    clock: u64,
}

spec fn contents_of(s: Seq<MemEntry>) -> Map<Seq<char>, Seq<u8>>
    decreases s.len(),
{
    if s.len() == 0 {
        Map::empty()
    } else {
        let m = contents_of(s.drop_last());
        let e = s.last();
        if e.present {
            m.insert(e.key@, e.value@)
        } else {
            m.remove(e.key@)
        }
    }
}

spec fn versions_of(s: Seq<MemEntry>) -> Map<Seq<char>, nat>
    decreases s.len(),
{
    if s.len() == 0 {
        Map::empty()
    } else {
        versions_of(s.drop_last()).insert(s.last().key@, s.last().version as nat)
    }
}

spec fn keys_unique(s: Seq<MemEntry>) -> bool {
    forall|i: int, j: int| 0 <= i < j < s.len() ==> s[i].key@ != s[j].key@
}

spec fn versions_bounded(s: Seq<MemEntry>, clock: nat) -> bool {
    forall|i: int| 0 <= i < s.len() ==> 1 <= #[trigger] s[i].version <= clock
}

impl View for MemoryStore {
    type V = StoreModel;

    closed spec fn view(&self) -> StoreModel {
        StoreModel {
            contents: contents_of(self.entries@),
            versions: versions_of(self.entries@),
            clock: self.clock as nat,
        }
    }
}

proof fn lemma_entry_lookup(s: Seq<MemEntry>, i: int)
    requires
        keys_unique(s),
        0 <= i < s.len(),
    ensures
        versions_of(s).dom().contains(s[i].key@),
        versions_of(s)[s[i].key@] == s[i].version as nat,
        s[i].present ==> contents_of(s).dom().contains(s[i].key@) && contents_of(s)[s[i].key@]
            == s[i].value@,
        !s[i].present ==> !contents_of(s).dom().contains(s[i].key@),
    decreases s.len(),
{
    let p = s.drop_last();
    if i == s.len() - 1 {
    } else {
        assert(keys_unique(p));
        lemma_entry_lookup(p, i);
        assert(s.last().key@ != s[i].key@);
    }
}

proof fn lemma_no_entry(s: Seq<MemEntry>, k: Seq<char>)
    requires
        forall|i: int| 0 <= i < s.len() ==> s[i].key@ != k,
    ensures
        !contents_of(s).dom().contains(k),
        !versions_of(s).dom().contains(k),
    decreases s.len(),
{
    if s.len() > 0 {
        let p = s.drop_last();
        assert(forall|i: int| 0 <= i < p.len() ==> p[i].key@ != k);
        lemma_no_entry(p, k);
        assert(s.last().key@ != k);
    }
}

proof fn lemma_update_entry(s: Seq<MemEntry>, i: int, e: MemEntry)
    requires
        keys_unique(s),
        0 <= i < s.len(),
        e.key@ == s[i].key@,
    ensures
        contents_of(s.update(i, e)) == if e.present {
            contents_of(s).insert(e.key@, e.value@)
        } else {
            contents_of(s).remove(e.key@)
        },
        versions_of(s.update(i, e)) == versions_of(s).insert(e.key@, e.version as nat),
        keys_unique(s.update(i, e)),
    decreases s.len(),
{
    let u = s.update(i, e);
    assert(keys_unique(u));
    if i == s.len() - 1 {
        assert(u.drop_last() =~= s.drop_last());
        assert(u.last() == e);
        if e.present {
            assert(contents_of(u) =~= contents_of(s).insert(e.key@, e.value@)) by {
                if s.last().present {
                } else {
                }
            }
        } else {
            assert(contents_of(u) =~= contents_of(s).remove(e.key@));
        }
        assert(versions_of(u) =~= versions_of(s).insert(e.key@, e.version as nat));
    } else {
        let p = s.drop_last();
        assert(keys_unique(p));
        assert(p.update(i, e) =~= u.drop_last());
        assert(u.last() == s.last());
        lemma_update_entry(p, i, e);
        assert(s.last().key@ != e.key@);
        if e.present {
            assert(contents_of(u) =~= contents_of(s).insert(e.key@, e.value@));
        } else {
            assert(contents_of(u) =~= contents_of(s).remove(e.key@));
        }
        assert(versions_of(u) =~= versions_of(s).insert(e.key@, e.version as nat));
    }
}

proof fn lemma_push_entry(s: Seq<MemEntry>, e: MemEntry)
    requires
        keys_unique(s),
        forall|i: int| 0 <= i < s.len() ==> s[i].key@ != e.key@,
    ensures
        e.present ==> contents_of(s.push(e)) == contents_of(s).insert(e.key@, e.value@),
        !e.present ==> contents_of(s.push(e)) == contents_of(s),
        versions_of(s.push(e)) == versions_of(s).insert(e.key@, e.version as nat),
        keys_unique(s.push(e)),
{
    let u = s.push(e);
    assert(u.drop_last() =~= s);
    assert(u.last() == e);
    if !e.present {
        lemma_no_entry(s, e.key@);
        assert(contents_of(u) =~= contents_of(s));
    }
    assert(keys_unique(u)) by {
        assert(forall|i: int, j: int|
            0 <= i < j < u.len() ==> {
                if j < s.len() {
                    u[i].key@ != u[j].key@
                } else {
                    u[i].key@ != e.key@
                }
            });
    }
}

proof fn lemma_model_wf(s: Seq<MemEntry>, clock: nat)
    requires
        keys_unique(s),
        versions_bounded(s, clock),
    ensures
        forall|k: Seq<char>| versions_of(s).dom().contains(k) ==> 1 <= #[trigger] versions_of(s)[k]
            <= clock,
        forall|k: Seq<char>| #[trigger] contents_of(s).dom().contains(k) ==> versions_of(
            s,
        ).dom().contains(k),
    decreases s.len(),
{
    if s.len() > 0 {
        let p = s.drop_last();
        assert(keys_unique(p));
        assert(versions_bounded(p, clock));
        lemma_model_wf(p, clock);
        assert(1 <= s.last().version <= clock) by {
            assert(1 <= s[s.len() - 1].version <= clock);
        }
        assert forall|k: Seq<char>| versions_of(s).dom().contains(k) implies 1 <= versions_of(s)[k]
            <= clock by {
            if k == s.last().key@ {
            } else {
                assert(versions_of(p).dom().contains(k));
                assert(versions_of(s)[k] == versions_of(p)[k]);
            }
        }
        assert forall|k: Seq<char>| contents_of(s).dom().contains(k) implies versions_of(
            s,
        ).dom().contains(k) by {
            if s.last().present {
                if k != s.last().key@ {
                    assert(contents_of(p).dom().contains(k));
                }
            } else {
                assert(k != s.last().key@);
                assert(contents_of(p).dom().contains(k));
            }
        }
    }
}

impl MemoryStore {
    /// Well-formedness of the store's representation.
    pub closed spec fn wf(&self) -> bool {
        &&& keys_unique(self.entries@)
        &&& versions_bounded(self.entries@, self.clock as nat)
    }

    /// A well-formed store has a well-formed model.
    pub proof fn lemma_wf_model(&self)
        requires
            self.wf(),
        ensures
            wf_model(self@),
    {
        lemma_model_wf(self.entries@, self.clock as nat);
    }

    /// Creates an empty store.
    pub fn new() -> (r: Self)
        ensures
            r.wf(),
            r@.contents == Map::<Seq<char>, Seq<u8>>::empty(),
            r@.versions == Map::<Seq<char>, nat>::empty(),
            r@.clock == 0,
    {
        MemoryStore { entries: Vec::new(), clock: 0 }
    }

    fn find(&self, key: &str) -> (r: Option<usize>)
        ensures
            match r {
                Some(i) => i < self.entries@.len() && self.entries@[i as int].key@ == key@,
                None => forall|j: int| 0 <= j < self.entries@.len() ==> self.entries@[j].key@
                    != key@,
            },
    {
        let mut i: usize = 0;
        while i < self.entries.len()
            invariant
                i <= self.entries@.len(),
                forall|j: int| 0 <= j < i ==> self.entries@[j].key@ != key@,
            decreases self.entries@.len() - i,
        {
            if str_eq(self.entries[i].key.as_str(), key) {
                return Some(i);
            }
            i = i + 1;
        }
        None
    }

    fn get_opt(&self, key: &str) -> (r: Option<Vec<u8>>)
        requires
            self.wf(),
        ensures
            match r {
                Some(v) => get_t(self@, key@) == Some(v@),
                None => get_t(self@, key@) is None,
            },
    {
        match self.find(key) {
            Some(i) => {
                proof {
                    lemma_entry_lookup(self.entries@, i as int);
                }
                if self.entries[i].present {
                    Some(vstd::slice::slice_to_vec(self.entries[i].value.as_slice()))
                } else {
                    None
                }
            },
            None => {
                proof {
                    lemma_no_entry(self.entries@, key@);
                }
                None
            },
        }
    }

    /// Reads the value of `key`, or `None` when the key is absent.
    pub fn get(&self, key: &str) -> (r: Result<Option<Vec<u8>>, Error>)
        requires
            self.wf(),
        ensures
            r matches Ok(v) && (match v {
                Some(b) => get_t(self@, key@) == Some(b@),
                None => get_t(self@, key@) is None,
            }),
    {
        Ok(self.get_opt(key))
    }

    /// Upserts `key` to `value`.
    pub fn set(&mut self, key: &str, value: &[u8]) -> (r: Result<(), Error>)
        requires
            old(self).wf(),
        ensures
            final(self).wf(),
            old(self)@.clock < u64::MAX ==> r is Ok && final(self)@ == set_t(
                old(self)@,
                key@,
                value@,
            ),
            old(self)@.clock == u64::MAX ==> r == Err::<(), Error>(Error::Runtime) && final(self)@
                == old(self)@,
    {
        if self.clock == u64::MAX {
            return Err(Error::Runtime);
        }
        let version = self.clock + 1;
        match self.find(key) {
            Some(i) => {
                let ghost s0 = self.entries@;
                let mut e = self.entries.remove(i);
                e.value = vstd::slice::slice_to_vec(value);
                e.present = true;
                e.version = version;
                let ghost ge = e;
                self.entries.insert(i, e);
                self.clock = version;
                proof {
                    assert(self.entries@ =~= s0.update(i as int, ge));
                    lemma_update_entry(s0, i as int, ge);
                    assert(self@.contents =~= set_t(old(self)@, key@, value@).contents);
                    assert(self@.versions =~= set_t(old(self)@, key@, value@).versions);
                    assert(self@ == set_t(old(self)@, key@, value@));
                }
                Ok(())
            },
            None => {
                let ghost s0 = self.entries@;
                let e = MemEntry {
                    key: String::from_str(key),
                    value: vstd::slice::slice_to_vec(value),
                    present: true,
                    version,
                };
                let ghost ge = e;
                self.entries.push(e);
                self.clock = version;
                proof {
                    assert(self.entries@ =~= s0.push(ge));
                    lemma_push_entry(s0, ge);
                    assert(self@.contents =~= set_t(old(self)@, key@, value@).contents);
                    assert(self@.versions =~= set_t(old(self)@, key@, value@).versions);
                    assert(self@ == set_t(old(self)@, key@, value@));
                }
                Ok(())
            },
        }
    }

    /// Deletes `key`; deleting an absent key is a no-op.
    pub fn delete(&mut self, key: &str) -> (r: Result<(), Error>)
        requires
            old(self).wf(),
        ensures
            final(self).wf(),
            old(self)@.clock < u64::MAX ==> r is Ok && final(self)@ == delete_t(old(self)@, key@),
            old(self)@.clock == u64::MAX && !old(self)@.contents.dom().contains(key@) ==> r is Ok
                && final(self)@ == old(self)@,
            old(self)@.clock == u64::MAX && old(self)@.contents.dom().contains(key@) ==> r
                == Err::<(), Error>(Error::Runtime) && final(self)@ == old(self)@,
    {
        match self.find(key) {
            Some(i) => {
                proof {
                    lemma_entry_lookup(self.entries@, i as int);
                }
                if !self.entries[i].present {
                    return Ok(());
                }
                if self.clock == u64::MAX {
                    return Err(Error::Runtime);
                }
                let version = self.clock + 1;
                let ghost s0 = self.entries@;
                let mut e = self.entries.remove(i);
                e.present = false;
                e.version = version;
                let ghost ge = e;
                self.entries.insert(i, e);
                self.clock = version;
                proof {
                    assert(self.entries@ =~= s0.update(i as int, ge));
                    lemma_update_entry(s0, i as int, ge);
                    assert(self@.contents =~= delete_t(old(self)@, key@).contents);
                    assert(self@.versions =~= delete_t(old(self)@, key@).versions);
                    assert(self@ == delete_t(old(self)@, key@));
                }
                Ok(())
            },
            None => {
                proof {
                    lemma_no_entry(self.entries@, key@);
                }
                Ok(())
            },
        }
    }

    /// Tests whether `key` is present.
    pub fn key_exists(&self, key: &str) -> (r: Result<bool, Error>)
        requires
            self.wf(),
        ensures
            r == Ok::<bool, Error>(self@.contents.dom().contains(key@)),
    {
        match self.find(key) {
            Some(i) => {
                proof {
                    lemma_entry_lookup(self.entries@, i as int);
                }
                Ok(self.entries[i].present)
            },
            None => {
                proof {
                    lemma_no_entry(self.entries@, key@);
                }
                Ok(false)
            },
        }
    }

    /// Lists every present key, each exactly once, in insertion order.
    pub fn get_keys(&self) -> (r: Result<Vec<String>, Error>)
        requires
            self.wf(),
        ensures
            r matches Ok(keys) && {
                &&& forall|k: Seq<char>| keys.deep_view().contains(k)
                    <==> self@.contents.dom().contains(k)
                &&& forall|i: int, j: int| 0 <= i < j < keys.deep_view().len()
                    ==> keys.deep_view()[i] != keys.deep_view()[j]
            },
    {
        let mut keys: Vec<String> = Vec::new();
        let mut i: usize = 0;
        while i < self.entries.len()
            invariant
                self.wf(),
                i <= self.entries@.len(),
                forall|k: Seq<char>|
                    keys.deep_view().contains(k) <==> exists|j: int|
                        0 <= j < i && #[trigger] self.entries@[j].key@ == k
                            && self.entries@[j].present,
                forall|p: int, q: int| 0 <= p < q < keys.deep_view().len()
                    ==> keys.deep_view()[p] != keys.deep_view()[q],
            decreases self.entries@.len() - i,
        {
            if self.entries[i].present {
                let ghost before = keys.deep_view();
                let k = self.entries[i].key.clone();
                keys.push(k);
                proof {
                    assert(keys.deep_view() =~= before.push(self.entries@[i as int].key@));
                    assert forall|k2: Seq<char>| keys.deep_view().contains(k2) implies exists|
                        j: int,
                    |
                        0 <= j < i + 1 && #[trigger] self.entries@[j].key@ == k2
                            && self.entries@[j].present by {
                        if before.contains(k2) {
                        } else {
                            assert(k2 == self.entries@[i as int].key@);
                            assert(0 <= i < i + 1 && self.entries@[i as int].key@ == k2
                                && self.entries@[i as int].present);
                        }
                    }
                    assert forall|k2: Seq<char>|
                        (exists|j: int|
                            0 <= j < i + 1 && #[trigger] self.entries@[j].key@ == k2
                                && self.entries@[j].present) implies keys.deep_view().contains(
                        k2,
                    ) by {
                        let j = choose|j: int|
                            0 <= j < i + 1 && #[trigger] self.entries@[j].key@ == k2
                                && self.entries@[j].present;
                        if j < i {
                            assert(before.contains(k2));
                            let p = choose|p: int| 0 <= p < before.len() && before[p] == k2;
                            assert(keys.deep_view()[p] == k2);
                        } else {
                            assert(keys.deep_view().last() == k2);
                        }
                    }
                    assert forall|p: int, q: int|
                        0 <= p < q < keys.deep_view().len() implies keys.deep_view()[p]
                        != keys.deep_view()[q] by {
                        if q == keys.deep_view().len() - 1 {
                            if keys.deep_view()[p] == self.entries@[i as int].key@ {
                                assert(before.contains(self.entries@[i as int].key@));
                                let j = choose|j: int|
                                    0 <= j < i && #[trigger] self.entries@[j].key@
                                        == self.entries@[i as int].key@
                                        && self.entries@[j].present;
                                assert(false);
                            }
                        }
                    }
                }
            }
            i = i + 1;
        }
        proof {
            assert forall|k: Seq<char>| keys.deep_view().contains(k) implies self@.contents.dom(
            ).contains(k) by {
                let j = choose|j: int|
                    0 <= j < self.entries@.len() && #[trigger] self.entries@[j].key@ == k
                        && self.entries@[j].present;
                lemma_entry_lookup(self.entries@, j);
            }
            assert forall|k: Seq<char>| self@.contents.dom().contains(k) implies keys.deep_view(
            ).contains(k) by {
                if !keys.deep_view().contains(k) {
                    if exists|j: int|
                        0 <= j < self.entries@.len() && #[trigger] self.entries@[j].key@ == k {
                        let j = choose|j: int|
                            0 <= j < self.entries@.len() && #[trigger] self.entries@[j].key@ == k;
                        lemma_entry_lookup(self.entries@, j);
                        assert(!self.entries@[j].present);
                        assert(false);
                    } else {
                        lemma_no_entry(self.entries@, k);
                        assert(false);
                    }
                }
            }
        }
        Ok(keys)
    }

    /// Reads many keys at once: one `(key, optional value)` pair for each
    /// requested key, in the requested order.
    pub fn get_many(&self, keys: &Vec<String>) -> (r: Result<
        Vec<(String, Option<Vec<u8>>)>,
        Error,
    >)
        requires
            self.wf(),
        ensures
            r matches Ok(out) && out@.len() == keys@.len() && forall|i: int|
                0 <= i < keys@.len() ==> read_pair_models(#[trigger] out@[i], self@, keys@[i]@),
    {
        let mut out: Vec<(String, Option<Vec<u8>>)> = Vec::new();
        let mut i: usize = 0;
        while i < keys.len()
            invariant
                self.wf(),
                i <= keys@.len(),
                out@.len() == i,
                forall|j: int| 0 <= j < i ==> read_pair_models(#[trigger] out@[j], self@, keys@[j]@),
            decreases keys@.len() - i,
        {
            let v = self.get_opt(keys[i].as_str());
            out.push((keys[i].clone(), v));
            i = i + 1;
        }
        Ok(out)
    }

    /// Upserts every pair of the list, in order.
    pub fn set_many(&mut self, key_values: &Vec<(String, Vec<u8>)>) -> (r: Result<(), Error>)
        requires
            old(self).wf(),
        ensures
            final(self).wf(),
            old(self)@.clock + key_values@.len() <= u64::MAX ==> r is Ok && final(self)@
                == set_many_t(old(self)@, key_values.deep_view()),
            old(self)@.clock + key_values@.len() > u64::MAX ==> r == Err::<(), Error>(
                Error::Runtime,
            ) && final(self)@ == old(self)@,
    {
        if key_values.len() as u64 > u64::MAX - self.clock {
            return Err(Error::Runtime);
        }
        let ghost m0 = self@;
        let ghost pv = key_values.deep_view();
        let mut i: usize = 0;
        while i < key_values.len()
            invariant
                self.wf(),
                i <= key_values@.len(),
                pv == key_values.deep_view(),
                pv.len() == key_values@.len(),
                forall|j: int| 0 <= j < pv.len() ==> #[trigger] pv[j] == (
                    key_values@[j].0@,
                    key_values@[j].1@,
                ),
                m0.clock + pv.len() <= u64::MAX,
                self@ == set_many_t(m0, pv.take(i as int)),
                self@.clock == m0.clock + i,
            decreases key_values@.len() - i,
        {
            let res = self.set(key_values[i].0.as_str(), key_values[i].1.as_slice());
            match res {
                Ok(_) => {},
                Err(e) => {
                    proof {
                        assert(false);
                    }
                    return Err(e);
                },
            }
            proof {
                assert(pv.take(i + 1 as int).drop_last() =~= pv.take(i as int));
                assert(pv.take(i + 1 as int).last() == pv[i as int]);
            }
            i = i + 1;
        }
        proof {
            assert(pv.take(key_values@.len() as int) =~= pv);
        }
        Ok(())
    }

    /// Deletes every key of the list, in order.
    pub fn delete_many(&mut self, keys: &Vec<String>) -> (r: Result<(), Error>)
        requires
            old(self).wf(),
        ensures
            final(self).wf(),
            old(self)@.clock + keys@.len() <= u64::MAX ==> r is Ok && final(self)@
                == delete_many_t(old(self)@, keys.deep_view()),
            old(self)@.clock + keys@.len() > u64::MAX ==> r == Err::<(), Error>(Error::Runtime)
                && final(self)@ == old(self)@,
    {
        if keys.len() as u64 > u64::MAX - self.clock {
            return Err(Error::Runtime);
        }
        let ghost m0 = self@;
        let ghost kv = keys.deep_view();
        let mut i: usize = 0;
        while i < keys.len()
            invariant
                self.wf(),
                i <= keys@.len(),
                kv == keys.deep_view(),
                kv.len() == keys@.len(),
                forall|j: int| 0 <= j < kv.len() ==> #[trigger] kv[j] == keys@[j]@,
                m0.clock + kv.len() <= u64::MAX,
                self@ == delete_many_t(m0, kv.take(i as int)),
                self@.clock <= m0.clock + i,
            decreases keys@.len() - i,
        {
            let res = self.delete(keys[i].as_str());
            match res {
                Ok(_) => {},
                Err(e) => {
                    proof {
                        assert(false);
                    }
                    return Err(e);
                },
            }
            proof {
                assert(kv.take(i + 1 as int).drop_last() =~= kv.take(i as int));
                assert(kv.take(i + 1 as int).last() == kv[i as int]);
            }
            i = i + 1;
        }
        proof {
            assert(kv.take(keys@.len() as int) =~= kv);
        }
        Ok(())
    }

    /// Adds `delta` to the integer stored under `key`, creating the key at
    /// zero first when it is absent, and returns the resulting value. Fails
    /// without changing the store when the stored bytes do not read as an
    /// integer or the result leaves the signed 64-bit range.
    pub fn increment(&mut self, key: &str, delta: i64) -> (r: Result<i64, Error>)
        requires
            old(self).wf(),
        ensures
            final(self).wf(),
            match increment_result(old(self)@, key@, delta as int) {
                Some(n) => if old(self)@.clock < u64::MAX {
                    r == Ok::<i64, Error>(n as i64) && final(self)@ == set_t(
                        old(self)@,
                        key@,
                        dec_rep(n),
                    )
                } else {
                    r == Err::<i64, Error>(Error::Runtime) && final(self)@ == old(self)@
                },
                None => r == Err::<i64, Error>(Error::Runtime) && final(self)@ == old(self)@,
            },
    {
        let cur: i64 = match self.find(key) {
            Some(i) => {
                proof {
                    lemma_entry_lookup(self.entries@, i as int);
                }
                if self.entries[i].present {
                    match crate::decimal::decode_i64(&self.entries[i].value) {
                        Some(v) => v,
                        None => {
                            return Err(Error::Runtime);
                        },
                    }
                } else {
                    0
                }
            },
            None => {
                proof {
                    lemma_no_entry(self.entries@, key@);
                }
                0
            },
        };
        let next = match cur.checked_add(delta) {
            Some(n) => n,
            None => {
                return Err(Error::Runtime);
            },
        };
        if self.clock == u64::MAX {
            return Err(Error::Runtime);
        }
        let encoded = crate::decimal::encode_i64(next);
        match self.set(key, encoded.as_slice()) {
            Ok(_) => Ok(next),
            Err(e) => {
                proof {
                    assert(false);
                }
                Err(e)
            },
        }
    }

    fn version_of(&self, key: &str) -> (r: Option<u64>)
        requires
            self.wf(),
        ensures
            match r {
                Some(v) => version_state(self@, key@) == Some(v as nat),
                None => version_state(self@, key@) is None,
            },
    {
        match self.find(key) {
            Some(i) => {
                proof {
                    lemma_entry_lookup(self.entries@, i as int);
                }
                Some(self.entries[i].version)
            },
            None => {
                proof {
                    lemma_no_entry(self.entries@, key@);
                }
                None
            },
        }
    }

    /// Opens a fresh compare-and-swap session bound to one key. The session
    /// has its own observation state, so no other traffic on the store can
    /// disturb or join its watch.
    pub fn new_compare_and_swap(&self, bucket_rep: u32, key: &str) -> (r: Result<MemoryCas, Error>)
        ensures
            r matches Ok(c) && c@.key == key@ && c@.bucket == bucket_rep && c@.observed is None,
    {
        Ok(MemoryCas { key: String::from_str(key), bucket_rep, observed: None })
    }
}

/// The model of a compare-and-swap session: the key it is bound to, the
/// caller's bucket tag, and what the session has observed — nothing yet, or
/// the watched key's version state at observation time.
pub struct CasModel {
    /// The watched key.
    pub key: Seq<char>,
    /// The caller's bucket tag; not interpreted here.
    pub bucket: u32,
    /// `None` before `current` was called; after it, the version state the
    /// session observed.
    pub observed: Option<Option<nat>>,
}

/// A compare-and-swap session on an in-memory store, bound to exactly one
/// key. Created fresh per attempt and never shared.
pub struct MemoryCas {
    key: String,
    bucket_rep: u32,
    observed: Option<Option<u64>>,
}

impl View for MemoryCas {
    type V = CasModel;

    closed spec fn view(&self) -> CasModel {
        CasModel {
            key: self.key@,
            bucket: self.bucket_rep,
            observed: match self.observed {
                None => None,
                Some(None) => Some(None),
                Some(Some(v)) => Some(Some(v as nat)),
            },
        }
    }
}

impl MemoryCas {
    /// Begins a watch on the session's key and returns the key's present
    /// value. The observation is what a later `swap` is checked against.
    pub fn current(&mut self, store: &MemoryStore) -> (r: Result<Option<Vec<u8>>, Error>)
        requires
            store.wf(),
        ensures
            final(self)@.key == old(self)@.key,
            final(self)@.bucket == old(self)@.bucket,
            final(self)@.observed == Some(version_state(store@, old(self)@.key)),
            r matches Ok(v) && (match v {
                Some(b) => get_t(store@, old(self)@.key) == Some(b@),
                None => get_t(store@, old(self)@.key) is None,
            }),
    {
        let ver = store.version_of(self.key.as_str());
        self.observed = Some(ver);
        Ok(store.get_opt(self.key.as_str()))
    }

    /// Writes the new value exactly when the watched key is unchanged since
    /// `current`, and releases the watch whatever the outcome. A swap
    /// without a prior observation executes unguarded. Losing the race is
    /// the distinguished, retriable `CasFailed`.
    pub fn swap(&mut self, store: &mut MemoryStore, value: &[u8]) -> (r: Result<(), SwapError>)
        requires
            old(store).wf(),
        ensures
            final(store).wf(),
            final(self)@.key == old(self)@.key,
            final(self)@.bucket == old(self)@.bucket,
            final(self)@.observed is None,
            ({
                let m = old(store)@;
                let k = old(self)@.key;
                match old(self)@.observed {
                    Some(obs) => if obs != version_state(m, k) {
                        r matches Err(SwapError::CasFailed(_)) && final(store)@ == m
                    } else if m.clock < u64::MAX {
                        r is Ok && final(store)@ == set_t(m, k, value@)
                    } else {
                        r matches Err(SwapError::Other(_)) && final(store)@ == m
                    },
                    None => if m.clock < u64::MAX {
                        r is Ok && final(store)@ == set_t(m, k, value@)
                    } else {
                        r matches Err(SwapError::Other(_)) && final(store)@ == m
                    },
                }
            }),
    {
        let guarded_ok: bool = match &self.observed {
            None => true,
            Some(obs) => {
                let cur = store.version_of(self.key.as_str());
                match (obs, cur) {
                    (None, None) => true,
                    (Some(a), Some(b)) => *a == b,
                    _ => false,
                }
            },
        };
        self.observed = None;
        if !guarded_ok {
            return Err(
                SwapError::CasFailed(
                    String::from_str("the watched key changed between the observation and the swap"),
                ),
            );
        }
        match store.set(self.key.as_str(), value) {
            Ok(_) => Ok(()),
            Err(_) => Err(SwapError::Other(String::from_str("the store rejected the write"))),
        }
    }

    /// The caller's bucket tag, for its own bookkeeping.
    pub fn bucket_rep(&self) -> (r: u32)
        ensures
            r == self@.bucket,
    {
        self.bucket_rep
    }

    /// The key the session is bound to.
    pub fn key(&self) -> (r: String)
        ensures
            r@ == self@.key,
    {
        self.key.clone()
    }
}

/// Round trip: reading a key right after writing it returns exactly the
/// bytes written.
pub proof fn law_set_then_get(m: StoreModel, k: Seq<char>, v: Seq<u8>)
    ensures
        get_t(set_t(m, k, v), k) == Some(v),
{
}

/// A deleted key reads as absent.
pub proof fn law_delete_then_get(m: StoreModel, k: Seq<char>)
    ensures
        get_t(delete_t(m, k), k) is None,
{
}

/// Presence tracks the same state a read sees: a key is present exactly
/// when reading it returns a value.
pub proof fn law_presence_tracks_get(m: StoreModel, k: Seq<char>)
    ensures
        m.contents.dom().contains(k) <==> get_t(m, k) is Some,
{
}

/// An increment of an absent key starts from zero: it yields the delta
/// itself.
pub proof fn law_increment_fresh(m: StoreModel, k: Seq<char>, delta: i64)
    requires
        !m.contents.dom().contains(k),
    ensures
        increment_result(m, k, delta as int) == Some(delta as int),
{
}

/// A second increment accumulates: after an increment stored `d1`, an
/// increment by `d2` yields their sum, whenever that sum is representable.
pub proof fn law_increment_accumulates(m: StoreModel, k: Seq<char>, d1: i64, d2: i64)
    requires
        i64::MIN <= d1 + d2 <= i64::MAX,
    ensures
        increment_result(set_t(m, k, dec_rep(d1 as int)), k, d2 as int) == Some(d1 + d2),
{
    crate::decimal::lemma_parse_dec_rep(d1 as int);
    law_set_then_get(m, k, dec_rep(d1 as int));
}

/// Any write to the watched key between a session's observation and its
/// swap changes the key's version state, so the swap fails the comparison.
pub proof fn law_cas_write_changes_version(m: StoreModel, k: Seq<char>, w: Seq<u8>)
    requires
        wf_model(m),
    ensures
        version_state(set_t(m, k, w), k) != version_state(m, k),
{
}

/// Writes to other keys leave a session's observation of its own key
/// intact: the dedicated observation state is isolated per key.
pub proof fn law_cas_other_key_untouched(m: StoreModel, k1: Seq<char>, k2: Seq<char>, w: Seq<u8>)
    requires
        k1 != k2,
    ensures
        version_state(set_t(m, k2, w), k1) == version_state(m, k1),
{
}

/// A write preserves model well-formedness.
pub proof fn law_set_preserves_wf(m: StoreModel, k: Seq<char>, v: Seq<u8>)
    requires
        wf_model(m),
    ensures
        wf_model(set_t(m, k, v)),
{
}

/// A key never touched has no version state and no value: a fresh session's
/// first observation of it is `None`.
pub proof fn law_cas_fresh_key(m: StoreModel, k: Seq<char>)
    requires
        wf_model(m),
        !m.versions.dom().contains(k),
    ensures
        version_state(m, k) is None,
        get_t(m, k) is None,
{
}

} // verus!
