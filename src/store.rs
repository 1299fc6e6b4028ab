//! Read-mostly snapshots of a backing collection, rebuilt wholesale from a scan.
use std::sync::Arc;
use vstd::prelude::*;

use crate::error::UmtError;

verus! {

/// A record that a snapshot can index: by its id and by its unique name.
pub trait Record {
    spec fn key_id(&self) -> Seq<char>;

    spec fn key_name(&self) -> Seq<char>;

    fn id_key(&self) -> (r: String)
        ensures
            r@ == self.key_id();

    fn name_key(&self) -> (r: String)
        ensures
            r@ == self.key_name();
}

/// The map from id to record that a scan gives: where two records share an
/// id, the later one wins.
pub open spec fn ids_of<T: Record>(scan: Seq<T>) -> Map<Seq<char>, T>
    decreases scan.len(),
{
    if scan.len() == 0 {
        Map::empty()
    } else {
        ids_of(scan.drop_last()).insert(scan.last().key_id(), scan.last())
    }
}

/// The map from name to record that a scan gives: where two records share a
/// name, the later one wins.
pub open spec fn names_of<T: Record>(scan: Seq<T>) -> Map<Seq<char>, T>
    decreases scan.len(),
{
    if scan.len() == 0 {
        Map::empty()
    } else {
        names_of(scan.drop_last()).insert(scan.last().key_name(), scan.last())
    }
}

/// The map that a list of entries stands for.
pub open spec fn map_of<T>(entries: Seq<(String, Arc<T>)>) -> Map<Seq<char>, T>
    decreases entries.len(),
{
    if entries.len() == 0 {
        Map::empty()
    } else {
        map_of(entries.drop_last()).insert(entries.last().0@, *entries.last().1)
    }
}

/// No two entries share a key.
pub open spec fn keys_unique<T>(entries: Seq<(String, Arc<T>)>) -> bool {
    forall|i: int, j: int| 0 <= i < j < entries.len() ==> entries[i].0@ != entries[j].0@
}

proof fn lemma_map_of_keys<T>(entries: Seq<(String, Arc<T>)>, k: Seq<char>)
    ensures
        map_of(entries).contains_key(k) <==> exists|i: int| 0 <= i < entries.len() && entries[i].0@ == k,
    decreases entries.len(),
{
    if entries.len() > 0 {
        let init = entries.drop_last();
        lemma_map_of_keys(init, k);
        if map_of(init).contains_key(k) {
            let i = choose|i: int| 0 <= i < init.len() && init[i].0@ == k;
            assert(entries[i] == init[i]);
        }
        if exists|i: int| 0 <= i < entries.len() && entries[i].0@ == k {
            let i = choose|i: int| 0 <= i < entries.len() && entries[i].0@ == k;
            if i < entries.len() - 1 {
                assert(init[i] == entries[i]);
            }
        }
    }
}

proof fn lemma_map_of_at<T>(entries: Seq<(String, Arc<T>)>, i: int)
    requires
        keys_unique(entries),
        0 <= i < entries.len(),
    ensures
        map_of(entries).contains_key(entries[i].0@),
        map_of(entries)[entries[i].0@] == *entries[i].1,
    decreases entries.len(),
{
    let init = entries.drop_last();
    if i < entries.len() - 1 {
        assert(init[i] == entries[i]);
        lemma_map_of_at(init, i);
    }
}

proof fn lemma_map_of_update<T>(entries: Seq<(String, Arc<T>)>, i: int, e: (String, Arc<T>))
    requires
        keys_unique(entries),
        0 <= i < entries.len(),
        e.0@ == entries[i].0@,
    ensures
        map_of(entries.update(i, e)) == map_of(entries).insert(e.0@, *e.1),
    decreases entries.len(),
{
    let init = entries.drop_last();
    let upd = entries.update(i, e);
    if i == entries.len() - 1 {
        assert(upd.drop_last() =~= init);
        assert(map_of(entries).insert(e.0@, *e.1) =~= map_of(init).insert(e.0@, *e.1));
    } else {
        assert(upd.drop_last() =~= init.update(i, e));
        assert(init[i] == entries[i]);
        lemma_map_of_update(init, i, e);
        assert(entries.last().0@ != e.0@);
        assert(map_of(upd) =~= map_of(entries).insert(e.0@, *e.1));
    }
}

proof fn lemma_map_of_len<T>(entries: Seq<(String, Arc<T>)>)
    requires
        keys_unique(entries),
    ensures
        map_of(entries).dom().finite(),
        map_of(entries).dom().len() == entries.len(),
    decreases entries.len(),
{
    if entries.len() > 0 {
        let init = entries.drop_last();
        lemma_map_of_len(init);
        lemma_map_of_keys(init, entries.last().0@);
        if map_of(init).contains_key(entries.last().0@) {
            let i = choose|i: int| 0 <= i < init.len() && init[i].0@ == entries.last().0@;
            assert(entries[i] == init[i]);
        }
    }
}

/// `r` lists each record of `m` exactly once: under a sequence of distinct
/// keys that covers the domain of `m`.
pub open spec fn lists_each_once<T>(r: Seq<T>, m: Map<Seq<char>, T>) -> bool {
    exists|ks: Seq<Seq<char>>|
        #![trigger ks.to_set()]
        ks.len() == r.len() && ks.no_duplicates() && ks.to_set() == m.dom() && forall|i: int|
            0 <= i < ks.len() ==> r[i] == m[ks[i]]
}

/// Records keyed by a unique string, in the order in which keys first came.
pub struct Index<T> {
    entries: Vec<(String, Arc<T>)>,
}

impl<T> View for Index<T> {
    type V = Map<Seq<char>, T>;

    closed spec fn view(&self) -> Map<Seq<char>, T> {
        map_of(self.entries@)
    }
}

impl<T> Index<T> {
    /// Keys are unique.
    pub closed spec fn wf(&self) -> bool {
        keys_unique(self.entries@)
    }

    /// The records, in the order in which their keys first came.
    pub closed spec fn records(&self) -> Seq<T> {
        self.entries@.map_values(|e: (String, Arc<T>)| *e.1)
    }

    /// An empty index.
    pub fn new() -> (r: Index<T>)
        ensures
            r.wf(),
            r@ == Map::<Seq<char>, T>::empty(),
    {
        Index { entries: Vec::new() }
    }

    /// Sets the record under `key`, in place of any record it had.
    pub fn insert(&mut self, key: String, record: Arc<T>)
        requires
            old(self).wf(),
        ensures
            final(self).wf(),
            final(self)@ == old(self)@.insert(key@, *record),
    {
        let mut i: usize = 0;
        while i < self.entries.len()
            invariant
                i <= self.entries@.len(),
                self.entries@ == old(self).entries@,
                keys_unique(self.entries@),
                forall|j: int| 0 <= j < i ==> self.entries@[j].0@ != key@,
            decreases self.entries@.len() - i,
        {
            if self.entries[i].0 == key {
                let ghost before = self.entries@;
                let ghost e = (key, record);
                proof {
                    lemma_map_of_update(before, i as int, e);
                }
                self.entries.set(i, (key, record));
                assert(self.entries@ == before.update(i as int, e));
                assert(keys_unique(self.entries@));
                return;
            }
            i = i + 1;
        }
        self.entries.push((key, record));
        assert(self.entries@.drop_last() =~= old(self).entries@);
        assert(keys_unique(self.entries@));
    }

    /// The record under `key`, if there is one.
    pub fn get(&self, key: &String) -> (r: Option<Arc<T>>)
        requires
            self.wf(),
        ensures
            match r {
                Some(t) => self@.contains_key(key@) && *t == self@[key@],
                None => !self@.contains_key(key@),
            },
    {
        let mut i: usize = 0;
        while i < self.entries.len()
            invariant
                i <= self.entries@.len(),
                keys_unique(self.entries@),
                forall|j: int| 0 <= j < i ==> self.entries@[j].0@ != key@,
            decreases self.entries@.len() - i,
        {
            if self.entries[i].0 == *key {
                proof {
                    lemma_map_of_at(self.entries@, i as int);
                }
                return Some(self.entries[i].1.clone());
            }
            i = i + 1;
        }
        proof {
            lemma_map_of_keys(self.entries@, key@);
        }
        None
    }

    /// Every record, once each.
    pub fn get_all(&self) -> (r: Vec<Arc<T>>)
        requires
            self.wf(),
        ensures
            self@.dom().finite(),
            r@.len() == self@.dom().len(),
            forall|i: int| 0 <= i < r@.len() ==> self@.values().contains(*#[trigger] r@[i]),
            forall|k: Seq<char>| #[trigger] self@.contains_key(k) ==> exists|i: int| 0 <= i < r@.len() && *r@[i] == self@[k],
            r@.map_values(|a: Arc<T>| *a) == self.records(),
            lists_each_once(r@.map_values(|a: Arc<T>| *a), self@),
    {
        let mut r: Vec<Arc<T>> = Vec::new();
        let mut i: usize = 0;
        while i < self.entries.len()
            invariant
                i <= self.entries@.len(),
                r@.len() == i,
                keys_unique(self.entries@),
                forall|j: int| 0 <= j < i ==> r@[j] == self.entries@[j].1,
            decreases self.entries@.len() - i,
        {
            r.push(self.entries[i].1.clone());
            i = i + 1;
        }
        proof {
            lemma_map_of_len(self.entries@);
            assert forall|i: int| 0 <= i < r@.len() implies self@.values().contains(*#[trigger] r@[i]) by {
                lemma_map_of_at(self.entries@, i);
                assert(self@.contains_key(self.entries@[i].0@));
            }
            assert forall|k: Seq<char>| #[trigger] self@.contains_key(k) implies exists|i: int| 0 <= i < r@.len() && *r@[i] == self@[k] by {
                lemma_map_of_keys(self.entries@, k);
                let i = choose|i: int| 0 <= i < self.entries@.len() && self.entries@[i].0@ == k;
                lemma_map_of_at(self.entries@, i);
                assert(*r@[i] == self@[k]);
            }
            let vals = r@.map_values(|a: Arc<T>| *a);
            assert(vals =~= self.records());
            let ks = self.entries@.map_values(|e: (String, Arc<T>)| e.0@);
            assert forall|a: int, b: int| 0 <= a < ks.len() && 0 <= b < ks.len() && a != b implies ks[a] != ks[b] by {
                if a < b {
                    assert(self.entries@[a].0@ != self.entries@[b].0@);
                } else {
                    assert(self.entries@[b].0@ != self.entries@[a].0@);
                }
            }
            assert(ks.no_duplicates());
            assert forall|k: Seq<char>| ks.to_set().contains(k) <==> self@.dom().contains(k) by {
                lemma_map_of_keys(self.entries@, k);
                if ks.to_set().contains(k) {
                    let i = choose|i: int| 0 <= i < ks.len() && ks[i] == k;
                    assert(self.entries@[i].0@ == k);
                }
                if self@.dom().contains(k) {
                    let i = choose|i: int| 0 <= i < self.entries@.len() && self.entries@[i].0@ == k;
                    assert(ks[i] == k);
                }
            }
            assert(ks.to_set() =~= self@.dom());
            assert forall|i: int| 0 <= i < ks.len() implies vals[i] == self@[ks[i]] by {
                lemma_map_of_at(self.entries@, i);
            }
            assert(lists_each_once(vals, self@));
        }
        r
    }
}

/// Wraps each record of a scan, keeping the order.
fn share_all<T>(scan: Vec<T>) -> (r: Vec<Arc<T>>)
    ensures
        r@.len() == scan@.len(),
        forall|i: int| 0 <= i < r@.len() ==> *r@[i] == scan@[i],
{
    let ghost orig = scan@;
    let mut rest = scan;
    let mut reversed: Vec<Arc<T>> = Vec::new();
    while rest.len() > 0
        invariant
            rest@.len() + reversed@.len() == orig.len(),
            rest@ == orig.subrange(0, rest@.len() as int),
            forall|j: int| 0 <= j < reversed@.len() ==> *reversed@[j] == orig[orig.len() - 1 - j],
        decreases rest@.len(),
    {
        let t = rest.pop().unwrap();
        reversed.push(Arc::new(t));
        assert(rest@ =~= orig.subrange(0, rest@.len() as int));
    }
    let mut r: Vec<Arc<T>> = Vec::new();
    let mut i: usize = reversed.len();
    while i > 0
        invariant
            i <= reversed@.len() == orig.len(),
            r@.len() == orig.len() - i,
            forall|j: int| 0 <= j < orig.len() - i ==> *r@[j] == orig[j],
            forall|j: int| 0 <= j < reversed@.len() ==> *reversed@[j] == orig[orig.len() - 1 - j],
        decreases i,
    {
        i = i - 1;
        r.push(reversed[i].clone());
    }
    r
}

/// The indices by id and by name of one scan, sharing its records.
pub fn index_ids_and_names<T: Record>(scan: Vec<T>) -> (r: (Index<T>, Index<T>))
    ensures
        r.0.wf(),
        r.1.wf(),
        r.0@ == ids_of(scan@),
        r.1@ == names_of(scan@),
{
    let ghost orig = scan@;
    let shared = share_all(scan);
    let mut ids: Index<T> = Index::new();
    let mut names: Index<T> = Index::new();
    let mut i: usize = 0;
    while i < shared.len()
        invariant
            i <= shared@.len() == orig.len(),
            forall|j: int| 0 <= j < orig.len() ==> *shared@[j] == orig[j],
            ids.wf(),
            names.wf(),
            ids@ == ids_of(orig.subrange(0, i as int)),
            names@ == names_of(orig.subrange(0, i as int)),
        decreases shared@.len() - i,
    {
        let t = shared[i].clone();
        ids.insert(t.id_key(), t.clone());
        names.insert(t.name_key(), t);
        assert(orig.subrange(0, i + 1).drop_last() =~= orig.subrange(0, i as int));
        i = i + 1;
    }
    assert(orig.subrange(0, i as int) =~= orig);
    (ids, names)
}

/// A snapshot of one collection: its records by id and by name, both built
/// from the same scan.
pub struct Snapshot<T> {
    by_id: Index<T>,
    by_name: Index<T>,
}

impl<T> Snapshot<T> {
    /// Both indices are well formed.
    pub closed spec fn wf(&self) -> bool {
        self.by_id.wf() && self.by_name.wf()
    }

    /// The records by id.
    pub closed spec fn ids(&self) -> Map<Seq<char>, T> {
        self.by_id@
    }

    /// The records, in the order in which their ids were first scanned.
    pub closed spec fn records(&self) -> Seq<T> {
        self.by_id.records()
    }

    /// The records by name.
    pub closed spec fn names(&self) -> Map<Seq<char>, T> {
        self.by_name@
    }

    /// The snapshot of a completed scan.
    pub fn from_scan(scan: Vec<T>) -> (r: Snapshot<T>)
        where
            T: Record,
        ensures
            r.wf(),
            r.ids() == ids_of(scan@),
            r.names() == names_of(scan@),
    {
        let (by_id, by_name) = index_ids_and_names(scan);
        Snapshot { by_id, by_name }
    }

    /// The first snapshot, from the first scan; fails with the scan's error.
    pub fn load(scan: Result<Vec<T>, UmtError>) -> (r: Result<Snapshot<T>, UmtError>)
        where
            T: Record,
        ensures
            match scan {
                Ok(v) => r is Ok && r->Ok_0.wf() && r->Ok_0.ids() == ids_of(v@) && r->Ok_0.names()
                    == names_of(v@),
                Err(e) => r == Err::<Snapshot<T>, UmtError>(e),
            },
    {
        match scan {
            Ok(v) => Ok(Snapshot::from_scan(v)),
            Err(e) => Err(e),
        }
    }

    /// Swaps in `next`, the snapshot of a fresh scan. Where that scan failed,
    /// this snapshot stays in effect, whole, and the scan's error is handed back.
    pub fn reload(&mut self, next: Result<Snapshot<T>, UmtError>) -> (r: Result<(), UmtError>)
        requires
            old(self).wf(),
            next is Ok ==> next->Ok_0.wf(),
        ensures
            final(self).wf(),
            match next {
                Ok(s) => r is Ok && final(self).ids() == s.ids() && final(self).names() == s.names(),
                Err(e) => r == Err::<(), UmtError>(e) && *final(self) == *old(self) && final(self).ids()
                    == old(self).ids() && final(self).names() == old(self).names()
                    && final(self).records() == old(self).records(),
            },
    {
        match next {
            Ok(s) => {
                *self = s;
                Ok(())
            },
            Err(e) => Err(e),
        }
    }

    /// The record with this name, if there is one.
    pub fn get(&self, name: &String) -> (r: Option<Arc<T>>)
        requires
            self.wf(),
        ensures
            match r {
                Some(t) => self.names().contains_key(name@) && *t == self.names()[name@],
                None => !self.names().contains_key(name@),
            },
    {
        self.by_name.get(name)
    }

    /// The record with this id, if there is one.
    pub fn get_by_id(&self, id: &String) -> (r: Option<Arc<T>>)
        requires
            self.wf(),
        ensures
            match r {
                Some(t) => self.ids().contains_key(id@) && *t == self.ids()[id@],
                None => !self.ids().contains_key(id@),
            },
    {
        self.by_id.get(id)
    }

    /// Every record, once each.
    pub fn get_all(&self) -> (r: Vec<Arc<T>>)
        requires
            self.wf(),
        ensures
            self.ids().dom().finite(),
            r@.len() == self.ids().dom().len(),
            forall|i: int| 0 <= i < r@.len() ==> self.ids().values().contains(*#[trigger] r@[i]),
            forall|k: Seq<char>| #[trigger] self.ids().contains_key(k) ==> exists|i: int|
                0 <= i < r@.len() && *r@[i] == self.ids()[k],
            r@.map_values(|a: Arc<T>| *a) == self.records(),
            lists_each_once(r@.map_values(|a: Arc<T>| *a), self.ids()),
    {
        self.by_id.get_all()
    }
}

} // verus!
