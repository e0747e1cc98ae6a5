//! The fingerprint-keyed result cache: a unit analyzed once under a
//! fingerprint is never analyzed again under it.
//!
//! The cache is additive within a run and keyed by content, so entries
//! for changed code become unreachable rather than being evicted.

use vstd::prelude::*;

use crate::text::str_eq;
use crate::workspace::{
    item_model, lemma_assoc_found, lemma_assoc_missing, lemma_assoc_push, lemma_assoc_update,
    spec_assoc_map, spec_assoc_wf, Item,
};
use crate::kinds::DecoKind;

verus! {

/// Content-derived key of one analyzable unit: the hash of its source
/// text and the hash of its lowered form.
pub struct Fingerprint {
    pub file_hash: String,
    pub mir_hash: String,
}

impl Fingerprint {
    /// Mathematical image of the key.
    pub open spec fn model(self) -> (Seq<char>, Seq<char>) {
        (self.file_hash@, self.mir_hash@)
    }

    /// A fingerprint from its two content hashes.
    pub fn new(file_hash: String, mir_hash: String) -> (r: Self)
        ensures
            r.model() == (file_hash@, mir_hash@),
    {
        Fingerprint { file_hash, mir_hash }
    }

    /// An identical fingerprint.
    pub fn duplicate(&self) -> (r: Self)
        ensures
            r.model() == self.model(),
    {
        Fingerprint { file_hash: self.file_hash.clone(), mir_hash: self.mir_hash.clone() }
    }

    /// Whether two fingerprints carry the same content hashes.
    pub fn same_key(&self, other: &Fingerprint) -> (r: bool)
        ensures
            r == (self.model() == other.model()),
    {
        let a = str_eq(self.file_hash.as_str(), other.file_hash.as_str());
        let b = str_eq(self.mir_hash.as_str(), other.mir_hash.as_str());
        a && b
    }
}

/// The cache: fingerprint → fact payload, behind one lock in the running
/// system; here the data structure itself, with map semantics.
pub struct ResultCache {
    pub entries: Vec<(Fingerprint, Item)>,
}

impl ResultCache {
    /// Mathematical image: the map the entries denote.
    pub open spec fn model(self) -> Map<(Seq<char>, Seq<char>), (Seq<char>, Seq<(DecoKind, u32, u32, u32, Option<Seq<char>>)>)> {
        spec_assoc_map(self.entries@.map_values(|p: (Fingerprint, Item)| (p.0.model(), item_model(p.1))))
    }

    /// Distinct fingerprints.
    pub open spec fn wf(self) -> bool {
        spec_assoc_wf(self.entries@.map_values(|p: (Fingerprint, Item)| (p.0.model(), item_model(p.1))))
    }

    /// An empty cache.
    pub fn new() -> (r: Self)
        ensures
            r.wf(),
            r.model() =~~= Map::empty(),
    {
        let r = ResultCache { entries: Vec::new() };
        proof {
            assert(r.entries@.map_values(|p: (Fingerprint, Item)| (p.0.model(), item_model(p.1)))
                =~= Seq::<((Seq<char>, Seq<char>), (Seq<char>, Seq<(DecoKind, u32, u32, u32, Option<Seq<char>>)>))>::empty());
        }
        r
    }

    /// Number of cached entries.
    pub fn len(&self) -> (r: usize)
        ensures
            r == self.entries@.len(),
    {
        self.entries.len()
    }

    /// Looks a fingerprint up; `Some` exactly when the key is cached, and
    /// then the stored payload is returned.
    pub fn lookup(&self, f: &Fingerprint) -> (r: Option<&Item>)
        requires
            self.wf(),
        ensures
            match r {
                Some(it) => self.model().contains_key(f.model()) && item_model(*it)
                    == self.model()[f.model()],
                None => !self.model().contains_key(f.model()),
            },
    {
        let ghost p0 = self.entries@.map_values(
            |p: (Fingerprint, Item)| (p.0.model(), item_model(p.1)),
        );
        let mut i: usize = 0;
        let n = self.entries.len();
        while i < n
            invariant
                0 <= i <= n == self.entries@.len(),
                p0 == self.entries@.map_values(
                    |p: (Fingerprint, Item)| (p.0.model(), item_model(p.1)),
                ),
                spec_assoc_wf(p0),
                forall|j: int| 0 <= j < i ==> (#[trigger] p0[j]).0 != f.model(),
            decreases n - i,
        {
            assert(p0[i as int] == (
                self.entries@[i as int].0.model(),
                item_model(self.entries@[i as int].1),
            ));
            if self.entries[i].0.same_key(f) {
                proof {
                    lemma_assoc_found(p0, i as int);
                }
                return Some(&self.entries[i].1);
            }
            i = i + 1;
        }
        proof {
            lemma_assoc_missing(p0, f.model());
        }
        None
    }

    /// Stores a payload under a fingerprint; an existing entry for the
    /// same key is replaced.
    pub fn insert(&mut self, f: Fingerprint, payload: Item)
        requires
            old(self).wf(),
        ensures
            final(self).wf(),
            final(self).model() == old(self).model().insert(f.model(), item_model(payload)),
    {
        let ghost p0 = old(self).entries@.map_values(
            |p: (Fingerprint, Item)| (p.0.model(), item_model(p.1)),
        );
        let n = self.entries.len();
        let mut found: Option<usize> = None;
        let mut i: usize = 0;
        while i < n && found.is_none()
            invariant
                0 <= i <= n == self.entries@.len(),
                *self == *old(self),
                p0 == self.entries@.map_values(
                    |p: (Fingerprint, Item)| (p.0.model(), item_model(p.1)),
                ),
                forall|j: int| 0 <= j < i ==> (#[trigger] p0[j]).0 != f.model(),
                found matches Some(x) ==> x == i && i < n && p0[i as int].0 == f.model(),
            decreases n - i + (if found is None { 1int } else { 0int }),
        {
            assert(p0[i as int] == (
                self.entries@[i as int].0.model(),
                item_model(self.entries@[i as int].1),
            ));
            if self.entries[i].0.same_key(&f) {
                found = Some(i);
            } else {
                i = i + 1;
            }
        }
        match found {
            Some(i) => {
                let ghost e0 = self.entries@;
                self.entries.set(i, (f, payload));
                proof {
                    let p1 = self.entries@.map_values(
                        |p: (Fingerprint, Item)| (p.0.model(), item_model(p.1)),
                    );
                    assert(p1 =~= p0.update(i as int, (f.model(), item_model(payload))));
                    assert(p0[i as int].0 == f.model());
                    lemma_assoc_update(p0, i as int, item_model(payload));
                    assert(self.model() =~= old(self).model().insert(
                        f.model(),
                        item_model(payload),
                    ));
                    assert(spec_assoc_wf(p1));
                }
            },
            None => {
                self.entries.push((f, payload));
                proof {
                    let p1 = self.entries@.map_values(
                        |p: (Fingerprint, Item)| (p.0.model(), item_model(p.1)),
                    );
                    assert(p1 =~= p0.push((f.model(), item_model(payload))));
                    lemma_assoc_push(p0, f.model(), item_model(payload));
                    assert(self.model() =~= old(self).model().insert(
                        f.model(),
                        item_model(payload),
                    ));
                    assert(spec_assoc_wf(p1));
                }
            },
        }
    }
}

/// Cache idempotence, stated over the cache's map model: after storing a
/// payload under a fingerprint, looking that fingerprint up yields a
/// payload structurally equal to the one stored; and storing the same
/// pair twice leaves the cache exactly as storing it once does.
pub proof fn lemma_cache_idempotence(
    m: Map<(Seq<char>, Seq<char>), (Seq<char>, Seq<(DecoKind, u32, u32, u32, Option<Seq<char>>)>)>,
    f: (Seq<char>, Seq<char>),
    p: (Seq<char>, Seq<(DecoKind, u32, u32, u32, Option<Seq<char>>)>),
)
    ensures
        m.insert(f, p).contains_key(f),
        m.insert(f, p)[f] == p,
        m.insert(f, p).insert(f, p) =~= m.insert(f, p),
{
}

} // verus!
