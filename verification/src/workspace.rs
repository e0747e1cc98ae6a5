//! The nested workspace model: crate name → file path → ordered items,
//! one item per analyzed unit, and the fold that merges one analysis
//! result into it.
//!
//! Within a file, insertion order is significant; key order across crates
//! and files is not, so those levels are modelled as maps. A later result
//! for the same (crate, file, unit) key replaces the earlier one.

use vstd::prelude::*;

use crate::deco::ReceivedDiagnostic;
use crate::kinds::DecoKind;
use crate::text::str_eq;

verus! {

/// One classified observation with its source span and optional detail
/// text.
pub struct DecorationFact {
    pub kind: DecoKind,
    pub line: u32,
    pub start_char: u32,
    pub end_char: u32,
    pub detail: Option<String>,
}

/// The analysis output for one unit: its name and its facts.
pub struct Item {
    pub name: String,
    pub facts: Vec<DecorationFact>,
}

/// The analyzed items of one file, in source order.
pub struct File {
    pub items: Vec<Item>,
}

/// The files of one crate, keyed by path.
pub struct WsCrate {
    pub files: Vec<(String, File)>,
}

/// The crates of a workspace, keyed by crate name.
pub struct Workspace {
    pub crates: Vec<(String, WsCrate)>,
}

/// Mathematical image of one fact.
pub open spec fn fact_model(f: DecorationFact) -> (DecoKind, u32, u32, u32, Option<Seq<char>>) {
    (
        f.kind,
        f.line,
        f.start_char,
        f.end_char,
        match f.detail {
            Some(d) => Some(d@),
            None => None,
        },
    )
}

/// Mathematical image of one item: its name and its facts.
pub open spec fn item_model(it: Item) -> (Seq<char>, Seq<(DecoKind, u32, u32, u32, Option<Seq<char>>)>) {
    (it.name@, it.facts@.map_values(|f: DecorationFact| fact_model(f)))
}

/// Mathematical image of one file: its items in order.
pub open spec fn file_model(f: File) -> Seq<(Seq<char>, Seq<(DecoKind, u32, u32, u32, Option<Seq<char>>)>)> {
    f.items@.map_values(|it: Item| item_model(it))
}

/// The map an association list denotes; a later entry would win, and
/// well-formed lists have distinct keys.
pub open spec fn spec_assoc_map<K, V>(s: Seq<(K, V)>) -> Map<K, V>
    decreases s.len(),
{
    if s.len() == 0 {
        Map::empty()
    } else {
        spec_assoc_map(s.drop_last()).insert(s.last().0, s.last().1)
    }
}

/// Distinct keys.
pub open spec fn spec_assoc_wf<K, V>(s: Seq<(K, V)>) -> bool {
    forall|i: int, j: int| 0 <= i < j < s.len() ==> (#[trigger] s[i]).0 != (#[trigger] s[j]).0
}

/// An entry of a well-formed list is in its map.
pub proof fn lemma_assoc_found<K, V>(s: Seq<(K, V)>, i: int)
    requires
        spec_assoc_wf(s),
        0 <= i < s.len(),
    ensures
        spec_assoc_map(s).contains_key(s[i].0),
        spec_assoc_map(s)[s[i].0] == s[i].1,
    decreases s.len(),
{
    if i < s.len() - 1 {
        assert(spec_assoc_wf(s.drop_last()));
        assert(s.drop_last()[i] == s[i]);
        lemma_assoc_found(s.drop_last(), i);
        assert(s[i].0 != s.last().0);
    }
}

/// A key on no entry is not in the map.
pub proof fn lemma_assoc_missing<K, V>(s: Seq<(K, V)>, k: K)
    requires
        forall|i: int| 0 <= i < s.len() ==> (#[trigger] s[i]).0 != k,
    ensures
        !spec_assoc_map(s).contains_key(k),
    decreases s.len(),
{
    if s.len() > 0 {
        assert(forall|i: int|
            0 <= i < s.drop_last().len() ==> (#[trigger] s.drop_last()[i]).0 != k);
        lemma_assoc_missing(s.drop_last(), k);
    }
}

/// Updating the value of one entry updates the map at its key.
pub proof fn lemma_assoc_update<K, V>(s: Seq<(K, V)>, i: int, v: V)
    requires
        spec_assoc_wf(s),
        0 <= i < s.len(),
    ensures
        spec_assoc_map(s.update(i, (s[i].0, v))) =~= spec_assoc_map(s).insert(s[i].0, v),
    decreases s.len(),
{
    let u = s.update(i, (s[i].0, v));
    if i == s.len() - 1 {
        assert(u.drop_last() =~= s.drop_last());
    } else {
        assert(spec_assoc_wf(s.drop_last()));
        assert(s.drop_last()[i] == s[i]);
        lemma_assoc_update(s.drop_last(), i, v);
        assert(u.drop_last() =~= s.drop_last().update(i, (s[i].0, v)));
        assert(u.last() == s.last());
        assert(s[i].0 != s.last().0);
        assert(spec_assoc_map(u) =~= spec_assoc_map(s).insert(s[i].0, v));
    }
}

/// The map of a one-entry list.
pub proof fn lemma_assoc_singleton<K, V>(s: Seq<(K, V)>)
    requires
        s.len() == 1,
    ensures
        spec_assoc_map(s) =~= Map::empty().insert(s[0].0, s[0].1),
{
    assert(s.drop_last().len() == 0);
    assert(spec_assoc_map(s.drop_last()) =~= Map::<K, V>::empty());
}

/// Appending an entry inserts its key.
pub proof fn lemma_assoc_push<K, V>(s: Seq<(K, V)>, k: K, v: V)
    ensures
        spec_assoc_map(s.push((k, v))) =~= spec_assoc_map(s).insert(k, v),
{
    assert(s.push((k, v)).drop_last() =~= s);
}

/// Replacing the item of the same unit name, or appending: the
/// replacement rule inside one file, stated over item models.
pub open spec fn spec_upsert(
    items: Seq<(Seq<char>, Seq<(DecoKind, u32, u32, u32, Option<Seq<char>>)>)>,
    it: (Seq<char>, Seq<(DecoKind, u32, u32, u32, Option<Seq<char>>)>),
) -> Seq<(Seq<char>, Seq<(DecoKind, u32, u32, u32, Option<Seq<char>>)>)> {
    let i = spec_find_model(items, it.0, 0);
    if i >= 0 {
        items.update(i, it)
    } else {
        items.push(it)
    }
}

/// First index of an item model with the given name, or -1.
pub open spec fn spec_find_model(
    items: Seq<(Seq<char>, Seq<(DecoKind, u32, u32, u32, Option<Seq<char>>)>)>,
    name: Seq<char>,
    i: int,
) -> int
    decreases items.len() - i,
{
    if i < 0 || i >= items.len() {
        -1
    } else if items[i].0 == name {
        i
    } else {
        spec_find_model(items, name, i + 1)
    }
}

/// Replacing the same item twice has the effect of replacing it once.
pub proof fn lemma_upsert_idempotent(
    items: Seq<(Seq<char>, Seq<(DecoKind, u32, u32, u32, Option<Seq<char>>)>)>,
    it: (Seq<char>, Seq<(DecoKind, u32, u32, u32, Option<Seq<char>>)>),
)
    ensures
        spec_upsert(spec_upsert(items, it), it) =~= spec_upsert(items, it),
{
    let i = spec_find_model(items, it.0, 0);
    let u = spec_upsert(items, it);
    if i >= 0 {
        lemma_find_model_char(items, it.0, 0);
        lemma_find_model_stable(items, u, it.0, i, 0);
        assert(spec_find_model(u, it.0, 0) == i);
        assert(u.update(i, it) =~= u);
    } else {
        lemma_find_model_char(items, it.0, 0);
        lemma_find_model_stable(items, u, it.0, items.len() as int, 0);
        assert(spec_find_model(u, it.0, 0) == items.len());
        assert(u.update(items.len() as int, it) =~= u);
    }
}

/// Characterization of `spec_find_model`: what holds before and at the
/// found index.
pub proof fn lemma_find_model_char(
    items: Seq<(Seq<char>, Seq<(DecoKind, u32, u32, u32, Option<Seq<char>>)>)>,
    name: Seq<char>,
    j: int,
)
    requires
        0 <= j <= items.len(),
    ensures
        ({
            let r = spec_find_model(items, name, j);
            &&& -1 <= r
            &&& r == -1 ==> forall|t: int| j <= t < items.len() ==> (#[trigger] items[t]).0 != name
            &&& r >= 0 ==> j <= r < items.len() && items[r].0 == name && forall|t: int|
                j <= t < r ==> (#[trigger] items[t]).0 != name
        }),
    decreases items.len() - j,
{
    if j < items.len() && items[j].0 != name {
        lemma_find_model_char(items, name, j + 1);
    }
}

/// After an upsert at the found position (or a push), the first index
/// with the item's name is that position.
proof fn lemma_find_model_stable(
    items: Seq<(Seq<char>, Seq<(DecoKind, u32, u32, u32, Option<Seq<char>>)>)>,
    u: Seq<(Seq<char>, Seq<(DecoKind, u32, u32, u32, Option<Seq<char>>)>)>,
    name: Seq<char>,
    i: int,
    j: int,
)
    requires
        0 <= j <= i <= items.len(),
        i < u.len(),
        u.len() <= items.len() + 1,
        forall|t: int| 0 <= t < i ==> #[trigger] u[t] == items[t],
        forall|t: int| 0 <= t < i ==> (#[trigger] items[t]).0 != name,
        u[i].0 == name,
    ensures
        spec_find_model(u, name, j) == i,
    decreases i - j,
{
    if j < i {
        lemma_find_model_stable(items, u, name, i, j + 1);
    }
}

/// Fold of one analysis result into the workspace model: the item model
/// replaces or extends the item list of its (crate, file) cell.
pub open spec fn spec_fold_model(
    m: Map<Seq<char>, Map<Seq<char>, Seq<(Seq<char>, Seq<(DecoKind, u32, u32, u32, Option<Seq<char>>)>)>>>,
    c: Seq<char>,
    f: Seq<char>,
    it: (Seq<char>, Seq<(DecoKind, u32, u32, u32, Option<Seq<char>>)>),
) -> Map<Seq<char>, Map<Seq<char>, Seq<(Seq<char>, Seq<(DecoKind, u32, u32, u32, Option<Seq<char>>)>)>>> {
    let km = if m.contains_key(c) {
        m[c]
    } else {
        Map::empty()
    };
    let items = if km.contains_key(f) {
        km[f]
    } else {
        Seq::empty()
    };
    m.insert(c, km.insert(f, spec_upsert(items, it)))
}

/// Folding the same result twice gives the workspace of folding it once.
pub proof fn lemma_fold_idempotent(
    m: Map<Seq<char>, Map<Seq<char>, Seq<(Seq<char>, Seq<(DecoKind, u32, u32, u32, Option<Seq<char>>)>)>>>,
    c: Seq<char>,
    f: Seq<char>,
    it: (Seq<char>, Seq<(DecoKind, u32, u32, u32, Option<Seq<char>>)>),
)
    ensures
        spec_fold_model(spec_fold_model(m, c, f, it), c, f, it) =~~= spec_fold_model(m, c, f, it),
{
    lemma_upsert_idempotent(
        if m.contains_key(c) {
            if m[c].contains_key(f) {
                m[c][f]
            } else {
                Seq::empty()
            }
        } else {
            Seq::empty()
        },
        it,
    );
}

impl File {
    /// Model of the items, in order.
    pub open spec fn model(self) -> Seq<(Seq<char>, Seq<(DecoKind, u32, u32, u32, Option<Seq<char>>)>)> {
        file_model(self)
    }
}

impl WsCrate {
    /// Model: file path → items.
    pub open spec fn model(self) -> Map<Seq<char>, Seq<(Seq<char>, Seq<(DecoKind, u32, u32, u32, Option<Seq<char>>)>)>> {
        spec_assoc_map(self.files@.map_values(|p: (String, File)| (p.0@, file_model(p.1))))
    }

    /// Distinct file keys.
    pub open spec fn wf(self) -> bool {
        spec_assoc_wf(self.files@.map_values(|p: (String, File)| (p.0@, file_model(p.1))))
    }
}

impl Workspace {
    /// Model: crate name → file path → items.
    pub open spec fn model(self) -> Map<Seq<char>, Map<Seq<char>, Seq<(Seq<char>, Seq<(DecoKind, u32, u32, u32, Option<Seq<char>>)>)>>> {
        spec_assoc_map(self.crates@.map_values(|p: (String, WsCrate)| (p.0@, p.1.model())))
    }

    /// Distinct crate keys, and each crate well-formed.
    pub open spec fn wf(self) -> bool {
        &&& spec_assoc_wf(self.crates@.map_values(|p: (String, WsCrate)| (p.0@, p.1.model())))
        &&& forall|i: int| 0 <= i < self.crates@.len() ==> (#[trigger] self.crates@[i]).1.wf()
    }

    /// An empty workspace.
    pub fn new() -> (r: Self)
        ensures
            r.model() =~~= Map::empty(),
            r.wf(),
    {
        let r = Workspace { crates: Vec::new() };
        proof {
            assert(r.crates@.map_values(|p: (String, WsCrate)| (p.0@, p.1.model())) =~= Seq::<(
                Seq<char>,
                Map<Seq<char>, Seq<(Seq<char>, Seq<(DecoKind, u32, u32, u32, Option<Seq<char>>)>)>>,
            )>::empty());
        }
        r
    }
}

/// Crate-level fold: the file's item list gains or replaces the item.
pub open spec fn spec_crate_fold(
    km: Map<Seq<char>, Seq<(Seq<char>, Seq<(DecoKind, u32, u32, u32, Option<Seq<char>>)>)>>,
    f: Seq<char>,
    it: (Seq<char>, Seq<(DecoKind, u32, u32, u32, Option<Seq<char>>)>),
) -> Map<Seq<char>, Seq<(Seq<char>, Seq<(DecoKind, u32, u32, u32, Option<Seq<char>>)>)>> {
    let items = if km.contains_key(f) {
        km[f]
    } else {
        Seq::empty()
    };
    km.insert(f, spec_upsert(items, it))
}

/// Replaces the item of the same unit name in the file, or appends it.
fn file_upsert(file: &mut File, item: Item)
    ensures
        file_model(*final(file)) == spec_upsert(file_model(*old(file)), item_model(item)),
{
    let ghost fm = file_model(*old(file));
    let ghost itm = item_model(item);
    let mut t: usize = 0;
    let n = file.items.len();
    while t < n
        invariant
            0 <= t <= n == file.items@.len(),
            *file == *old(file),
            fm == file_model(*file),
            itm == item_model(item),
            forall|j: int| 0 <= j < t ==> (#[trigger] fm[j]).0 != itm.0,
        decreases n - t,
    {
        assert(fm[t as int] == item_model(file.items@[t as int]));
        if str_eq(file.items[t].name.as_str(), item.name.as_str()) {
            file.items.set(t, item);
            proof {
                lemma_find_model_stable(fm, fm, itm.0, t as int, 0);
                assert(file_model(*file) =~= fm.update(t as int, itm));
            }
            return ;
        }
        t = t + 1;
    }
    file.items.push(item);
    proof {
        lemma_find_model_char(fm, itm.0, 0);
        if spec_find_model(fm, itm.0, 0) >= 0 {
            let r = spec_find_model(fm, itm.0, 0);
            assert(fm[r].0 != itm.0);
            assert(false);
        }
        assert(file_model(*file) =~= fm.push(itm));
    }
}

/// Folds one item into a crate: the file entry is updated or created.
fn crate_fold(kr: &mut WsCrate, file_name: &str, item: Item)
    requires
        old(kr).wf(),
    ensures
        final(kr).wf(),
        final(kr).model() == spec_crate_fold(old(kr).model(), file_name@, item_model(item)),
{
    let ghost p0 = old(kr).files@.map_values(|p: (String, File)| (p.0@, file_model(p.1)));
    let ghost km = old(kr).model();
    let ghost itm = item_model(item);
    let mut fi: usize = 0;
    let n = kr.files.len();
    while fi < n
        invariant
            0 <= fi <= n == kr.files@.len(),
            *kr == *old(kr),
            itm == item_model(item),
            forall|j: int| 0 <= j < fi ==> (#[trigger] p0[j]).0 != file_name@,
            p0 == kr.files@.map_values(|p: (String, File)| (p.0@, file_model(p.1))),
            spec_assoc_wf(p0),
            km == spec_assoc_map(p0),
        decreases n - fi,
    {
        assert(p0[fi as int] == (kr.files@[fi as int].0@, file_model(kr.files@[fi as int].1)));
        if str_eq(kr.files[fi].0.as_str(), file_name) {
            proof {
                lemma_assoc_found(p0, fi as int);
            }
            let ghost files0 = kr.files@;
            let (fkey, mut file) = kr.files.remove(fi);
            file_upsert(&mut file, item);
            let ghost fm2 = file_model(file);
            kr.files.insert(fi, (fkey, file));
            proof {
                assert(kr.files@ =~= files0.update(fi as int, (files0[fi as int].0, file)));
                let p1 = kr.files@.map_values(|p: (String, File)| (p.0@, file_model(p.1)));
                assert(p1 =~= p0.update(fi as int, (file_name@, fm2)));
                assert(p0[fi as int].0 == file_name@);
                lemma_assoc_update(p0, fi as int, fm2);
                assert(kr.model() =~= km.insert(file_name@, fm2));
                assert(km.contains_key(file_name@) && km[file_name@] == p0[fi as int].1);
                assert(kr.model() =~= spec_crate_fold(km, file_name@, itm));
                assert(spec_assoc_wf(p1));
            }
            return ;
        }
        fi = fi + 1;
    }
    proof {
        lemma_assoc_missing(p0, file_name@);
    }
    let mut items: Vec<Item> = Vec::new();
    items.push(item);
    let file = File { items };
    let ghost fm2 = file_model(file);
    kr.files.push((file_name.to_owned(), file));
    proof {
        assert(fm2 =~~= seq![itm]);
        assert(spec_upsert(Seq::empty(), itm) =~= seq![itm]);
        let p1 = kr.files@.map_values(|p: (String, File)| (p.0@, file_model(p.1)));
        assert(p1 =~= p0.push((file_name@, fm2)));
        lemma_assoc_push(p0, file_name@, fm2);
        assert(kr.model() =~= spec_crate_fold(km, file_name@, itm));
        assert(spec_assoc_wf(p1));
    }
}

impl Workspace {
    /// Merges one analysis result into the workspace and returns the
    /// emitted snapshot: a workspace holding exactly the newly folded
    /// unit.
    pub fn fold(&mut self, crate_name: &str, file_name: &str, item: Item) -> (snap: Workspace)
        requires
            old(self).wf(),
        ensures
            final(self).wf(),
            final(self).model() == spec_fold_model(
                old(self).model(),
                crate_name@,
                file_name@,
                item_model(item),
            ),
            snap.wf(),
            snap.model() =~~= Map::empty().insert(
                crate_name@,
                Map::empty().insert(file_name@, seq![item_model(item)]),
            ),
    {
        let snap_item = item.duplicate();
        let ghost p0 = old(self).crates@.map_values(|p: (String, WsCrate)| (p.0@, p.1.model()));
        let ghost m = old(self).model();
        let ghost itm = item_model(item);
        let n = self.crates.len();
        let mut found: Option<usize> = None;
        let mut ci: usize = 0;
        while ci < n && found.is_none()
            invariant
                0 <= ci <= n == self.crates@.len(),
                *self == *old(self),
                p0 == self.crates@.map_values(|p: (String, WsCrate)| (p.0@, p.1.model())),
                forall|j: int| 0 <= j < ci ==> (#[trigger] p0[j]).0 != crate_name@,
                found matches Some(x) ==> x == ci && ci < n && p0[ci as int].0 == crate_name@,
            decreases n - ci + (if found is None { 1int } else { 0int }),
        {
            assert(p0[ci as int] == (
                self.crates@[ci as int].0@,
                self.crates@[ci as int].1.model(),
            ));
            if str_eq(self.crates[ci].0.as_str(), crate_name) {
                found = Some(ci);
            } else {
                ci = ci + 1;
            }
        }
        match found {
            Some(ci) => {
                proof {
                    lemma_assoc_found(p0, ci as int);
                }
                let ghost crates0 = self.crates@;
                let (ckey, mut kr) = self.crates.remove(ci);
                let ghost km = kr.model();
                crate_fold(&mut kr, file_name, item);
                let ghost km2 = kr.model();
                self.crates.insert(ci, (ckey, kr));
                proof {
                    assert(self.crates@ =~= crates0.update(
                        ci as int,
                        (crates0[ci as int].0, kr),
                    ));
                    let p1 = self.crates@.map_values(
                        |p: (String, WsCrate)| (p.0@, p.1.model()),
                    );
                    assert(p1 =~= p0.update(ci as int, (crate_name@, km2)));
                    assert(p0[ci as int].0 == crate_name@);
                    lemma_assoc_update(p0, ci as int, km2);
                    assert(self.model() =~= m.insert(crate_name@, km2));
                    assert(m.contains_key(crate_name@) && m[crate_name@] == km);
                    assert(self.model() =~~= spec_fold_model(m, crate_name@, file_name@, itm));
                    assert(spec_assoc_wf(p1));
                }
            },
            None => {
                proof {
                    lemma_assoc_missing(p0, crate_name@);
                }
                let mut items: Vec<Item> = Vec::new();
                items.push(item);
                let file = File { items };
                let mut files: Vec<(String, File)> = Vec::new();
                files.push((file_name.to_owned(), file));
                let kr = WsCrate { files };
                let ghost km2 = kr.model();
                self.crates.push((crate_name.to_owned(), kr));
                proof {
                    let q = kr.files@.map_values(|p: (String, File)| (p.0@, file_model(p.1)));
                    assert(q =~~= seq![(file_name@, seq![itm])]);
                    assert(q.drop_last() =~= Seq::<(
                        Seq<char>,
                        Seq<(Seq<char>, Seq<(DecoKind, u32, u32, u32, Option<Seq<char>>)>)>,
                    )>::empty());
                    lemma_assoc_singleton(q);
                    assert(km2 =~~= Map::empty().insert(file_name@, seq![itm]));
                    assert(spec_upsert(Seq::empty(), itm) =~= seq![itm]);
                    assert(km2 =~~= spec_crate_fold(Map::empty(), file_name@, itm));
                    let p1 = self.crates@.map_values(|p: (String, WsCrate)| (p.0@, p.1.model()));
                    assert(p1 =~= p0.push((crate_name@, km2)));
                    lemma_assoc_push(p0, crate_name@, km2);
                    assert(self.model() =~~= spec_fold_model(m, crate_name@, file_name@, itm));
                    assert(spec_assoc_wf(p1));
                    assert(kr.wf());
                }
            },
        }

        let mut snap_items: Vec<Item> = Vec::new();
        snap_items.push(snap_item);
        let snap_file = File { items: snap_items };
        let mut snap_files: Vec<(String, File)> = Vec::new();
        snap_files.push((file_name.to_owned(), snap_file));
        let snap_crate = WsCrate { files: snap_files };
        let mut snap_crates: Vec<(String, WsCrate)> = Vec::new();
        snap_crates.push((crate_name.to_owned(), snap_crate));
        let snap = Workspace { crates: snap_crates };
        proof {
            let q = snap_crate.files@.map_values(|p: (String, File)| (p.0@, file_model(p.1)));
            assert(q =~~= seq![(file_name@, seq![itm])]);
            assert(q.drop_last() =~= Seq::<(
                Seq<char>,
                Seq<(Seq<char>, Seq<(DecoKind, u32, u32, u32, Option<Seq<char>>)>)>,
            )>::empty());
            lemma_assoc_singleton(q);
            let p = snap.crates@.map_values(|p: (String, WsCrate)| (p.0@, p.1.model()));
            assert(p =~~= seq![(crate_name@, snap_crate.model())]);
            lemma_assoc_singleton(p);
            assert(p.drop_last() =~= Seq::<(
                Seq<char>,
                Map<Seq<char>, Seq<(Seq<char>, Seq<(DecoKind, u32, u32, u32, Option<Seq<char>>)>)>>,
            )>::empty());
            assert(snap.model() =~~= Map::empty().insert(
                crate_name@,
                Map::empty().insert(file_name@, seq![itm]),
            ));
        }
        snap
    }
}

/// The facts kept for delivery: every fact except the `Lifetime` ones,
/// in order.
pub open spec fn spec_suppress(fs: Seq<DecorationFact>) -> Seq<DecorationFact>
    decreases fs.len(),
{
    if fs.len() == 0 {
        Seq::empty()
    } else if fs.first().kind == DecoKind::Lifetime {
        spec_suppress(fs.drop_first())
    } else {
        seq![fs.first()] + spec_suppress(fs.drop_first())
    }
}

/// Drops `Lifetime` facts before delivery; they are too dense to be
/// useful to a client.
pub fn suppress_lifetimes(facts: Vec<DecorationFact>) -> (r: Vec<DecorationFact>)
    ensures
        r@ =~= spec_suppress(facts@),
{
    let ghost orig = facts@;
    let mut v = facts;
    let mut out: Vec<DecorationFact> = Vec::new();
    while v.len() > 0
        invariant
            spec_suppress(orig) =~= out@ + spec_suppress(v@),
        decreases v@.len(),
    {
        let ghost before = v@;
        let x = v.remove(0);
        assert(before.drop_first() =~= v@);
        assert(x == before.first());
        if !(x.kind == DecoKind::Lifetime) {
            out.push(x);
        }
    }
    assert(spec_suppress(v@) =~= Seq::<DecorationFact>::empty());
    out
}

impl DecorationFact {
    /// An identical fact.
    pub fn duplicate(&self) -> (r: Self)
        ensures
            fact_model(r) == fact_model(*self),
    {
        DecorationFact {
            kind: self.kind,
            line: self.line,
            start_char: self.start_char,
            end_char: self.end_char,
            detail: match &self.detail {
                Some(d) => Some(d.clone()),
                None => None,
            },
        }
    }

    /// The fact as a client sees it: the span carries over, the message
    /// is the detail text, and the span's source text is supplied by the
    /// caller.
    pub fn to_diagnostic(&self, text: &str) -> (r: ReceivedDiagnostic)
        ensures
            r.kind == self.kind,
            r.line == self.line,
            r.start_char == self.start_char,
            r.end_char == self.end_char,
            r.text@ == text@,
            match self.detail {
                Some(d) => r.message@ == d@,
                None => r.message@ == Seq::<char>::empty(),
            },
    {
        ReceivedDiagnostic {
            kind: self.kind,
            line: self.line,
            start_char: self.start_char,
            end_char: self.end_char,
            text: text.to_owned(),
            message: match &self.detail {
                Some(d) => d.clone(),
                None => String::new(),
            },
        }
    }
}

impl Item {
    /// An item with the same model.
    pub fn duplicate(&self) -> (r: Self)
        ensures
            item_model(r) == item_model(*self),
    {
        let mut facts: Vec<DecorationFact> = Vec::new();
        let mut i: usize = 0;
        while i < self.facts.len()
            invariant
                0 <= i <= self.facts@.len(),
                facts@.map_values(|f: DecorationFact| fact_model(f)) =~= self.facts@.take(
                    i as int,
                ).map_values(|f: DecorationFact| fact_model(f)),
            decreases self.facts@.len() - i,
        {
            facts.push(self.facts[i].duplicate());
            proof {
                assert(self.facts@.take(i + 1).drop_last() =~= self.facts@.take(i as int));
                assert(facts@.map_values(|f: DecorationFact| fact_model(f)) =~= facts@.drop_last(
                ).map_values(|f: DecorationFact| fact_model(f)).push(
                    fact_model(facts@.last()),
                ));
                assert(self.facts@.take(i + 1).map_values(|f: DecorationFact| fact_model(f))
                    =~= self.facts@.take(i as int).map_values(
                    |f: DecorationFact| fact_model(f),
                ).push(fact_model(self.facts@[i as int])));
            }
            i = i + 1;
        }
        assert(self.facts@.take(self.facts@.len() as int) =~= self.facts@);
        let r = Item { name: self.name.clone(), facts };
        assert(item_model(r) == item_model(*self)) by {
            assert(r.facts@.map_values(|f: DecorationFact| fact_model(f)) =~= self.facts@
                .map_values(|f: DecorationFact| fact_model(f)));
        }
        r
    }
}

} // verus!
