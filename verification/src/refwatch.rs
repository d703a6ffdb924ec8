//! Reverse index from watched external dependencies to the managed resources
//! that must be requeued when one of them changes.
//!
//! Each owner registers the set of (namespace, name) keys it depends on;
//! re-registering replaces the owner's prior set, so registrations self-heal
//! on every reconciliation. Removing an owner purges all of its rows. The
//! index is a plain value; callers serialize access to it around single
//! operations (never across a remote call).

use vstd::prelude::*;

verus! {

/// The identity of a managed resource: namespace, name and uid.
pub struct OwnerId {
    pub namespace: String,
    pub name: String,
    pub uid: String,
}

/// The identity of a watched external dependency: namespace and name.
pub struct WatchKey {
    pub namespace: String,
    pub name: String,
}

pub type OwnerView = (Seq<char>, Seq<char>, Seq<char>);

pub type KeyView = (Seq<char>, Seq<char>);

pub type RowView = (OwnerView, KeyView);

impl View for OwnerId {
    type V = OwnerView;

    open spec fn view(&self) -> OwnerView {
        (self.namespace@, self.name@, self.uid@)
    }
}

impl View for WatchKey {
    type V = KeyView;

    open spec fn view(&self) -> KeyView {
        (self.namespace@, self.name@)
    }
}

impl OwnerId {
    /// An independent copy of this identity.
    pub fn duplicate(&self) -> (r: OwnerId)
        ensures
            r@ == self@,
    {
        OwnerId {
            namespace: self.namespace.clone(),
            name: self.name.clone(),
            uid: self.uid.clone(),
        }
    }

    /// Whether two identities are the same.
    pub fn same(&self, other: &OwnerId) -> (r: bool)
        ensures
            r == (self@ == other@),
    {
        self.namespace == other.namespace && self.name == other.name && self.uid == other.uid
    }
}

impl WatchKey {
    /// An independent copy of this key.
    pub fn duplicate(&self) -> (r: WatchKey)
        ensures
            r@ == self@,
    {
        WatchKey { namespace: self.namespace.clone(), name: self.name.clone() }
    }

    /// Whether two keys are the same.
    pub fn same(&self, other: &WatchKey) -> (r: bool)
        ensures
            r == (self@ == other@),
    {
        self.namespace == other.namespace && self.name == other.name
    }
}

/// The rows without those of one owner, in order.
pub open spec fn drop_owner(rows: Seq<RowView>, o: OwnerView) -> Seq<RowView>
    decreases rows.len(),
{
    if rows.len() == 0 {
        rows
    } else {
        let rest = drop_owner(rows.drop_last(), o);
        if rows.last().0 == o {
            rest
        } else {
            rest.push(rows.last())
        }
    }
}

/// One row per key, all owned by `o`, in key order.
pub open spec fn keyed_rows(o: OwnerView, ks: Seq<KeyView>) -> Seq<RowView>
    decreases ks.len(),
{
    if ks.len() == 0 {
        Seq::empty()
    } else {
        keyed_rows(o, ks.drop_last()).push((o, ks.last()))
    }
}

/// The index after an owner registered a key set: its old rows are gone,
/// one row per registered key stands in their place.
pub open spec fn rows_after_add(rows: Seq<RowView>, o: OwnerView, ks: Seq<KeyView>) -> Seq<
    RowView,
> {
    drop_owner(rows, o) + keyed_rows(o, ks)
}

/// The owners a lookup for `k` reports, in index order.
pub open spec fn owners_for(rows: Seq<RowView>, k: KeyView) -> Seq<OwnerView>
    decreases rows.len(),
{
    if rows.len() == 0 {
        Seq::empty()
    } else {
        let rest = owners_for(rows.drop_last(), k);
        if rows.last().1 == k {
            rest.push(rows.last().0)
        } else {
            rest
        }
    }
}

/// The reverse index: one row per (owner, watched key) registration.
pub struct RefWatcher {
    entries: Vec<(OwnerId, WatchKey)>,
}

impl RefWatcher {
    /// The rows currently registered.
    pub closed spec fn rows(&self) -> Seq<RowView> {
        self.entries@.map_values(|e: (OwnerId, WatchKey)| (e.0@, e.1@))
    }

    /// An empty index; the process starts with one and owners rebuild it.
    pub fn new() -> (r: RefWatcher)
        ensures
            r.rows() == Seq::<RowView>::empty(),
    {
        let r = RefWatcher { entries: Vec::new() };
        proof {
            assert(r.rows() =~= Seq::<RowView>::empty());
        }
        r
    }

    /// Purge every row of one owner; rows of other owners keep their order.
    pub fn remove(&mut self, owner: &OwnerId)
        ensures
            final(self).rows() == drop_owner(old(self).rows(), owner@),
    {
        let mut kept: Vec<(OwnerId, WatchKey)> = Vec::new();
        let n = self.entries.len();
        let ghost all = self.rows();
        for i in 0..n
            invariant
                n == self.entries.len(),
                self.entries@ == old(self).entries@,
                all == self.rows(),
                kept@.map_values(|e: (OwnerId, WatchKey)| (e.0@, e.1@)) == drop_owner(
                    all.take(i as int),
                    owner@,
                ),
        {
            let ghost prefix = all.take(i as int);
            let e = &self.entries[i];
            let keep = !e.0.same(owner);
            let ghost before = kept@;
            if keep {
                kept.push((e.0.duplicate(), e.1.duplicate()));
            }
            proof {
                let next = all.take(i as int + 1);
                assert(next.drop_last() =~= prefix);
                assert(next.last() == all[i as int]);
                assert(all[i as int] == (self.entries@[i as int].0@, self.entries@[i as int].1@));
                if keep {
                    assert(kept@.map_values(|e: (OwnerId, WatchKey)| (e.0@, e.1@)) =~= before
                        .map_values(|e: (OwnerId, WatchKey)| (e.0@, e.1@)).push(all[i as int]));
                }
            }
        }
        proof {
            assert(all.take(n as int) =~= all);
        }
        self.entries = kept;
    }

    /// Register the keys one owner depends on, replacing its prior set.
    pub fn add(&mut self, owner: &OwnerId, keys: &Vec<WatchKey>)
        ensures
            final(self).rows() == rows_after_add(
                old(self).rows(),
                owner@,
                keys@.map_values(|k: WatchKey| k@),
            ),
    {
        self.remove(owner);
        let ghost base = self.rows();
        let ghost kviews = keys@.map_values(|k: WatchKey| k@);
        let n = keys.len();
        for i in 0..n
            invariant
                n == keys.len(),
                kviews == keys@.map_values(|k: WatchKey| k@),
                self.rows() == base + keyed_rows(owner@, kviews.take(i as int)),
        {
            let ghost before = self.entries@;
            self.entries.push((owner.duplicate(), keys[i].duplicate()));
            proof {
                let f = |e: (OwnerId, WatchKey)| (e.0@, e.1@);
                assert(self.entries@.map_values(f) =~= before.map_values(f).push(
                    (owner@, keys@[i as int]@),
                ));
                assert(kviews.take(i as int + 1).drop_last() =~= kviews.take(i as int));
                assert(kviews.take(i as int + 1).last() == keys@[i as int]@);
                assert(self.rows() =~= base + keyed_rows(owner@, kviews.take(i as int + 1)));
            }
        }
        proof {
            assert(kviews.take(n as int) =~= kviews);
        }
    }

    /// The owners that must be requeued when the key changes.
    pub fn lookup(&self, key: &WatchKey) -> (r: Vec<OwnerId>)
        ensures
            r@.map_values(|o: OwnerId| o@) == owners_for(self.rows(), key@),
    {
        let mut out: Vec<OwnerId> = Vec::new();
        let n = self.entries.len();
        let ghost all = self.rows();
        for i in 0..n
            invariant
                n == self.entries.len(),
                all == self.rows(),
                out@.map_values(|o: OwnerId| o@) == owners_for(all.take(i as int), key@),
        {
            let ghost prefix = all.take(i as int);
            let e = &self.entries[i];
            let hit = e.1.same(key);
            let ghost before = out@;
            if hit {
                out.push(e.0.duplicate());
            }
            proof {
                let next = all.take(i as int + 1);
                assert(next.drop_last() =~= prefix);
                assert(next.last() == all[i as int]);
                assert(all[i as int] == (self.entries@[i as int].0@, self.entries@[i as int].1@));
                if hit {
                    assert(out@.map_values(|o: OwnerId| o@) =~= before.map_values(
                        |o: OwnerId| o@,
                    ).push(all[i as int].0));
                }
            }
        }
        proof {
            assert(all.take(n as int) =~= all);
        }
        out
    }
}

/// After an owner registers a key set, a change of any key of that set
/// reports the owner.
pub proof fn lemma_add_then_lookup(
    rows: Seq<RowView>,
    owner: OwnerView,
    keys: Seq<KeyView>,
    k: KeyView,
)
    requires
        keys.contains(k),
    ensures
        owners_for(rows_after_add(rows, owner, keys), k).contains(owner),
{
    let j = choose|j: int| 0 <= j < keys.len() && keys[j] == k;
    lemma_keyed_rows_lookup(drop_owner(rows, owner), owner, keys, j);
}

/// The key at one index, named so the helper below can speak of it.
pub open spec fn k_of(keys: Seq<KeyView>, j: int) -> KeyView {
    keys[j]
}

/// Helper: appending the keyed rows of `keys` to any base makes a lookup for
/// `keys[j]` report the owner.
proof fn lemma_keyed_rows_lookup(base: Seq<RowView>, owner: OwnerView, keys: Seq<KeyView>, j: int)
    requires
        0 <= j < keys.len(),
    ensures
        owners_for(base + keyed_rows(owner, keys), k_of(keys, j)).contains(owner),
    decreases keys.len(),
{
    let k = k_of(keys, j);
    let whole = base + keyed_rows(owner, keys);
    assert(whole.drop_last() =~= base + keyed_rows(owner, keys.drop_last()));
    assert(whole.last() == (owner, keys.last()));
    if j == keys.len() - 1 {
        let res = owners_for(whole, k);
        assert(res == owners_for(whole.drop_last(), k).push(owner));
        assert(res[res.len() - 1] == owner);
    } else {
        lemma_keyed_rows_lookup(base, owner, keys.drop_last(), j);
        assert(k_of(keys.drop_last(), j) == k);
        let rest = owners_for(base + keyed_rows(owner, keys.drop_last()), k);
        let idx = choose|idx: int| 0 <= idx < rest.len() && rest[idx] == owner;
        if keys.last() == k {
            assert(owners_for(whole, k)[idx] == owner);
        } else {
            assert(owners_for(whole, k)[idx] == owner);
        }
    }
}

/// After an owner is purged, no change of any key reports it.
pub proof fn lemma_remove_then_lookup(rows: Seq<RowView>, owner: OwnerView, k: KeyView)
    ensures
        !owners_for(drop_owner(rows, owner), k).contains(owner),
    decreases rows.len(),
{
    if rows.len() == 0 {
    } else {
        lemma_remove_then_lookup(rows.drop_last(), owner, k);
        let kept = drop_owner(rows, owner);
        let rest = drop_owner(rows.drop_last(), owner);
        if rows.last().0 == owner {
            assert(kept == rest);
        } else {
            assert(kept == rest.push(rows.last()));
            lemma_owners_for_push(rest, rows.last(), k);
        }
    }
}

/// Looking up after one appended row reports at most that row's owner more.
proof fn lemma_owners_for_push(rows: Seq<RowView>, row: RowView, k: KeyView)
    ensures
        row.1 == k ==> owners_for(rows.push(row), k) == owners_for(rows, k).push(row.0),
        row.1 != k ==> owners_for(rows.push(row), k) == owners_for(rows, k),
        forall|o: OwnerView|
            #[trigger] owners_for(rows.push(row), k).contains(o) ==> owners_for(rows, k).contains(
                o,
            ) || o == row.0,
{
    let whole = rows.push(row);
    assert(whole.drop_last() =~= rows);
    assert(whole.last() == row);
    if row.1 == k {
        let res = owners_for(whole, k);
        assert(res == owners_for(rows, k).push(row.0));
        assert forall|o: OwnerView| #[trigger] res.contains(o) implies owners_for(
            rows,
            k,
        ).contains(o) || o == row.0 by {
            let idx = choose|idx: int| 0 <= idx < res.len() && res[idx] == o;
            if idx < res.len() - 1 {
                assert(owners_for(rows, k)[idx] == o);
            }
        }
    }
}

} // verus!
