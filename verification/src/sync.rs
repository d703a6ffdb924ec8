//! REST synchronization: entity paths, the PUT-then-POST create/update
//! protocol, and the safe-deletion check.
//!
//! The remote entity space is modelled as a store from REST paths to
//! payloads. A sync pass issues PUT against the entity path; when the remote
//! answers "not found" it derives the collection path by stripping the
//! trailing identifier segment and issues POST instead, so create and update
//! share one code path. Deletion is blocked while labeled logical children
//! exist and the deletion age is inside the grace period; once the grace
//! period has elapsed it proceeds and reports the orphaned names.

use vstd::prelude::*;

use crate::error::Error;
use crate::payload::Payload;

verus! {

/// A REST path: the identity segments, parent identities first.
pub struct RestPath {
    pub segments: Vec<String>,
}

pub type PathView = Seq<Seq<char>>;

impl View for RestPath {
    type V = PathView;

    open spec fn view(&self) -> PathView {
        self.segments@.map_values(|s: String| s@)
    }
}

impl RestPath {
    /// An independent copy of the path.
    pub fn duplicate(&self) -> (r: RestPath)
        ensures
            r@ == self@,
    {
        let mut segments: Vec<String> = Vec::new();
        let n = self.segments.len();
        for i in 0..n
            invariant
                n == self.segments.len(),
                segments@.len() == i,
                forall|j: int| 0 <= j < i ==> segments@[j] == self.segments@[j],
        {
            segments.push(self.segments[i].clone());
        }
        proof {
            assert(segments@ =~= self.segments@);
            assert(RestPath { segments }@ =~= self@);
        }
        RestPath { segments }
    }

    /// Whether two paths name the same entity.
    pub fn same(&self, other: &RestPath) -> (r: bool)
        ensures
            r == (self@ == other@),
    {
        let n = self.segments.len();
        if n != other.segments.len() {
            proof {
                assert(self@.len() == n as int);
                assert(other@.len() == other.segments@.len());
                assert(self@ != other@);
            }
            return false;
        }
        for i in 0..n
            invariant
                n == self.segments.len(),
                n == other.segments.len(),
                forall|j: int| 0 <= j < i ==> self.segments@[j]@ == other.segments@[j]@,
        {
            if !(self.segments[i] == other.segments[i]) {
                proof {
                    assert(self@[i as int] != other@[i as int]);
                }
                return false;
            }
        }
        proof {
            assert(self@ =~= other@);
        }
        true
    }

    /// The entity path under a collection: the collection plus the
    /// identifier segment.
    pub fn child(&self, id: &String) -> (r: RestPath)
        ensures
            r@ == self@.push(id@),
    {
        let mut r = self.duplicate();
        r.segments.push(id.clone());
        proof {
            assert(r@ =~= self@.push(id@));
        }
        r
    }

    /// The collection path: the entity path without its trailing
    /// identifier segment.
    pub fn collection(&self) -> (r: RestPath)
        requires
            self@.len() > 0,
        ensures
            r@ == self@.drop_last(),
    {
        let mut r = self.duplicate();
        r.segments.pop();
        proof {
            assert(r@ =~= self@.drop_last());
        }
        r
    }
}

/// The remote representation a store holds at a path, if the entity exists.
pub open spec fn entity_of(
    s: Seq<(RestPath, Payload)>,
    path: PathView,
) -> Option<Map<Seq<char>, Seq<char>>>
    decreases s.len(),
{
    if s.len() == 0 {
        None
    } else if s.last().0@ == path {
        Some(s.last().1@)
    } else {
        entity_of(s.drop_last(), path)
    }
}

/// Entity paths are pairwise distinct.
pub open spec fn distinct_paths(s: Seq<(RestPath, Payload)>) -> bool {
    forall|i: int, j: int| 0 <= i < j < s.len() ==> s[i].0@ != s[j].0@
}

proof fn lemma_entity_at(s: Seq<(RestPath, Payload)>, i: int)
    requires
        distinct_paths(s),
        0 <= i < s.len(),
    ensures
        entity_of(s, s[i].0@) == Some(s[i].1@),
    decreases s.len(),
{
    if i == s.len() - 1 {
    } else {
        assert(s.drop_last()[i] == s[i]);
        lemma_entity_at(s.drop_last(), i);
        assert(s[i].0@ != s.last().0@);
    }
}

proof fn lemma_entity_absent(s: Seq<(RestPath, Payload)>, q: PathView)
    requires
        forall|j: int| 0 <= j < s.len() ==> s[j].0@ != q,
    ensures
        entity_of(s, q) == None::<Map<Seq<char>, Seq<char>>>,
    decreases s.len(),
{
    if s.len() > 0 {
        assert(s[s.len() - 1].0@ != q);
        assert(forall|j: int| 0 <= j < s.drop_last().len() ==> s.drop_last()[j] == s[j]);
        lemma_entity_absent(s.drop_last(), q);
    }
}

proof fn lemma_entity_update(s: Seq<(RestPath, Payload)>, i: int, p: (RestPath, Payload), q: PathView)
    requires
        distinct_paths(s),
        0 <= i < s.len(),
        p.0@ == s[i].0@,
    ensures
        entity_of(s.update(i, p), q) == if q == p.0@ {
            Some(p.1@)
        } else {
            entity_of(s, q)
        },
    decreases s.len(),
{
    let su = s.update(i, p);
    if i == s.len() - 1 {
        assert(su.drop_last() =~= s.drop_last());
        assert(su.last() == p);
    } else {
        assert(su.drop_last() =~= s.drop_last().update(i, p));
        assert(su.last() == s.last());
        assert(s.drop_last()[i] == s[i]);
        assert(distinct_paths(s.drop_last())) by {
            assert(forall|x: int|
                0 <= x < s.drop_last().len() ==> s.drop_last()[x] == s[x]);
        }
        assert(s.last().0@ != s[i].0@);
        lemma_entity_update(s.drop_last(), i, p, q);
    }
}

proof fn lemma_entity_remove(s: Seq<(RestPath, Payload)>, i: int, q: PathView)
    requires
        distinct_paths(s),
        0 <= i < s.len(),
    ensures
        entity_of(s.remove(i), q) == if q == s[i].0@ {
            None::<Map<Seq<char>, Seq<char>>>
        } else {
            entity_of(s, q)
        },
    decreases s.len(),
{
    let sr = s.remove(i);
    if i == s.len() - 1 {
        assert(sr =~= s.drop_last());
        if q == s[i].0@ {
            lemma_entity_absent(s.drop_last(), q);
        }
    } else {
        assert(sr.drop_last() =~= s.drop_last().remove(i));
        assert(sr.last() == s.last());
        assert(s.drop_last()[i] == s[i]);
        assert(distinct_paths(s.drop_last())) by {
            assert(forall|x: int|
                0 <= x < s.drop_last().len() ==> s.drop_last()[x] == s[x]);
        }
        lemma_entity_remove(s.drop_last(), i, q);
    }
}

proof fn lemma_entity_push(s: Seq<(RestPath, Payload)>, p: (RestPath, Payload), q: PathView)
    ensures
        entity_of(s.push(p), q) == if q == p.0@ {
            Some(p.1@)
        } else {
            entity_of(s, q)
        },
{
    assert(s.push(p).drop_last() =~= s);
    assert(s.push(p).last() == p);
}

/// Which request completed a sync pass.
pub enum SyncMethod {
    /// The entity existed; PUT updated it.
    Put,
    /// PUT answered "not found"; POST against the collection created it.
    Post,
}

/// The model of the remote entity space the engine synchronizes against.
pub struct RemoteStore {
    entries: Vec<(RestPath, Payload)>,
}

/// How one sync pass relates the store before and after: the entity holds
/// the payload afterwards, nothing else moved, and POST was used exactly
/// when the entity was absent.
pub open spec fn sync_transition(
    pre: RemoteStore,
    post: RemoteStore,
    path: PathView,
    v: Map<Seq<char>, Seq<char>>,
    m: SyncMethod,
) -> bool {
    &&& post.entity(path) == Some(v)
    &&& forall|p: PathView| p != path ==> post.entity(p) == pre.entity(p)
    &&& (m is Post) == (pre.entity(path) is None)
}

impl RemoteStore {
    /// Entity paths are pairwise distinct: the representation invariant.
    pub closed spec fn wf(&self) -> bool {
        distinct_paths(self.entries@)
    }

    /// The representation held at a path, if the entity exists.
    pub closed spec fn entity(&self, path: PathView) -> Option<Map<Seq<char>, Seq<char>>> {
        entity_of(self.entries@, path)
    }

    /// An empty entity space.
    pub fn new() -> (r: RemoteStore)
        ensures
            r.wf(),
            forall|p: PathView| r.entity(p) == None::<Map<Seq<char>, Seq<char>>>,
    {
        RemoteStore { entries: Vec::new() }
    }

    /// One sync pass: PUT the payload at the entity path; on "not found"
    /// fall back to POST against the collection path, creating the entity.
    pub fn sync(&mut self, path: &RestPath, payload: &Payload) -> (r: SyncMethod)
        requires
            old(self).wf(),
            path@.len() > 0,
            payload.wf(),
        ensures
            final(self).wf(),
            sync_transition(*old(self), *final(self), path@, payload@, r),
    {
        let n = self.entries.len();
        for i in 0..n
            invariant
                n == self.entries.len(),
                self.wf(),
                payload.wf(),
                self.entries@ == old(self).entries@,
                forall|j: int| 0 <= j < i ==> self.entries@[j].0@ != path@,
        {
            let hit = self.entries[i].0.same(path);
            if hit {
                let ghost s = self.entries@;
                proof {
                    lemma_entity_at(s, i as int);
                }
                let p = (path.duplicate(), payload.duplicate());
                proof {
                    assert forall|q: PathView|
                        entity_of(s.update(i as int, p), q) == if q == p.0@ {
                            Some(p.1@)
                        } else {
                            entity_of(s, q)
                        } by {
                        lemma_entity_update(s, i as int, p, q);
                    }
                }
                self.entries[i] = p;
                assert forall|x: int, y: int|
                    0 <= x < y < self.entries@.len() implies self.entries@[x].0@
                    != self.entries@[y].0@ by {
                    assert(self.entries@[x].0@ == s[x].0@);
                    assert(self.entries@[y].0@ == s[y].0@);
                }
                return SyncMethod::Put;
            }
        }
        // The entity is absent: the PUT answers "not found", and the POST
        // against the collection path creates the entity at the full path.
        let ghost s = self.entries@;
        let p = (path.duplicate(), payload.duplicate());
        proof {
            lemma_entity_absent(s, path@);
            assert forall|q: PathView|
                entity_of(s.push(p), q) == if q == p.0@ {
                    Some(p.1@)
                } else {
                    entity_of(s, q)
                } by {
                lemma_entity_push(s, p, q);
            }
        }
        self.entries.push(p);
        assert forall|x: int, y: int|
            0 <= x < y < self.entries@.len() implies self.entries@[x].0@
            != self.entries@[y].0@ by {
            assert(self.entries@[x] == if x < s.len() { s[x] } else { p });
            if y < s.len() {
                assert(self.entries@[y] == s[y]);
            } else {
                assert(self.entries@[y] == p);
            }
        }
        SyncMethod::Post
    }

    /// Whether the remote currently holds an entity at the path.
    pub fn has_entity(&self, path: &RestPath) -> (r: bool)
        requires
            self.wf(),
        ensures
            r == (self.entity(path@) is Some),
    {
        let n = self.entries.len();
        for i in 0..n
            invariant
                n == self.entries.len(),
                self.wf(),
                forall|j: int| 0 <= j < i ==> self.entries@[j].0@ != path@,
        {
            let hit = self.entries[i].0.same(path);
            if hit {
                proof {
                    lemma_entity_at(self.entries@, i as int);
                }
                return true;
            }
        }
        proof {
            lemma_entity_absent(self.entries@, path@);
        }
        false
    }

    /// DELETE the entity at a path; reports whether it existed.
    pub fn delete(&mut self, path: &RestPath) -> (existed: bool)
        requires
            old(self).wf(),
        ensures
            final(self).wf(),
            final(self).entity(path@) == None::<Map<Seq<char>, Seq<char>>>,
            forall|p: PathView| p != path@ ==> final(self).entity(p) == old(self).entity(p),
            existed == (old(self).entity(path@) is Some),
    {
        let n = self.entries.len();
        for i in 0..n
            invariant
                n == self.entries.len(),
                self.wf(),
                self.entries@ == old(self).entries@,
                forall|j: int| 0 <= j < i ==> self.entries@[j].0@ != path@,
        {
            let hit = self.entries[i].0.same(path);
            if hit {
                let ghost s = self.entries@;
                proof {
                    lemma_entity_at(s, i as int);
                    assert forall|q: PathView|
                        entity_of(s.remove(i as int), q) == if q == s[i as int].0@ {
                            None::<Map<Seq<char>, Seq<char>>>
                        } else {
                            entity_of(s, q)
                        } by {
                        lemma_entity_remove(s, i as int, q);
                    }
                }
                self.entries.remove(i);
                assert forall|x: int, y: int|
                    0 <= x < y < self.entries@.len() implies self.entries@[x].0@
                    != self.entries@[y].0@ by {
                    let a: int = if x < i as int {
                        x
                    } else {
                        x + 1
                    };
                    let b: int = if y < i as int {
                        y
                    } else {
                        y + 1
                    };
                    assert(self.entries@[x] == s[a]);
                    assert(self.entries@[y] == s[b]);
                }
                return true;
            }
        }
        proof {
            lemma_entity_absent(self.entries@, path@);
        }
        false
    }
}

/// Syncing twice in a row with an unchanged payload issues at most one POST
/// in total — the second pass always goes through PUT — and the remote state
/// after the second pass is the state after the first.
pub proof fn lemma_sync_twice(
    s0: RemoteStore,
    s1: RemoteStore,
    s2: RemoteStore,
    path: PathView,
    v: Map<Seq<char>, Seq<char>>,
    m1: SyncMethod,
    m2: SyncMethod,
)
    requires
        sync_transition(s0, s1, path, v, m1),
        sync_transition(s1, s2, path, v, m2),
    ensures
        m2 is Put,
        forall|p: PathView| s2.entity(p) == s1.entity(p),
{
    assert(s1.entity(path) is Some);
    assert forall|p: PathView| s2.entity(p) == s1.entity(p) by {
        if p != path {
        } else {
            assert(s2.entity(path) == Some(v));
        }
    }
}

/// Once an entity has been created, every later sync pass with any payload
/// goes through PUT alone.
pub proof fn lemma_after_create_put_only(
    s0: RemoteStore,
    s1: RemoteStore,
    path: PathView,
    v: Map<Seq<char>, Seq<char>>,
    m: SyncMethod,
)
    requires
        s0.entity(path) is Some,
        sync_transition(s0, s1, path, v, m),
    ensures
        m is Put,
        s1.entity(path) == Some(v),
{
}


/// The deletion grace period, in seconds, unless a caller configures another.
pub const DEFAULT_GRACE_SECONDS: u64 = 180;

/// What a teardown pass that proceeds reports.
pub struct TeardownOutcome {
    /// Labeled logical children that were still present when the entity was
    /// deleted; empty when the resource was clean.
    pub orphaned_names: Vec<String>,
    /// A successful DELETE asks for a process-wide resync, so siblings whose
    /// remote identity depended on sequencing re-sync.
    pub resync_all: bool,
}

/// The teardown pass guarding the finalizer's removal.
///
/// While labeled logical children exist and the deletion age is inside the
/// grace period, the pass fails with a "still referenced" error listing
/// exactly those names and issues no DELETE. Once the grace period has
/// elapsed it deletes anyway and reports the same names as orphaned, so a
/// deletion can never deadlock permanently.
pub fn teardown(
    store: &mut RemoteStore,
    path: &RestPath,
    children: Vec<String>,
    age_seconds: u64,
    grace_seconds: u64,
) -> (r: Result<TeardownOutcome, Error>)
    requires
        old(store).wf(),
    ensures
        final(store).wf(),
        children@.len() > 0 && age_seconds < grace_seconds ==> {
            &&& r matches Err(e) && (e matches Error::ResourceInUse { blocking_names }
                && blocking_names@ == children@)
            &&& *final(store) == *old(store)
        },
        children@.len() == 0 || age_seconds >= grace_seconds ==> {
            &&& r matches Ok(out) && out.orphaned_names@ == children@ && out.resync_all
            &&& final(store).entity(path@) == None::<Map<Seq<char>, Seq<char>>>
            &&& forall|p: PathView| p != path@ ==> final(store).entity(p) == old(store).entity(p)
        },
{
    if children.len() > 0 && age_seconds < grace_seconds {
        return Err(Error::ResourceInUse { blocking_names: children });
    }
    store.delete(path);
    Ok(TeardownOutcome { orphaned_names: children, resync_all: true })
}
} // verus!
