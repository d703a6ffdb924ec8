//! Credential refresh scheduling: at most one live background refresh task
//! per instance identity.
//!
//! The manager decides; the surrounding runtime owns the actual task handles
//! and performs the spawning, sleeping and cancelling this module's outcomes
//! call for. Scheduling against an absent credential secret fails with the
//! missing-secret error and records no task; re-scheduling with unchanged
//! parameters is a no-op; changed parameters replace the prior task.

use vstd::prelude::*;

use crate::error::Error;

verus! {

/// The parameters a refresh task runs with.
pub struct RefreshParams {
    /// The credential secret the task reads.
    pub secret_name: String,
    /// The server endpoint the task refreshes against.
    pub base_url: String,
}

pub type ParamsView = (Seq<char>, Seq<char>);

impl View for RefreshParams {
    type V = ParamsView;

    open spec fn view(&self) -> ParamsView {
        (self.secret_name@, self.base_url@)
    }
}

impl RefreshParams {
    /// An independent copy of the parameters.
    pub fn duplicate(&self) -> (r: RefreshParams)
        ensures
            r@ == self@,
    {
        RefreshParams { secret_name: self.secret_name.clone(), base_url: self.base_url.clone() }
    }

    /// Whether two parameter sets are the same.
    pub fn same(&self, other: &RefreshParams) -> (r: bool)
        ensures
            r == (self@ == other@),
    {
        self.secret_name == other.secret_name && self.base_url == other.base_url
    }
}

/// What a scheduling call decided.
pub enum ScheduleOutcome {
    /// No task was live; one must be spawned.
    Started,
    /// A task with the same parameters is live; nothing to do.
    AlreadyRunning,
    /// A task was live with other parameters; it must be cancelled and
    /// replaced by one with the new parameters.
    Replaced,
}

/// The live task a table records for an instance identity, if any.
pub open spec fn task_of(s: Seq<(String, RefreshParams)>, id: Seq<char>) -> Option<ParamsView>
    decreases s.len(),
{
    if s.len() == 0 {
        None
    } else if s.last().0@ == id {
        Some(s.last().1@)
    } else {
        task_of(s.drop_last(), id)
    }
}

/// Instance identities are pairwise distinct.
pub open spec fn distinct_ids(s: Seq<(String, RefreshParams)>) -> bool {
    forall|i: int, j: int| 0 <= i < j < s.len() ==> s[i].0@ != s[j].0@
}

/// Under distinct identities, the table sends each listed identity to its
/// parameters.
proof fn lemma_task_at(s: Seq<(String, RefreshParams)>, i: int)
    requires
        distinct_ids(s),
        0 <= i < s.len(),
    ensures
        task_of(s, s[i].0@) == Some(s[i].1@),
    decreases s.len(),
{
    if i == s.len() - 1 {
    } else {
        assert(s.drop_last()[i] == s[i]);
        lemma_task_at(s.drop_last(), i);
        assert(s[i].0@ != s.last().0@);
    }
}

/// Replacing the parameters at one slot changes that identity's task alone.
proof fn lemma_task_update(
    s: Seq<(String, RefreshParams)>,
    i: int,
    p: (String, RefreshParams),
    q: Seq<char>,
)
    requires
        distinct_ids(s),
        0 <= i < s.len(),
        p.0@ == s[i].0@,
    ensures
        task_of(s.update(i, p), q) == if q == p.0@ {
            Some(p.1@)
        } else {
            task_of(s, q)
        },
    decreases s.len(),
{
    let su = s.update(i, p);
    if i == s.len() - 1 {
        assert(su.drop_last() =~= s.drop_last());
        assert(su.last() == p);
    } else {
        assert(su.drop_last() =~= s.drop_last().update(i, p));
        assert(su.last() == s.last());
        assert(s.drop_last()[i] == s[i]);
        assert(distinct_ids(s.drop_last())) by {
            assert(forall|x: int|
                0 <= x < s.drop_last().len() ==> s.drop_last()[x] == s[x]);
        }
        assert(s.last().0@ != s[i].0@);
        lemma_task_update(s.drop_last(), i, p, q);
    }
}

/// Removing one slot forgets that identity's task and no other.
proof fn lemma_task_remove(s: Seq<(String, RefreshParams)>, i: int, q: Seq<char>)
    requires
        distinct_ids(s),
        0 <= i < s.len(),
    ensures
        task_of(s.remove(i), q) == if q == s[i].0@ {
            None::<ParamsView>
        } else {
            task_of(s, q)
        },
    decreases s.len(),
{
    let sr = s.remove(i);
    if i == s.len() - 1 {
        assert(sr =~= s.drop_last());
        if q == s[i].0@ {
            lemma_task_absent(s.drop_last(), q);
        }
    } else {
        assert(sr.drop_last() =~= s.drop_last().remove(i));
        assert(sr.last() == s.last());
        assert(s.drop_last()[i] == s[i]);
        assert(distinct_ids(s.drop_last())) by {
            assert(forall|x: int|
                0 <= x < s.drop_last().len() ==> s.drop_last()[x] == s[x]);
        }
        lemma_task_remove(s.drop_last(), i, q);
    }
}

/// An identity no slot carries has no task.
proof fn lemma_task_absent(s: Seq<(String, RefreshParams)>, q: Seq<char>)
    requires
        forall|j: int| 0 <= j < s.len() ==> s[j].0@ != q,
    ensures
        task_of(s, q) == None::<ParamsView>,
    decreases s.len(),
{
    if s.len() > 0 {
        assert(s[s.len() - 1].0@ != q);
        assert(forall|j: int| 0 <= j < s.drop_last().len() ==> s.drop_last()[j] == s[j]);
        lemma_task_absent(s.drop_last(), q);
    }
}

/// Appending a fresh identity records its task and no other.
proof fn lemma_task_push(s: Seq<(String, RefreshParams)>, p: (String, RefreshParams), q: Seq<char>)
    ensures
        task_of(s.push(p), q) == if q == p.0@ {
            Some(p.1@)
        } else {
            task_of(s, q)
        },
{
    assert(s.push(p).drop_last() =~= s);
    assert(s.push(p).last() == p);
}

/// How long a refresh task sleeps: until shortly before the credential
/// expires, by the configured margin; an expiry inside the margin refreshes
/// at once.
pub fn refresh_delay_seconds(expires_in: u64, margin: u64) -> (r: u64)
    ensures
        margin < expires_in ==> r == expires_in - margin,
        margin >= expires_in ==> r == 0,
{
    if margin < expires_in {
        expires_in - margin
    } else {
        0
    }
}

/// The refresh task table, keyed by instance identity.
pub struct RefreshManager {
    tasks: Vec<(String, RefreshParams)>,
}

impl RefreshManager {
    /// Identities are pairwise distinct: the representation invariant.
    pub closed spec fn wf(&self) -> bool {
        distinct_ids(self.tasks@)
    }

    /// The live task for an identity, if any.
    pub closed spec fn task(&self, id: Seq<char>) -> Option<ParamsView> {
        task_of(self.tasks@, id)
    }

    /// An empty table: no live tasks.
    pub fn new() -> (r: RefreshManager)
        ensures
            r.wf(),
            forall|id: Seq<char>| r.task(id) == None::<ParamsView>,
    {
        let r = RefreshManager { tasks: Vec::new() };
        proof {
            assert forall|id: Seq<char>| r.task(id) == None::<ParamsView> by {}
        }
        r
    }

    /// Ensure exactly one live task for the instance.
    ///
    /// If the credential secret is absent, fail with the missing-secret error
    /// and record nothing. Otherwise record the parameters: a fresh identity
    /// starts a task, unchanged parameters are a no-op, changed parameters
    /// replace the prior task.
    pub fn schedule_refresh(
        &mut self,
        namespace: &String,
        instance: &String,
        params: RefreshParams,
        secret_exists: bool,
    ) -> (r: Result<ScheduleOutcome, Error>)
        requires
            old(self).wf(),
        ensures
            final(self).wf(),
            !secret_exists ==> {
                &&& r matches Err(e) && (e matches Error::NoCredentialSecret {
                    namespace: ns,
                    secret_name: sn,
                } && ns@ == namespace@ && sn@ == params.secret_name@)
                &&& forall|id: Seq<char>| final(self).task(id) == old(self).task(id)
            },
            secret_exists ==> {
                &&& final(self).task(instance@) == Some(params@)
                &&& forall|id: Seq<char>|
                    id != instance@ ==> final(self).task(id) == old(self).task(id)
                &&& (r matches Ok(o) && (match old(self).task(instance@) {
                    Option::None => o is Started,
                    Option::Some(p) => if p == params@ {
                        o is AlreadyRunning
                    } else {
                        o is Replaced
                    },
                }))
            },
    {
        if !secret_exists {
            return Err(
                Error::NoCredentialSecret {
                    namespace: namespace.clone(),
                    secret_name: params.secret_name.clone(),
                },
            );
        }
        let n = self.tasks.len();
        for i in 0..n
            invariant
                n == self.tasks.len(),
                secret_exists,
                self.wf(),
                self.tasks@ == old(self).tasks@,
                forall|j: int| 0 <= j < i ==> self.tasks@[j].0@ != instance@,
        {
            let hit = self.tasks[i].0 == *instance;
            if hit {
                let ghost s = self.tasks@;
                proof {
                    lemma_task_at(s, i as int);
                }
                let unchanged = self.tasks[i].1.same(&params);
                if unchanged {
                    return Ok(ScheduleOutcome::AlreadyRunning);
                }
                let p = (instance.clone(), params);
                proof {
                    assert forall|q: Seq<char>|
                        task_of(s.update(i as int, p), q) == if q == p.0@ {
                            Some(p.1@)
                        } else {
                            task_of(s, q)
                        } by {
                        lemma_task_update(s, i as int, p, q);
                    }
                }
                self.tasks[i] = p;
                assert forall|x: int, y: int|
                    0 <= x < y < self.tasks@.len() implies self.tasks@[x].0@
                    != self.tasks@[y].0@ by {
                    assert(self.tasks@[x].0@ == s[x].0@);
                    assert(self.tasks@[y].0@ == s[y].0@);
                }
                return Ok(ScheduleOutcome::Replaced);
            }
        }
        let ghost s = self.tasks@;
        let p = (instance.clone(), params);
        proof {
            lemma_task_absent(s, instance@);
            assert forall|q: Seq<char>|
                task_of(s.push(p), q) == if q == p.0@ {
                    Some(p.1@)
                } else {
                    task_of(s, q)
                } by {
                lemma_task_push(s, p, q);
            }
        }
        self.tasks.push(p);
        assert forall|x: int, y: int|
            0 <= x < y < self.tasks@.len() implies self.tasks@[x].0@ != self.tasks@[y].0@ by {
            assert(self.tasks@[x] == if x < s.len() { s[x] } else { p });
            if y < s.len() {
                assert(self.tasks@[y] == s[y]);
            } else {
                assert(self.tasks@[y] == p);
            }
        }
        Ok(ScheduleOutcome::Started)
    }

    /// Stop and forget the task for the instance; a no-op when none is live.
    ///
    /// Reports whether a task had been live, so the runtime knows whether a
    /// handle must be cancelled.
    pub fn cancel_refresh(&mut self, instance: &String) -> (had_task: bool)
        requires
            old(self).wf(),
        ensures
            final(self).wf(),
            final(self).task(instance@) == None::<ParamsView>,
            forall|id: Seq<char>| id != instance@ ==> final(self).task(id) == old(self).task(id),
            had_task == (old(self).task(instance@) is Some),
    {
        let n = self.tasks.len();
        for i in 0..n
            invariant
                n == self.tasks.len(),
                self.wf(),
                self.tasks@ == old(self).tasks@,
                forall|j: int| 0 <= j < i ==> self.tasks@[j].0@ != instance@,
        {
            let hit = self.tasks[i].0 == *instance;
            if hit {
                let ghost s = self.tasks@;
                proof {
                    lemma_task_at(s, i as int);
                    assert forall|q: Seq<char>|
                        task_of(s.remove(i as int), q) == if q == s[i as int].0@ {
                            None::<ParamsView>
                        } else {
                            task_of(s, q)
                        } by {
                        lemma_task_remove(s, i as int, q);
                    }
                }
                self.tasks.remove(i);
                assert forall|x: int, y: int|
                    0 <= x < y < self.tasks@.len() implies self.tasks@[x].0@
                    != self.tasks@[y].0@ by {
                    let a: int = if x < i as int {
                        x
                    } else {
                        x + 1
                    };
                    let b: int = if y < i as int {
                        y
                    } else {
                        y + 1
                    };
                    assert(self.tasks@[x] == s[a]);
                    assert(self.tasks@[y] == s[b]);
                }
                return true;
            }
        }
        proof {
            lemma_task_absent(self.tasks@, instance@);
        }
        false
    }
}

} // verus!
