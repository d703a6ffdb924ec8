//! The finalizer state machine every resource kind plugs into.
//!
//! A resource is Active while no deletion is requested, Finalizing once
//! deletion is requested while the finalizer is still attached, and Gone
//! once the finalizer is removed. On each notification the driver attaches
//! the finalizer (once, idempotently) and applies, or cleans up and then
//! removes the finalizer; every error is retryable with bounded exponential
//! backoff, and the pass's outcome is recorded in the resource's status.

use vstd::prelude::*;

use crate::error::Error;
use crate::error::retryable;
use crate::payload::PatchOp;
use crate::payload::Payload;
use crate::payload::resolve;
use crate::payload::resolve_model;
use crate::sync::RemoteStore;
use crate::sync::RestPath;
use crate::sync::SyncMethod;
use crate::sync::sync_transition;

verus! {

/// Where a resource stands in its life.
pub enum Phase {
    /// No deletion requested.
    Active,
    /// Deletion requested, finalizer still attached.
    Finalizing,
    /// Finalizer removed; the platform erases the object.
    Gone,
}

/// The two platform-owned markers the state machine reads.
pub struct ResourceMeta {
    /// The platform set a deletion timestamp; it never unsets one.
    pub deletion_requested: bool,
    /// This controller's finalizer string is attached.
    pub finalizer_present: bool,
}

/// The phase the markers denote.
pub open spec fn phase_of(m: ResourceMeta) -> Phase {
    if !m.deletion_requested {
        Phase::Active
    } else if m.finalizer_present {
        Phase::Finalizing
    } else {
        Phase::Gone
    }
}

/// Phases in lifecycle order.
pub open spec fn phase_rank(p: Phase) -> int {
    match p {
        Phase::Active => 0,
        Phase::Finalizing => 1,
        Phase::Gone => 2,
    }
}

/// What the driver must do on one notification.
pub enum Step {
    /// Active, finalizer absent: run the kind's one-time hook, then attach
    /// the finalizer.
    AttachAndApply,
    /// Active, finalizer attached: run the kind's apply.
    RunApply,
    /// Finalizing: run the kind's cleanup.
    RunCleanup,
    /// Deletion requested and finalizer already gone: nothing to do.
    AwaitRemoval,
}

/// The driver's dispatch on one notification.
pub fn next_step(meta: &ResourceMeta) -> (r: Step)
    ensures
        !meta.deletion_requested && !meta.finalizer_present ==> r is AttachAndApply,
        !meta.deletion_requested && meta.finalizer_present ==> r is RunApply,
        meta.deletion_requested && meta.finalizer_present ==> r is RunCleanup,
        meta.deletion_requested && !meta.finalizer_present ==> r is AwaitRemoval,
{
    if !meta.deletion_requested {
        if !meta.finalizer_present {
            Step::AttachAndApply
        } else {
            Step::RunApply
        }
    } else {
        if meta.finalizer_present {
            Step::RunCleanup
        } else {
            Step::AwaitRemoval
        }
    }
}

/// Attach the finalizer, idempotently.
pub fn ensure_finalizer(meta: &ResourceMeta) -> (r: ResourceMeta)
    ensures
        r.finalizer_present,
        r.deletion_requested == meta.deletion_requested,
{
    ResourceMeta { deletion_requested: meta.deletion_requested, finalizer_present: true }
}

/// What the driver schedules after a pass.
pub enum ReconcileAction {
    /// The pass succeeded: wait for the next external change.
    AwaitChange,
    /// The pass failed: retry after this many seconds.
    RequeueAfter { seconds: u64 },
}

/// Bounded exponential backoff: doubling from five seconds, capped at five
/// minutes.
pub open spec fn backoff_model(retries: u32) -> u64 {
    if retries == 0 {
        5
    } else if retries == 1 {
        10
    } else if retries == 2 {
        20
    } else if retries == 3 {
        40
    } else if retries == 4 {
        80
    } else if retries == 5 {
        160
    } else {
        300
    }
}

/// The requeue delay after this many consecutive failures.
pub fn backoff_seconds(retries: u32) -> (r: u64)
    ensures
        r == backoff_model(retries),
{
    if retries == 0 {
        5
    } else if retries == 1 {
        10
    } else if retries == 2 {
        20
    } else if retries == 3 {
        40
    } else if retries == 4 {
        80
    } else if retries == 5 {
        160
    } else {
        300
    }
}

/// What follows a pass: the action to schedule and the readiness to record
/// in status.
pub open spec fn apply_followup(ok: bool, retries: u32) -> (ReconcileAction, bool) {
    if ok {
        (ReconcileAction::AwaitChange, true)
    } else {
        (ReconcileAction::RequeueAfter { seconds: backoff_model(retries) }, false)
    }
}

/// The driver's reaction to an apply outcome: success awaits the next
/// external change and records readiness; an error requeues with backoff
/// and records the failure.
pub fn after_apply(ok: bool, retries: u32) -> (r: (ReconcileAction, bool))
    ensures
        r == apply_followup(ok, retries),
{
    if ok {
        (ReconcileAction::AwaitChange, true)
    } else {
        (ReconcileAction::RequeueAfter { seconds: backoff_seconds(retries) }, false)
    }
}

/// The driver's reaction to a cleanup outcome: success removes the
/// finalizer (the resource is then Gone), failure keeps it Finalizing and
/// requeues with backoff.
pub fn after_cleanup(meta: &ResourceMeta, ok: bool, retries: u32) -> (r: (
    ResourceMeta,
    ReconcileAction,
))
    requires
        meta.deletion_requested,
    ensures
        ok ==> !r.0.finalizer_present && r.0.deletion_requested && r.1 is AwaitChange,
        ok ==> phase_of(r.0) is Gone,
        !ok ==> r.0 == *meta && (r.1 matches ReconcileAction::RequeueAfter { seconds } && seconds
            == backoff_model(retries)),
{
    if ok {
        (
            ResourceMeta { deletion_requested: meta.deletion_requested, finalizer_present: false },
            ReconcileAction::AwaitChange,
        )
    } else {
        (
            ResourceMeta {
                deletion_requested: meta.deletion_requested,
                finalizer_present: meta.finalizer_present,
            },
            ReconcileAction::RequeueAfter { seconds: backoff_seconds(retries) },
        )
    }
}

/// The lifecycle only moves forward: under the platform's promise that a
/// deletion mark is never unset, and the driver's discipline of attaching
/// the finalizer only before deletion is requested and removing it only
/// after, no step lowers the phase.
pub proof fn lemma_phase_monotone(pre: ResourceMeta, post: ResourceMeta)
    requires
        pre.deletion_requested ==> post.deletion_requested,
        !pre.finalizer_present && post.finalizer_present ==> !post.deletion_requested,
        pre.finalizer_present && !post.finalizer_present ==> pre.deletion_requested,
    ensures
        phase_rank(phase_of(post)) >= phase_rank(phase_of(pre)),
{
}

/// One apply pass of an API object: resolve the payload and synchronize it,
/// provided the parent reference resolved this pass.
///
/// A child whose parent did not resolve never reaches the remote: the pass
/// surfaces the unresolved-parent error, which is retryable, and leaves the
/// remote untouched.
pub fn apply_api_object(
    store: &mut RemoteStore,
    parent_resolved: bool,
    parent_name: &String,
    path: &RestPath,
    definition: &Payload,
    patches: &Vec<PatchOp>,
    overlay: &Vec<(String, String)>,
) -> (r: Result<SyncMethod, Error>)
    requires
        old(store).wf(),
        path@.len() > 0,
        definition.wf(),
    ensures
        final(store).wf(),
        !parent_resolved ==> {
            &&& r matches Err(e) && (e matches Error::ParentUnresolved { parent_name: pn } && pn@
                == parent_name@)
            &&& *final(store) == *old(store)
        },
        parent_resolved ==> (r matches Ok(m) && sync_transition(
            *old(store),
            *final(store),
            path@,
            resolve_model(definition@, patches@, overlay@),
            m,
        )),
{
    if !parent_resolved {
        return Err(Error::ParentUnresolved { parent_name: parent_name.clone() });
    }
    let payload = resolve(definition, patches, overlay);
    let m = store.sync(path, &payload);
    Ok(m)
}


/// What one reconciliation pass hands back to the runtime: the markers to
/// write, the action to schedule, and the readiness to record in status.
pub struct PassResult {
    pub meta: ResourceMeta,
    pub action: ReconcileAction,
    pub ready: bool,
}

/// One full reconciliation pass of an API object, composing the state
/// machine with the sync engine.
///
/// While no deletion is requested, the finalizer is attached (idempotently)
/// and the resolved payload synced; an unresolved parent or any other error
/// requeues with backoff and readiness false. Once deletion is requested,
/// the teardown check runs: blocked passes keep the finalizer and requeue,
/// a completed teardown removes it, and the resource is Gone. The pass never
/// lowers the phase.
pub fn reconcile_api_object(
    store: &mut RemoteStore,
    meta: &ResourceMeta,
    parent_resolved: bool,
    parent_name: &String,
    path: &RestPath,
    definition: &Payload,
    patches: &Vec<PatchOp>,
    overlay: &Vec<(String, String)>,
    children: Vec<String>,
    age_seconds: u64,
    grace_seconds: u64,
    retries: u32,
) -> (r: PassResult)
    requires
        old(store).wf(),
        path@.len() > 0,
        definition.wf(),
    ensures
        final(store).wf(),
        r.meta.deletion_requested == meta.deletion_requested,
        phase_rank(phase_of(r.meta)) >= phase_rank(phase_of(*meta)),
        !meta.deletion_requested ==> r.meta.finalizer_present,
        !meta.deletion_requested && parent_resolved ==> {
            &&& exists|m: SyncMethod|
                sync_transition(
                    *old(store),
                    *final(store),
                    path@,
                    resolve_model(definition@, patches@, overlay@),
                    m,
                )
            &&& r.ready
            &&& r.action is AwaitChange
        },
        !meta.deletion_requested && !parent_resolved ==> {
            &&& *final(store) == *old(store)
            &&& !r.ready
            &&& (r.action matches ReconcileAction::RequeueAfter { seconds } && seconds
                == backoff_model(retries))
        },
        meta.deletion_requested && meta.finalizer_present && children@.len() > 0 && age_seconds
            < grace_seconds ==> {
            &&& *final(store) == *old(store)
            &&& r.meta.finalizer_present
            &&& !r.ready
            &&& (r.action matches ReconcileAction::RequeueAfter { seconds } && seconds
                == backoff_model(retries))
        },
        meta.deletion_requested && meta.finalizer_present && (children@.len() == 0 || age_seconds
            >= grace_seconds) ==> {
            &&& final(store).entity(path@) is None
            &&& forall|p: crate::sync::PathView|
                p != path@ ==> final(store).entity(p) == old(store).entity(p)
            &&& !r.meta.finalizer_present
            &&& phase_of(r.meta) is Gone
            &&& r.action is AwaitChange
        },
        meta.deletion_requested && !meta.finalizer_present ==> {
            &&& *final(store) == *old(store)
            &&& r.meta == *meta
            &&& r.action is AwaitChange
        },
{
    if !meta.deletion_requested {
        let meta2 = ensure_finalizer(meta);
        let outcome = apply_api_object(
            store,
            parent_resolved,
            parent_name,
            path,
            definition,
            patches,
            overlay,
        );
        let ok = outcome.is_ok();
        let (action, ready) = after_apply(ok, retries);
        PassResult { meta: meta2, action, ready }
    } else if meta.finalizer_present {
        let outcome = crate::sync::teardown(store, path, children, age_seconds, grace_seconds);
        let ok = outcome.is_ok();
        let (meta2, action) = after_cleanup(meta, ok, retries);
        PassResult { meta: meta2, action, ready: false }
    } else {
        PassResult {
            meta: ResourceMeta {
                deletion_requested: meta.deletion_requested,
                finalizer_present: meta.finalizer_present,
            },
            action: ReconcileAction::AwaitChange,
            ready: false,
        }
    }
}

/// A child's apply never reports success while its parent reference is
/// unresolved: the error it surfaces is retryable, and the driver's
/// follow-up to any failed pass is a requeue with readiness false — never
/// a success and never a fatal stop.
pub proof fn lemma_unresolved_parent_requeues(e: Error, retries: u32)
    requires
        e matches Error::ParentUnresolved { .. },
    ensures
        retryable(e),
        !apply_followup(false, retries).1,
        apply_followup(false, retries).0 matches ReconcileAction::RequeueAfter { seconds }
            && seconds == backoff_model(retries),
{
}

} // verus!
