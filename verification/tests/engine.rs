//! End-to-end checks of the reconciliation engine: payload resolution, the
//! reverse watch index, refresh scheduling, the sync protocol, teardown and
//! the lifecycle state machine.

use rustcloak_core::error::{require_namespace, Error};
use rustcloak_core::lifecycle::{
    after_apply, after_cleanup, apply_api_object, backoff_seconds, ensure_finalizer, next_step,
    reconcile_api_object, ReconcileAction, ResourceMeta, Step,
};
use rustcloak_core::payload::{resolve, PatchOp, Payload};
use rustcloak_core::refresh::{refresh_delay_seconds, RefreshManager, RefreshParams, ScheduleOutcome};
use rustcloak_core::refwatch::{OwnerId, RefWatcher, WatchKey};
use rustcloak_core::sync::{teardown, RemoteStore, RestPath, SyncMethod, DEFAULT_GRACE_SECONDS};

fn s(x: &str) -> String {
    x.to_string()
}

fn path(segments: &[&str]) -> RestPath {
    RestPath {
        segments: segments.iter().map(|x| x.to_string()).collect(),
    }
}

fn owner(name: &str) -> OwnerId {
    OwnerId {
        namespace: s("default"),
        name: s(name),
        uid: s("uid-1"),
    }
}

fn key(name: &str) -> WatchKey {
    WatchKey {
        namespace: s("default"),
        name: s(name),
    }
}

#[test]
fn payload_set_get_remove() {
    let mut p = Payload::empty();
    assert!(p.get_field(&s("realm")).is_none());
    p.set_field(&s("realm"), s("master"));
    assert_eq!(p.get_field(&s("realm")), Some(&s("master")));
    p.set_field(&s("realm"), s("other"));
    assert_eq!(p.get_field(&s("realm")), Some(&s("other")));
    assert!(p.remove_field(&s("realm")));
    assert!(p.get_field(&s("realm")).is_none());
    assert!(!p.remove_field(&s("realm")));
}

#[test]
fn resolve_applies_patches_in_order_and_overlay_wins() {
    let mut def = Payload::empty();
    def.set_field(&s("alias"), s("browser"));
    def.set_field(&s("description"), s("from definition"));
    let patches = vec![
        PatchOp::Assign {
            key: s("description"),
            value: s("patched"),
        },
        PatchOp::Remove { key: s("alias") },
        PatchOp::Assign {
            key: s("id"),
            value: s("patched-id"),
        },
    ];
    let overlay = vec![(s("id"), s("generated-id"))];
    let r = resolve(&def, &patches, &overlay);
    assert!(r.get_field(&s("alias")).is_none());
    assert_eq!(r.get_field(&s("description")), Some(&s("patched")));
    assert_eq!(r.get_field(&s("id")), Some(&s("generated-id")));
}

#[test]
fn resolve_twice_yields_the_same_payload() {
    let mut def = Payload::empty();
    def.set_field(&s("a"), s("1"));
    def.set_field(&s("b"), s("2"));
    let patches = vec![
        PatchOp::Assign {
            key: s("b"),
            value: s("20"),
        },
        PatchOp::Remove { key: s("a") },
    ];
    let overlay = vec![(s("c"), s("locked"))];
    let once = resolve(&def, &patches, &overlay);
    let twice = resolve(&once, &patches, &overlay);
    for k in ["a", "b", "c"] {
        assert_eq!(once.get_field(&s(k)), twice.get_field(&s(k)));
    }
    assert!(once.get_field(&s("a")).is_none());
    assert_eq!(once.get_field(&s("b")), Some(&s("20")));
    assert_eq!(once.get_field(&s("c")), Some(&s("locked")));
}

#[test]
fn watcher_reports_owner_for_registered_key() {
    let mut w = RefWatcher::new();
    let o = owner("instance-a");
    w.add(&o, &vec![key("k1"), key("k2")]);
    let hits = w.lookup(&key("k1"));
    assert_eq!(hits.len(), 1);
    assert_eq!(hits[0].name, s("instance-a"));
    let hits2 = w.lookup(&key("k2"));
    assert_eq!(hits2.len(), 1);
    w.remove(&o);
    assert!(w.lookup(&key("k1")).is_empty());
    assert!(w.lookup(&key("k2")).is_empty());
}

#[test]
fn watcher_re_add_replaces_prior_set() {
    let mut w = RefWatcher::new();
    let o = owner("instance-a");
    w.add(&o, &vec![key("k1")]);
    w.add(&o, &vec![key("k2")]);
    assert!(w.lookup(&key("k1")).is_empty());
    assert_eq!(w.lookup(&key("k2")).len(), 1);
}

#[test]
fn watcher_keeps_other_owners_apart() {
    let mut w = RefWatcher::new();
    let a = owner("a");
    let b = OwnerId {
        namespace: s("default"),
        name: s("b"),
        uid: s("uid-2"),
    };
    w.add(&a, &vec![key("shared")]);
    w.add(&b, &vec![key("shared")]);
    assert_eq!(w.lookup(&key("shared")).len(), 2);
    w.remove(&a);
    let hits = w.lookup(&key("shared"));
    assert_eq!(hits.len(), 1);
    assert_eq!(hits[0].name, s("b"));
}

fn params(secret: &str) -> RefreshParams {
    RefreshParams {
        secret_name: s(secret),
        base_url: s("https://kc.example.com/auth"),
    }
}

#[test]
fn schedule_without_secret_fails_and_spawns_nothing() {
    let mut m = RefreshManager::new();
    let r = m.schedule_refresh(&s("default"), &s("kc"), params("kc-creds"), false);
    match r {
        Err(Error::NoCredentialSecret {
            namespace,
            secret_name,
        }) => {
            assert_eq!(namespace, s("default"));
            assert_eq!(secret_name, s("kc-creds"));
        }
        _ => panic!("expected the missing-secret error"),
    }
    // No task was spawned: cancelling is a no-op.
    assert!(!m.cancel_refresh(&s("kc")));
}

#[test]
fn schedule_is_idempotent_and_replaces_on_change() {
    let mut m = RefreshManager::new();
    let r1 = m.schedule_refresh(&s("default"), &s("kc"), params("kc-creds"), true);
    assert!(matches!(r1, Ok(ScheduleOutcome::Started)));
    let r2 = m.schedule_refresh(&s("default"), &s("kc"), params("kc-creds"), true);
    assert!(matches!(r2, Ok(ScheduleOutcome::AlreadyRunning)));
    let r3 = m.schedule_refresh(&s("default"), &s("kc"), params("other-creds"), true);
    assert!(matches!(r3, Ok(ScheduleOutcome::Replaced)));
    assert!(m.cancel_refresh(&s("kc")));
    assert!(!m.cancel_refresh(&s("kc")));
}

#[test]
fn first_sync_posts_then_puts_only() {
    let mut store = RemoteStore::new();
    let p = path(&["realms", "main", "authentication", "flows", "flow-1"]);
    let mut payload = Payload::empty();
    payload.set_field(&s("alias"), s("browser"));
    let m1 = store.sync(&p, &payload);
    assert!(matches!(m1, SyncMethod::Post));
    let m2 = store.sync(&p, &payload);
    assert!(matches!(m2, SyncMethod::Put));
    let m3 = store.sync(&p, &payload);
    assert!(matches!(m3, SyncMethod::Put));
    assert!(store.has_entity(&p));
}

#[test]
fn sync_of_two_entities_stays_apart() {
    let mut store = RemoteStore::new();
    let p1 = path(&["realms", "a"]);
    let p2 = path(&["realms", "b"]);
    let payload = Payload::empty();
    assert!(matches!(store.sync(&p1, &payload), SyncMethod::Post));
    assert!(matches!(store.sync(&p2, &payload), SyncMethod::Post));
    assert!(store.has_entity(&p1));
    assert!(store.has_entity(&p2));
    assert!(store.delete(&p1));
    assert!(!store.has_entity(&p1));
    assert!(store.has_entity(&p2));
}

#[test]
fn teardown_blocks_inside_grace_period() {
    let mut store = RemoteStore::new();
    let p = path(&["realms", "main"]);
    let payload = Payload::empty();
    store.sync(&p, &payload);
    let children = vec![s("child-a"), s("child-b")];
    let r = teardown(&mut store, &p, children, 10, DEFAULT_GRACE_SECONDS);
    match r {
        Err(Error::ResourceInUse { blocking_names }) => {
            assert_eq!(blocking_names, vec![s("child-a"), s("child-b")]);
        }
        _ => panic!("expected the still-referenced error"),
    }
    // No DELETE was issued.
    assert!(store.has_entity(&p));
}

#[test]
fn teardown_proceeds_after_grace_period_and_reports_orphans() {
    let mut store = RemoteStore::new();
    let p = path(&["realms", "main"]);
    let payload = Payload::empty();
    store.sync(&p, &payload);
    let children = vec![s("child-a"), s("child-b")];
    let r = teardown(&mut store, &p, children, DEFAULT_GRACE_SECONDS, DEFAULT_GRACE_SECONDS);
    let out = r.expect("teardown proceeds once the grace period has elapsed");
    assert_eq!(out.orphaned_names, vec![s("child-a"), s("child-b")]);
    assert!(out.resync_all);
    assert!(!store.has_entity(&p));
}

#[test]
fn teardown_of_clean_resource_deletes_quietly() {
    let mut store = RemoteStore::new();
    let p = path(&["realms", "main"]);
    let payload = Payload::empty();
    store.sync(&p, &payload);
    let r = teardown(&mut store, &p, Vec::new(), 0, DEFAULT_GRACE_SECONDS);
    let out = r.expect("a clean resource tears down at once");
    assert!(out.orphaned_names.is_empty());
    assert!(!store.has_entity(&p));
}

#[test]
fn unresolved_parent_never_syncs() {
    let mut store = RemoteStore::new();
    let p = path(&["realms", "main", "authentication", "config", "cfg-1"]);
    let def = Payload::empty();
    let r = apply_api_object(&mut store, false, &s("main"), &p, &def, &Vec::new(), &Vec::new());
    match r {
        Err(Error::ParentUnresolved { parent_name }) => {
            assert_eq!(parent_name, s("main"));
        }
        _ => panic!("expected the unresolved-parent error"),
    }
    assert!(!store.has_entity(&p));
    // The driver requeues instead of reporting success.
    let (action, ready) = after_apply(false, 0);
    assert!(matches!(action, ReconcileAction::RequeueAfter { seconds: 5 }));
    assert!(!ready);
}

#[test]
fn resolved_parent_syncs_the_resolved_payload() {
    let mut store = RemoteStore::new();
    let p = path(&["realms", "main", "authentication", "config", "cfg-1"]);
    let mut def = Payload::empty();
    def.set_field(&s("alias"), s("cfg"));
    let overlay = vec![(s("id"), s("cfg-1"))];
    let r = apply_api_object(&mut store, true, &s("main"), &p, &def, &Vec::new(), &overlay);
    assert!(matches!(r, Ok(SyncMethod::Post)));
    assert!(store.has_entity(&p));
    let r2 = apply_api_object(&mut store, true, &s("main"), &p, &def, &Vec::new(), &overlay);
    assert!(matches!(r2, Ok(SyncMethod::Put)));
}

#[test]
fn lifecycle_dispatch_follows_the_markers() {
    let active_new = ResourceMeta {
        deletion_requested: false,
        finalizer_present: false,
    };
    assert!(matches!(next_step(&active_new), Step::AttachAndApply));
    let attached = ensure_finalizer(&active_new);
    assert!(attached.finalizer_present);
    assert!(!attached.deletion_requested);
    assert!(matches!(next_step(&attached), Step::RunApply));
    let finalizing = ResourceMeta {
        deletion_requested: true,
        finalizer_present: true,
    };
    assert!(matches!(next_step(&finalizing), Step::RunCleanup));
    let gone = ResourceMeta {
        deletion_requested: true,
        finalizer_present: false,
    };
    assert!(matches!(next_step(&gone), Step::AwaitRemoval));
}

#[test]
fn backoff_doubles_and_caps() {
    let expected = [5u64, 10, 20, 40, 80, 160, 300, 300, 300];
    for (i, e) in expected.iter().enumerate() {
        assert_eq!(backoff_seconds(i as u32), *e);
    }
}

#[test]
fn cleanup_outcome_drives_the_finalizer() {
    let finalizing = ResourceMeta {
        deletion_requested: true,
        finalizer_present: true,
    };
    let (meta_ok, action_ok) = after_cleanup(&finalizing, true, 0);
    assert!(!meta_ok.finalizer_present);
    assert!(matches!(action_ok, ReconcileAction::AwaitChange));
    let (meta_err, action_err) = after_cleanup(&finalizing, false, 2);
    assert!(meta_err.finalizer_present);
    assert!(matches!(
        action_err,
        ReconcileAction::RequeueAfter { seconds: 20 }
    ));
}

#[test]
fn apply_success_awaits_the_next_change() {
    let (action, ready) = after_apply(true, 3);
    assert!(matches!(action, ReconcileAction::AwaitChange));
    assert!(ready);
}

#[test]
fn errors_are_retryable_but_config_defects() {
    assert!(Error::NoNamespace.is_retryable());
    assert!(Error::Transport.is_retryable());
    assert!(Error::ParentUnresolved {
        parent_name: s("p")
    }
    .is_retryable());
    assert!(Error::RemoteRejected { status: 409 }.is_retryable());
    assert!(!Error::MissingPathBuilder.is_retryable());
}

#[test]
fn full_passes_walk_the_lifecycle_forward() {
    let mut store = RemoteStore::new();
    let p = path(&["realms", "main", "authentication", "flows", "flow-1"]);
    let mut def = Payload::empty();
    def.set_field(&s("alias"), s("browser"));
    let active = ResourceMeta {
        deletion_requested: false,
        finalizer_present: false,
    };

    // First pass: parent not resolved yet — no sync, requeue, not ready.
    let r1 = reconcile_api_object(
        &mut store, &active, false, &s("main"), &p, &def, &Vec::new(), &Vec::new(),
        Vec::new(), 0, DEFAULT_GRACE_SECONDS, 0,
    );
    assert!(r1.meta.finalizer_present);
    assert!(!r1.ready);
    assert!(matches!(r1.action, ReconcileAction::RequeueAfter { seconds: 5 }));
    assert!(!store.has_entity(&p));

    // Second pass: the parent resolved — the entity is created and ready.
    let r2 = reconcile_api_object(
        &mut store, &r1.meta, true, &s("main"), &p, &def, &Vec::new(), &Vec::new(),
        Vec::new(), 0, DEFAULT_GRACE_SECONDS, 1,
    );
    assert!(r2.ready);
    assert!(matches!(r2.action, ReconcileAction::AwaitChange));
    assert!(store.has_entity(&p));

    // Deletion requested while children linger: blocked inside the grace
    // period, the finalizer stays.
    let finalizing = ResourceMeta {
        deletion_requested: true,
        finalizer_present: true,
    };
    let r3 = reconcile_api_object(
        &mut store, &finalizing, true, &s("main"), &p, &def, &Vec::new(), &Vec::new(),
        vec![s("child")], 10, DEFAULT_GRACE_SECONDS, 0,
    );
    assert!(r3.meta.finalizer_present);
    assert!(store.has_entity(&p));

    // Grace period over: the entity is deleted and the finalizer removed.
    let r4 = reconcile_api_object(
        &mut store, &finalizing, true, &s("main"), &p, &def, &Vec::new(), &Vec::new(),
        vec![s("child")], DEFAULT_GRACE_SECONDS, DEFAULT_GRACE_SECONDS, 0,
    );
    assert!(!r4.meta.finalizer_present);
    assert!(matches!(r4.action, ReconcileAction::AwaitChange));
    assert!(!store.has_entity(&p));
}

#[test]
fn every_error_has_a_status_message() {
    let errors = vec![
        Error::NoNamespace,
        Error::NoCredentialSecret {
            namespace: s("default"),
            secret_name: s("kc-creds"),
        },
        Error::ParentUnresolved {
            parent_name: s("main"),
        },
        Error::RemoteRejected { status: 500 },
        Error::Transport,
        Error::ResourceInUse {
            blocking_names: vec![s("child")],
        },
        Error::Serialization,
        Error::MissingPathBuilder,
    ];
    for e in errors {
        assert!(!e.message().is_empty());
    }
}

#[test]
fn namespace_guard_matches_the_resource() {
    assert_eq!(
        require_namespace(&Some(s("default"))).ok(),
        Some(&s("default"))
    );
    assert!(matches!(
        require_namespace(&None),
        Err(Error::NoNamespace)
    ));
}

#[test]
fn refresh_sleeps_until_shortly_before_expiry() {
    assert_eq!(refresh_delay_seconds(300, 60), 240);
    assert_eq!(refresh_delay_seconds(30, 60), 0);
    assert_eq!(refresh_delay_seconds(60, 60), 0);
}

#[test]
fn rest_paths_compare_and_compose() {
    let collection = path(&["realms", "main", "authentication", "flows"]);
    let entity = collection.child(&s("flow-1"));
    assert!(entity.same(&path(&[
        "realms",
        "main",
        "authentication",
        "flows",
        "flow-1"
    ])));
    assert!(!entity.same(&collection));
    let back = entity.collection();
    assert!(back.same(&collection));
}
