//! Checks of instance provisioning and the legacy migration: credential
//! secret creation, the one-time hook's decision, and the endpoint joining.

use rustcloak_core::error::Error;
use rustcloak_core::instance::{
    before_finalizer_plan, build_credential_secret, generate_password, secret_key_names,
    CredentialsRef, ProvisionPlan,
};
use rustcloak_core::legacy::{build_base_url, build_instance_spec, LegacyInstanceController};
use rustcloak_core::refresh::{RefreshManager, RefreshParams, ScheduleOutcome};

fn s(x: &str) -> String {
    x.to_string()
}

fn creds(create: Option<bool>) -> CredentialsRef {
    CredentialsRef {
        create,
        secret_name: s("kc-credentials"),
        username_key: None,
        password_key: None,
    }
}

fn classes(pw: &[u8]) -> (bool, bool, bool, bool) {
    let mut upper = false;
    let mut lower = false;
    let mut digit = false;
    let mut symbol = false;
    for &b in pw {
        assert!((33..=126).contains(&b), "not printable: {b}");
        if b.is_ascii_uppercase() {
            upper = true;
        } else if b.is_ascii_lowercase() {
            lower = true;
        } else if b.is_ascii_digit() {
            digit = true;
        } else {
            symbol = true;
        }
    }
    (upper, lower, digit, symbol)
}

#[test]
fn generated_password_is_strong() {
    for _ in 0..16 {
        let pw = generate_password();
        assert_eq!(pw.len(), 32);
        let (u, l, d, y) = classes(&pw);
        assert!(u && l && d && y);
    }
}

#[test]
fn key_names_default_and_override() {
    let d = secret_key_names(&creds(None));
    assert_eq!(d.0, s("username"));
    assert_eq!(d.1, s("password"));
    let c = CredentialsRef {
        create: None,
        secret_name: s("kc-credentials"),
        username_key: Some(s("ADMIN_USERNAME")),
        password_key: Some(s("ADMIN_PASSWORD")),
    };
    let o = secret_key_names(&c);
    assert_eq!(o.0, s("ADMIN_USERNAME"));
    assert_eq!(o.1, s("ADMIN_PASSWORD"));
}

#[test]
fn auto_create_provisions_a_secret_then_scheduling_succeeds() {
    // An instance with auto-create enabled and no existing credential secret.
    let c = creds(Some(true));
    let plan = before_finalizer_plan(&s("default"), &c, false);
    assert!(matches!(plan, Ok(ProvisionPlan::CreateSecret)));

    let secret = build_credential_secret(&s("kc-credentials"), &s("default"), &c, &s("uid-42"));
    assert_eq!(secret.name, s("kc-credentials"));
    assert_eq!(secret.namespace, s("default"));
    assert_eq!(secret.owner_uid, s("uid-42"));
    assert_eq!(secret.username_key, s("username"));
    assert_eq!(secret.password_key, s("password"));
    assert_eq!(secret.username, b"rustcloak-admin".to_vec());
    assert_eq!(secret.password.len(), 32);
    let (u, l, d, y) = classes(&secret.password);
    assert!(u && l && d && y);

    // With the secret in place, scheduling the refresh succeeds.
    let mut m = RefreshManager::new();
    let r = m.schedule_refresh(
        &s("default"),
        &s("kc"),
        RefreshParams {
            secret_name: s("kc-credentials"),
            base_url: s("https://kc.example.com/auth"),
        },
        true,
    );
    assert!(matches!(r, Ok(ScheduleOutcome::Started)));
}

#[test]
fn absent_secret_without_auto_create_is_an_error() {
    let plan = before_finalizer_plan(&s("default"), &creds(None), false);
    match plan {
        Err(Error::NoCredentialSecret {
            namespace,
            secret_name,
        }) => {
            assert_eq!(namespace, s("default"));
            assert_eq!(secret_name, s("kc-credentials"));
        }
        _ => panic!("expected the missing-secret error"),
    }
    let plan2 = before_finalizer_plan(&s("default"), &creds(Some(false)), false);
    assert!(plan2.is_err());
}

#[test]
fn existing_secret_schedules_without_provisioning() {
    let plan = before_finalizer_plan(&s("default"), &creds(None), true);
    assert!(matches!(plan, Ok(ProvisionPlan::ScheduleOnly)));
}

#[test]
fn base_url_joins_and_trims_slashes() {
    let r = build_base_url(
        &b"https://example.com//".to_vec(),
        &b"/auth/".to_vec(),
    );
    assert_eq!(r, b"https://example.com/auth".to_vec());
    let plain = build_base_url(&b"https://example.com".to_vec(), &b"auth".to_vec());
    assert_eq!(plain, b"https://example.com/auth".to_vec());
    let empty_root = build_base_url(&b"https://example.com/".to_vec(), &b"/".to_vec());
    assert_eq!(empty_root, b"https://example.com/".to_vec());
}

#[test]
fn legacy_instance_spec_mirrors_the_legacy_object() {
    let spec = build_instance_spec(
        &s("kc"),
        &b"https://kc.example.com/".to_vec(),
        &b"/auth".to_vec(),
    );
    assert_eq!(spec.base_url, b"https://kc.example.com/auth".to_vec());
    assert_eq!(spec.realm, Some(s("master")));
    assert_eq!(spec.credentials.create, Some(false));
    assert_eq!(spec.credentials.secret_name, s("credential-kc"));
    assert_eq!(spec.credentials.username_key, Some(s("ADMIN_USERNAME")));
    assert_eq!(spec.credentials.password_key, Some(s("ADMIN_PASSWORD")));
}

#[test]
fn prudent_controller_skips_foreign_objects() {
    let prudent = LegacyInstanceController::new(true);
    assert!(prudent.should_handle(false));
    assert!(!prudent.should_handle(true));
    let eager = LegacyInstanceController::new(false);
    assert!(eager.should_handle(false));
    assert!(eager.should_handle(true));
}
