//! Instance provisioning: credential secret creation and the decision taken
//! before the finalizer is attached.
//!
//! An instance points at a credential secret. When the secret is absent and
//! the instance asks for auto-creation, the one-time hook creates it with
//! two keys: a fixed administrator user name and a generated strong
//! password. When the secret is absent and auto-creation is off, the pass
//! fails with the missing-secret error.

use vstd::prelude::*;

use crate::error::Error;

verus! {

/// An upper-case ASCII letter.
pub open spec fn is_upper(b: u8) -> bool {
    65 <= b <= 90
}

/// A lower-case ASCII letter.
pub open spec fn is_lower(b: u8) -> bool {
    97 <= b <= 122
}

/// An ASCII digit.
pub open spec fn is_digit(b: u8) -> bool {
    48 <= b <= 57
}

/// A printable ASCII character.
pub open spec fn is_graphic(b: u8) -> bool {
    33 <= b <= 126
}

/// A printable ASCII character that is neither a letter nor a digit.
pub open spec fn is_symbol(b: u8) -> bool {
    is_graphic(b) && !is_upper(b) && !is_lower(b) && !is_digit(b)
}

/// A generated credential value: 32 printable characters with at least one
/// upper-case letter, one lower-case letter, one digit and one symbol.
pub open spec fn strong_password(s: Seq<u8>) -> bool {
    &&& s.len() == 32
    &&& forall|i: int| 0 <= i < s.len() ==> is_graphic(#[trigger] s[i])
    &&& exists|i: int| 0 <= i < s.len() && is_upper(#[trigger] s[i])
    &&& exists|i: int| 0 <= i < s.len() && is_lower(#[trigger] s[i])
    &&& exists|i: int| 0 <= i < s.len() && is_digit(#[trigger] s[i])
    &&& exists|i: int| 0 <= i < s.len() && is_symbol(#[trigger] s[i])
}

/// Relies on randstr's builder: with the upper-case, lower-case, digit and
/// symbol alphabets enabled and a length of at least four, `generate`
/// returns exactly `len` bytes, each drawn from those alphabets — printable
/// ASCII. (Which classes actually occur depends on the random draw.)
#[verifier::external_body]
fn random_ascii_bytes(len: usize) -> (r: Vec<u8>)
    requires
        4 <= len,
    ensures
        r@.len() == len,
        forall|i: int| 0 <= i < r@.len() ==> is_graphic(#[trigger] r@[i]),
{
    randstr::randstr()
        .must_upper()
        .must_lower()
        .must_digit()
        .must_symbol()
        .len(len)
        .build()
        .generate()
        .into_bytes()
}

/// Generate a strong password: 32 printable ASCII characters holding at
/// least one character of each class. The randomness comes from the
/// generator; when a class is missing from the draw, the first four
/// positions are pinned to one character of each class.
pub fn generate_password() -> (r: Vec<u8>)
    ensures
        strong_password(r@),
{
    let mut pw = random_ascii_bytes(32);
    let mut has_u = false;
    let mut has_l = false;
    let mut has_d = false;
    let mut has_s = false;
    let n = pw.len();
    for i in 0..n
        invariant
            n == pw@.len(),
            pw@.len() == 32,
            forall|j: int| 0 <= j < pw@.len() ==> is_graphic(#[trigger] pw@[j]),
            has_u == exists|j: int| 0 <= j < i && is_upper(#[trigger] pw@[j]),
            has_l == exists|j: int| 0 <= j < i && is_lower(#[trigger] pw@[j]),
            has_d == exists|j: int| 0 <= j < i && is_digit(#[trigger] pw@[j]),
            has_s == exists|j: int| 0 <= j < i && is_symbol(#[trigger] pw@[j]),
    {
        let b = pw[i];
        if 65 <= b && b <= 90 {
            has_u = true;
        } else if 97 <= b && b <= 122 {
            has_l = true;
        } else if 48 <= b && b <= 57 {
            has_d = true;
        } else {
            has_s = true;
        }
    }
    if has_u && has_l && has_d && has_s {
        return pw;
    }
    pw[0] = 65;  // 'A'
    pw[1] = 97;  // 'a'
    pw[2] = 50;  // '2'
    pw[3] = 33;  // '!'
    proof {
        assert(is_upper(pw@[0]));
        assert(is_lower(pw@[1]));
        assert(is_digit(pw@[2]));
        assert(is_symbol(pw@[3]));
    }
    pw
}

/// How an instance points at its credential secret.
pub struct CredentialsRef {
    /// Create the secret when it is absent.
    pub create: Option<bool>,
    /// The secret's name.
    pub secret_name: String,
    /// The key the administrator user name is stored under, when overridden.
    pub username_key: Option<String>,
    /// The key the password is stored under, when overridden.
    pub password_key: Option<String>,
}

/// The two key names of a credential secret: the configured overrides, or
/// the default pair.
pub fn secret_key_names(creds: &CredentialsRef) -> (r: (String, String))
    ensures
        r.0@ == match creds.username_key {
            Option::Some(k) => k@,
            Option::None => "username"@,
        },
        r.1@ == match creds.password_key {
            Option::Some(k) => k@,
            Option::None => "password"@,
        },
{
    let u = match &creds.username_key {
        Option::Some(k) => k.clone(),
        Option::None => "username".to_owned(),
    };
    let p = match &creds.password_key {
        Option::Some(k) => k.clone(),
        Option::None => "password".to_owned(),
    };
    (u, p)
}

/// A credential secret as this controller creates it: two immutable key
/// names set once at creation, owned by its instance so the platform
/// garbage-collects it with the instance.
pub struct CredentialSecret {
    pub name: String,
    pub namespace: String,
    pub username_key: String,
    pub password_key: String,
    pub username: Vec<u8>,
    pub password: Vec<u8>,
    /// The owning instance's uid: the owner link.
    pub owner_uid: String,
}

/// Build the credential secret for an instance: the fixed administrator
/// user name under the first key, a generated strong password under the
/// second, owned by the instance.
pub fn build_credential_secret(
    name: &String,
    namespace: &String,
    creds: &CredentialsRef,
    owner_uid: &String,
) -> (r: CredentialSecret)
    ensures
        r.name@ == name@,
        r.namespace@ == namespace@,
        r.owner_uid@ == owner_uid@,
        r.username_key@ == match creds.username_key {
            Option::Some(k) => k@,
            Option::None => "username"@,
        },
        r.password_key@ == match creds.password_key {
            Option::Some(k) => k@,
            Option::None => "password"@,
        },
        r.username@ == "rustcloak-admin"@.map_values(|c: char| c as u8),
        strong_password(r.password@),
{
    let keys = secret_key_names(creds);
    proof {
        reveal_strlit("rustcloak-admin");
    }
    let username = ascii_bytes_of("rustcloak-admin");
    let password = generate_password();
    CredentialSecret {
        name: name.clone(),
        namespace: namespace.clone(),
        username_key: keys.0,
        password_key: keys.1,
        username,
        password,
        owner_uid: owner_uid.clone(),
    }
}

/// Relies on str::as_bytes: the UTF-8 bytes of a string; on ASCII text each
/// character is one byte.
#[verifier::external_body]
fn ascii_bytes_of(s: &str) -> (r: Vec<u8>)
    requires
        forall|i: int| 0 <= i < s@.len() ==> (#[trigger] s@[i]) as u32 <= 127,
    ensures
        r@ == s@.map_values(|c: char| c as u8),
{
    s.as_bytes().to_vec()
}

/// What the one-time hook must do before the finalizer is attached.
pub enum ProvisionPlan {
    /// The credential secret exists: schedule the refresh task.
    ScheduleOnly,
    /// The secret is absent and auto-creation is on: create it, then
    /// schedule on the next pass.
    CreateSecret,
}

/// Decide the one-time hook's work from whether the credential secret
/// exists and whether the instance asks for auto-creation. An absent secret
/// without auto-creation is the missing-secret error.
pub fn before_finalizer_plan(
    namespace: &String,
    creds: &CredentialsRef,
    secret_exists: bool,
) -> (r: Result<ProvisionPlan, Error>)
    ensures
        secret_exists ==> (r matches Ok(p) && p is ScheduleOnly),
        !secret_exists && creds.create == Some(true) ==> (r matches Ok(p) && p is CreateSecret),
        !secret_exists && creds.create != Some(true) ==> (r matches Err(e) && (
        e matches Error::NoCredentialSecret { namespace: ns, secret_name: sn } && ns@ == namespace@
            && sn@ == creds.secret_name@)),
{
    if secret_exists {
        Ok(ProvisionPlan::ScheduleOnly)
    } else {
        let auto = match &creds.create {
            Option::Some(b) => *b,
            Option::None => false,
        };
        if auto {
            Ok(ProvisionPlan::CreateSecret)
        } else {
            Err(
                Error::NoCredentialSecret {
                    namespace: namespace.clone(),
                    secret_name: creds.secret_name.clone(),
                },
            )
        }
    }
}

} // verus!
