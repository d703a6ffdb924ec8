//! Migration of legacy instance objects: each legacy object is mirrored as
//! an owned instance whose endpoint is the legacy URL joined with its
//! context root.
//!
//! URL text is handled as UTF-8 bytes; the slash is one byte in UTF-8, so
//! trimming and joining on it is byte-exact.

use vstd::prelude::*;

use crate::instance::CredentialsRef;

verus! {

/// The slash byte.
pub const SLASH: u8 = 47;

/// The bytes without their trailing slashes.
pub open spec fn trim_end_slash(s: Seq<u8>) -> Seq<u8>
    decreases s.len(),
{
    if s.len() > 0 && s.last() == SLASH {
        trim_end_slash(s.drop_last())
    } else {
        s
    }
}

/// The bytes without their leading slashes.
pub open spec fn trim_start_slash(s: Seq<u8>) -> Seq<u8>
    decreases s.len(),
{
    if s.len() > 0 && s[0] == SLASH {
        trim_start_slash(s.skip(1))
    } else {
        s
    }
}

/// The endpoint a legacy object denotes: its URL without trailing slashes,
/// one slash, and its context root without surrounding slashes.
pub open spec fn base_url_model(url: Seq<u8>, context_root: Seq<u8>) -> Seq<u8> {
    trim_end_slash(url) + seq![SLASH] + trim_start_slash(trim_end_slash(context_root))
}

/// When everything from position `e` on is a slash, end-trimming the whole
/// sequence equals end-trimming its first `e` bytes.
proof fn lemma_trim_end_prefix(s: Seq<u8>, e: int)
    requires
        0 <= e <= s.len(),
        forall|j: int| e <= j < s.len() ==> s[j] == SLASH,
    ensures
        trim_end_slash(s) == trim_end_slash(s.take(e)),
    decreases s.len() - e,
{
    if e == s.len() {
        assert(s.take(e) =~= s);
    } else {
        assert(s.last() == SLASH);
        assert(s.drop_last() =~= s.take(s.len() - 1));
        lemma_trim_end_prefix(s.take(s.len() - 1), e);
        assert(s.take(s.len() - 1).take(e) =~= s.take(e));
    }
}

/// A sequence whose last byte is no slash is already end-trimmed.
proof fn lemma_trim_end_done(s: Seq<u8>)
    requires
        s.len() == 0 || s.last() != SLASH,
    ensures
        trim_end_slash(s) == s,
{
}

/// When everything before position `a` is a slash, start-trimming the whole
/// sequence equals start-trimming the suffix from `a` on.
proof fn lemma_trim_start_prefix(s: Seq<u8>, a: int)
    requires
        0 <= a <= s.len(),
        forall|j: int| 0 <= j < a ==> s[j] == SLASH,
    ensures
        trim_start_slash(s) == trim_start_slash(s.skip(a)),
    decreases a,
{
    if a == 0 {
        assert(s.skip(0) =~= s);
    } else {
        assert(s[0] == SLASH);
        lemma_trim_start_prefix(s.skip(1), a - 1);
        assert(s.skip(1).skip(a - 1) =~= s.skip(a));
    }
}

/// A sequence whose first byte is no slash is already start-trimmed.
proof fn lemma_trim_start_done(s: Seq<u8>)
    requires
        s.len() == 0 || s[0] != SLASH,
    ensures
        trim_start_slash(s) == s,
{
}

/// Join a legacy URL and context root into the instance endpoint: the URL
/// without trailing slashes, one slash, the context root without
/// surrounding slashes.
pub fn build_base_url(url: &Vec<u8>, context_root: &Vec<u8>) -> (r: Vec<u8>)
    ensures
        r@ == base_url_model(url@, context_root@),
{
    let mut e1: usize = url.len();
    while e1 > 0 && url[e1 - 1] == SLASH
        invariant
            e1 <= url.len(),
            forall|j: int| e1 <= j < url@.len() ==> url@[j] == SLASH,
        decreases e1,
    {
        e1 = e1 - 1;
    }
    proof {
        lemma_trim_end_prefix(url@, e1 as int);
        lemma_trim_end_done(url@.take(e1 as int));
    }
    let mut e2: usize = context_root.len();
    while e2 > 0 && context_root[e2 - 1] == SLASH
        invariant
            e2 <= context_root.len(),
            forall|j: int| e2 <= j < context_root@.len() ==> context_root@[j] == SLASH,
        decreases e2,
    {
        e2 = e2 - 1;
    }
    proof {
        lemma_trim_end_prefix(context_root@, e2 as int);
        lemma_trim_end_done(context_root@.take(e2 as int));
    }
    let mut a2: usize = 0;
    while a2 < e2 && context_root[a2] == SLASH
        invariant
            a2 <= e2,
            e2 <= context_root.len(),
            forall|j: int| 0 <= j < a2 ==> context_root@[j] == SLASH,
        decreases e2 - a2,
    {
        a2 = a2 + 1;
    }
    let ghost trimmed_cr = context_root@.take(e2 as int);
    proof {
        assert(forall|j: int| 0 <= j < a2 ==> trimmed_cr[j] == SLASH);
        lemma_trim_start_prefix(trimmed_cr, a2 as int);
        assert(trimmed_cr.skip(a2 as int) =~= context_root@.subrange(a2 as int, e2 as int));
        lemma_trim_start_done(context_root@.subrange(a2 as int, e2 as int));
    }
    let mut r: Vec<u8> = Vec::new();
    for i in 0..e1
        invariant
            e1 <= url.len(),
            r@ == url@.take(e1 as int).take(i as int),
    {
        r.push(url[i]);
        proof {
            assert(url@.take(e1 as int).take(i as int + 1) =~= url@.take(e1 as int).take(
                i as int,
            ).push(url@[i as int]));
        }
    }
    proof {
        assert(url@.take(e1 as int).take(e1 as int) =~= url@.take(e1 as int));
    }
    r.push(SLASH);
    let ghost mid = url@.take(e1 as int) + seq![SLASH];
    proof {
        assert(r@ =~= mid);
    }
    for i in a2..e2
        invariant
            a2 <= e2,
            e2 <= context_root.len(),
            mid == url@.take(e1 as int) + seq![SLASH],
            r@ == mid + context_root@.subrange(a2 as int, i as int),
    {
        r.push(context_root[i]);
        proof {
            assert(context_root@.subrange(a2 as int, i as int + 1) =~= context_root@.subrange(
                a2 as int,
                i as int,
            ).push(context_root@[i as int]));
            assert(r@ =~= mid + context_root@.subrange(a2 as int, i as int + 1));
        }
    }
    proof {
        assert(r@ =~= base_url_model(url@, context_root@));
    }
    r
}

/// The instance object a legacy object is mirrored into.
pub struct InstanceSpec {
    /// The endpoint, the legacy URL joined with its context root.
    pub base_url: Vec<u8>,
    /// The realm the instance administers.
    pub realm: Option<String>,
    /// The credential secret reference.
    pub credentials: CredentialsRef,
}

/// Build the mirrored instance for a legacy object: the joined endpoint,
/// the default realm, and a credential reference named after the object
/// with the legacy key names and no auto-creation.
pub fn build_instance_spec(name: &String, url: &Vec<u8>, context_root: &Vec<u8>) -> (r:
    InstanceSpec)
    ensures
        r.base_url@ == base_url_model(url@, context_root@),
        r.realm matches Some(m) && m@ == "master"@,
        r.credentials.create == Some(false),
        r.credentials.secret_name@ == "credential-"@ + name@,
        r.credentials.username_key matches Some(k) && k@ == "ADMIN_USERNAME"@,
        r.credentials.password_key matches Some(k) && k@ == "ADMIN_PASSWORD"@,
{
    let base_url = build_base_url(url, context_root);
    let secret_name = "credential-".to_owned().concat(name.as_str());
    InstanceSpec {
        base_url,
        realm: Some("master".to_owned()),
        credentials: CredentialsRef {
            create: Some(false),
            secret_name,
            username_key: Some("ADMIN_USERNAME".to_owned()),
            password_key: Some("ADMIN_PASSWORD".to_owned()),
        },
    }
}

/// The migration controller for legacy instance objects.
pub struct LegacyInstanceController {
    prudent: bool,
}

impl LegacyInstanceController {
    /// Whether the controller leaves alone objects that another manager
    /// already owns.
    pub closed spec fn is_prudent(&self) -> bool {
        self.prudent
    }

    /// A controller; a prudent one leaves objects another manager owns
    /// alone.
    pub fn new(prudent: bool) -> (r: Self)
        ensures
            r.is_prudent() == prudent,
    {
        Self { prudent }
    }

    /// Whether this pass should handle the object: a prudent controller
    /// skips objects that another manager already owns.
    pub fn should_handle(&self, owned_by_other: bool) -> (r: bool)
        ensures
            r == (!self.is_prudent() || !owned_by_other),
    {
        !self.prudent || !owned_by_other
    }
}

} // verus!
