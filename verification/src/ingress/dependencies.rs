//! The secrets and services that annotations refer to.
use crate::certificates::{covers, parsed, Certificate, CertificateError, Credential};
use crate::config::value::{duration, duration_of};
use crate::ingress::backends::{
    endpoints_of, is_named, resolve_backend, ServiceObject, SliceObject,
};
use crate::ingress::policy::{auth_service, service_of, Port, PortView, Service};
use crate::ingress::resources::Key;
use crate::ingress::spec::{PortName, PortRef, ServiceBackend, Target};
use crate::net::Socket;
use crate::text;
use vstd::prelude::*;
use vstd::utf8::{decode_utf8, valid_utf8};

verus! {

// ---------------------------------------------------------------------------
// Which annotations count
// ---------------------------------------------------------------------------

/// An annotation that says how requests are treated: not the script, and not what a rollout notes.
pub open spec fn treats(key: Seq<char>) -> bool {
    text::starts(key, "rgnix.io/"@) && key != "rgnix.io/script"@ && key
        != "rgnix.io/rolled-back-revision"@ && key != "rgnix.io/rollout-state"@
}

/// The annotations that say how requests are treated.
pub open spec fn treating(v: Seq<(Seq<char>, Seq<char>)>) -> Seq<(Seq<char>, Seq<char>)>
    decreases v.len(),
{
    if v.len() == 0 {
        Seq::empty()
    } else if treats(v.last().0) {
        treating(v.drop_last()).push(v.last())
    } else {
        treating(v.drop_last())
    }
}

/// The annotations that say how requests are treated.
pub fn annotations(v: &Vec<(String, String)>) -> (out: Vec<(String, String)>)
    ensures
        text::pairs(out@) == treating(text::pairs(v@)),
{
    let ghost all = text::pairs(v@);
    let mut out: Vec<(String, String)> = Vec::new();
    let mut i: usize = 0;
    assert(text::pairs(out@) =~= treating(all.take(0)));
    while i < v.len()
        invariant
            i <= v.len(),
            all == text::pairs(v@),
            text::pairs(out@) == treating(all.take(i as int)),
        decreases v.len() - i,
    {
        let ghost before = text::pairs(out@);
        proof {
            assert(all.take(i + 1).drop_last() =~= all.take(i as int));
            assert(all.take(i + 1).last() == (v@[i as int].0@, v@[i as int].1@));
        }
        let key = v[i].0.as_str();
        if text::starts_with(key, "rgnix.io/") && !text::same(key, "rgnix.io/script") && !text::same(
            key,
            "rgnix.io/rolled-back-revision",
        ) && !text::same(key, "rgnix.io/rollout-state") {
            out.push((v[i].0.clone(), v[i].1.clone()));
            assert(text::pairs(out@) =~= before.push((v@[i as int].0@, v@[i as int].1@)));
        }
        i += 1;
    }
    assert(all.take(i as int) =~= all);
    out
}

// ---------------------------------------------------------------------------
// What they refer to
// ---------------------------------------------------------------------------

/// The services that a rollout goes over, as they are written.
pub open spec fn rollout_services(v: Seq<Seq<char>>, ns: Seq<char>) -> Seq<Key>
    decreases v.len(),
{
    if v.len() == 0 {
        Seq::empty()
    } else {
        let before = rollout_services(v.drop_last(), ns);
        match service_of(v.last() + "/"@) {
            Some(s) => before.push((ns, s.name)),
            None => before,
        }
    }
}

/// The secrets that annotations name.
pub open spec fn named_secrets(values: Seq<(Seq<char>, Seq<char>)>, ns: Seq<char>) -> Seq<Key> {
    named_secret(values, ns, "rgnix.io/upstream-ca-secret"@) + named_secret(
        values,
        ns,
        "rgnix.io/upstream-client-secret"@,
    ) + named_secret(values, ns, "rgnix.io/client-ca-secret"@) + named_secret(
        values,
        ns,
        "rgnix.io/jwt-secret"@,
    )
}

pub open spec fn named_secret(values: Seq<(Seq<char>, Seq<char>)>, ns: Seq<char>, key: Seq<char>) -> Seq<
    Key,
> {
    match text::lookup(values, key) {
        Some(name) => seq![(ns, name)],
        None => Seq::empty(),
    }
}

/// The service that decides on requests, as annotations name it.
pub open spec fn named_auth(values: Seq<(Seq<char>, Seq<char>)>, ns: Seq<char>) -> Seq<Key> {
    match text::lookup(values, "rgnix.io/auth-service"@) {
        Some(value) => match service_of(value) {
            Some(s) => seq![(ns, s.name)],
            None => Seq::empty(),
        },
        None => Seq::empty(),
    }
}

fn add_secret(values: &Vec<(String, String)>, ns: &str, key: &str, out: &mut Vec<(String, String)>)
    ensures
        text::pairs(final(out)@) == text::pairs(old(out)@) + named_secret(
            text::pairs(values@),
            ns@,
            key@,
        ),
{
    let ghost before = text::pairs(out@);
    match text::find(values, key) {
        Some(name) => {
            out.push((ns.to_owned(), name.to_owned()));
            assert(text::pairs(out@) =~= before + seq![(ns@, name@)]);
        },
        None => {
            assert(text::pairs(out@) =~= before + Seq::<Key>::empty());
        },
    }
}

/// Adds the services and secrets that annotations refer to; `rollout` are the services of the rollout that
/// they ask for, as they are written, where it can be read.
pub fn dependencies(
    values: &Vec<(String, String)>,
    rollout: &Vec<String>,
    ns: &str,
    services: &mut Vec<(String, String)>,
    secrets: &mut Vec<(String, String)>,
)
    ensures
        text::pairs(final(services)@) == text::pairs(old(services)@) + rollout_services(
            text::texts(rollout@),
            ns@,
        ) + named_auth(text::pairs(values@), ns@),
        text::pairs(final(secrets)@) == text::pairs(old(secrets)@) + named_secrets(
            text::pairs(values@),
            ns@,
        ),
{
    let ghost start = text::pairs(services@);
    let ghost all = text::texts(rollout@);
    let mut i: usize = 0;
    assert(start + rollout_services(all.take(0), ns@) =~= start);
    while i < rollout.len()
        invariant
            i <= rollout.len(),
            all == text::texts(rollout@),
            text::pairs(services@) == start + rollout_services(all.take(i as int), ns@),
        decreases rollout.len() - i,
    {
        let ghost before = text::pairs(services@);
        proof {
            assert(all.take(i + 1).drop_last() =~= all.take(i as int));
            assert(all.take(i + 1).last() == rollout@[i as int]@);
        }
        if let Some(s) = auth_service(text::concat(rollout[i].as_str(), "/").as_str()) {
            let ghost x = (ns@, s.name@);
            services.push((ns.to_owned(), s.name));
            proof {
                assert(text::pairs(services@) =~= before.push(x));
                assert(before.push(x) =~= start + rollout_services(all.take(i as int), ns@).push(x));
            }
        }
        i += 1;
    }
    assert(all.take(i as int) =~= all);
    let ghost middle = text::pairs(services@);
    let ghost first = text::pairs(secrets@);
    add_secret(values, ns, "rgnix.io/upstream-ca-secret", secrets);
    add_secret(values, ns, "rgnix.io/upstream-client-secret", secrets);
    add_secret(values, ns, "rgnix.io/client-ca-secret", secrets);
    add_secret(values, ns, "rgnix.io/jwt-secret", secrets);
    assert(text::pairs(secrets@) =~= first + named_secrets(text::pairs(values@), ns@));
    if let Some(value) = text::find(values, "rgnix.io/auth-service") {
        if let Some(s) = auth_service(value) {
            let ghost x = (ns@, s.name@);
            services.push((ns.to_owned(), s.name));
            assert(text::pairs(services@) =~= middle + seq![x]);
        } else {
            assert(text::pairs(services@) =~= middle + Seq::<Key>::empty());
        }
    } else {
        assert(text::pairs(services@) =~= middle + Seq::<Key>::empty());
    }
}

// ---------------------------------------------------------------------------
// Secrets
// ---------------------------------------------------------------------------

/// A secret with what it holds.
#[derive(Debug)]
pub struct SecretObject {
    pub namespace: Option<String>,
    pub name: String,
    pub data: Option<Vec<(String, Vec<u8>)>>,
}

#[derive(Clone, Copy, Debug, PartialEq, Eq, Structural)]
pub enum DependencyError {
    Secret,
    Encoding,
    Issuer,
    Audience,
    AuthService,
    AuthUnavailable,
    AuthEmpty,
    AuthTimeout,
}

/// What is kept under a key.
pub open spec fn kept(v: Seq<(String, Vec<u8>)>, key: Seq<char>) -> Option<Seq<u8>>
    decreases v.len(),
{
    if v.len() == 0 {
        None
    } else if v[0].0@ == key {
        Some(v[0].1@)
    } else {
        kept(v.drop_first(), key)
    }
}

/// What the first secret of a name in a namespace holds under a key.
pub open spec fn secret_at(v: Seq<SecretObject>, ns: Seq<char>, name: Seq<char>, key: Seq<char>) -> Option<
    Seq<u8>,
>
    decreases v.len(),
{
    if v.len() == 0 {
        None
    } else if text::opt(v[0].namespace) == Some(ns) && v[0].name@ == name {
        match v[0].data {
            Some(d) => kept(d@, key),
            None => None,
        }
    } else {
        secret_at(v.drop_first(), ns, name, key)
    }
}

pub(crate) fn find_kept<'a>(v: &'a Vec<(String, Vec<u8>)>, key: &str) -> (r: Option<&'a Vec<u8>>)
    ensures
        match r {
            Some(b) => kept(v@, key@) == Some(b@),
            None => kept(v@, key@) is None,
        },
{
    let mut i: usize = 0;
    assert(v@.skip(0) =~= v@);
    while i < v.len()
        invariant
            i <= v.len(),
            kept(v@.skip(i as int), key@) == kept(v@, key@),
        decreases v.len() - i,
    {
        assert(v@.skip(i as int).drop_first() =~= v@.skip(i + 1));
        assert(v@.skip(i as int)[0] == v@[i as int]);
        if text::same(v[i].0.as_str(), key) {
            return Some(&v[i].1);
        }
        i += 1;
    }
    None
}

/// What a secret holds under a key.
pub fn secret<'a>(v: &'a Vec<SecretObject>, ns: &str, name: &str, key: &str) -> (r: Result<
    &'a Vec<u8>,
    DependencyError,
>)
    ensures
        match r {
            Ok(b) => secret_at(v@, ns@, name@, key@) == Some(b@),
            Err(e) => e == DependencyError::Secret && secret_at(v@, ns@, name@, key@) is None,
        },
{
    let mut i: usize = 0;
    assert(v@.skip(0) =~= v@);
    while i < v.len()
        invariant
            i <= v.len(),
            secret_at(v@.skip(i as int), ns@, name@, key@) == secret_at(v@, ns@, name@, key@),
        decreases v.len() - i,
    {
        assert(v@.skip(i as int).drop_first() =~= v@.skip(i + 1));
        assert(v@.skip(i as int)[0] == v@[i as int]);
        if is_named(&v[i].namespace, ns) && text::same(v[i].name.as_str(), name) {
            return match &v[i].data {
                Some(d) => match find_kept(d, key) {
                    Some(b) => Ok(b),
                    None => Err(DependencyError::Secret),
                },
                None => Err(DependencyError::Secret),
            };
        }
        i += 1;
    }
    Err(DependencyError::Secret)
}

/// The text that a secret holds under a key.
pub open spec fn secret_text_at(v: Seq<SecretObject>, ns: Seq<char>, name: Seq<char>, key: Seq<char>) -> Result<
    Seq<char>,
    DependencyError,
> {
    match secret_at(v, ns, name, key) {
        None => Err(DependencyError::Secret),
        Some(b) => if valid_utf8(b) {
            Ok(decode_utf8(b))
        } else {
            Err(DependencyError::Encoding)
        },
    }
}

pub open spec fn texted(r: Result<String, DependencyError>) -> Result<Seq<char>, DependencyError> {
    match r {
        Ok(s) => Ok(s@),
        Err(e) => Err(e),
    }
}

fn secret_text(v: &Vec<SecretObject>, ns: &str, name: &str, key: &str) -> (r: Result<
    String,
    DependencyError,
>)
    ensures
        texted(r) == secret_text_at(v@, ns@, name@, key@),
{
    match secret(v, ns, name, key) {
        Err(e) => Err(e),
        Ok(b) => match text::decode(b) {
            Some(s) => Ok(s),
            None => Err(DependencyError::Encoding),
        },
    }
}

/// The authority that an annotation names, where there is such an annotation.
pub open spec fn authority_of(
    values: Seq<(Seq<char>, Seq<char>)>,
    v: Seq<SecretObject>,
    ns: Seq<char>,
    annotation: Seq<char>,
) -> Option<Result<Seq<char>, DependencyError>> {
    match text::lookup(values, annotation) {
        None => None,
        Some(name) => Some(secret_text_at(v, ns, name, "ca.crt"@)),
    }
}

fn authority(
    values: &Vec<(String, String)>,
    v: &Vec<SecretObject>,
    ns: &str,
    annotation: &str,
) -> (r: Option<Result<String, DependencyError>>)
    ensures
        match r {
            None => authority_of(text::pairs(values@), v@, ns@, annotation@) is None,
            Some(x) => authority_of(text::pairs(values@), v@, ns@, annotation@) == Some(texted(x)),
        },
{
    match text::find(values, annotation) {
        None => None,
        Some(name) => Some(secret_text(v, ns, name, "ca.crt")),
    }
}

/// The authorities that vouch for backends.
pub fn upstream_authority(values: &Vec<(String, String)>, v: &Vec<SecretObject>, ns: &str) -> (r: Option<
    Result<String, DependencyError>,
>)
    ensures
        match r {
            None => authority_of(
                text::pairs(values@),
                v@,
                ns@,
                "rgnix.io/upstream-ca-secret"@,
            ) is None,
            Some(x) => authority_of(
                text::pairs(values@),
                v@,
                ns@,
                "rgnix.io/upstream-ca-secret"@,
            ) == Some(texted(x)),
        },
{
    authority(values, v, ns, "rgnix.io/upstream-ca-secret")
}

/// The authorities that vouch for clients.
pub fn client_authority(values: &Vec<(String, String)>, v: &Vec<SecretObject>, ns: &str) -> (r: Option<
    Result<String, DependencyError>,
>)
    ensures
        match r {
            None => authority_of(
                text::pairs(values@),
                v@,
                ns@,
                "rgnix.io/client-ca-secret"@,
            ) is None,
            Some(x) => authority_of(text::pairs(values@), v@, ns@, "rgnix.io/client-ca-secret"@)
                == Some(texted(x)),
        },
{
    authority(values, v, ns, "rgnix.io/client-ca-secret")
}

/// The certificate and the key that backends are shown.
pub open spec fn identity_of(
    values: Seq<(Seq<char>, Seq<char>)>,
    v: Seq<SecretObject>,
    ns: Seq<char>,
) -> Option<Result<(Seq<char>, Seq<char>), DependencyError>> {
    match text::lookup(values, "rgnix.io/upstream-client-secret"@) {
        None => None,
        Some(name) => Some(
            match secret_text_at(v, ns, name, "tls.crt"@) {
                Err(e) => Err(e),
                Ok(a) => match secret_text_at(v, ns, name, "tls.key"@) {
                    Err(e) => Err(e),
                    Ok(b) => Ok((a, b)),
                },
            },
        ),
    }
}

/// The certificate and the key that backends are shown.
pub fn upstream_identity(values: &Vec<(String, String)>, v: &Vec<SecretObject>, ns: &str) -> (r: Option<
    Result<(String, String), DependencyError>,
>)
    ensures
        match identity_of(text::pairs(values@), v@, ns@) {
            None => r is None,
            Some(Ok(p)) => r is Some && r->0 is Ok && (r->0->Ok_0.0@, r->0->Ok_0.1@) == p,
            Some(Err(e)) => r is Some && r->0 is Err && r->0->Err_0 == e,
        },
{
    match text::find(values, "rgnix.io/upstream-client-secret") {
        None => None,
        Some(name) => match secret_text(v, ns, name, "tls.crt") {
            Err(e) => Some(Err(e)),
            Ok(a) => match secret_text(v, ns, name, "tls.key") {
                Err(e) => Some(Err(e)),
                Ok(b) => Some(Ok((a, b))),
            },
        },
    }
}

/// Where the keys of tokens come from, and what tokens have to say.
#[derive(Debug)]
pub struct TokenRules {
    pub source: String,
    pub issuer: String,
    pub audience: String,
    pub algorithm: String,
    pub keys: Vec<u8>,
}

/// What a `TokenRules` holds.
#[verifier::ext_equal]
pub ghost struct Tokens {
    pub source: Seq<char>,
    pub issuer: Seq<char>,
    pub audience: Seq<char>,
    pub algorithm: Seq<char>,
    pub keys: Seq<u8>,
}

impl View for TokenRules {
    type V = Tokens;

    open spec fn view(&self) -> Tokens {
        Tokens {
            source: self.source@,
            issuer: self.issuer@,
            audience: self.audience@,
            algorithm: self.algorithm@,
            keys: self.keys@,
        }
    }
}

pub open spec fn tokens_of(
    values: Seq<(Seq<char>, Seq<char>)>,
    v: Seq<SecretObject>,
    ns: Seq<char>,
) -> Option<Result<Tokens, DependencyError>> {
    match text::lookup(values, "rgnix.io/jwt-secret"@) {
        None => None,
        Some(name) => Some(
            match secret_at(v, ns, name, "jwks.json"@) {
                None => Err(DependencyError::Secret),
                Some(keys) => match (
                    text::lookup(values, "rgnix.io/jwt-issuer"@),
                    text::lookup(values, "rgnix.io/jwt-audience"@),
                ) {
                    (None, _) => Err(DependencyError::Issuer),
                    (_, None) => Err(DependencyError::Audience),
                    (Some(issuer), Some(audience)) => Ok(
                        Tokens {
                            source: "secret:"@ + ns + "/"@ + name,
                            issuer,
                            audience,
                            algorithm: match text::lookup(values, "rgnix.io/jwt-algorithm"@) {
                                Some(a) => a,
                                None => "RS256"@,
                            },
                            keys,
                        },
                    ),
                },
            },
        ),
    }
}

fn copy_bytes(v: &Vec<u8>) -> (out: Vec<u8>)
    ensures
        out@ == v@,
{
    let mut out: Vec<u8> = Vec::new();
    let mut i: usize = 0;
    while i < v.len()
        invariant
            i <= v.len(),
            out@ =~= v@.take(i as int),
        decreases v.len() - i,
    {
        out.push(v[i]);
        i += 1;
    }
    assert(v@.take(i as int) =~= v@);
    out
}

/// Where the keys of tokens come from, and what tokens have to say.
pub fn token_rules(values: &Vec<(String, String)>, v: &Vec<SecretObject>, ns: &str) -> (r: Option<
    Result<TokenRules, DependencyError>,
>)
    ensures
        match tokens_of(text::pairs(values@), v@, ns@) {
            None => r is None,
            Some(Ok(t)) => r is Some && r->0 is Ok && r->0->Ok_0@ == t,
            Some(Err(e)) => r is Some && r->0 is Err && r->0->Err_0 == e,
        },
{
    let name = match text::find(values, "rgnix.io/jwt-secret") {
        None => return None,
        Some(name) => name,
    };
    let keys = match secret(v, ns, name, "jwks.json") {
        Err(e) => return Some(Err(e)),
        Ok(b) => b,
    };
    let issuer = match text::find(values, "rgnix.io/jwt-issuer") {
        None => return Some(Err(DependencyError::Issuer)),
        Some(s) => s,
    };
    let audience = match text::find(values, "rgnix.io/jwt-audience") {
        None => return Some(Err(DependencyError::Audience)),
        Some(s) => s,
    };
    let algorithm = match text::find(values, "rgnix.io/jwt-algorithm") {
        Some(s) => s,
        None => "RS256",
    };
    let head = text::concat3("secret:", ns, "/");
    Some(
        Ok(
            TokenRules {
                source: text::concat(head.as_str(), name),
                issuer: issuer.to_owned(),
                audience: audience.to_owned(),
                algorithm: algorithm.to_owned(),
                keys: copy_bytes(keys),
            },
        ),
    )
}

// ---------------------------------------------------------------------------
// The service that decides on requests
// ---------------------------------------------------------------------------

/// The service that decides on requests: where it is reached and at which path, how long it may take in
/// milliseconds, and which fields of its answers are passed on.
#[derive(Debug)]
pub struct Decider {
    pub endpoints: Vec<Socket>,
    pub path: String,
    pub timeout: u64,
    pub response_headers: Vec<String>,
}

/// What a `Decider` holds.
#[verifier::ext_equal]
pub ghost struct Judge {
    pub endpoints: Seq<Socket>,
    pub path: Seq<char>,
    pub timeout: u64,
    pub response_headers: Seq<Seq<char>>,
}

impl View for Decider {
    type V = Judge;

    open spec fn view(&self) -> Judge {
        Judge {
            endpoints: self.endpoints@,
            path: self.path@,
            timeout: self.timeout,
            response_headers: text::texts(self.response_headers@),
        }
    }
}

/// A port as a rule of an Ingress names it.
pub open spec fn port_name(p: PortView) -> PortName {
    match p {
        PortView::Number(n) => PortName { name: None, number: Some(n as i32) },
        PortView::Name(s) => PortName { name: Some(s), number: None },
    }
}

/// The service of a reference as a rule of an Ingress names it.
pub open spec fn target_of(s: Service) -> Target {
    Target { name: s.name, port: Some(port_name(s.port)) }
}

/// Names in lower case, one after each comma.
pub open spec fn lower_names(v: Seq<Seq<char>>) -> Seq<Seq<char>> {
    Seq::new(v.len(), |i: int| text::lowercase(text::trim_spec(v[i])))
}

pub open spec fn timeout_of(value: Option<Seq<char>>) -> Result<u64, DependencyError> {
    match value {
        None => Ok(3000),
        Some(s) => match duration_of(s) {
            Ok(n) => Ok(n),
            Err(_) => Err(DependencyError::AuthTimeout),
        },
    }
}

pub open spec fn judge_of(
    values: Seq<(Seq<char>, Seq<char>)>,
    services: Seq<ServiceObject>,
    slices: Seq<SliceObject>,
    ns: Seq<char>,
) -> Option<Result<Judge, DependencyError>> {
    match text::lookup(values, "rgnix.io/auth-service"@) {
        None => None,
        Some(value) => Some(
            match service_of(value) {
                None => Err(DependencyError::AuthService),
                Some(s) => match endpoints_of(services, slices, ns, target_of(s)) {
                    Err(_) => Err(DependencyError::AuthUnavailable),
                    Ok(v) => if v.len() == 0 {
                        Err(DependencyError::AuthEmpty)
                    } else {
                        match timeout_of(text::lookup(values, "rgnix.io/auth-timeout"@)) {
                            Err(e) => Err(e),
                            Ok(timeout) => Ok(
                                Judge {
                                    endpoints: v,
                                    path: s.path,
                                    timeout,
                                    response_headers: match text::lookup(
                                        values,
                                        "rgnix.io/auth-response-headers"@,
                                    ) {
                                        Some(s) => lower_names(text::split_spec(s, ',')),
                                        None => Seq::empty(),
                                    },
                                },
                            ),
                        }
                    },
                },
            },
        ),
    }
}

fn lower_list(value: &str) -> (out: Vec<String>)
    ensures
        text::texts(out@) == lower_names(text::split_spec(value@, ',')),
{
    let v = text::split(value, ',');
    let ghost goal = lower_names(text::split_spec(value@, ','));
    let mut out: Vec<String> = Vec::new();
    let mut i: usize = 0;
    while i < v.len()
        invariant
            i <= v.len(),
            text::texts(v@) == text::split_spec(value@, ','),
            goal == lower_names(text::split_spec(value@, ',')),
            text::texts(out@) =~= goal.take(i as int),
        decreases v.len() - i,
    {
        let ghost before = text::texts(out@);
        assert(text::texts(v@)[i as int] == v@[i as int]@);
        let s = text::to_lowercase(text::trim(v[i].as_str()));
        let ghost x = s@;
        out.push(s);
        assert(text::texts(out@) =~= before.push(x));
        i += 1;
    }
    assert(text::texts(v@).len() == v@.len());
    out
}

/// The service that decides on requests, where annotations name one.
pub fn decider(
    values: &Vec<(String, String)>,
    services: &Vec<ServiceObject>,
    slices: &Vec<SliceObject>,
    ns: &str,
) -> (r: Option<Result<Decider, DependencyError>>)
    ensures
        match judge_of(text::pairs(values@), services@, slices@, ns@) {
            None => r is None,
            Some(Ok(j)) => r is Some && r->0 is Ok && r->0->Ok_0@ == j,
            Some(Err(e)) => r is Some && r->0 is Err && r->0->Err_0 == e,
        },
{
    let value = match text::find(values, "rgnix.io/auth-service") {
        None => return None,
        Some(v) => v,
    };
    let s = match auth_service(value) {
        None => return Some(Err(DependencyError::AuthService)),
        Some(s) => s,
    };
    let ghost named = s@;
    let port = match s.port {
        Port::Number(n) => PortRef { name: None, number: Some(n as i32) },
        Port::Name(p) => PortRef { name: Some(p), number: None },
    };
    let reference = ServiceBackend { name: s.name, port: Some(port) };
    assert(reference@ =~= target_of(named));
    let endpoints = match resolve_backend(services, slices, ns, &reference) {
        Err(_) => return Some(Err(DependencyError::AuthUnavailable)),
        Ok(v) => v,
    };
    if endpoints.len() == 0 {
        return Some(Err(DependencyError::AuthEmpty));
    }
    let timeout: u64 = match text::find(values, "rgnix.io/auth-timeout") {
        None => 3000,
        Some(t) => match duration(t) {
            Ok(n) => n,
            Err(_) => return Some(Err(DependencyError::AuthTimeout)),
        },
    };
    let response_headers = match text::find(values, "rgnix.io/auth-response-headers") {
        Some(h) => lower_list(h),
        None => {
            let empty: Vec<String> = Vec::new();
            assert(text::texts(empty@) =~= Seq::empty());
            empty
        },
    };
    Some(Ok(Decider { endpoints, path: s.path, timeout, response_headers }))
}

// ---------------------------------------------------------------------------
// Laws
// ---------------------------------------------------------------------------

/// What a rollout notes about itself does not change how requests are treated.
pub proof fn law_progress_treats_nothing(v: Seq<(Seq<char>, Seq<char>)>, i: int)
    requires
        0 <= i < treating(v).len(),
    ensures
        treating(v)[i].0 != "rgnix.io/rollout-state"@,
        treating(v)[i].0 != "rgnix.io/rolled-back-revision"@,
        treating(v)[i].0 != "rgnix.io/script"@,
    decreases v.len(),
{
    let w = treating(v.drop_last());
    if i < w.len() {
        law_progress_treats_nothing(v.drop_last(), i);
        assert(treating(v)[i] == w[i]);
    }
}

/// Requests are never let through for want of the service that decides on them: where one is named, there
/// is one that can be reached, or an error.
pub proof fn law_deciders_can_be_reached(
    values: Seq<(Seq<char>, Seq<char>)>,
    services: Seq<ServiceObject>,
    slices: Seq<SliceObject>,
    ns: Seq<char>,
)
    requires
        text::lookup(values, "rgnix.io/auth-service"@) is Some,
    ensures
        judge_of(values, services, slices, ns) is Some,
        judge_of(values, services, slices, ns)->0 is Ok ==> judge_of(
            values,
            services,
            slices,
            ns,
        )->0->Ok_0.endpoints.len() > 0,
{
}

// ---------------------------------------------------------------------------
// Certificates
// ---------------------------------------------------------------------------

#[derive(Clone, Copy, Debug, PartialEq, Eq, Structural)]
pub enum TlsError {
    /// There is no such secret, or a part of it is missing.
    Missing,
    Certificate(CertificateError),
}

pub open spec fn all_covered(c: Credential, hosts: Seq<Seq<char>>) -> bool {
    forall|i: int| 0 <= i < hosts.len() ==> covers(c, #[trigger] hosts[i])
}

/// The certificate of a secret, for all hosts that are claimed with it.
pub open spec fn tls_of(
    v: Seq<SecretObject>,
    ns: Seq<char>,
    name: Option<Seq<char>>,
    hosts: Seq<Seq<char>>,
    now: i64,
) -> Result<Credential, TlsError> {
    match name {
        None => Err(TlsError::Missing),
        Some(n) => match (secret_at(v, ns, n, "tls.crt"@), secret_at(v, ns, n, "tls.key"@)) {
            (Some(pem), Some(key)) => match parsed(pem, key, now) {
                Err(e) => Err(TlsError::Certificate(e)),
                Ok(c) => if all_covered(c, hosts) {
                    Ok(c)
                } else {
                    Err(TlsError::Certificate(CertificateError::Name))
                },
            },
            _ => Err(TlsError::Missing),
        },
    }
}

/// The certificate of a secret, for all hosts that are claimed with it.
pub fn tls_certificate(
    v: &Vec<SecretObject>,
    ns: &str,
    name: &Option<String>,
    hosts: &Vec<String>,
    now: i64,
) -> (r: Result<Certificate, TlsError>)
    ensures
        match r {
            Ok(c) => tls_of(v@, ns@, text::opt(*name), text::texts(hosts@), now) == Ok::<
                Credential,
                TlsError,
            >(c@),
            Err(e) => tls_of(v@, ns@, text::opt(*name), text::texts(hosts@), now) == Err::<
                Credential,
                TlsError,
            >(e),
        },
{
    let n = match name {
        None => return Err(TlsError::Missing),
        Some(n) => n.as_str(),
    };
    let pem = match secret(v, ns, n, "tls.crt") {
        Err(_) => return Err(TlsError::Missing),
        Ok(b) => b,
    };
    let key = match secret(v, ns, n, "tls.key") {
        Err(_) => return Err(TlsError::Missing),
        Ok(b) => b,
    };
    let c = match Certificate::parse(pem, key, now) {
        Err(e) => return Err(TlsError::Certificate(e)),
        Ok(c) => c,
    };
    let ghost all = text::texts(hosts@);
    let mut i: usize = 0;
    while i < hosts.len()
        invariant
            i <= hosts.len(),
            all == text::texts(hosts@),
            tls_of(v@, ns@, text::opt(*name), all, now) == if all_covered(c@, all) {
                Ok::<Credential, TlsError>(c@)
            } else {
                Err(TlsError::Certificate(CertificateError::Name))
            },
            forall|j: int| 0 <= j < i ==> covers(c@, #[trigger] all[j]),
        decreases hosts.len() - i,
    {
        assert(all[i as int] == hosts@[i as int]@);
        if let Err(e) = c.validate_name(hosts[i].as_str()) {
            assert(!all_covered(c@, all));
            return Err(TlsError::Certificate(e));
        }
        i += 1;
    }
    assert(all_covered(c@, all));
    Ok(c)
}

/// A certificate that is served covers each host that it is served for.
pub proof fn law_served_certificates_cover_their_hosts(
    v: Seq<SecretObject>,
    ns: Seq<char>,
    name: Option<Seq<char>>,
    hosts: Seq<Seq<char>>,
    now: i64,
    i: int,
)
    requires
        0 <= i < hosts.len(),
    ensures
        tls_of(v, ns, name, hosts, now) is Ok ==> covers(
            tls_of(v, ns, name, hosts, now)->Ok_0,
            hosts[i],
        ),
{
}

/// Annotations of this controller count, in their order; those of others do not.
pub proof fn law_own_annotations_count(v: Seq<(Seq<char>, Seq<char>)>, key: Seq<char>, value: Seq<char>)
    ensures
        !text::starts(key, "rgnix.io/"@) ==> treating(v.push((key, value))) == treating(v),
        text::starts(key, "rgnix.io/"@) && key != "rgnix.io/script"@ && key != "rgnix.io/rolled-back-revision"@
            && key != "rgnix.io/rollout-state"@ ==> treating(v.push((key, value))) == treating(v).push(
            (key, value),
        ),
{
    assert(v.push((key, value)).drop_last() =~= v);
}

/// The secrets that annotations name are looked for in the namespace.
pub proof fn law_named_secrets_are_looked_for(
    values: Seq<(Seq<char>, Seq<char>)>,
    ns: Seq<char>,
    name: Seq<char>,
)
    ensures
        text::lookup(values, "rgnix.io/upstream-ca-secret"@) == Some(name) ==> named_secrets(values, ns).contains(
            (ns, name),
        ),
        text::lookup(values, "rgnix.io/upstream-client-secret"@) == Some(name) ==> named_secrets(
            values,
            ns,
        ).contains((ns, name)),
        text::lookup(values, "rgnix.io/client-ca-secret"@) == Some(name) ==> named_secrets(values, ns).contains(
            (ns, name),
        ),
        text::lookup(values, "rgnix.io/jwt-secret"@) == Some(name) ==> named_secrets(values, ns).contains(
            (ns, name),
        ),
{
    let a = named_secret(values, ns, "rgnix.io/upstream-ca-secret"@);
    let b = named_secret(values, ns, "rgnix.io/upstream-client-secret"@);
    let c = named_secret(values, ns, "rgnix.io/client-ca-secret"@);
    let d = named_secret(values, ns, "rgnix.io/jwt-secret"@);
    let s = a + b + c + d;
    if a.len() > 0 {
        assert(s[0] == a[0]);
    }
    if b.len() > 0 {
        assert(s[a.len() as int] == b[0]);
    }
    if c.len() > 0 {
        assert(s[(a.len() + b.len()) as int] == c[0]);
    }
    if d.len() > 0 {
        assert(s[(a.len() + b.len() + c.len()) as int] == d[0]);
    }
}

/// A secret is that of the name in the namespace, and its part that of the key.
pub proof fn law_secrets_are_of_their_namespace(
    s: SecretObject,
    v: Seq<SecretObject>,
    d: Vec<(String, Vec<u8>)>,
    ns: Seq<char>,
    name: Seq<char>,
    key: Seq<char>,
)
    ensures
        text::opt(s.namespace) == Some(ns) && s.name@ == name && s.data == Some(d) ==> secret_at(
            seq![s] + v,
            ns,
            name,
            key,
        ) == kept(d@, key),
        text::opt(s.namespace) == Some(ns) && s.name@ == name && s.data is None ==> secret_at(
            seq![s] + v,
            ns,
            name,
            key,
        ) is None,
        text::opt(s.namespace) != Some(ns) || s.name@ != name ==> secret_at(seq![s] + v, ns, name, key)
            == secret_at(v, ns, name, key),
        secret_at(Seq::empty(), ns, name, key) is None,
{
    assert((seq![s] + v).drop_first() =~= v);
}

/// The authorities and the certificate are read from the parts of the secrets that are named for them.
pub proof fn law_secrets_hold_their_parts(
    values: Seq<(Seq<char>, Seq<char>)>,
    v: Seq<SecretObject>,
    ns: Seq<char>,
    annotation: Seq<char>,
    name: Seq<char>,
    a: Seq<char>,
    b: Seq<char>,
)
    ensures
        text::lookup(values, annotation) is None ==> authority_of(values, v, ns, annotation) is None,
        text::lookup(values, annotation) == Some(name) && secret_text_at(v, ns, name, "ca.crt"@) == Ok::<
            Seq<char>,
            DependencyError,
        >(a) ==> authority_of(values, v, ns, annotation) == Some(Ok::<Seq<char>, DependencyError>(a)),
        text::lookup(values, "rgnix.io/upstream-client-secret"@) == Some(name) && secret_text_at(
            v,
            ns,
            name,
            "tls.crt"@,
        ) == Ok::<Seq<char>, DependencyError>(a) && secret_text_at(v, ns, name, "tls.key"@) == Ok::<
            Seq<char>,
            DependencyError,
        >(b) ==> identity_of(values, v, ns) == Some(
            Ok::<(Seq<char>, Seq<char>), DependencyError>((a, b)),
        ),
        secret_at(v, ns, name, "ca.crt"@) is None && text::lookup(values, annotation) == Some(name)
            ==> authority_of(values, v, ns, annotation) == Some(
            Err::<Seq<char>, DependencyError>(DependencyError::Secret),
        ),
{
}

/// A rule on tokens has its keys from the secret, its issuer and its audience, and the usual algorithm where it
/// names none; without any of the first three it is refused.
pub proof fn law_token_rules_are_whole(
    values: Seq<(Seq<char>, Seq<char>)>,
    v: Seq<SecretObject>,
    ns: Seq<char>,
    name: Seq<char>,
    keys: Seq<u8>,
    issuer: Seq<char>,
    audience: Seq<char>,
    algorithm: Seq<char>,
)
    requires
        text::lookup(values, "rgnix.io/jwt-secret"@) == Some(name),
    ensures
        secret_at(v, ns, name, "jwks.json"@) is None ==> tokens_of(values, v, ns) == Some(
            Err::<Tokens, DependencyError>(DependencyError::Secret),
        ),
        secret_at(v, ns, name, "jwks.json"@) == Some(keys) ==> {
            &&& text::lookup(values, "rgnix.io/jwt-issuer"@) is None ==> tokens_of(values, v, ns) == Some(
                Err::<Tokens, DependencyError>(DependencyError::Issuer),
            )
            &&& text::lookup(values, "rgnix.io/jwt-issuer"@) == Some(issuer) && text::lookup(
                values,
                "rgnix.io/jwt-audience"@,
            ) is None ==> tokens_of(values, v, ns) == Some(
                Err::<Tokens, DependencyError>(DependencyError::Audience),
            )
            &&& text::lookup(values, "rgnix.io/jwt-issuer"@) == Some(issuer) && text::lookup(
                values,
                "rgnix.io/jwt-audience"@,
            ) == Some(audience) ==> {
                let t = tokens_of(values, v, ns)->0->Ok_0;
                &&& tokens_of(values, v, ns) is Some && tokens_of(values, v, ns)->0 is Ok
                &&& t.issuer == issuer && t.audience == audience && t.keys == keys
                &&& t.source == "secret:"@ + ns + "/"@ + name
                &&& text::lookup(values, "rgnix.io/jwt-algorithm"@) is None ==> t.algorithm == "RS256"@
                &&& text::lookup(values, "rgnix.io/jwt-algorithm"@) == Some(algorithm) ==> t.algorithm
                    == algorithm
            }
        },
{
}

/// A service of authentication is asked at its endpoints and its path, for the time given, three seconds where
/// none is, and the fields that it may set are those that are named.
pub proof fn law_deciders_are_asked_as_annotated(
    values: Seq<(Seq<char>, Seq<char>)>,
    services: Seq<ServiceObject>,
    slices: Seq<SliceObject>,
    ns: Seq<char>,
    value: Seq<char>,
    s: Service,
    v: Seq<Socket>,
    t: Seq<char>,
    ms: u64,
)
    requires
        text::lookup(values, "rgnix.io/auth-service"@) == Some(value),
        service_of(value) == Some(s),
        endpoints_of(services, slices, ns, target_of(s)) == Ok::<Seq<Socket>, crate::ingress::backends::BackendProblem>(v),
    ensures
        v.len() == 0 ==> judge_of(values, services, slices, ns) == Some(
            Err::<Judge, DependencyError>(DependencyError::AuthEmpty),
        ),
        v.len() > 0 && text::lookup(values, "rgnix.io/auth-timeout"@) is None ==> {
            let j = judge_of(values, services, slices, ns)->0->Ok_0;
            &&& judge_of(values, services, slices, ns) is Some && judge_of(values, services, slices, ns)->0 is Ok
            &&& j.endpoints == v && j.path == s.path && j.timeout == 3000
            &&& text::lookup(values, "rgnix.io/auth-response-headers"@) is None ==> j.response_headers.len() == 0
            &&& text::lookup(values, "rgnix.io/auth-response-headers"@) == Some(t) && !t.contains(',')
                ==> j.response_headers == seq![text::lowercase(text::trim_spec(t))]
        },
        v.len() > 0 && text::lookup(values, "rgnix.io/auth-timeout"@) == Some(t) && duration_of(t) == Ok::<
            u64,
            crate::config::value::ValueError,
        >(ms) ==> judge_of(values, services, slices, ns)->0->Ok_0.timeout == ms,
{
    if !t.contains(',') {
        text::lemma_split_first(t, ',', Seq::empty());
        assert(lower_names(seq![t]) =~= seq![text::lowercase(text::trim_spec(t))]);
    }
}

/// The port of a service is asked for by its number or its name.
pub proof fn law_services_are_asked_by_their_port(name: Seq<char>, path: Seq<char>, n: u16, s: Seq<char>)
    ensures
        target_of(Service { name, port: PortView::Number(n), path }) == (Target {
            name,
            port: Some(PortName { name: None, number: Some(n as i32) }),
        }),
        target_of(Service { name, port: PortView::Name(s), path }) == (Target {
            name,
            port: Some(PortName { name: Some(s), number: None }),
        }),
{
}

/// The Service that decides on requests is needed, where the annotation names one.
pub proof fn law_deciders_are_needed(values: Seq<(Seq<char>, Seq<char>)>, ns: Seq<char>, value: Seq<char>)
    requires
        text::lookup(values, "rgnix.io/auth-service"@) == Some(value),
    ensures
        service_of(value) is Some ==> named_auth(values, ns) == seq![(ns, service_of(value)->0.name)],
        service_of(value) is None ==> named_auth(values, ns).len() == 0,
{
}

/// The Services that traffic is split to are needed.
pub proof fn law_split_traffic_needs_services(v: Seq<Seq<char>>, ns: Seq<char>, i: int)
    requires
        0 <= i < v.len(),
        service_of(v[i] + "/"@) is Some,
    ensures
        rollout_services(v, ns).contains((ns, service_of(v[i] + "/"@)->0.name)),
    decreases v.len(),
{
    let key = (ns, service_of(v[i] + "/"@)->0.name);
    let w = rollout_services(v, ns);
    let u = v.drop_last();
    let b = rollout_services(u, ns);
    if i == v.len() - 1 {
        assert(w[w.len() - 1] == key);
    } else {
        assert(u[i] == v[i]);
        law_split_traffic_needs_services(u, ns, i);
        let k = choose|k: int| 0 <= k < b.len() && b[k] == key;
        assert(w[k] == key);
    }
}

} // verus!
