//! Policies on how backends are reached with TLS.
use crate::backend::{trusted, Setup};
use crate::gateway::references::{Object, Resources};
use crate::gateway::routes::{hostname_valid, valid_hostname};
use crate::gateway::spec::Reference;
use crate::ingress::resources::{or_empty, text_or_empty};
use crate::ingress::routes::{by_age, indexes, oldest_first, Age};
use crate::ingress::spec::same_opt;
use crate::json::Json;
use crate::model::copy_opt;
use crate::text;
use vstd::prelude::*;
use vstd::utf8::{decode_utf8, valid_utf8};

verus! {

/// The most bytes of authorities.
pub const MAX_AUTHORITY: usize = 1048576;

/// The most references to authorities.
pub const MAX_REFERENCES: usize = 8;

/// What a policy asks for.
#[derive(Debug)]
pub struct TlsPolicySpec {
    pub target_refs: Vec<Reference>,
    pub hostname: String,
    pub ca_certificate_refs: Vec<Reference>,
    pub well_known_ca_certificates: Option<String>,
    pub options: Vec<(String, String)>,
}

#[derive(Clone, Copy, Debug, PartialEq, Eq, Structural)]
pub enum TlsPolicyError {
    /// The policy cannot be read.
    Unsupported,
    Targets,
    Target,
    Hostname,
    NoAuthority,
    Authorities,
    AuthorityReference,
    AuthorityMissing,
    AuthorityData,
    AuthorityEncoding,
    AuthorityKind,
    AuthoritySize,
    AuthorityInvalid,
}

impl TlsPolicyError {
    /// Whether an authority is what is wrong.
    pub open spec fn of_authority(self) -> bool {
        match self {
            TlsPolicyError::NoAuthority => true,
            TlsPolicyError::Authorities => true,
            TlsPolicyError::AuthorityReference => true,
            TlsPolicyError::AuthorityMissing => true,
            TlsPolicyError::AuthorityData => true,
            TlsPolicyError::AuthorityKind => true,
            TlsPolicyError::AuthoritySize => true,
            TlsPolicyError::AuthorityInvalid => true,
            _ => false,
        }
    }

    pub fn is_of_authority(&self) -> (r: bool)
        ensures
            r == self.of_authority(),
    {
        match self {
            TlsPolicyError::NoAuthority => true,
            TlsPolicyError::Authorities => true,
            TlsPolicyError::AuthorityReference => true,
            TlsPolicyError::AuthorityMissing => true,
            TlsPolicyError::AuthorityData => true,
            TlsPolicyError::AuthorityKind => true,
            TlsPolicyError::AuthoritySize => true,
            TlsPolicyError::AuthorityInvalid => true,
            _ => false,
        }
    }
}

/// A policy as it is carried out: the name of the backend, and the authorities that vouch for it, where
/// they are not those of the system.
#[derive(Debug)]
pub struct Trust {
    pub server_name: String,
    pub ca_pem: Option<String>,
}

/// What a `Trust` holds.
#[verifier::ext_equal]
pub ghost struct Belief {
    pub server_name: Seq<char>,
    pub ca_pem: Option<Seq<char>>,
}

impl View for Trust {
    type V = Belief;

    open spec fn view(&self) -> Belief {
        Belief { server_name: self.server_name@, ca_pem: text::opt(self.ca_pem) }
    }
}

impl Trust {
    /// The same again.
    pub fn copy(&self) -> (r: Trust)
        ensures
            r@ == self@,
    {
        Trust { server_name: self.server_name.clone(), ca_pem: copy_opt(&self.ca_pem) }
    }
}

/// What a secret holds of an authority, by its namespace and name.
#[derive(Debug)]
pub struct AuthoritySecret {
    pub namespace: Option<String>,
    pub name: String,
    /// Nothing where the secret holds no data, or none of an authority.
    pub certificate: Option<Vec<u8>>,
}

pub open spec fn empty_or(s: Option<Seq<char>>, fallback: Seq<char>) -> Seq<char> {
    match s {
        Some(s) => s,
        None => fallback,
    }
}

/// Whether a target is a service in the namespace of the policy.
pub open spec fn local_service(t: Reference) -> bool {
    &&& or_empty(text::opt(t.group)).len() == 0
    &&& text::opt(t.kind) == Some("Service"@)
    &&& t.namespace is None
    &&& t.port is None
}

/// Whether a reference is to an object in the namespace of the policy.
pub open spec fn local_object(t: Reference) -> bool {
    &&& or_empty(text::opt(t.group)).len() == 0
    &&& t.namespace is None
    &&& t.section_name is None
    &&& t.port is None
}

/// The place of a secret.
pub open spec fn secret_place(v: Seq<AuthoritySecret>, ns: Seq<char>, name: Seq<char>) -> Option<int>
    decreases v.len(),
{
    if v.len() == 0 {
        None
    } else if v[0].name@ == name && or_empty(text::opt(v[0].namespace)) == ns {
        Some(0)
    } else {
        match secret_place(v.drop_first(), ns, name) {
            Some(i) => Some(i + 1),
            None => None,
        }
    }
}

/// The text of an authority that a policy refers to.
pub open spec fn authority_of(
    r: Resources,
    secrets: Seq<AuthoritySecret>,
    ns: Seq<char>,
    t: Reference,
) -> Result<Seq<char>, TlsPolicyError> {
    let kind = empty_or(text::opt(t.kind), "ConfigMap"@);
    if !local_object(t) {
        Err(TlsPolicyError::AuthorityReference)
    } else if r.object(kind, ns, t.name@) is None {
        Err(TlsPolicyError::AuthorityMissing)
    } else if kind == "ConfigMap"@ {
        match r.object(kind, ns, t.name@)->0.data.at("data"@).at("ca.crt"@).string() {
            Some(s) => Ok(s),
            None => Err(TlsPolicyError::AuthorityData),
        }
    } else if kind == "Secret"@ {
        match secret_place(secrets, ns, t.name@) {
            None => Err(TlsPolicyError::AuthorityData),
            Some(i) => match secrets[i].certificate {
                None => Err(TlsPolicyError::AuthorityData),
                Some(b) => if valid_utf8(b@) {
                    Ok(decode_utf8(b@))
                } else {
                    Err(TlsPolicyError::AuthorityEncoding)
                },
            },
        }
    } else {
        Err(TlsPolicyError::AuthorityKind)
    }
}

/// The texts of authorities, each on lines of its own.
pub open spec fn authorities_of(
    r: Resources,
    secrets: Seq<AuthoritySecret>,
    ns: Seq<char>,
    v: Seq<Reference>,
) -> Result<Seq<char>, TlsPolicyError>
    decreases v.len(),
{
    if v.len() == 0 {
        Ok(Seq::empty())
    } else {
        match authorities_of(r, secrets, ns, v.drop_last()) {
            Err(e) => Err(e),
            Ok(s) => match authority_of(r, secrets, ns, v.last()) {
                Err(e) => Err(e),
                Ok(t) => if text::byte_len(s) + text::byte_len(t) >= MAX_AUTHORITY {
                    Err(TlsPolicyError::AuthoritySize)
                } else {
                    Ok(s + t + seq!['\n'])
                },
            },
        }
    }
}

/// How backends are reached under a policy.
pub open spec fn trust_of(
    r: Resources,
    secrets: Seq<AuthoritySecret>,
    ns: Seq<char>,
    spec: TlsPolicySpec,
) -> Result<Belief, TlsPolicyError> {
    if spec.target_refs@.len() != 1 || spec.options@.len() != 0 {
        Err(TlsPolicyError::Targets)
    } else if !local_service(spec.target_refs@[0]) {
        Err(TlsPolicyError::Target)
    } else if text::starts(spec.hostname@, "*"@) || !hostname_valid(spec.hostname@) {
        Err(TlsPolicyError::Hostname)
    } else if spec.ca_certificate_refs@.len() == 0 {
        if text::opt(spec.well_known_ca_certificates) != Some("System"@) {
            Err(TlsPolicyError::NoAuthority)
        } else {
            Ok(Belief { server_name: spec.hostname@, ca_pem: None })
        }
    } else if spec.well_known_ca_certificates is Some || spec.ca_certificate_refs@.len()
        > MAX_REFERENCES {
        Err(TlsPolicyError::Authorities)
    } else {
        match authorities_of(r, secrets, ns, spec.ca_certificate_refs@) {
            Err(e) => Err(e),
            Ok(s) => Ok(Belief { server_name: spec.hostname@, ca_pem: Some(s) }),
        }
    }
}

pub open spec fn belief(r: Result<Trust, TlsPolicyError>) -> Result<Belief, TlsPolicyError> {
    match r {
        Ok(t) => Ok(t@),
        Err(e) => Err(e),
    }
}

fn is_local_service(t: &Reference) -> (r: bool)
    ensures
        r == local_service(*t),
{
    let plain = text_or_empty(&t.group);
    let service = match &t.kind {
        Some(k) => text::same(k.as_str(), "Service"),
        None => false,
    };
    plain.as_str().is_empty() && service && t.namespace.is_none() && t.port.is_none()
}

fn find_secret(v: &Vec<AuthoritySecret>, ns: &str, name: &str) -> (r: Option<usize>)
    ensures
        match r {
            Some(i) => secret_place(v@, ns@, name@) == Some(i as int) && i < v@.len(),
            None => secret_place(v@, ns@, name@) is None,
        },
{
    let mut i: usize = 0;
    assert(v@.skip(0) =~= v@);
    while i < v.len()
        invariant
            i <= v.len(),
            secret_place(v@, ns@, name@) == match secret_place(v@.skip(i as int), ns@, name@) {
                Some(k) => Some(k + i),
                None => None,
            },
        decreases v.len() - i,
    {
        assert(v@.skip(i as int).drop_first() =~= v@.skip(i + 1));
        assert(v@.skip(i as int)[0] == v@[i as int]);
        if text::same(v[i].name.as_str(), name) && text::same(
            text_or_empty(&v[i].namespace).as_str(),
            ns,
        ) {
            return Some(i);
        }
        i += 1;
    }
    None
}

pub open spec fn texted(r: Result<String, TlsPolicyError>) -> Result<Seq<char>, TlsPolicyError> {
    match r {
        Ok(s) => Ok(s@),
        Err(e) => Err(e),
    }
}

fn authority(
    resources: &Resources,
    secrets: &Vec<AuthoritySecret>,
    ns: &str,
    t: &Reference,
) -> (r: Result<String, TlsPolicyError>)
    ensures
        texted(r) == authority_of(*resources, secrets@, ns@, *t),
{
    let plain = text_or_empty(&t.group);
    if !plain.as_str().is_empty() || t.namespace.is_some() || t.section_name.is_some()
        || t.port.is_some() {
        return Err(TlsPolicyError::AuthorityReference);
    }
    let kind: &str = match &t.kind {
        Some(k) => k.as_str(),
        None => "ConfigMap",
    };
    let object = match resources.find(kind, ns, t.name.as_str()) {
        None => return Err(TlsPolicyError::AuthorityMissing),
        Some(o) => o,
    };
    if text::same(kind, "ConfigMap") {
        return match object.data.field("data").get_str("ca.crt") {
            Some(s) => Ok(s.to_owned()),
            None => Err(TlsPolicyError::AuthorityData),
        };
    }
    if text::same(kind, "Secret") {
        return match find_secret(secrets, ns, t.name.as_str()) {
            None => Err(TlsPolicyError::AuthorityData),
            Some(i) => match &secrets[i].certificate {
                None => Err(TlsPolicyError::AuthorityData),
                Some(b) => match text::decode(b) {
                    Some(s) => Ok(s),
                    None => Err(TlsPolicyError::AuthorityEncoding),
                },
            },
        };
    }
    Err(TlsPolicyError::AuthorityKind)
}

proof fn lemma_authorities_error(
    r: Resources,
    secrets: Seq<AuthoritySecret>,
    ns: Seq<char>,
    v: Seq<Reference>,
    i: int,
)
    requires
        0 <= i <= v.len(),
        authorities_of(r, secrets, ns, v.take(i)) is Err,
    ensures
        authorities_of(r, secrets, ns, v) == authorities_of(r, secrets, ns, v.take(i)),
    decreases v.len(),
{
    if i < v.len() {
        assert(v.drop_last().take(i) =~= v.take(i));
        lemma_authorities_error(r, secrets, ns, v.drop_last(), i);
    } else {
        assert(v.take(i) =~= v);
    }
}

fn authorities(
    resources: &Resources,
    secrets: &Vec<AuthoritySecret>,
    ns: &str,
    v: &Vec<Reference>,
) -> (r: Result<String, TlsPolicyError>)
    ensures
        texted(r) == authorities_of(*resources, secrets@, ns@, v@),
{
    let mut pem = String::new();
    let mut i: usize = 0;
    assert(pem@ =~= Seq::<char>::empty());
    while i < v.len()
        invariant
            i <= v.len(),
            authorities_of(*resources, secrets@, ns@, v@.take(i as int)) == Ok::<
                Seq<char>,
                TlsPolicyError,
            >(pem@),
        decreases v.len() - i,
    {
        proof {
            assert(v@.take(i + 1).drop_last() =~= v@.take(i as int));
            assert(v@.take(i + 1).last() == v@[i as int]);
        }
        match authority(resources, secrets, ns, &v[i]) {
            Err(e) => {
                proof {
                    lemma_authorities_error(*resources, secrets@, ns@, v@, i + 1);
                }
                return Err(e);
            },
            Ok(t) => {
                let a = text::len(pem.as_str());
                let b = text::len(t.as_str());
                if a >= MAX_AUTHORITY || b >= MAX_AUTHORITY - a {
                    proof {
                        lemma_authorities_error(*resources, secrets@, ns@, v@, i + 1);
                    }
                    return Err(TlsPolicyError::AuthoritySize);
                }
                let ghost before = pem@;
                pem = text::concat3(pem.as_str(), t.as_str(), "\n");
                proof {
                    reveal_strlit("\n");
                    assert("\n"@ =~= seq!['\n']);
                }
            },
        }
        i += 1;
    }
    assert(v@.take(i as int) =~= v@);
    Ok(pem)
}

/// How backends are reached under a policy.
pub fn transport(
    resources: &Resources,
    secrets: &Vec<AuthoritySecret>,
    ns: &str,
    spec: &TlsPolicySpec,
) -> (r: Result<Trust, TlsPolicyError>)
    ensures
        belief(r) == trust_of(*resources, secrets@, ns@, *spec),
{
    if spec.target_refs.len() != 1 || spec.options.len() != 0 {
        return Err(TlsPolicyError::Targets);
    }
    if !is_local_service(&spec.target_refs[0]) {
        return Err(TlsPolicyError::Target);
    }
    if text::starts_with(spec.hostname.as_str(), "*") || !valid_hostname(spec.hostname.as_str()) {
        return Err(TlsPolicyError::Hostname);
    }
    if spec.ca_certificate_refs.len() == 0 {
        let system = match &spec.well_known_ca_certificates {
            Some(s) => text::same(s.as_str(), "System"),
            None => false,
        };
        if !system {
            return Err(TlsPolicyError::NoAuthority);
        }
        return Ok(Trust { server_name: spec.hostname.clone(), ca_pem: None });
    }
    if spec.well_known_ca_certificates.is_some() || spec.ca_certificate_refs.len()
        > MAX_REFERENCES {
        return Err(TlsPolicyError::Authorities);
    }
    match authorities(resources, secrets, ns, &spec.ca_certificate_refs) {
        Err(e) => Err(e),
        Ok(s) => Ok(Trust { server_name: spec.hostname.clone(), ca_pem: Some(s) }),
    }
}

/// Whether the authorities of a policy can be used, which is known once they were read.
pub fn accept(t: Trust, readable: bool) -> (r: Result<Trust, TlsPolicyError>)
    ensures
        belief(r) == if t@.ca_pem is Some && !readable {
            Err(TlsPolicyError::AuthorityInvalid)
        } else {
            Ok::<Belief, TlsPolicyError>(t@)
        },
{
    if t.ca_pem.is_some() && !readable {
        Err(TlsPolicyError::AuthorityInvalid)
    } else {
        Ok(t)
    }
}

// ---------------------------------------------------------------------------
// Targets
// ---------------------------------------------------------------------------

/// What a policy is for: a service in a namespace, or one of its ports.
#[derive(Debug)]
pub struct Target {
    pub namespace: String,
    pub service: String,
    pub section: Option<String>,
}

/// What a `Target` holds.
#[verifier::ext_equal]
pub ghost struct Aim {
    pub namespace: Seq<char>,
    pub service: Seq<char>,
    pub section: Option<Seq<char>>,
}

impl View for Target {
    type V = Aim;

    open spec fn view(&self) -> Aim {
        Aim {
            namespace: self.namespace@,
            service: self.service@,
            section: text::opt(self.section),
        }
    }
}

/// A policy that is carried out: what it is for and how.
#[derive(Debug)]
pub struct Owned {
    pub target: Target,
    pub trust: Result<Trust, TlsPolicyError>,
}

#[verifier::ext_equal]
pub ghost struct Hold {
    pub target: Aim,
    pub trust: Result<Belief, TlsPolicyError>,
}

impl View for Owned {
    type V = Hold;

    open spec fn view(&self) -> Hold {
        Hold { target: self.target@, trust: belief(self.trust) }
    }
}

pub open spec fn holds(v: Seq<Owned>) -> Seq<Hold> {
    Seq::new(v.len(), |i: int| v[i]@)
}

/// How a target is reached: by the policy that came first.
pub open spec fn held(v: Seq<Hold>, t: Aim) -> Option<Result<Belief, TlsPolicyError>>
    decreases v.len(),
{
    if v.len() == 0 {
        None
    } else if v[0].target == t {
        Some(v[0].trust)
    } else {
        held(v.drop_first(), t)
    }
}

fn same_target(a: &Target, b: &Target) -> (r: bool)
    ensures
        r == (a@ == b@),
{
    text::same(a.namespace.as_str(), b.namespace.as_str()) && text::same(
        a.service.as_str(),
        b.service.as_str(),
    ) && same_opt(&a.section, &b.section)
}

fn find_held(v: &Vec<Owned>, t: &Target) -> (r: Option<usize>)
    ensures
        match r {
            Some(i) => i < v@.len() && held(holds(v@), t@) == Some(holds(v@)[i as int].trust),
            None => held(holds(v@), t@) is None,
        },
{
    let ghost all = holds(v@);
    let mut i: usize = 0;
    assert(all.skip(0) =~= all);
    while i < v.len()
        invariant
            i <= v.len(),
            all == holds(v@),
            held(all.skip(i as int), t@) == held(all, t@),
        decreases v.len() - i,
    {
        assert(all.skip(i as int).drop_first() =~= all.skip(i + 1));
        assert(all.skip(i as int)[0] == v@[i as int]@);
        if same_target(&v[i].target, t) {
            return Some(i);
        }
        i += 1;
    }
    None
}

/// Whether a port of a service has a name.
pub open spec fn port_named(ports: Json, name: Seq<char>) -> bool {
    ports.list() is Some && exists|i: int|
        0 <= i < ports.list()->0.len() && (#[trigger] ports.list()->0[i]).at("name"@).string()
            == Some(name)
}

fn is_port_named(ports: &Json, name: &str) -> (r: bool)
    ensures
        r == port_named(*ports, name@),
{
    let v = match ports.as_array() {
        None => return false,
        Some(v) => v,
    };
    let mut i: usize = 0;
    while i < v.len()
        invariant
            i <= v.len(),
            ports.list() == Some(v@),
            forall|j: int| 0 <= j < i ==> (#[trigger] v@[j]).at("name"@).string() != Some(name@),
        decreases v.len() - i,
    {
        if let Some(s) = v[i].get_str("name") {
            if text::same(s, name) {
                assert(ports.list()->0[i as int].at("name"@).string() == Some(name@));
                return true;
            }
        }
        i += 1;
    }
    assert(!port_named(*ports, name@));
    false
}

/// Whether a target of a policy is a service, by what is written.
pub open spec fn names_service(t: Json) -> bool {
    t.string_or("group"@, ""@) == ""@ && t.string_or("kind"@, ""@) == "Service"@
}

/// What a target of a policy in a namespace is.
pub open spec fn aim_of(t: Json, ns: Seq<char>) -> Aim {
    Aim { namespace: ns, service: t.string_or("name"@, ""@), section: t.at("sectionName"@).string() }
}

/// Whether a target is there.
pub open spec fn is_there(r: Resources, a: Aim) -> bool {
    match r.object("Service"@, a.namespace, a.service) {
        None => false,
        Some(o) => match a.section {
            None => true,
            Some(s) => port_named(o.data.at("spec"@).at("ports"@), s),
        },
    }
}

/// What became of the targets of a policy: which ones it owns, whether one was owned before, and whether
/// one is there.
#[verifier::ext_equal]
pub ghost struct Claims {
    pub owned: Seq<Hold>,
    pub conflicted: bool,
    pub found: bool,
}

/// What becomes of the first targets of a policy.
pub open spec fn claimed(
    r: Resources,
    before: Seq<Hold>,
    v: Seq<Json>,
    ns: Seq<char>,
    trust: Result<Belief, TlsPolicyError>,
) -> Claims
    decreases v.len(),
{
    if v.len() == 0 {
        Claims { owned: before, conflicted: false, found: false }
    } else {
        let c = claimed(r, before, v.drop_last(), ns, trust);
        if !names_service(v.last()) {
            c
        } else {
            let a = aim_of(v.last(), ns);
            let free = held(c.owned, a) is None;
            Claims {
                owned: if free {
                    c.owned.push(Hold { target: a, trust })
                } else {
                    c.owned
                },
                conflicted: c.conflicted || !free,
                found: c.found || is_there(r, a),
            }
        }
    }
}

fn copy_trust(t: &Result<Trust, TlsPolicyError>) -> (r: Result<Trust, TlsPolicyError>)
    ensures
        belief(r) == belief(*t),
{
    match t {
        Ok(t) => Ok(t.copy()),
        Err(e) => Err(*e),
    }
}

fn is_service_there(resources: &Resources, t: &Target) -> (r: bool)
    ensures
        r == is_there(*resources, t@),
{
    match resources.find("Service", t.namespace.as_str(), t.service.as_str()) {
        None => false,
        Some(o) => match &t.section {
            None => true,
            Some(s) => is_port_named(o.data.field("spec").field("ports"), s.as_str()),
        },
    }
}

/// Claims the targets of a policy; gives whether one was owned before, and whether one is there.
fn claim(
    resources: &Resources,
    owned: &mut Vec<Owned>,
    v: &Vec<Json>,
    ns: &str,
    trust: &Result<Trust, TlsPolicyError>,
) -> (r: (bool, bool))
    ensures
        (Claims { owned: holds(final(owned)@), conflicted: r.0, found: r.1 }) == claimed(
            *resources,
            holds(old(owned)@),
            v@,
            ns@,
            belief(*trust),
        ),
{
    let ghost before = holds(owned@);
    let mut conflicted = false;
    let mut found = false;
    let mut i: usize = 0;
    while i < v.len()
        invariant
            i <= v.len(),
            (Claims { owned: holds(owned@), conflicted, found }) == claimed(
                *resources,
                before,
                v@.take(i as int),
                ns@,
                belief(*trust),
            ),
        decreases v.len() - i,
    {
        proof {
            assert(v@.take(i + 1).drop_last() =~= v@.take(i as int));
            assert(v@.take(i + 1).last() == v@[i as int]);
        }
        let t = &v[i];
        if text::same(t.text("group", ""), "") && text::same(t.text("kind", ""), "Service") {
            let target = Target {
                namespace: ns.to_owned(),
                service: t.text("name", "").to_owned(),
                section: match t.get_str("sectionName") {
                    Some(s) => Some(s.to_owned()),
                    None => None,
                },
            };
            let ghost a = aim_of(*t, ns@);
            assert(target@ =~= a);
            if is_service_there(resources, &target) {
                found = true;
            }
            let ghost held_before = holds(owned@);
            if find_held(owned, &target).is_none() {
                let o = Owned { target, trust: copy_trust(trust) };
                let ghost x = o@;
                owned.push(o);
                assert(holds(owned@) =~= held_before.push(x));
            } else {
                conflicted = true;
            }
        }
        i += 1;
    }
    assert(v@.take(i as int) =~= v@);
    (conflicted, found)
}

// ---------------------------------------------------------------------------
// All policies
// ---------------------------------------------------------------------------

/// Why a policy is accepted or not.
#[derive(Clone, Copy, Debug, PartialEq, Eq, Structural)]
pub enum Reason {
    Conflicted,
    TargetNotFound,
    NoValidCACertificate,
    Accepted,
    Invalid,
}

impl Reason {
    pub open spec fn spec_text(self) -> Seq<char> {
        match self {
            Reason::Conflicted => "Conflicted"@,
            Reason::TargetNotFound => "TargetNotFound"@,
            Reason::NoValidCACertificate => "NoValidCACertificate"@,
            Reason::Accepted => "Accepted"@,
            Reason::Invalid => "Invalid"@,
        }
    }

    pub fn text(&self) -> (r: &'static str)
        ensures
            r@ == self.spec_text(),
    {
        match self {
            Reason::Conflicted => "Conflicted",
            Reason::TargetNotFound => "TargetNotFound",
            Reason::NoValidCACertificate => "NoValidCACertificate",
            Reason::Accepted => "Accepted",
            Reason::Invalid => "Invalid",
        }
    }
}

/// What is told of a policy.
#[derive(Clone, Copy, Debug, PartialEq, Eq, Structural)]
pub struct Verdict {
    /// The place of the policy.
    pub policy: usize,
    pub accepted: bool,
    pub reason: Reason,
    /// Whether an authority is what is wrong.
    pub authority: bool,
}

pub open spec fn verdict_of(
    policy: usize,
    trust: Result<Belief, TlsPolicyError>,
    conflicted: bool,
    found: bool,
) -> Verdict {
    let authority = trust is Err && trust->Err_0.of_authority();
    let accepted = trust is Ok && found && !conflicted;
    Verdict {
        policy,
        accepted,
        reason: if conflicted {
            Reason::Conflicted
        } else if !found {
            Reason::TargetNotFound
        } else if authority {
            Reason::NoValidCACertificate
        } else if accepted {
            Reason::Accepted
        } else {
            Reason::Invalid
        },
        authority,
    }
}

fn verdict(
    policy: usize,
    trust: &Result<Trust, TlsPolicyError>,
    conflicted: bool,
    found: bool,
) -> (r: Verdict)
    ensures
        r == verdict_of(policy, belief(*trust), conflicted, found),
{
    let authority = match trust {
        Ok(_) => false,
        Err(e) => e.is_of_authority(),
    };
    let accepted = trust.is_ok() && found && !conflicted;
    let reason = if conflicted {
        Reason::Conflicted
    } else if !found {
        Reason::TargetNotFound
    } else if authority {
        Reason::NoValidCACertificate
    } else if accepted {
        Reason::Accepted
    } else {
        Reason::Invalid
    };
    Verdict { policy, accepted, reason, authority }
}

/// The targets of a policy, as they are written.
pub open spec fn targets_of(o: Object) -> Seq<Json> {
    match o.data.at("spec"@).at("targetRefs"@).list() {
        Some(v) => v,
        None => Seq::empty(),
    }
}

/// What becomes of policies, in an order: what they own and what is told of them.
pub open spec fn policies_of(
    r: Resources,
    v: Seq<Object>,
    trusts: Seq<Result<Trust, TlsPolicyError>>,
    order: Seq<int>,
) -> (Seq<Hold>, Seq<Verdict>)
    decreases order.len(),
{
    if order.len() == 0 {
        (Seq::empty(), Seq::empty())
    } else {
        let (owned, told) = policies_of(r, v, trusts, order.drop_last());
        let k = order.last();
        let c = claimed(
            r,
            owned,
            targets_of(v[k]),
            or_empty(text::opt(v[k].namespace)),
            belief(trusts[k]),
        );
        (c.owned, told.push(verdict_of(k as usize, belief(trusts[k]), c.conflicted, c.found)))
    }
}

/// What orders objects.
pub open spec fn ages(v: Seq<Object>, w: Seq<Age>) -> bool {
    w.len() == v.len() && forall|i: int|
        0 <= i < v.len() ==> crate::ingress::resources::age_of(
            v[i].created,
            v[i].namespace,
            v[i].name,
            #[trigger] w[i],
        )
}

/// What orders objects.
pub fn object_ages(v: &Vec<Object>) -> (out: Vec<Age>)
    ensures
        ages(v@, out@),
{
    let mut out: Vec<Age> = Vec::new();
    let mut i: usize = 0;
    while i < v.len()
        invariant
            i <= v.len(),
            out@.len() == i,
            forall|j: int|
                0 <= j < i ==> crate::ingress::resources::age_of(
                    v@[j].created,
                    v@[j].namespace,
                    v@[j].name,
                    #[trigger] out@[j],
                ),
        decreases v.len() - i,
    {
        out.push(
            Age {
                created: v[i].created,
                namespace: copy_opt(&v[i].namespace),
                name: v[i].name.clone(),
            },
        );
        i += 1;
    }
    out
}

/// The policies on how backends are reached.
#[derive(Debug)]
pub struct Policies {
    pub owned: Vec<Owned>,
}

impl Policies {
    /// The policies among objects, the oldest first; `trusts` says what each asks for. An invalid policy
    /// owns its targets too: they cannot be reached.
    pub fn build(resources: &Resources, v: &Vec<Object>, trusts: &Vec<Result<Trust, TlsPolicyError>>) -> (r: (
        Policies,
        Vec<Verdict>,
    ))
        requires
            trusts@.len() == v@.len(),
        ensures
            exists|w: Seq<Age>| #[trigger]
                ages(v@, w) && (holds(r.0.owned@), r.1@) == policies_of(
                    *resources,
                    v@,
                    trusts@,
                    by_age(w, w.len() as int),
                ),
    {
        let list = object_ages(v);
        let order = oldest_first(&list);
        let ghost all = indexes(order@);
        let mut owned: Vec<Owned> = Vec::new();
        let mut told: Vec<Verdict> = Vec::new();
        let mut i: usize = 0;
        assert(holds(owned@) =~= Seq::empty());
        while i < order.len()
            invariant
                i <= order.len(),
                trusts@.len() == v@.len(),
                all == indexes(order@),
                list@.len() == v@.len(),
                forall|i: int| 0 <= i < order@.len() ==> #[trigger] order@[i] < list@.len(),
                (holds(owned@), told@) == policies_of(
                    *resources,
                    v@,
                    trusts@,
                    all.take(i as int),
                ),
            decreases order.len() - i,
        {
            let k = order[i];
            proof {
                assert(all.take(i + 1).drop_last() =~= all.take(i as int));
                assert(all.take(i + 1).last() == k as int);
            }
            let ns = text_or_empty(&v[k].namespace);
            let targets = v[k].data.field("spec").get_array("targetRefs");
            let (conflicted, found) = match targets {
                Some(t) => claim(resources, &mut owned, t, ns.as_str(), &trusts[k]),
                None => (false, false),
            };
            told.push(verdict(k, &trusts[k], conflicted, found));
            i += 1;
        }
        proof {
            assert(all.take(i as int) =~= all);
            assert(ages(v@, list@));
        }
        (Policies { owned }, told)
    }

    /// How a port of a service is reached: by the policy for the port, or else by that for the service.
    pub open spec fn applied(&self, ns: Seq<char>, service: Seq<char>, section: Option<Seq<char>>) -> Option<
        Result<Belief, TlsPolicyError>,
    > {
        let whole = held(holds(self.owned@), Aim { namespace: ns, service, section: None });
        match section {
            None => whole,
            Some(s) => match held(
                holds(self.owned@),
                Aim { namespace: ns, service, section: Some(s) },
            ) {
                Some(t) => Some(t),
                None => whole,
            },
        }
    }

    /// How a port of a service is reached; nothing where no policy says so.
    pub fn policy(&self, ns: &str, service: &str, section: Option<&str>) -> (r: Result<
        Option<Trust>,
        TlsPolicyError,
    >)
        ensures
            match self.applied(
                ns@,
                service@,
                match section {
                    Some(s) => Some(s@),
                    None => None,
                },
            ) {
                None => r is Ok && r->Ok_0 is None,
                Some(Ok(b)) => r is Ok && r->Ok_0 is Some && r->Ok_0->0@ == b,
                Some(Err(e)) => r is Err && r->Err_0 == e,
            },
    {
        let whole = Target {
            namespace: ns.to_owned(),
            service: service.to_owned(),
            section: None,
        };
        let mut found: Option<usize> = None;
        if let Some(s) = section {
            let part = Target {
                namespace: ns.to_owned(),
                service: service.to_owned(),
                section: Some(s.to_owned()),
            };
            assert(part@ =~= Aim { namespace: ns@, service: service@, section: Some(s@) });
            found = find_held(&self.owned, &part);
        }
        assert(whole@ =~= Aim { namespace: ns@, service: service@, section: None });
        if found.is_none() {
            found = find_held(&self.owned, &whole);
        }
        match found {
            None => Ok(None),
            Some(i) => match &self.owned[i].trust {
                Ok(t) => Ok(Some(t.copy())),
                Err(e) => Err(*e),
            },
        }
    }

    /// Lets a backend be reached as the policy for its port says, or else that for its service; whether
    /// there is one. Where the policy is invalid the backend stays as it is, and is not to be used: it is
    /// never reached without TLS instead.
    pub fn apply(&self, ns: &str, service: &str, section: Option<&str>, backend: &mut Setup) -> (r: Result<
        bool,
        TlsPolicyError,
    >)
        ensures
            match self.applied(
                ns@,
                service@,
                match section {
                    Some(s) => Some(s@),
                    None => None,
                },
            ) {
                None => r == Ok::<bool, TlsPolicyError>(false) && final(backend)@ == old(backend)@,
                Some(Err(e)) => r == Err::<bool, TlsPolicyError>(e) && final(backend)@ == old(
                    backend,
                )@,
                Some(Ok(b)) => r == Ok::<bool, TlsPolicyError>(true) && final(backend)@ == trusted(
                    old(backend)@,
                    b.server_name,
                    b.ca_pem,
                ),
            },
    {
        match self.policy(ns, service, section) {
            Err(e) => Err(e),
            Ok(None) => Ok(false),
            Ok(Some(t)) => {
                backend.trust(t.server_name.as_str(), &t.ca_pem);
                Ok(true)
            },
        }
    }
}

// ---------------------------------------------------------------------------
// Laws
// ---------------------------------------------------------------------------

/// What a policy owns stays with it: further policies do not take it away.
pub proof fn law_targets_keep_their_policy(
    r: Resources,
    before: Seq<Hold>,
    v: Seq<Json>,
    ns: Seq<char>,
    trust: Result<Belief, TlsPolicyError>,
    t: Aim,
)
    requires
        held(before, t) is Some,
    ensures
        held(claimed(r, before, v, ns, trust).owned, t) == held(before, t),
    decreases v.len(),
{
    if v.len() > 0 {
        law_targets_keep_their_policy(r, before, v.drop_last(), ns, trust, t);
        let c = claimed(r, before, v.drop_last(), ns, trust);
        if names_service(v.last()) && held(c.owned, aim_of(v.last(), ns)) is None {
            lemma_held_push(c.owned, Hold { target: aim_of(v.last(), ns), trust }, t);
        }
    }
}

proof fn lemma_held_push(v: Seq<Hold>, h: Hold, t: Aim)
    ensures
        held(v.push(h), t) == match held(v, t) {
            Some(x) => Some(x),
            None => if h.target == t {
                Some(h.trust)
            } else {
                None
            },
        },
    decreases v.len(),
{
    let w = v.push(h);
    if v.len() == 0 {
        assert(w.drop_first() =~= Seq::empty());
        assert(held(w.drop_first(), t) is None);
    } else {
        assert(w.drop_first() =~= v.drop_first().push(h));
        assert(w[0] == v[0]);
        lemma_held_push(v.drop_first(), h, t);
    }
}

/// A service that an invalid policy is for cannot be reached without TLS instead: the policy owns it.
pub proof fn law_invalid_policies_fail_closed(
    r: Resources,
    before: Seq<Hold>,
    v: Seq<Json>,
    ns: Seq<char>,
    e: TlsPolicyError,
    i: int,
)
    requires
        0 <= i < v.len(),
        names_service(v[i]),
        held(before, aim_of(v[i], ns)) is None,
    ensures
        held(claimed(r, before, v, ns, Err(e)).owned, aim_of(v[i], ns)) == Some(
            Err::<Belief, TlsPolicyError>(e),
        ),
    decreases v.len(),
{
    let a = aim_of(v[i], ns);
    let trust: Result<Belief, TlsPolicyError> = Err(e);
    let c = claimed(r, before, v.drop_last(), ns, trust);
    if i < v.len() - 1 {
        assert(v.drop_last()[i] == v[i]);
        law_invalid_policies_fail_closed(r, before, v.drop_last(), ns, e, i);
        if names_service(v.last()) && held(c.owned, aim_of(v.last(), ns)) is None {
            lemma_held_push(c.owned, Hold { target: aim_of(v.last(), ns), trust }, a);
        }
    } else {
        lemma_held_or_new(r, before, v.drop_last(), ns, trust, a);
        if held(c.owned, a) is None {
            lemma_held_push(c.owned, Hold { target: a, trust }, a);
        }
    }
}

/// What was not owned is owned by the policy afterwards, or by none.
proof fn lemma_held_or_new(
    r: Resources,
    before: Seq<Hold>,
    v: Seq<Json>,
    ns: Seq<char>,
    trust: Result<Belief, TlsPolicyError>,
    t: Aim,
)
    requires
        held(before, t) is None,
    ensures
        held(claimed(r, before, v, ns, trust).owned, t) is None || held(
            claimed(r, before, v, ns, trust).owned,
            t,
        ) == Some(trust),
    decreases v.len(),
{
    if v.len() > 0 {
        lemma_held_or_new(r, before, v.drop_last(), ns, trust, t);
        let c = claimed(r, before, v.drop_last(), ns, trust);
        if names_service(v.last()) && held(c.owned, aim_of(v.last(), ns)) is None {
            lemma_held_push(c.owned, Hold { target: aim_of(v.last(), ns), trust }, t);
        }
    }
}

/// A policy is for one service of its namespace and a host that is no wildcard; its authorities are those of
/// the system or those that it names, not both and not none.
pub proof fn law_policies_name_a_host_and_authorities(
    r: Resources,
    secrets: Seq<AuthoritySecret>,
    ns: Seq<char>,
    spec: TlsPolicySpec,
    pem: Seq<char>,
)
    ensures
        spec.target_refs@.len() != 1 ==> trust_of(r, secrets, ns, spec) == Err::<Belief, TlsPolicyError>(
            TlsPolicyError::Targets,
        ),
        spec.target_refs@.len() == 1 && spec.options@.len() == 0 ==> {
            &&& !local_service(spec.target_refs@[0]) ==> trust_of(r, secrets, ns, spec) == Err::<
                Belief,
                TlsPolicyError,
            >(TlsPolicyError::Target)
            &&& local_service(spec.target_refs@[0]) && text::starts(spec.hostname@, "*"@) ==> trust_of(
                r,
                secrets,
                ns,
                spec,
            ) == Err::<Belief, TlsPolicyError>(TlsPolicyError::Hostname)
            &&& local_service(spec.target_refs@[0]) && hostname_valid(spec.hostname@) && !text::starts(
                spec.hostname@,
                "*"@,
            ) ==> {
                &&& spec.ca_certificate_refs@.len() == 0 && text::opt(spec.well_known_ca_certificates) == Some(
                    "System"@,
                ) ==> trust_of(r, secrets, ns, spec) == Ok::<Belief, TlsPolicyError>(
                    Belief { server_name: spec.hostname@, ca_pem: None },
                )
                &&& spec.ca_certificate_refs@.len() == 0 && spec.well_known_ca_certificates is None
                    ==> trust_of(r, secrets, ns, spec) == Err::<Belief, TlsPolicyError>(
                    TlsPolicyError::NoAuthority,
                )
                &&& spec.ca_certificate_refs@.len() > 0 && spec.well_known_ca_certificates is Some
                    ==> trust_of(r, secrets, ns, spec) == Err::<Belief, TlsPolicyError>(
                    TlsPolicyError::Authorities,
                )
                &&& spec.ca_certificate_refs@.len() > 8 ==> trust_of(r, secrets, ns, spec) == Err::<
                    Belief,
                    TlsPolicyError,
                >(TlsPolicyError::Authorities)
                &&& 0 < spec.ca_certificate_refs@.len() <= 8 && spec.well_known_ca_certificates is None
                    && authorities_of(r, secrets, ns, spec.ca_certificate_refs@) == Ok::<
                    Seq<char>,
                    TlsPolicyError,
                >(pem) ==> trust_of(r, secrets, ns, spec) == Ok::<Belief, TlsPolicyError>(
                    Belief { server_name: spec.hostname@, ca_pem: Some(pem) },
                )
            }
        },
{
}

/// Authorities are put behind each other, up to a megabyte.
pub proof fn law_authorities_are_put_together(
    r: Resources,
    secrets: Seq<AuthoritySecret>,
    ns: Seq<char>,
    v: Seq<Reference>,
    t: Reference,
    a: Seq<char>,
    b: Seq<char>,
)
    requires
        authorities_of(r, secrets, ns, v) == Ok::<Seq<char>, TlsPolicyError>(a),
        authority_of(r, secrets, ns, t) == Ok::<Seq<char>, TlsPolicyError>(b),
    ensures
        text::byte_len(a) + text::byte_len(b) < 1048576 ==> authorities_of(r, secrets, ns, v.push(t)) == Ok::<
            Seq<char>,
            TlsPolicyError,
        >(a + b + seq!['\n']),
        text::byte_len(a) + text::byte_len(b) >= 1048576 ==> authorities_of(r, secrets, ns, v.push(t)) == Err::<
            Seq<char>,
            TlsPolicyError,
        >(TlsPolicyError::AuthoritySize),
{
    assert(v.push(t).drop_last() =~= v);
}

/// An authority is read from the part `ca.crt` of what is named in the namespace of the policy.
pub proof fn law_authorities_are_read(
    r: Resources,
    secrets: Seq<AuthoritySecret>,
    ns: Seq<char>,
    t: Reference,
    o: Object,
    pem: Seq<char>,
)
    ensures
        t.namespace is Some || t.section_name is Some || t.port is Some ==> authority_of(r, secrets, ns, t)
            == Err::<Seq<char>, TlsPolicyError>(TlsPolicyError::AuthorityReference),
        local_object(t) && t.kind is None && r.object("ConfigMap"@, ns, t.name@) is None ==> authority_of(
            r,
            secrets,
            ns,
            t,
        ) == Err::<Seq<char>, TlsPolicyError>(TlsPolicyError::AuthorityMissing),
        local_object(t) && t.kind is None && r.object("ConfigMap"@, ns, t.name@) == Some(o) && o.data.at(
            "data"@,
        ).at("ca.crt"@).string() == Some(pem) ==> authority_of(r, secrets, ns, t) == Ok::<
            Seq<char>,
            TlsPolicyError,
        >(pem),
{
}

/// A policy for a port of a service counts there before one for the service as a whole.
pub proof fn law_policies_of_ports_count_first(
    p: Policies,
    ns: Seq<char>,
    service: Seq<char>,
    section: Seq<char>,
)
    ensures
        ({
            let whole = held(holds(p.owned@), Aim { namespace: ns, service, section: None });
            let part = held(holds(p.owned@), Aim { namespace: ns, service, section: Some(section) });
            &&& p.applied(ns, service, None) == whole
            &&& part is Some ==> p.applied(ns, service, Some(section)) == part
            &&& part is None ==> p.applied(ns, service, Some(section)) == whole
        }),
{
}

/// A policy is accepted where it holds, its target is there and nobody has it before; else it is told why not.
pub proof fn law_policies_are_judged(policy: usize, trust: Result<Belief, TlsPolicyError>, found: bool, conflicted: bool)
    ensures
        verdict_of(policy, trust, true, found).reason == Reason::Conflicted,
        verdict_of(policy, trust, false, false).reason == Reason::TargetNotFound,
        trust is Ok ==> verdict_of(policy, trust, false, true) == (Verdict {
            policy,
            accepted: true,
            reason: Reason::Accepted,
            authority: false,
        }),
        trust == Err::<Belief, TlsPolicyError>(TlsPolicyError::AuthorityMissing) ==> verdict_of(
            policy,
            trust,
            false,
            true,
        ).reason == Reason::NoValidCACertificate,
        trust == Err::<Belief, TlsPolicyError>(TlsPolicyError::Hostname) ==> verdict_of(
            policy,
            trust,
            false,
            true,
        ).reason == Reason::Invalid,
        trust is Err || conflicted || !found ==> !verdict_of(policy, trust, conflicted, found).accepted,
{
}

} // verus!
