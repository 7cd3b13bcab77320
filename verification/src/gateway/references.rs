//! Objects, and what may refer to them.
use crate::certificates::{covers, parsed, Certificate, Credential};
use crate::ingress::backends::is_named;
use crate::ingress::dependencies::{find_kept, kept};
use crate::ingress::resources::{or_empty, text_or_empty};
use crate::json::Json;
use crate::text;
use vstd::prelude::*;

verus! {

/// An object of any kind; `data` is all of it but what it says about itself.
#[derive(Debug)]
pub struct Object {
    pub namespace: Option<String>,
    pub name: String,
    pub uid: Option<String>,
    pub created: Option<i64>,
    pub generation: Option<i64>,
    pub labels: Vec<(String, String)>,
    pub annotations: Vec<(String, String)>,
    pub data: Json,
}

/// All objects, by their kinds.
#[derive(Debug)]
pub struct Resources {
    pub kinds: Vec<(String, Vec<Object>)>,
}

/// The objects of a kind.
pub open spec fn objects_of(v: Seq<(String, Vec<Object>)>, kind: Seq<char>) -> Seq<Object>
    decreases v.len(),
{
    if v.len() == 0 {
        Seq::empty()
    } else if v[0].0@ == kind {
        v[0].1@
    } else {
        objects_of(v.drop_first(), kind)
    }
}

/// Whether an object is the one of a name in a namespace; one without a namespace is in the empty one.
pub open spec fn is_at(o: Object, ns: Seq<char>, name: Seq<char>) -> bool {
    o.name@ == name && or_empty(text::opt(o.namespace)) == ns
}

/// The place of the first object of a name in a namespace.
pub open spec fn place(v: Seq<Object>, ns: Seq<char>, name: Seq<char>) -> Option<int>
    decreases v.len(),
{
    if v.len() == 0 {
        None
    } else if is_at(v[0], ns, name) {
        Some(0)
    } else {
        match place(v.drop_first(), ns, name) {
            Some(i) => Some(i + 1),
            None => None,
        }
    }
}

impl Resources {
    /// The objects of a kind.
    pub open spec fn all(self, kind: Seq<char>) -> Seq<Object> {
        objects_of(self.kinds@, kind)
    }

    /// The first object of a kind, of a name in a namespace.
    pub open spec fn object(self, kind: Seq<char>, ns: Seq<char>, name: Seq<char>) -> Option<Object> {
        match place(self.all(kind), ns, name) {
            Some(i) => Some(self.all(kind)[i]),
            None => None,
        }
    }

    /// The objects of a kind; nothing where none was observed.
    pub fn objects(&self, kind: &str) -> (r: Option<&Vec<Object>>)
        ensures
            match r {
                Some(v) => v@ == self.all(kind@),
                None => self.all(kind@) == Seq::<Object>::empty(),
            },
    {
        let ghost v = self.kinds@;
        let mut i: usize = 0;
        assert(v.skip(0) =~= v);
        while i < self.kinds.len()
            invariant
                i <= self.kinds.len(),
                v == self.kinds@,
                objects_of(v.skip(i as int), kind@) == objects_of(v, kind@),
            decreases self.kinds.len() - i,
        {
            assert(v.skip(i as int).drop_first() =~= v.skip(i + 1));
            assert(v.skip(i as int)[0] == v[i as int]);
            if text::same(self.kinds[i].0.as_str(), kind) {
                return Some(&self.kinds[i].1);
            }
            i += 1;
        }
        None
    }

    /// The first object of a kind, of a name in a namespace.
    pub fn find(&self, kind: &str, ns: &str, name: &str) -> (r: Option<&Object>)
        ensures
            match r {
                Some(o) => self.object(kind@, ns@, name@) == Some(*o),
                None => self.object(kind@, ns@, name@) is None,
            },
    {
        match self.objects(kind) {
            None => None,
            Some(v) => match find_place(v, ns, name) {
                Some(i) => Some(&v[i]),
                None => None,
            },
        }
    }
}

/// The place of the first object of a name in a namespace.
pub fn find_place(v: &Vec<Object>, ns: &str, name: &str) -> (r: Option<usize>)
    ensures
        match r {
            Some(i) => place(v@, ns@, name@) == Some(i as int) && i < v@.len(),
            None => place(v@, ns@, name@) is None,
        },
{
    let mut i: usize = 0;
    assert(v@.skip(0) =~= v@);
    while i < v.len()
        invariant
            i <= v.len(),
            place(v@, ns@, name@) == match place(v@.skip(i as int), ns@, name@) {
                Some(k) => Some(k + i),
                None => None,
            },
        decreases v.len() - i,
    {
        assert(v@.skip(i as int).drop_first() =~= v@.skip(i + 1));
        assert(v@.skip(i as int)[0] == v@[i as int]);
        if text::same(v[i].name.as_str(), name) && text::same(
            text_or_empty(&v[i].namespace).as_str(),
            ns,
        ) {
            return Some(i);
        }
        i += 1;
    }
    None
}

// ---------------------------------------------------------------------------
// Grants
// ---------------------------------------------------------------------------

/// Whether a grant is for objects of a kind in a namespace.
pub open spec fn grants_from(f: Json, kind: Seq<char>, ns: Seq<char>) -> bool {
    f.string_or("group"@, ""@) == "gateway.networking.k8s.io"@ && f.string_or("kind"@, ""@) == kind
        && f.string_or("namespace"@, ""@) == ns
}

/// Whether a grant lets refer to an object of a kind; one without a name is for all names.
pub open spec fn grants_to(t: Json, kind: Seq<char>, name: Seq<char>) -> bool {
    &&& t.string_or("group"@, ""@) == ""@
    &&& t.string_or("kind"@, ""@) == kind
    &&& match t.entry("name"@) {
        Some(n) => n.string() == Some(name),
        None => true,
    }
}

pub open spec fn any_from(v: Seq<Json>, kind: Seq<char>, ns: Seq<char>) -> bool {
    exists|i: int| 0 <= i < v.len() && grants_from(#[trigger] v[i], kind, ns)
}

pub open spec fn any_to(v: Seq<Json>, kind: Seq<char>, name: Seq<char>) -> bool {
    exists|i: int| 0 <= i < v.len() && grants_to(#[trigger] v[i], kind, name)
}

/// Whether a grant, which is in the namespace of what is referred to, lets refer to it.
pub open spec fn granted(
    g: Object,
    from_ns: Seq<char>,
    from_kind: Seq<char>,
    to_ns: Seq<char>,
    to_kind: Seq<char>,
    name: Seq<char>,
) -> bool {
    let spec = g.data.at("spec"@);
    &&& text::opt(g.namespace) == Some(to_ns)
    &&& spec.at("from"@).list() is Some && any_from(spec.at("from"@).list()->0, from_kind, from_ns)
    &&& spec.at("to"@).list() is Some && any_to(spec.at("to"@).list()->0, to_kind, name)
}

/// Whether an object may refer to another: in its own namespace, and elsewhere where it is granted.
pub open spec fn permitted_by(
    v: Seq<Object>,
    from_ns: Seq<char>,
    from_kind: Seq<char>,
    to_ns: Seq<char>,
    to_kind: Seq<char>,
    name: Seq<char>,
) -> bool {
    from_ns == to_ns || exists|i: int|
        0 <= i < v.len() && granted(#[trigger] v[i], from_ns, from_kind, to_ns, to_kind, name)
}

fn is_granted_from(v: &Vec<Json>, kind: &str, ns: &str) -> (r: bool)
    ensures
        r == any_from(v@, kind@, ns@),
{
    let mut i: usize = 0;
    while i < v.len()
        invariant
            i <= v.len(),
            forall|j: int| 0 <= j < i ==> !grants_from(#[trigger] v@[j], kind@, ns@),
        decreases v.len() - i,
    {
        let f = &v[i];
        if text::same(f.text("group", ""), "gateway.networking.k8s.io") && text::same(
            f.text("kind", ""),
            kind,
        ) && text::same(f.text("namespace", ""), ns) {
            assert(grants_from(v@[i as int], kind@, ns@));
            return true;
        }
        i += 1;
    }
    false
}

fn is_granted_to(v: &Vec<Json>, kind: &str, name: &str) -> (r: bool)
    ensures
        r == any_to(v@, kind@, name@),
{
    let mut i: usize = 0;
    while i < v.len()
        invariant
            i <= v.len(),
            forall|j: int| 0 <= j < i ==> !grants_to(#[trigger] v@[j], kind@, name@),
        decreases v.len() - i,
    {
        let t = &v[i];
        let named = match t.get("name") {
            None => true,
            Some(n) => match n.as_str() {
                Some(s) => text::same(s, name),
                None => false,
            },
        };
        if named && text::same(t.text("group", ""), "") && text::same(t.text("kind", ""), kind) {
            assert(grants_to(v@[i as int], kind@, name@));
            return true;
        }
        assert(!grants_to(v@[i as int], kind@, name@));
        i += 1;
    }
    false
}

/// Whether an object may refer to another.
pub fn permitted(
    resources: &Resources,
    from_ns: &str,
    from_kind: &str,
    to_ns: &str,
    to_kind: &str,
    name: &str,
) -> (r: bool)
    ensures
        r == permitted_by(
            resources.all("ReferenceGrant"@),
            from_ns@,
            from_kind@,
            to_ns@,
            to_kind@,
            name@,
        ),
{
    if text::same(from_ns, to_ns) {
        return true;
    }
    let v = match resources.objects("ReferenceGrant") {
        None => return false,
        Some(v) => v,
    };
    let mut i: usize = 0;
    while i < v.len()
        invariant
            i <= v.len(),
            from_ns@ != to_ns@,
            v@ == resources.all("ReferenceGrant"@),
            forall|j: int|
                0 <= j < i ==> !granted(
                    #[trigger] v@[j],
                    from_ns@,
                    from_kind@,
                    to_ns@,
                    to_kind@,
                    name@,
                ),
        decreases v.len() - i,
    {
        let g = &v[i];
        let there = match &g.namespace {
            Some(n) => text::same(n.as_str(), to_ns),
            None => false,
        };
        let spec = g.data.field("spec");
        let from = match spec.get_array("from") {
            Some(f) => is_granted_from(f, from_kind, from_ns),
            None => false,
        };
        let to = match spec.get_array("to") {
            Some(t) => is_granted_to(t, to_kind, name),
            None => false,
        };
        if there && from && to {
            assert(granted(v@[i as int], from_ns@, from_kind@, to_ns@, to_kind@, name@));
            return true;
        }
        assert(!granted(v@[i as int], from_ns@, from_kind@, to_ns@, to_kind@, name@));
        i += 1;
    }
    false
}

// ---------------------------------------------------------------------------
// Routes that a listener allows
// ---------------------------------------------------------------------------

/// Whether a listener is for routes of a kind; one that names no kinds is for all.
pub open spec fn kind_allowed(allowed: Json, kind: Seq<char>) -> bool {
    match allowed.at("kinds"@).list() {
        None => true,
        Some(v) => exists|i: int| 0 <= i < v.len() && names_kind(#[trigger] v[i], kind),
    }
}

pub open spec fn names_kind(k: Json, kind: Seq<char>) -> bool {
    k.string_or("group"@, "gateway.networking.k8s.io"@) == "gateway.networking.k8s.io"@
        && k.string_or("kind"@, ""@) == kind
}

/// Whether a label is as it is wanted; what is wanted of a label that is no text is that there is none.
pub open spec fn label_wanted(labels: Seq<(Seq<char>, Seq<char>)>, key: Seq<char>, value: Json) -> bool {
    text::lookup(labels, key) == value.string()
}

pub open spec fn labels_wanted(labels: Seq<(Seq<char>, Seq<char>)>, v: Seq<(String, Json)>) -> bool {
    forall|i: int| 0 <= i < v.len() ==> label_wanted(labels, (#[trigger] v[i]).0@, v[i].1)
}

pub open spec fn lists_text(v: Seq<Json>, s: Seq<char>) -> bool {
    exists|i: int| 0 <= i < v.len() && (#[trigger] v[i]).string() == Some(s)
}

/// Whether labels are as an expression wants them.
pub open spec fn expression_met(labels: Seq<(Seq<char>, Seq<char>)>, e: Json) -> bool {
    let value = text::lookup(labels, e.string_or("key"@, ""@));
    let contains = value is Some && e.at("values"@).list() is Some && lists_text(
        e.at("values"@).list()->0,
        value->0,
    );
    let op = e.string_or("operator"@, ""@);
    if op == "In"@ {
        contains
    } else if op == "NotIn"@ {
        !contains
    } else if op == "Exists"@ {
        value is Some
    } else if op == "DoesNotExist"@ {
        value is None
    } else {
        false
    }
}

pub open spec fn expressions_met(labels: Seq<(Seq<char>, Seq<char>)>, v: Seq<Json>) -> bool {
    forall|i: int| 0 <= i < v.len() ==> expression_met(labels, #[trigger] v[i])
}

/// Whether a selector picks a namespace by its labels.
pub open spec fn selected(selector: Json, labels: Seq<(Seq<char>, Seq<char>)>) -> bool {
    &&& selector is Object
    &&& match selector.at("matchLabels"@).members() {
        None => true,
        Some(v) => labels_wanted(labels, v),
    }
    &&& match selector.at("matchExpressions"@).list() {
        None => true,
        Some(v) => expressions_met(labels, v),
    }
}

/// Whether a listener of a gateway is for routes of a kind in a namespace.
pub open spec fn allowed_by(
    r: Resources,
    listener: Json,
    gateway_ns: Seq<char>,
    route_ns: Seq<char>,
    kind: Seq<char>,
) -> bool {
    let allowed = listener.at("allowedRoutes"@);
    let from = allowed.at("namespaces"@).string_or("from"@, "Same"@);
    &&& kind_allowed(allowed, kind)
    &&& if from == "Same"@ {
        gateway_ns == route_ns
    } else if from == "All"@ {
        true
    } else if from == "Selector"@ {
        match r.object("Namespace"@, ""@, route_ns) {
            Some(ns) => selected(
                allowed.at("namespaces"@).at("selector"@),
                text::pairs(ns.labels@),
            ),
            None => false,
        }
    } else {
        false
    }
}

fn is_kind_allowed(allowed: &Json, kind: &str) -> (r: bool)
    ensures
        r == kind_allowed(*allowed, kind@),
{
    let v = match allowed.get_array("kinds") {
        None => return true,
        Some(v) => v,
    };
    let mut i: usize = 0;
    while i < v.len()
        invariant
            i <= v.len(),
            allowed.at("kinds"@).list() == Some(v@),
            forall|j: int| 0 <= j < i ==> !names_kind(#[trigger] v@[j], kind@),
        decreases v.len() - i,
    {
        if text::same(
            v[i].text("group", "gateway.networking.k8s.io"),
            "gateway.networking.k8s.io",
        ) && text::same(v[i].text("kind", ""), kind) {
            assert(names_kind(v@[i as int], kind@));
            assert(names_kind(allowed.at("kinds"@).list()->0[i as int], kind@));
            return true;
        }
        assert(!names_kind(v@[i as int], kind@));
        i += 1;
    }
    false
}

fn are_labels_wanted(labels: &Vec<(String, String)>, v: &Vec<(String, Json)>) -> (r: bool)
    ensures
        r == labels_wanted(text::pairs(labels@), v@),
{
    let mut i: usize = 0;
    while i < v.len()
        invariant
            i <= v.len(),
            forall|j: int|
                0 <= j < i ==> label_wanted(text::pairs(labels@), (#[trigger] v@[j]).0@, v@[j].1),
        decreases v.len() - i,
    {
        let met = match (text::find(labels, v[i].0.as_str()), v[i].1.as_str()) {
            (Some(a), Some(b)) => text::same(a, b),
            (None, None) => true,
            _ => false,
        };
        if !met {
            assert(!label_wanted(text::pairs(labels@), v@[i as int].0@, v@[i as int].1));
            return false;
        }
        i += 1;
    }
    true
}

fn is_listed(v: &Vec<Json>, s: &str) -> (r: bool)
    ensures
        r == lists_text(v@, s@),
{
    let mut i: usize = 0;
    while i < v.len()
        invariant
            i <= v.len(),
            forall|j: int| 0 <= j < i ==> (#[trigger] v@[j]).string() != Some(s@),
        decreases v.len() - i,
    {
        if let Some(x) = v[i].as_str() {
            if text::same(x, s) {
                assert(v@[i as int].string() == Some(s@));
                return true;
            }
        }
        i += 1;
    }
    false
}

fn is_expression_met(labels: &Vec<(String, String)>, e: &Json) -> (r: bool)
    ensures
        r == expression_met(text::pairs(labels@), *e),
{
    let value = text::find(labels, e.text("key", ""));
    let contains = match (value, e.get_array("values")) {
        (Some(s), Some(v)) => is_listed(v, s),
        _ => false,
    };
    let op = e.text("operator", "");
    if text::same(op, "In") {
        contains
    } else if text::same(op, "NotIn") {
        !contains
    } else if text::same(op, "Exists") {
        value.is_some()
    } else if text::same(op, "DoesNotExist") {
        value.is_none()
    } else {
        false
    }
}

fn are_expressions_met(labels: &Vec<(String, String)>, v: &Vec<Json>) -> (r: bool)
    ensures
        r == expressions_met(text::pairs(labels@), v@),
{
    let mut i: usize = 0;
    while i < v.len()
        invariant
            i <= v.len(),
            forall|j: int|
                0 <= j < i ==> expression_met(text::pairs(labels@), #[trigger] v@[j]),
        decreases v.len() - i,
    {
        if !is_expression_met(labels, &v[i]) {
            assert(!expression_met(text::pairs(labels@), v@[i as int]));
            return false;
        }
        i += 1;
    }
    true
}

fn is_selected(selector: &Json, labels: &Vec<(String, String)>) -> (r: bool)
    ensures
        r == selected(*selector, text::pairs(labels@)),
{
    match selector {
        Json::Object(_) => {},
        _ => return false,
    }
    let wanted = match selector.field("matchLabels").as_object() {
        None => true,
        Some(v) => are_labels_wanted(labels, v),
    };
    let met = match selector.get_array("matchExpressions") {
        None => true,
        Some(v) => are_expressions_met(labels, v),
    };
    wanted && met
}

/// Whether a listener of a gateway is for routes of a kind in a namespace.
pub fn allows(
    resources: &Resources,
    listener: &Json,
    gateway_ns: &str,
    route_ns: &str,
    kind: &str,
) -> (r: bool)
    ensures
        r == allowed_by(*resources, *listener, gateway_ns@, route_ns@, kind@),
{
    let allowed = listener.field("allowedRoutes");
    if !is_kind_allowed(allowed, kind) {
        return false;
    }
    let namespaces = allowed.field("namespaces");
    let from = namespaces.text("from", "Same");
    if text::same(from, "Same") {
        text::same(gateway_ns, route_ns)
    } else if text::same(from, "All") {
        true
    } else if text::same(from, "Selector") {
        match resources.find("Namespace", "", route_ns) {
            Some(ns) => is_selected(namespaces.field("selector"), &ns.labels),
            None => false,
        }
    } else {
        false
    }
}

// ---------------------------------------------------------------------------
// Certificates
// ---------------------------------------------------------------------------

/// Why a listener has no certificate.
#[derive(Clone, Copy, Debug, PartialEq, Eq, Structural)]
pub enum CertificateError {
    UnknownField,
    NotTerminating,
    NoReferences,
    NotOneReference,
    NotSecret,
    NotPermitted,
    SecretMissing,
    SecretUnreadable,
    SecretType,
    SecretEmpty,
    CertificateMissing,
    KeyMissing,
    Invalid,
    Name,
}

impl CertificateError {
    /// Whether the reference to the certificate is not permitted.
    pub fn forbidden(&self) -> (r: bool)
        ensures
            r == (*self == CertificateError::NotPermitted),
    {
        *self == CertificateError::NotPermitted
    }
}

pub open spec fn tls_member(name: Seq<char>) -> bool {
    name == "mode"@ || name == "certificateRefs"@
}

pub open spec fn all_tls_members(v: Seq<(String, Json)>) -> bool {
    forall|i: int| 0 <= i < v.len() ==> tls_member((#[trigger] v[i]).0@)
}

/// The secret that a listener of a gateway refers to for its certificate.
pub open spec fn secret_of(r: Resources, gateway_ns: Seq<char>, listener: Json) -> Result<
    (Seq<char>, Seq<char>),
    CertificateError,
> {
    let tls = listener.at("tls"@);
    if tls.members() is None || !all_tls_members(tls.members()->0) {
        Err(CertificateError::UnknownField)
    } else if tls.string_or("mode"@, "Terminate"@) != "Terminate"@ {
        Err(CertificateError::NotTerminating)
    } else {
        match tls.at("certificateRefs"@).list() {
            None => Err(CertificateError::NoReferences),
            Some(v) => if v.len() != 1 {
                Err(CertificateError::NotOneReference)
            } else if v[0].string_or("group"@, ""@) != ""@ || v[0].string_or("kind"@, "Secret"@)
                != "Secret"@ {
                Err(CertificateError::NotSecret)
            } else {
                let ns = v[0].string_or("namespace"@, gateway_ns);
                let name = v[0].string_or("name"@, ""@);
                if !permitted_by(
                    r.all("ReferenceGrant"@),
                    gateway_ns,
                    "Gateway"@,
                    ns,
                    "Secret"@,
                    name,
                ) {
                    Err(CertificateError::NotPermitted)
                } else if r.object("Secret"@, ns, name) is None {
                    Err(CertificateError::SecretMissing)
                } else {
                    Ok((ns, name))
                }
            },
        }
    }
}

pub open spec fn secret_view(r: Result<(String, String), CertificateError>) -> Result<
    (Seq<char>, Seq<char>),
    CertificateError,
> {
    match r {
        Ok((a, b)) => Ok((a@, b@)),
        Err(e) => Err(e),
    }
}

fn are_tls_members(v: &Vec<(String, Json)>) -> (r: bool)
    ensures
        r == all_tls_members(v@),
{
    let mut i: usize = 0;
    while i < v.len()
        invariant
            i <= v.len(),
            forall|j: int| 0 <= j < i ==> tls_member((#[trigger] v@[j]).0@),
        decreases v.len() - i,
    {
        let name = v[i].0.as_str();
        if !text::same(name, "mode") && !text::same(name, "certificateRefs") {
            assert(!tls_member(v@[i as int].0@));
            return false;
        }
        i += 1;
    }
    true
}

/// The secret that a listener of a gateway refers to for its certificate: its namespace and name.
pub fn certificate_secret(resources: &Resources, gateway_ns: &str, listener: &Json) -> (r: Result<
    (String, String),
    CertificateError,
>)
    ensures
        secret_view(r) == secret_of(*resources, gateway_ns@, *listener),
{
    let tls = listener.field("tls");
    match tls.as_object() {
        None => return Err(CertificateError::UnknownField),
        Some(v) => if !are_tls_members(v) {
            return Err(CertificateError::UnknownField);
        },
    }
    if !text::same(tls.text("mode", "Terminate"), "Terminate") {
        return Err(CertificateError::NotTerminating);
    }
    let v = match tls.get_array("certificateRefs") {
        None => return Err(CertificateError::NoReferences),
        Some(v) => v,
    };
    if v.len() != 1 {
        return Err(CertificateError::NotOneReference);
    }
    let reference = &v[0];
    if !text::same(reference.text("group", ""), "") || !text::same(
        reference.text("kind", "Secret"),
        "Secret",
    ) {
        return Err(CertificateError::NotSecret);
    }
    let ns = reference.text("namespace", gateway_ns);
    let name = reference.text("name", "");
    if !permitted(resources, gateway_ns, "Gateway", ns, "Secret", name) {
        return Err(CertificateError::NotPermitted);
    }
    if resources.find("Secret", ns, name).is_none() {
        return Err(CertificateError::SecretMissing);
    }
    Ok((ns.to_owned(), name.to_owned()))
}
/// A secret for a listener.
#[derive(Debug)]
pub struct TlsSecret {
    pub type_: Option<String>,
    pub data: Option<Vec<(String, Vec<u8>)>>,
}

/// The certificate that a secret holds for a listener with a host name, or with any where that is empty.
pub open spec fn secret_used(
    s: Option<TlsSecret>,
    hostname: Seq<char>,
    now: i64,
) -> Result<Credential, CertificateError> {
    match s {
        None => Err(CertificateError::SecretUnreadable),
        Some(s) => if text::opt(s.type_) != Some("kubernetes.io/tls"@) {
            Err(CertificateError::SecretType)
        } else {
            match s.data {
                None => Err(CertificateError::SecretEmpty),
                Some(d) => match kept(d@, "tls.crt"@) {
                    None => Err(CertificateError::CertificateMissing),
                    Some(pem) => match kept(d@, "tls.key"@) {
                        None => Err(CertificateError::KeyMissing),
                        Some(key) => match parsed(pem, key, now) {
                            Err(_) => Err(CertificateError::Invalid),
                            Ok(c) => if hostname.len() > 0 && !covers(c, hostname) {
                                Err(CertificateError::Name)
                            } else {
                                Ok(c)
                            },
                        },
                    },
                },
            }
        },
    }
}

/// The certificate that a secret holds for a listener with a host name, or with any where that is empty;
/// there is no secret where it cannot be read.
pub fn usable(s: &Option<TlsSecret>, hostname: &str, now: i64) -> (r: Result<
    Certificate,
    CertificateError,
>)
    ensures
        match r {
            Ok(c) => secret_used(*s, hostname@, now) == Ok::<Credential, CertificateError>(c@),
            Err(e) => secret_used(*s, hostname@, now) == Err::<Credential, CertificateError>(e),
        },
{
    let s = match s {
        None => return Err(CertificateError::SecretUnreadable),
        Some(s) => s,
    };
    if !is_named(&s.type_, "kubernetes.io/tls") {
        return Err(CertificateError::SecretType);
    }
    let d = match &s.data {
        None => return Err(CertificateError::SecretEmpty),
        Some(d) => d,
    };
    let pem = match find_kept(d, "tls.crt") {
        None => return Err(CertificateError::CertificateMissing),
        Some(b) => b,
    };
    let key = match find_kept(d, "tls.key") {
        None => return Err(CertificateError::KeyMissing),
        Some(b) => b,
    };
    let c = match Certificate::parse(pem, key, now) {
        Err(_) => return Err(CertificateError::Invalid),
        Ok(c) => c,
    };
    if !hostname.is_empty() && !c.matches_name(hostname) {
        return Err(CertificateError::Name);
    }
    Ok(c)
}

// ---------------------------------------------------------------------------
// Laws
// ---------------------------------------------------------------------------

/// Without a grant in the namespace of an object, nothing elsewhere may refer to it.
pub proof fn law_references_need_a_grant(
    v: Seq<Object>,
    from_ns: Seq<char>,
    from_kind: Seq<char>,
    to_ns: Seq<char>,
    to_kind: Seq<char>,
    name: Seq<char>,
)
    requires
        from_ns != to_ns,
        forall|i: int| 0 <= i < v.len() ==> text::opt((#[trigger] v[i]).namespace) != Some(to_ns),
    ensures
        !permitted_by(v, from_ns, from_kind, to_ns, to_kind, name),
{
}

/// A listener that says nothing of routes is for those of its own namespace.
pub proof fn law_listeners_are_for_their_namespace(
    r: Resources,
    listener: Json,
    gateway_ns: Seq<char>,
    route_ns: Seq<char>,
    kind: Seq<char>,
)
    requires
        listener.entry("allowedRoutes"@) is None,
    ensures
        allowed_by(r, listener, gateway_ns, route_ns, kind) == (gateway_ns == route_ns),
{
    let allowed = listener.at("allowedRoutes"@);
    assert(allowed == Json::Null);
    assert(allowed.at("kinds"@) == Json::Null);
    assert(allowed.at("namespaces"@) == Json::Null);
    assert(allowed.at("namespaces"@).string_or("from"@, "Same"@) == "Same"@);
}

/// What is in the same namespace may be referred to; what is in another may where a grant there lets this kind of
/// this namespace refer to that kind, and to that name where it names one.
pub proof fn law_grants_permit_references(
    v: Seq<Object>,
    i: int,
    from_ns: Seq<char>,
    from_kind: Seq<char>,
    to_ns: Seq<char>,
    to_kind: Seq<char>,
    name: Seq<char>,
)
    ensures
        permitted_by(v, from_ns, from_kind, from_ns, to_kind, name),
        0 <= i < v.len() && granted(v[i], from_ns, from_kind, to_ns, to_kind, name) ==> permitted_by(
            v,
            from_ns,
            from_kind,
            to_ns,
            to_kind,
            name,
        ),
        0 <= i < v.len() && text::opt(v[i].namespace) != Some(to_ns) ==> !granted(
            v[i],
            from_ns,
            from_kind,
            to_ns,
            to_kind,
            name,
        ),
{
}

/// A side of a grant speaks of the kind, the namespace and the name that it holds.
pub proof fn law_grants_are_for_what_they_name(f: Json, kind: Seq<char>, ns: Seq<char>, name: Seq<char>, n: Json)
    ensures
        f.string_or("kind"@, ""@) != kind ==> !grants_from(f, kind, ns) && !grants_to(f, kind, name),
        f.string_or("namespace"@, ""@) != ns ==> !grants_from(f, kind, ns),
        f.string_or("group"@, ""@) != "gateway.networking.k8s.io"@ ==> !grants_from(f, kind, ns),
        f.string_or("group"@, ""@) == "gateway.networking.k8s.io"@ && f.string_or("kind"@, ""@) == kind
            && f.string_or("namespace"@, ""@) == ns ==> grants_from(f, kind, ns),
        f.string_or("group"@, ""@) == ""@ && f.string_or("kind"@, ""@) == kind ==> {
            &&& f.entry("name"@) is None ==> grants_to(f, kind, name)
            &&& f.entry("name"@) == Some(n) ==> (grants_to(f, kind, name) <==> n.string() == Some(name))
        },
{
}

/// A listener is for the routes of its own namespace, of all, or of those that its selector selects, and of the
/// kinds that it lists.
pub proof fn law_listeners_allow_routes(
    r: Resources,
    listener: Json,
    gateway_ns: Seq<char>,
    route_ns: Seq<char>,
    kind: Seq<char>,
    o: Object,
)
    ensures
        ({
            let allowed = listener.at("allowedRoutes"@);
            let from = allowed.at("namespaces"@).string_or("from"@, "Same"@);
            &&& !kind_allowed(allowed, kind) ==> !allowed_by(r, listener, gateway_ns, route_ns, kind)
            &&& kind_allowed(allowed, kind) && from == "All"@ ==> allowed_by(
                r,
                listener,
                gateway_ns,
                route_ns,
                kind,
            )
            &&& kind_allowed(allowed, kind) && from == "Same"@ ==> (allowed_by(
                r,
                listener,
                gateway_ns,
                route_ns,
                kind,
            ) <==> gateway_ns == route_ns)
            &&& from == "Selector"@ && r.object("Namespace"@, ""@, route_ns) is None ==> !allowed_by(
                r,
                listener,
                gateway_ns,
                route_ns,
                kind,
            )
            &&& kind_allowed(allowed, kind) && from == "Selector"@ && r.object("Namespace"@, ""@, route_ns)
                == Some(o) ==> (allowed_by(r, listener, gateway_ns, route_ns, kind) <==> selected(
                allowed.at("namespaces"@).at("selector"@),
                text::pairs(o.labels@),
            ))
            &&& from != "All"@ && from != "Same"@ && from != "Selector"@ ==> !allowed_by(
                r,
                listener,
                gateway_ns,
                route_ns,
                kind,
            )
        }),
{
    reveal_strlit("Same");
    reveal_strlit("All");
    assert("Same"@.len() != "All"@.len());
    reveal_strlit("Selector");
    assert("Same"@.len() != "Selector"@.len());
    reveal_strlit("All");
    reveal_strlit("Selector");
    assert("All"@.len() != "Selector"@.len());
}

/// The operators of a selector.
pub proof fn law_expressions_are_met(labels: Seq<(Seq<char>, Seq<char>)>, e: Json, value: Seq<char>)
    ensures
        ({
            let found = text::lookup(labels, e.string_or("key"@, ""@));
            let op = e.string_or("operator"@, ""@);
            &&& op == "Exists"@ ==> (expression_met(labels, e) <==> found is Some)
            &&& op == "DoesNotExist"@ ==> (expression_met(labels, e) <==> found is None)
            &&& op == "In"@ && found is None ==> !expression_met(labels, e)
            &&& op == "NotIn"@ && found is None ==> expression_met(labels, e)
            &&& found == Some(value) && e.at("values"@).list() is Some ==> {
                &&& op == "In"@ ==> (expression_met(labels, e) <==> lists_text(e.at("values"@).list()->0, value))
                &&& op == "NotIn"@ ==> (expression_met(labels, e) <==> !lists_text(
                    e.at("values"@).list()->0,
                    value,
                ))
            }
        }),
{
    reveal_strlit("In");
    reveal_strlit("NotIn");
    assert("In"@.len() != "NotIn"@.len());
    reveal_strlit("Exists");
    assert("In"@.len() != "Exists"@.len());
    reveal_strlit("DoesNotExist");
    assert("In"@.len() != "DoesNotExist"@.len());
    reveal_strlit("NotIn");
    reveal_strlit("Exists");
    assert("NotIn"@.len() != "Exists"@.len());
    reveal_strlit("DoesNotExist");
    assert("NotIn"@.len() != "DoesNotExist"@.len());
    reveal_strlit("Exists");
    reveal_strlit("DoesNotExist");
    assert("Exists"@.len() != "DoesNotExist"@.len());
}

/// An object is the one of that name in that namespace.
pub proof fn law_objects_are_of_their_namespace(v: Seq<Object>, ns: Seq<char>, name: Seq<char>, i: int)
    requires
        0 <= i < v.len(),
    ensures
        place(v, ns, name) matches Some(k) ==> 0 <= k < v.len() && is_at(v[k], ns, name),
        is_at(v[i], ns, name) ==> place(v, ns, name) is Some,
    decreases v.len(),
{
    let t = v.drop_first();
    if t.len() > 0 {
        let j = if i > 0 {
            i - 1
        } else {
            0
        };
        law_objects_are_of_their_namespace(t, ns, name, j);
        if i > 0 {
            assert(t[j] == v[i]);
        }
    } else {
        assert(place(t, ns, name) is None);
    }
}

/// The certificate of a listener is in one secret that may be referred to, and is there.
pub proof fn law_listeners_have_one_certificate(
    r: Resources,
    ns: Seq<char>,
    listener: Json,
    v: Seq<Json>,
)
    requires
        listener.at("tls"@).members() is Some,
        all_tls_members(listener.at("tls"@).members()->0),
        listener.at("tls"@).at("certificateRefs"@).list() == Some(v),
        listener.at("tls"@).string_or("mode"@, "Terminate"@) == "Terminate"@,
    ensures
        v.len() != 1 ==> secret_of(r, ns, listener) == Err::<(Seq<char>, Seq<char>), CertificateError>(
            CertificateError::NotOneReference,
        ),
        v.len() == 1 && v[0].string_or("group"@, ""@) == ""@ && v[0].string_or("kind"@, "Secret"@) == "Secret"@
            ==> {
            let home = v[0].string_or("namespace"@, ns);
            let name = v[0].string_or("name"@, ""@);
            let granted = permitted_by(r.all("ReferenceGrant"@), ns, "Gateway"@, home, "Secret"@, name);
            &&& !granted ==> secret_of(r, ns, listener) == Err::<(Seq<char>, Seq<char>), CertificateError>(
                CertificateError::NotPermitted,
            )
            &&& granted && r.object("Secret"@, home, name) is None ==> secret_of(r, ns, listener) == Err::<
                (Seq<char>, Seq<char>),
                CertificateError,
            >(CertificateError::SecretMissing)
            &&& granted && r.object("Secret"@, home, name) is Some ==> secret_of(r, ns, listener) == Ok::<
                (Seq<char>, Seq<char>),
                CertificateError,
            >((home, name))
        },
{
}

/// A secret is used where it is one of TLS, is whole, and its certificate holds and covers the host.
pub proof fn law_secrets_of_listeners_are_whole(
    s: TlsSecret,
    d: Vec<(String, Vec<u8>)>,
    host: Seq<char>,
    now: i64,
    pem: Seq<u8>,
    key: Seq<u8>,
    c: Credential,
)
    ensures
        secret_used(None, host, now) == Err::<Credential, CertificateError>(CertificateError::SecretUnreadable),
        text::opt(s.type_) != Some("kubernetes.io/tls"@) ==> secret_used(Some(s), host, now) == Err::<
            Credential,
            CertificateError,
        >(CertificateError::SecretType),
        text::opt(s.type_) == Some("kubernetes.io/tls"@) && s.data == Some(d) && kept(d@, "tls.crt"@) == Some(
            pem,
        ) && kept(d@, "tls.key"@) == Some(key) ==> {
            &&& parsed(pem, key, now) is Err ==> secret_used(Some(s), host, now) == Err::<
                Credential,
                CertificateError,
            >(CertificateError::Invalid)
            &&& parsed(pem, key, now) == Ok::<Credential, crate::certificates::CertificateError>(c) ==> {
                &&& host.len() > 0 && !covers(c, host) ==> secret_used(Some(s), host, now) == Err::<
                    Credential,
                    CertificateError,
                >(CertificateError::Name)
                &&& host.len() == 0 || covers(c, host) ==> secret_used(Some(s), host, now) == Ok::<
                    Credential,
                    CertificateError,
                >(c)
            }
        },
{
}

} // verus!
