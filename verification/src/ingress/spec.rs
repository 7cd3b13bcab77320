//! The parts of Ingress resources, and of the objects that they refer to.
use crate::model::copy_opt;
use crate::text;
use vstd::prelude::*;

verus! {

/// A port of a service, by its name or by its number.
#[derive(Debug)]
pub struct PortRef {
    pub name: Option<String>,
    pub number: Option<i32>,
}

#[derive(Debug)]
pub struct ServiceBackend {
    pub name: String,
    pub port: Option<PortRef>,
}

/// Where a path leads; without a service, to a resource of another kind.
#[derive(Debug)]
pub struct BackendSpec {
    pub service: Option<ServiceBackend>,
}

#[derive(Debug)]
pub struct PathSpec {
    pub path: Option<String>,
    pub path_type: String,
    pub backend: BackendSpec,
}

#[derive(Debug)]
pub struct RuleSpec {
    pub host: Option<String>,
    pub paths: Vec<PathSpec>,
}

#[derive(Debug)]
pub struct TlsSpec {
    pub hosts: Vec<String>,
    pub secret_name: Option<String>,
}

#[derive(Debug)]
pub struct IngressSpec {
    pub class_name: Option<String>,
    pub default_backend: Option<BackendSpec>,
    pub rules: Vec<RuleSpec>,
    pub tls: Vec<TlsSpec>,
}

// ---------------------------------------------------------------------------
// What they hold
// ---------------------------------------------------------------------------

/// What a `PortRef` holds.
#[verifier::ext_equal]
pub ghost struct PortName {
    pub name: Option<Seq<char>>,
    pub number: Option<i32>,
}

/// What a `ServiceBackend` holds.
#[verifier::ext_equal]
pub ghost struct Target {
    pub name: Seq<char>,
    pub port: Option<PortName>,
}

/// What a `PathSpec` holds.
#[verifier::ext_equal]
pub ghost struct PathRule {
    pub path: Option<Seq<char>>,
    pub path_type: Seq<char>,
    pub service: Option<Target>,
}

/// What a `RuleSpec` holds.
#[verifier::ext_equal]
pub ghost struct HostRule {
    pub host: Option<Seq<char>>,
    pub paths: Seq<PathRule>,
}

/// What a `TlsSpec` holds.
#[verifier::ext_equal]
pub ghost struct TlsRule {
    pub hosts: Seq<Seq<char>>,
    pub secret_name: Option<Seq<char>>,
}

/// What an `IngressSpec` holds; the default backend may name a service or not.
#[verifier::ext_equal]
pub ghost struct Shape {
    pub class_name: Option<Seq<char>>,
    pub default_backend: Option<Option<Target>>,
    pub rules: Seq<HostRule>,
    pub tls: Seq<TlsRule>,
}

impl View for PortRef {
    type V = PortName;

    open spec fn view(&self) -> PortName {
        PortName { name: text::opt(self.name), number: self.number }
    }
}

impl View for ServiceBackend {
    type V = Target;

    open spec fn view(&self) -> Target {
        Target {
            name: self.name@,
            port: match self.port {
                Some(p) => Some(p@),
                None => None,
            },
        }
    }
}

pub open spec fn target(s: Option<ServiceBackend>) -> Option<Target> {
    match s {
        Some(s) => Some(s@),
        None => None,
    }
}

impl View for PathSpec {
    type V = PathRule;

    open spec fn view(&self) -> PathRule {
        PathRule {
            path: text::opt(self.path),
            path_type: self.path_type@,
            service: target(self.backend.service),
        }
    }
}

pub open spec fn path_rules(v: Seq<PathSpec>) -> Seq<PathRule> {
    Seq::new(v.len(), |i: int| v[i]@)
}

impl View for RuleSpec {
    type V = HostRule;

    open spec fn view(&self) -> HostRule {
        HostRule { host: text::opt(self.host), paths: path_rules(self.paths@) }
    }
}

pub open spec fn host_rules(v: Seq<RuleSpec>) -> Seq<HostRule> {
    Seq::new(v.len(), |i: int| v[i]@)
}

impl View for TlsSpec {
    type V = TlsRule;

    open spec fn view(&self) -> TlsRule {
        TlsRule { hosts: text::texts(self.hosts@), secret_name: text::opt(self.secret_name) }
    }
}

pub open spec fn tls_rules(v: Seq<TlsSpec>) -> Seq<TlsRule> {
    Seq::new(v.len(), |i: int| v[i]@)
}

pub open spec fn default_target(b: Option<BackendSpec>) -> Option<Option<Target>> {
    match b {
        Some(b) => Some(target(b.service)),
        None => None,
    }
}

impl View for IngressSpec {
    type V = Shape;

    open spec fn view(&self) -> Shape {
        Shape {
            class_name: text::opt(self.class_name),
            default_backend: default_target(self.default_backend),
            rules: host_rules(self.rules@),
            tls: tls_rules(self.tls@),
        }
    }
}

// ---------------------------------------------------------------------------
// Copies and comparisons
// ---------------------------------------------------------------------------

pub fn same_opt(a: &Option<String>, b: &Option<String>) -> (r: bool)
    ensures
        r == (text::opt(*a) == text::opt(*b)),
{
    match (a, b) {
        (Some(a), Some(b)) => text::same(a.as_str(), b.as_str()),
        (None, None) => true,
        _ => false,
    }
}

pub fn same_texts(a: &Vec<String>, b: &Vec<String>) -> (r: bool)
    ensures
        r == (text::texts(a@) == text::texts(b@)),
{
    if a.len() != b.len() {
        assert(text::texts(a@).len() != text::texts(b@).len());
        return false;
    }
    let mut i: usize = 0;
    while i < a.len()
        invariant
            i <= a.len(),
            a.len() == b.len(),
            forall|j: int| 0 <= j < i ==> text::texts(a@)[j] == text::texts(b@)[j],
        decreases a.len() - i,
    {
        if !text::same(a[i].as_str(), b[i].as_str()) {
            assert(text::texts(a@)[i as int] != text::texts(b@)[i as int]);
            return false;
        }
        i += 1;
    }
    assert(text::texts(a@) =~= text::texts(b@));
    true
}

pub fn same_pairs(a: &Vec<(String, String)>, b: &Vec<(String, String)>) -> (r: bool)
    ensures
        r == (text::pairs(a@) == text::pairs(b@)),
{
    if a.len() != b.len() {
        assert(text::pairs(a@).len() != text::pairs(b@).len());
        return false;
    }
    let mut i: usize = 0;
    while i < a.len()
        invariant
            i <= a.len(),
            a.len() == b.len(),
            forall|j: int| 0 <= j < i ==> text::pairs(a@)[j] == text::pairs(b@)[j],
        decreases a.len() - i,
    {
        if !text::same(a[i].0.as_str(), b[i].0.as_str()) || !text::same(
            a[i].1.as_str(),
            b[i].1.as_str(),
        ) {
            assert(text::pairs(a@)[i as int] != text::pairs(b@)[i as int]);
            return false;
        }
        i += 1;
    }
    assert(text::pairs(a@) =~= text::pairs(b@));
    true
}

impl PortRef {
    pub fn copy(&self) -> (r: PortRef)
        ensures
            r@ == self@,
    {
        PortRef { name: copy_opt(&self.name), number: self.number }
    }

    pub fn same(&self, other: &PortRef) -> (r: bool)
        ensures
            r == (self@ == other@),
    {
        same_opt(&self.name, &other.name) && self.number == other.number
    }
}

impl ServiceBackend {
    pub fn copy(&self) -> (r: ServiceBackend)
        ensures
            r@ == self@,
    {
        ServiceBackend {
            name: self.name.clone(),
            port: match &self.port {
                Some(p) => Some(p.copy()),
                None => None,
            },
        }
    }

    pub fn same(&self, other: &ServiceBackend) -> (r: bool)
        ensures
            r == (self@ == other@),
    {
        text::same(self.name.as_str(), other.name.as_str()) && match (&self.port, &other.port) {
            (Some(a), Some(b)) => a.same(b),
            (None, None) => true,
            _ => false,
        }
    }
}

fn copy_service(s: &Option<ServiceBackend>) -> (r: Option<ServiceBackend>)
    ensures
        target(r) == target(*s),
{
    match s {
        Some(s) => Some(s.copy()),
        None => None,
    }
}

fn same_service(a: &Option<ServiceBackend>, b: &Option<ServiceBackend>) -> (r: bool)
    ensures
        r == (target(*a) == target(*b)),
{
    match (a, b) {
        (Some(a), Some(b)) => a.same(b),
        (None, None) => true,
        _ => false,
    }
}

fn copy_paths(v: &Vec<PathSpec>) -> (out: Vec<PathSpec>)
    ensures
        path_rules(out@) == path_rules(v@),
{
    let mut out: Vec<PathSpec> = Vec::new();
    let mut i: usize = 0;
    while i < v.len()
        invariant
            i <= v.len(),
            path_rules(out@) == path_rules(v@).take(i as int),
        decreases v.len() - i,
    {
        let ghost before = path_rules(out@);
        let p = &v[i];
        let q = PathSpec {
            path: copy_opt(&p.path),
            path_type: p.path_type.clone(),
            backend: BackendSpec { service: copy_service(&p.backend.service) },
        };
        assert(q@ == p@);
        out.push(q);
        assert(path_rules(out@) =~= before.push(p@));
        assert(path_rules(v@).take(i + 1) =~= path_rules(v@).take(i as int).push(p@));
        i += 1;
    }
    assert(path_rules(v@).take(i as int) =~= path_rules(v@));
    out
}

fn same_paths(a: &Vec<PathSpec>, b: &Vec<PathSpec>) -> (r: bool)
    ensures
        r == (path_rules(a@) == path_rules(b@)),
{
    if a.len() != b.len() {
        assert(path_rules(a@).len() != path_rules(b@).len());
        return false;
    }
    let mut i: usize = 0;
    while i < a.len()
        invariant
            i <= a.len(),
            a.len() == b.len(),
            forall|j: int| 0 <= j < i ==> path_rules(a@)[j] == path_rules(b@)[j],
        decreases a.len() - i,
    {
        let x = &a[i];
        let y = &b[i];
        if !same_opt(&x.path, &y.path) || !text::same(x.path_type.as_str(), y.path_type.as_str())
            || !same_service(&x.backend.service, &y.backend.service) {
            assert(path_rules(a@)[i as int] != path_rules(b@)[i as int]);
            return false;
        }
        i += 1;
    }
    assert(path_rules(a@) =~= path_rules(b@));
    true
}

fn copy_rules(v: &Vec<RuleSpec>) -> (out: Vec<RuleSpec>)
    ensures
        host_rules(out@) == host_rules(v@),
{
    let mut out: Vec<RuleSpec> = Vec::new();
    let mut i: usize = 0;
    while i < v.len()
        invariant
            i <= v.len(),
            host_rules(out@) == host_rules(v@).take(i as int),
        decreases v.len() - i,
    {
        let ghost before = host_rules(out@);
        let p = &v[i];
        let q = RuleSpec { host: copy_opt(&p.host), paths: copy_paths(&p.paths) };
        assert(q@ == p@);
        out.push(q);
        assert(host_rules(out@) =~= before.push(p@));
        assert(host_rules(v@).take(i + 1) =~= host_rules(v@).take(i as int).push(p@));
        i += 1;
    }
    assert(host_rules(v@).take(i as int) =~= host_rules(v@));
    out
}

fn same_rules(a: &Vec<RuleSpec>, b: &Vec<RuleSpec>) -> (r: bool)
    ensures
        r == (host_rules(a@) == host_rules(b@)),
{
    if a.len() != b.len() {
        assert(host_rules(a@).len() != host_rules(b@).len());
        return false;
    }
    let mut i: usize = 0;
    while i < a.len()
        invariant
            i <= a.len(),
            a.len() == b.len(),
            forall|j: int| 0 <= j < i ==> host_rules(a@)[j] == host_rules(b@)[j],
        decreases a.len() - i,
    {
        if !same_opt(&a[i].host, &b[i].host) || !same_paths(&a[i].paths, &b[i].paths) {
            assert(host_rules(a@)[i as int] != host_rules(b@)[i as int]);
            return false;
        }
        i += 1;
    }
    assert(host_rules(a@) =~= host_rules(b@));
    true
}

pub(crate) fn copy_tls(v: &Vec<TlsSpec>) -> (out: Vec<TlsSpec>)
    ensures
        tls_rules(out@) == tls_rules(v@),
{
    let mut out: Vec<TlsSpec> = Vec::new();
    let mut i: usize = 0;
    while i < v.len()
        invariant
            i <= v.len(),
            tls_rules(out@) == tls_rules(v@).take(i as int),
        decreases v.len() - i,
    {
        let ghost before = tls_rules(out@);
        let p = &v[i];
        let q = TlsSpec { hosts: text::copy_all(&p.hosts), secret_name: copy_opt(&p.secret_name) };
        assert(q@ == p@);
        out.push(q);
        assert(tls_rules(out@) =~= before.push(p@));
        assert(tls_rules(v@).take(i + 1) =~= tls_rules(v@).take(i as int).push(p@));
        i += 1;
    }
    assert(tls_rules(v@).take(i as int) =~= tls_rules(v@));
    out
}

fn same_tls(a: &Vec<TlsSpec>, b: &Vec<TlsSpec>) -> (r: bool)
    ensures
        r == (tls_rules(a@) == tls_rules(b@)),
{
    if a.len() != b.len() {
        assert(tls_rules(a@).len() != tls_rules(b@).len());
        return false;
    }
    let mut i: usize = 0;
    while i < a.len()
        invariant
            i <= a.len(),
            a.len() == b.len(),
            forall|j: int| 0 <= j < i ==> tls_rules(a@)[j] == tls_rules(b@)[j],
        decreases a.len() - i,
    {
        if !same_texts(&a[i].hosts, &b[i].hosts) || !same_opt(
            &a[i].secret_name,
            &b[i].secret_name,
        ) {
            assert(tls_rules(a@)[i as int] != tls_rules(b@)[i as int]);
            return false;
        }
        i += 1;
    }
    assert(tls_rules(a@) =~= tls_rules(b@));
    true
}

impl IngressSpec {
    /// The same resource again.
    pub fn copy(&self) -> (r: IngressSpec)
        ensures
            r@ == self@,
    {
        IngressSpec {
            class_name: copy_opt(&self.class_name),
            default_backend: match &self.default_backend {
                Some(b) => Some(BackendSpec { service: copy_service(&b.service) }),
                None => None,
            },
            rules: copy_rules(&self.rules),
            tls: copy_tls(&self.tls),
        }
    }

    pub fn same(&self, other: &IngressSpec) -> (r: bool)
        ensures
            r == (self@ == other@),
    {
        same_opt(&self.class_name, &other.class_name) && (match (
            &self.default_backend,
            &other.default_backend,
        ) {
            (Some(a), Some(b)) => same_service(&a.service, &b.service),
            (None, None) => true,
            _ => false,
        }) && same_rules(&self.rules, &other.rules) && same_tls(&self.tls, &other.tls)
    }
}

} // verus!
