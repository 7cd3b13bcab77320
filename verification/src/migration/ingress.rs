//! Ingresses as routes and listeners of gateways.
use crate::diagnostics::preflight::{insert_id, inserted};
use crate::digest::{digest_text, text_digest};
use crate::json::{copy_members, member_trees, put, start, Json, Tree};
use crate::tenancy;
use crate::text;
use vstd::prelude::*;

verus! {

/// The most objects that are read at once.
pub const MAX_OBJECTS: usize = 4096;

/// How many characters of an Ingress's name go into the names of its routes.
pub const NAME_PART: usize = 40;

// ---------------------------------------------------------------------------
// Findings
// ---------------------------------------------------------------------------

/// Why an Ingress cannot be converted.
#[derive(Debug)]
pub enum ConvertError {
    ApiVersion,
    Annotation(String),
    SecretMissing,
    HostsMissing,
    NoHosts,
    InvalidHost,
    WildcardCertificate,
    ConflictingSecrets(String),
    WildcardHost,
    PathsMissing,
    PathType,
    ResourceBackend,
    BackendName,
    PortMissing,
    UnknownPort,
    InvalidPort,
}

/// What a `ConvertError` holds.
#[verifier::ext_equal]
pub ghost enum Fault {
    ApiVersion,
    Annotation(Seq<char>),
    SecretMissing,
    HostsMissing,
    NoHosts,
    InvalidHost,
    WildcardCertificate,
    ConflictingSecrets(Seq<char>),
    WildcardHost,
    PathsMissing,
    PathType,
    ResourceBackend,
    BackendName,
    PortMissing,
    UnknownPort,
    InvalidPort,
}

impl View for ConvertError {
    type V = Fault;

    open spec fn view(&self) -> Fault {
        match self {
            ConvertError::ApiVersion => Fault::ApiVersion,
            ConvertError::Annotation(s) => Fault::Annotation(s@),
            ConvertError::SecretMissing => Fault::SecretMissing,
            ConvertError::HostsMissing => Fault::HostsMissing,
            ConvertError::NoHosts => Fault::NoHosts,
            ConvertError::InvalidHost => Fault::InvalidHost,
            ConvertError::WildcardCertificate => Fault::WildcardCertificate,
            ConvertError::ConflictingSecrets(s) => Fault::ConflictingSecrets(s@),
            ConvertError::WildcardHost => Fault::WildcardHost,
            ConvertError::PathsMissing => Fault::PathsMissing,
            ConvertError::PathType => Fault::PathType,
            ConvertError::ResourceBackend => Fault::ResourceBackend,
            ConvertError::BackendName => Fault::BackendName,
            ConvertError::PortMissing => Fault::PortMissing,
            ConvertError::UnknownPort => Fault::UnknownPort,
            ConvertError::InvalidPort => Fault::InvalidPort,
        }
    }
}

/// What was found out about a resource.
#[derive(Debug)]
pub enum Note {
    /// Two rules claim the same paths of a host.
    Conflict,
    /// The default backend of a namespace overlaps another, or rules without a host.
    DefaultOverlap,
    /// The kind of a path is left to the implementation.
    ImplementationSpecific,
    /// The Ingress cannot be converted.
    Failed(ConvertError),
}

/// What a `Note` holds.
#[verifier::ext_equal]
pub ghost enum Hint {
    Conflict,
    DefaultOverlap,
    ImplementationSpecific,
    Failed(Fault),
}

impl View for Note {
    type V = Hint;

    open spec fn view(&self) -> Hint {
        match self {
            Note::Conflict => Hint::Conflict,
            Note::DefaultOverlap => Hint::DefaultOverlap,
            Note::ImplementationSpecific => Hint::ImplementationSpecific,
            Note::Failed(e) => Hint::Failed(e@),
        }
    }
}

#[derive(Debug)]
pub struct Finding {
    pub resource: String,
    pub note: Note,
}

pub open spec fn hints(v: Seq<Finding>) -> Seq<(Seq<char>, Hint)> {
    Seq::new(v.len(), |i: int| (v[i].resource@, v[i].note@))
}

impl Hint {
    /// Whether something has to be settled by hand before the conversion counts.
    pub open spec fn blocks(self) -> bool {
        !(self is ImplementationSpecific)
    }
}

fn note(v: &mut Vec<Finding>, resource: &str, note: Note)
    ensures
        hints(final(v)@) == hints(old(v)@).push((resource@, note@)),
{
    let ghost before = hints(v@);
    let ghost x = (resource@, note@);
    v.push(Finding { resource: resource.to_owned(), note });
    assert(hints(v@) =~= before.push(x));
}

// ---------------------------------------------------------------------------
// Objects
// ---------------------------------------------------------------------------

/// Some values, by what they are.
pub open spec fn values(v: Seq<&Json>) -> Seq<Json> {
    Seq::new(v.len(), |i: int| *v[i])
}

pub open spec fn of_kind(o: Json, kind: Seq<char>) -> bool {
    o.at("kind"@).string() == Some(kind)
}

fn is_kind(o: &Json, kind: &str) -> (r: bool)
    ensures
        r == of_kind(*o, kind@),
{
    match o.get_str("kind") {
        Some(s) => text::same(s, kind),
        None => false,
    }
}

/// The namespace of an Ingress.
pub open spec fn namespace_of(o: Json, default_ns: Seq<char>) -> Seq<char> {
    o.at("metadata"@).string_or("namespace"@, default_ns)
}

fn namespace<'a>(o: &'a Json, default_ns: &'a str) -> (r: &'a str)
    ensures
        r@ == namespace_of(*o, default_ns@),
{
    o.field("metadata").text("namespace", default_ns)
}

/// Whether an object is the Service of a name in a namespace; one without a namespace is in the default
/// one.
pub open spec fn is_service_of(o: Json, name: Seq<char>, ns: Seq<char>, default_ns: Seq<char>) -> bool {
    let place = o.at("metadata"@).at("namespace"@);
    &&& of_kind(o, "Service"@)
    &&& o.at("metadata"@).at("name"@).string() == Some(name)
    &&& if place is Null {
        default_ns == ns
    } else {
        place.string() is Some ==> place.string()->0 == ns
    }
}

fn serves(o: &Json, name: &str, ns: &str, default_ns: &str) -> (r: bool)
    ensures
        r == is_service_of(*o, name@, ns@, default_ns@),
{
    if !is_kind(o, "Service") {
        return false;
    }
    let m = o.field("metadata");
    let named = match m.get_str("name") {
        Some(s) => text::same(s, name),
        None => false,
    };
    if !named {
        return false;
    }
    match m.field("namespace") {
        Json::Null => text::same(default_ns, ns),
        Json::Text(s) => text::same(s.as_str(), ns),
        _ => true,
    }
}

/// The first Service of a name in a namespace.
pub open spec fn service_in(
    v: Seq<Json>,
    name: Seq<char>,
    ns: Seq<char>,
    default_ns: Seq<char>,
) -> Option<Json>
    decreases v.len(),
{
    if v.len() == 0 {
        None
    } else if is_service_of(v[0], name, ns, default_ns) {
        Some(v[0])
    } else {
        service_in(v.drop_first(), name, ns, default_ns)
    }
}

fn find_service<'a>(v: &Vec<&'a Json>, name: &str, ns: &str, default_ns: &str) -> (r: Option<
    &'a Json,
>)
    ensures
        match r {
            Some(j) => service_in(values(v@), name@, ns@, default_ns@) == Some(*j),
            None => service_in(values(v@), name@, ns@, default_ns@) is None,
        },
{
    let ghost all = values(v@);
    let mut i: usize = 0;
    assert(all.skip(0) =~= all);
    while i < v.len()
        invariant
            i <= v.len(),
            all == values(v@),
            service_in(all.skip(i as int), name@, ns@, default_ns@) == service_in(
                all,
                name@,
                ns@,
                default_ns@,
            ),
        decreases v.len() - i,
    {
        assert(all.skip(i as int).drop_first() =~= all.skip(i + 1));
        assert(all.skip(i as int)[0] == *v@[i as int]);
        if serves(v[i], name, ns, default_ns) {
            return Some(v[i]);
        }
        i += 1;
    }
    None
}

/// The first port of a name.
pub open spec fn port_in(v: Seq<Json>, name: Seq<char>) -> Option<Json>
    decreases v.len(),
{
    if v.len() == 0 {
        None
    } else if v[0].at("name"@).string() == Some(name) {
        Some(v[0])
    } else {
        port_in(v.drop_first(), name)
    }
}

fn find_port<'a>(v: &'a Vec<Json>, name: &str) -> (r: Option<&'a Json>)
    ensures
        match r {
            Some(j) => port_in(v@, name@) == Some(*j),
            None => port_in(v@, name@) is None,
        },
{
    let mut i: usize = 0;
    assert(v@.skip(0) =~= v@);
    while i < v.len()
        invariant
            i <= v.len(),
            port_in(v@.skip(i as int), name@) == port_in(v@, name@),
        decreases v.len() - i,
    {
        assert(v@.skip(i as int).drop_first() =~= v@.skip(i + 1));
        let found = match v[i].get_str("name") {
            Some(s) => text::same(s, name),
            None => false,
        };
        if found {
            return Some(&v[i]);
        }
        i += 1;
    }
    None
}

/// The number of a named port, by the Services of the input.
pub open spec fn named_port(
    objects: Seq<Json>,
    service: Seq<char>,
    port: Seq<char>,
    ns: Seq<char>,
    default_ns: Seq<char>,
) -> Option<nat> {
    match service_in(objects, service, ns, default_ns) {
        None => None,
        Some(o) => match o.at("spec"@).at("ports"@).list() {
            None => None,
            Some(ports) => match port_in(ports, port) {
                None => None,
                Some(p) => p.at("port"@).number(),
            },
        },
    }
}

/// The Service that a backend is, and its port.
pub open spec fn backend_of(
    value: Json,
    objects: Seq<Json>,
    ns: Seq<char>,
    default_ns: Seq<char>,
) -> Result<(Seq<char>, nat), Fault> {
    let service = value.at("service"@);
    if value.entry("resource"@) is Some {
        Err(Fault::ResourceBackend)
    } else {
        match service.at("name"@).string() {
            None => Err(Fault::BackendName),
            Some(name) => {
                let number = match service.at("port"@).at("number"@).number() {
                    Some(n) => Ok(n),
                    None => match service.at("port"@).at("name"@).string() {
                        None => Err(Fault::PortMissing),
                        Some(port) => match named_port(objects, name, port, ns, default_ns) {
                            None => Err(Fault::UnknownPort),
                            Some(n) => Ok(n),
                        },
                    },
                };
                match number {
                    Err(e) => Err(e),
                    Ok(n) => if 1 <= n <= 65535 {
                        Ok((name, n))
                    } else {
                        Err(Fault::InvalidPort)
                    },
                }
            },
        }
    }
}

fn read_port(
    port: &Json,
    service: &str,
    objects: &Vec<&Json>,
    ns: &str,
    default_ns: &str,
) -> (r: Result<u64, ConvertError>)
    ensures
        match r {
            Ok(n) => Ok::<nat, Fault>(n as nat),
            Err(e) => Err(e@),
        } == match port.at("number"@).number() {
            Some(n) => Ok::<nat, Fault>(n),
            None => match port.at("name"@).string() {
                None => Err(Fault::PortMissing),
                Some(p) => match named_port(values(objects@), service@, p, ns@, default_ns@) {
                    None => Err(Fault::UnknownPort),
                    Some(n) => Ok(n),
                },
            },
        },
{
    if let Some(n) = port.field("number").as_u64() {
        return Ok(n);
    }
    let name = match port.get_str("name") {
        None => return Err(ConvertError::PortMissing),
        Some(s) => s,
    };
    match find_service(objects, service, ns, default_ns) {
        None => Err(ConvertError::UnknownPort),
        Some(o) => match o.field("spec").get_array("ports") {
            None => Err(ConvertError::UnknownPort),
            Some(ports) => match find_port(ports, name) {
                None => Err(ConvertError::UnknownPort),
                Some(p) => match p.field("port").as_u64() {
                    None => Err(ConvertError::UnknownPort),
                    Some(n) => Ok(n),
                },
            },
        },
    }
}

/// The Service that a backend is, and its port.
pub fn backend(value: &Json, objects: &Vec<&Json>, ns: &str, default_ns: &str) -> (r: Result<
    (String, u16),
    ConvertError,
>)
    ensures
        match r {
            Ok(b) => Ok::<(Seq<char>, nat), Fault>((b.0@, b.1 as nat)),
            Err(e) => Err(e@),
        } == backend_of(*value, values(objects@), ns@, default_ns@),
{
    if value.get("resource").is_some() {
        return Err(ConvertError::ResourceBackend);
    }
    let service = value.field("service");
    match service.get_str("name") {
        None => Err(ConvertError::BackendName),
        Some(name) => match read_port(service.field("port"), name, objects, ns, default_ns) {
            Err(e) => Err(e),
            Ok(n) => if 1 <= n && n <= 65535 {
                Ok((name.to_owned(), n as u16))
            } else {
                Err(ConvertError::InvalidPort)
            },
        },
    }
}

// ---------------------------------------------------------------------------
// Annotations
// ---------------------------------------------------------------------------

/// Annotations that say nothing about requests.
pub open spec fn ignored_annotation(key: Seq<char>) -> bool {
    ||| key == "kubernetes.io/ingress.class"@
    ||| key == "kubectl.kubernetes.io/last-applied-configuration"@
}

/// Annotations that mean the same on a route.
pub open spec fn kept_annotation(key: Seq<char>) -> bool {
    ||| key == "rgnix.io/script"@
    ||| key == "rgnix.io/request-body"@
    ||| key == "rgnix.io/request-body-timeout"@
    ||| key == "rgnix.io/client-max-body-size"@
}

/// The annotations that go on the routes.
pub open spec fn annotations_of(v: Seq<(String, Json)>) -> Result<Seq<(Seq<char>, Tree)>, Fault>
    decreases v.len(),
{
    if v.len() == 0 {
        Ok(Seq::empty())
    } else {
        match annotations_of(v.drop_last()) {
            Err(e) => Err(e),
            Ok(w) => if ignored_annotation(v.last().0@) {
                Ok(w)
            } else if kept_annotation(v.last().0@) {
                Ok(w.push((v.last().0@, v.last().1.tree())))
            } else {
                Err(Fault::Annotation(v.last().0@))
            },
        }
    }
}

proof fn lemma_annotations_error(v: Seq<(String, Json)>, i: int)
    requires
        0 <= i <= v.len(),
        annotations_of(v.take(i)) is Err,
    ensures
        annotations_of(v) == annotations_of(v.take(i)),
    decreases v.len(),
{
    if i < v.len() {
        assert(v.drop_last().take(i) =~= v.take(i));
        lemma_annotations_error(v.drop_last(), i);
    } else {
        assert(v.take(i) =~= v);
    }
}

pub open spec fn members_of_result(r: Result<Vec<(String, Json)>, ConvertError>) -> Result<
    Seq<(Seq<char>, Tree)>,
    Fault,
> {
    match r {
        Ok(v) => Ok(member_trees(v@)),
        Err(e) => Err(e@),
    }
}

/// The annotations that go on the routes.
pub fn keep_annotations(v: &Vec<(String, Json)>) -> (r: Result<Vec<(String, Json)>, ConvertError>)
    ensures
        members_of_result(r) == annotations_of(v@),
{
    let mut out = start();
    let mut i: usize = 0;
    while i < v.len()
        invariant
            i <= v.len(),
            annotations_of(v@.take(i as int)) == Ok::<Seq<(Seq<char>, Tree)>, Fault>(member_trees(out@)),
        decreases v.len() - i,
    {
        let key = v[i].0.as_str();
        assert(v@.take(i + 1).drop_last() =~= v@.take(i as int));
        assert(v@.take(i + 1).last() == v@[i as int]);
        if text::same(key, "kubernetes.io/ingress.class") || text::same(
            key,
            "kubectl.kubernetes.io/last-applied-configuration",
        ) {
        } else if text::same(key, "rgnix.io/script") || text::same(key, "rgnix.io/request-body")
            || text::same(key, "rgnix.io/request-body-timeout") || text::same(
            key,
            "rgnix.io/client-max-body-size",
        ) {
            put(&mut out, key, v[i].1.copy());
        } else {
            proof {
                lemma_annotations_error(v@, i + 1);
            }
            return Err(ConvertError::Annotation(key.to_owned()));
        }
        i += 1;
    }
    assert(v@.take(i as int) =~= v@);
    Ok(out)
}

// ---------------------------------------------------------------------------
// Listeners
// ---------------------------------------------------------------------------

/// A listener of a gateway: the plain one, or one with a certificate.
#[derive(Debug)]
pub struct ListenerEntry {
    pub name: String,
    /// The host and the Secret that holds its certificate.
    pub tls: Option<(String, String)>,
}

/// What a `ListenerEntry` holds.
#[verifier::ext_equal]
pub ghost struct Door {
    pub name: Seq<char>,
    pub tls: Option<(Seq<char>, Seq<char>)>,
}

impl View for ListenerEntry {
    type V = Door;

    open spec fn view(&self) -> Door {
        Door {
            name: self.name@,
            tls: match self.tls {
                Some(t) => Some((t.0@, t.1@)),
                None => None,
            },
        }
    }
}

pub open spec fn doors(v: Seq<ListenerEntry>) -> Seq<Door> {
    Seq::new(v.len(), |i: int| v[i]@)
}

/// The name of the listener of a host.
pub open spec fn listener_name(host: Seq<char>) -> Seq<char> {
    ("tls-"@ + text_digest(host)).take(20)
}

fn name_listener(host: &str) -> (out: String)
    ensures
        out@ == listener_name(host@),
{
    proof {
        reveal_strlit("tls-");
    }
    let s = text::concat("tls-", digest_text(host).as_str());
    let v = text::chars(s.as_str());
    let out = text::slice(&v, 0, 20);
    assert(out@ =~= s@.take(20));
    out
}

pub open spec fn door_named(v: Seq<Door>, name: Seq<char>) -> Option<Door>
    decreases v.len(),
{
    if v.len() == 0 {
        None
    } else if v[0].name == name {
        Some(v[0])
    } else {
        door_named(v.drop_first(), name)
    }
}

/// The listeners with one more, in the order of their names; it takes the place of one of its name.
pub open spec fn with_door(v: Seq<Door>, d: Door) -> Seq<Door>
    decreases v.len(),
{
    if v.len() == 0 {
        seq![d]
    } else if v[0].name == d.name {
        seq![d] + v.drop_first()
    } else if text::before(d.name, v[0].name) {
        seq![d] + v
    } else {
        seq![v[0]] + with_door(v.drop_first(), d)
    }
}

fn find_door<'a>(v: &'a Vec<ListenerEntry>, name: &str) -> (r: Option<&'a ListenerEntry>)
    ensures
        match r {
            Some(e) => door_named(doors(v@), name@) == Some(e@),
            None => door_named(doors(v@), name@) is None,
        },
{
    let ghost all = doors(v@);
    let mut i: usize = 0;
    assert(all.skip(0) =~= all);
    while i < v.len()
        invariant
            i <= v.len(),
            all == doors(v@),
            door_named(all.skip(i as int), name@) == door_named(all, name@),
        decreases v.len() - i,
    {
        assert(all.skip(i as int).drop_first() =~= all.skip(i + 1));
        assert(all.skip(i as int)[0] == v@[i as int]@);
        if text::same(v[i].name.as_str(), name) {
            return Some(&v[i]);
        }
        i += 1;
    }
    None
}

fn add_door(v: &mut Vec<ListenerEntry>, e: ListenerEntry)
    ensures
        doors(final(v)@) == with_door(doors(old(v)@), e@),
{
    let ghost all = doors(v@);
    let ghost d = e@;
    let mut i: usize = 0;
    proof {
        assert(all.skip(0) =~= all);
        assert(all.take(0) + with_door(all.skip(0), d) =~= with_door(all, d));
    }
    while i < v.len() && !text::same(v[i].name.as_str(), e.name.as_str()) && !text::is_before(
        e.name.as_str(),
        v[i].name.as_str(),
    )
        invariant
            i <= v.len(),
            all == doors(v@),
            d == e@,
            all.take(i as int) + with_door(all.skip(i as int), d) == with_door(all, d),
        decreases v.len() - i,
    {
        proof {
            let rest = all.skip(i as int);
            assert(rest[0] == v@[i as int]@);
            assert(rest.drop_first() =~= all.skip(i + 1));
            assert(all.take(i + 1) + with_door(all.skip(i + 1), d) =~= all.take(i as int)
                + with_door(rest, d));
        }
        i += 1;
    }
    if i < v.len() && text::same(v[i].name.as_str(), e.name.as_str()) {
        proof {
            let rest = all.skip(i as int);
            assert(rest[0] == v@[i as int]@);
            assert(rest.drop_first() =~= all.skip(i + 1));
            assert(all.take(i as int) + (seq![d] + all.skip(i + 1)) =~= all.update(i as int, d));
        }
        v.set(i, e);
        assert(doors(v@) =~= all.update(i as int, d));
    } else {
        proof {
            let rest = all.skip(i as int);
            if i == v.len() {
                assert(rest =~= Seq::empty());
                assert(all.take(i as int) + seq![d] =~= all.insert(i as int, d));
            } else {
                assert(rest[0] == v@[i as int]@);
                assert(all.take(i as int) + (seq![d] + rest) =~= all.insert(i as int, d));
            }
        }
        v.insert(i, e);
        assert(doors(v@) =~= all.insert(i as int, d));
    }
}

/// The listeners with those of some hosts, which share a Secret, as far as that goes.
pub open spec fn with_hosts(v: Seq<Door>, hosts: Seq<Json>, secret: Seq<char>) -> (
    Seq<Door>,
    Option<Fault>,
)
    decreases hosts.len(),
{
    if hosts.len() == 0 {
        (v, None)
    } else {
        let (w, e) = with_hosts(v, hosts.drop_last(), secret);
        if e is Some {
            (w, e)
        } else {
            match hosts.last().string() {
                None => (w, Some(Fault::InvalidHost)),
                Some(host) => {
                    let d = Door { name: listener_name(host), tls: Some((host, secret)) };
                    if text::starts(host, "*."@) {
                        (w, Some(Fault::WildcardCertificate))
                    } else if door_named(w, d.name) is Some && door_named(w, d.name) != Some(d) {
                        (w, Some(Fault::ConflictingSecrets(host)))
                    } else {
                        (with_door(w, d), None)
                    }
                },
            }
        }
    }
}

proof fn lemma_hosts_error(v: Seq<Door>, hosts: Seq<Json>, secret: Seq<char>, i: int)
    requires
        0 <= i <= hosts.len(),
        with_hosts(v, hosts.take(i), secret).1 is Some,
    ensures
        with_hosts(v, hosts, secret) == with_hosts(v, hosts.take(i), secret),
    decreases hosts.len(),
{
    if i < hosts.len() {
        assert(hosts.drop_last().take(i) =~= hosts.take(i));
        lemma_hosts_error(v, hosts.drop_last(), secret, i);
    } else {
        assert(hosts.take(i) =~= hosts);
    }
}

pub open spec fn fault(r: Result<(), ConvertError>) -> Option<Fault> {
    match r {
        Ok(_) => None,
        Err(e) => Some(e@),
    }
}

fn same_door(e: &ListenerEntry, host: &str, secret: &str) -> (r: bool)
    ensures
        r == (e@.tls == Some((host@, secret@))),
{
    match &e.tls {
        Some(t) => text::same(t.0.as_str(), host) && text::same(t.1.as_str(), secret),
        None => false,
    }
}

proof fn lemma_door_named(v: Seq<Door>, name: Seq<char>)
    ensures
        door_named(v, name) is Some ==> door_named(v, name)->0.name == name,
    decreases v.len(),
{
    if v.len() > 0 {
        lemma_door_named(v.drop_first(), name);
    }
}

fn add_hosts(v: &mut Vec<ListenerEntry>, hosts: &Vec<Json>, secret: &str) -> (r: Result<
    (),
    ConvertError,
>)
    ensures
        (doors(final(v)@), fault(r)) == with_hosts(doors(old(v)@), hosts@, secret@),
{
    let ghost start = doors(v@);
    let mut i: usize = 0;
    while i < hosts.len()
        invariant
            i <= hosts.len(),
            start == doors(old(v)@),
            with_hosts(start, hosts@.take(i as int), secret@) == (doors(v@), None::<Fault>),
        decreases hosts.len() - i,
    {
        proof {
            assert(hosts@.take(i + 1).drop_last() =~= hosts@.take(i as int));
            assert(hosts@.take(i + 1).last() == hosts@[i as int]);
        }
        let host = match hosts[i].as_str() {
            None => {
                proof {
                    lemma_hosts_error(start, hosts@, secret@, i + 1);
                }
                return Err(ConvertError::InvalidHost);
            },
            Some(s) => s,
        };
        if text::starts_with(host, "*.") {
            proof {
                lemma_hosts_error(start, hosts@, secret@, i + 1);
            }
            return Err(ConvertError::WildcardCertificate);
        }
        let name = name_listener(host);
        proof {
            lemma_door_named(doors(v@), name@);
        }
        if let Some(e) = find_door(v, name.as_str()) {
            if !same_door(e, host, secret) {
                proof {
                    lemma_hosts_error(start, hosts@, secret@, i + 1);
                }
                return Err(ConvertError::ConflictingSecrets(host.to_owned()));
            }
        }
        add_door(v, ListenerEntry { name, tls: Some((host.to_owned(), secret.to_owned())) });
        i += 1;
    }
    assert(hosts@.take(i as int) =~= hosts@);
    Ok(())
}

/// The listeners with those that an Ingress asks for, as far as that goes.
pub open spec fn with_tls(v: Seq<Door>, tls: Seq<Json>) -> (Seq<Door>, Option<Fault>)
    decreases tls.len(),
{
    if tls.len() == 0 {
        (v, None)
    } else {
        let (w, e) = with_tls(v, tls.drop_last());
        if e is Some {
            (w, e)
        } else {
            match tls.last().at("secretName"@).string() {
                None => (w, Some(Fault::SecretMissing)),
                Some(secret) => match tls.last().at("hosts"@).list() {
                    None => (w, Some(Fault::HostsMissing)),
                    Some(hosts) => if hosts.len() == 0 {
                        (w, Some(Fault::NoHosts))
                    } else {
                        with_hosts(w, hosts, secret)
                    },
                },
            }
        }
    }
}

proof fn lemma_tls_error(v: Seq<Door>, tls: Seq<Json>, i: int)
    requires
        0 <= i <= tls.len(),
        with_tls(v, tls.take(i)).1 is Some,
    ensures
        with_tls(v, tls) == with_tls(v, tls.take(i)),
    decreases tls.len(),
{
    if i < tls.len() {
        assert(tls.drop_last().take(i) =~= tls.take(i));
        lemma_tls_error(v, tls.drop_last(), i);
    } else {
        assert(tls.take(i) =~= tls);
    }
}

fn add_tls(v: &mut Vec<ListenerEntry>, tls: &Vec<Json>) -> (r: Result<(), ConvertError>)
    ensures
        (doors(final(v)@), fault(r)) == with_tls(doors(old(v)@), tls@),
{
    let ghost start = doors(v@);
    let mut i: usize = 0;
    while i < tls.len()
        invariant
            i <= tls.len(),
            start == doors(old(v)@),
            with_tls(start, tls@.take(i as int)) == (doors(v@), None::<Fault>),
        decreases tls.len() - i,
    {
        proof {
            assert(tls@.take(i + 1).drop_last() =~= tls@.take(i as int));
            assert(tls@.take(i + 1).last() == tls@[i as int]);
        }
        let secret = match tls[i].get_str("secretName") {
            None => {
                proof {
                    lemma_tls_error(start, tls@, i + 1);
                }
                return Err(ConvertError::SecretMissing);
            },
            Some(s) => s,
        };
        let hosts = match tls[i].get_array("hosts") {
            None => {
                proof {
                    lemma_tls_error(start, tls@, i + 1);
                }
                return Err(ConvertError::HostsMissing);
            },
            Some(h) => h,
        };
        if hosts.len() == 0 {
            proof {
                lemma_tls_error(start, tls@, i + 1);
            }
            return Err(ConvertError::NoHosts);
        }
        if let Err(e) = add_hosts(v, hosts, secret) {
            proof {
                lemma_tls_error(start, tls@, i + 1);
            }
            return Err(e);
        }
        i += 1;
    }
    assert(tls@.take(i as int) =~= tls@);
    Ok(())
}

/// The gateway of a namespace.
#[derive(Debug)]
pub struct Gateway {
    pub namespace: String,
    pub listeners: Vec<ListenerEntry>,
}

pub open spec fn gates(v: Seq<Gateway>) -> Seq<(Seq<char>, Seq<Door>)> {
    Seq::new(v.len(), |i: int| (v[i].namespace@, doors(v[i].listeners@)))
}

/// The listeners of a namespace; none where it has no gateway yet.
pub open spec fn doors_of(v: Seq<(Seq<char>, Seq<Door>)>, ns: Seq<char>) -> Seq<Door>
    decreases v.len(),
{
    if v.len() == 0 {
        Seq::empty()
    } else if v[0].0 == ns {
        v[0].1
    } else {
        doors_of(v.drop_first(), ns)
    }
}

/// The gateways with other listeners in a namespace, in the order of the namespaces.
pub open spec fn with_doors(
    v: Seq<(Seq<char>, Seq<Door>)>,
    ns: Seq<char>,
    d: Seq<Door>,
) -> Seq<(Seq<char>, Seq<Door>)>
    decreases v.len(),
{
    if v.len() == 0 {
        seq![(ns, d)]
    } else if v[0].0 == ns {
        seq![(ns, d)] + v.drop_first()
    } else if text::before(ns, v[0].0) {
        seq![(ns, d)] + v
    } else {
        seq![v[0]] + with_doors(v.drop_first(), ns, d)
    }
}

fn copy_doors(v: &Vec<ListenerEntry>) -> (out: Vec<ListenerEntry>)
    ensures
        doors(out@) == doors(v@),
{
    let mut out: Vec<ListenerEntry> = Vec::new();
    let mut i: usize = 0;
    while i < v.len()
        invariant
            i <= v.len(),
            doors(out@) == doors(v@).take(i as int),
        decreases v.len() - i,
    {
        let ghost before = doors(out@);
        let e = ListenerEntry {
            name: v[i].name.clone(),
            tls: match &v[i].tls {
                Some(t) => Some((t.0.clone(), t.1.clone())),
                None => None,
            },
        };
        let ghost d = e@;
        out.push(e);
        proof {
            assert(doors(out@) =~= before.push(d));
            assert(doors(v@).take(i + 1) =~= doors(v@).take(i as int).push(d));
        }
        i += 1;
    }
    assert(doors(v@).take(i as int) =~= doors(v@));
    out
}

fn find_doors(v: &Vec<Gateway>, ns: &str) -> (out: Vec<ListenerEntry>)
    ensures
        doors(out@) == doors_of(gates(v@), ns@),
{
    let ghost all = gates(v@);
    let mut i: usize = 0;
    assert(all.skip(0) =~= all);
    while i < v.len()
        invariant
            i <= v.len(),
            all == gates(v@),
            doors_of(all.skip(i as int), ns@) == doors_of(all, ns@),
        decreases v.len() - i,
    {
        assert(all.skip(i as int).drop_first() =~= all.skip(i + 1));
        assert(all.skip(i as int)[0] == (v@[i as int].namespace@, doors(v@[i as int].listeners@)));
        if text::same(v[i].namespace.as_str(), ns) {
            return copy_doors(&v[i].listeners);
        }
        i += 1;
    }
    let out: Vec<ListenerEntry> = Vec::new();
    assert(doors(out@) =~= Seq::empty());
    out
}

fn put_doors(v: &mut Vec<Gateway>, ns: &str, listeners: Vec<ListenerEntry>)
    ensures
        gates(final(v)@) == with_doors(gates(old(v)@), ns@, doors(listeners@)),
{
    let ghost all = gates(v@);
    let ghost d = doors(listeners@);
    let ghost x = (ns@, d);
    let mut i: usize = 0;
    proof {
        assert(all.skip(0) =~= all);
        assert(all.take(0) + with_doors(all.skip(0), ns@, d) =~= with_doors(all, ns@, d));
    }
    while i < v.len() && !text::same(v[i].namespace.as_str(), ns) && !text::is_before(
        ns,
        v[i].namespace.as_str(),
    )
        invariant
            i <= v.len(),
            all == gates(v@),
            all.take(i as int) + with_doors(all.skip(i as int), ns@, d) == with_doors(all, ns@, d),
        decreases v.len() - i,
    {
        proof {
            let rest = all.skip(i as int);
            assert(rest[0].0 == v@[i as int].namespace@);
            assert(rest.drop_first() =~= all.skip(i + 1));
            assert(all.take(i + 1) + with_doors(all.skip(i + 1), ns@, d) =~= all.take(i as int)
                + with_doors(rest, ns@, d));
        }
        i += 1;
    }
    let g = Gateway { namespace: ns.to_owned(), listeners };
    if i < v.len() && text::same(v[i].namespace.as_str(), ns) {
        proof {
            let rest = all.skip(i as int);
            assert(rest[0].0 == v@[i as int].namespace@);
            assert(rest.drop_first() =~= all.skip(i + 1));
            assert(all.take(i as int) + (seq![x] + all.skip(i + 1)) =~= all.update(i as int, x));
        }
        v.set(i, g);
        assert(gates(v@) =~= all.update(i as int, x));
    } else {
        proof {
            let rest = all.skip(i as int);
            if i == v.len() {
                assert(rest =~= Seq::empty());
                assert(all.take(i as int) + seq![x] =~= all.insert(i as int, x));
            } else {
                assert(rest[0].0 == v@[i as int].namespace@);
                assert(all.take(i as int) + (seq![x] + rest) =~= all.insert(i as int, x));
            }
        }
        v.insert(i, g);
        assert(gates(v@) =~= all.insert(i as int, x));
    }
}

// ---------------------------------------------------------------------------
// Routes
// ---------------------------------------------------------------------------

/// A rule of a route: paths, and the Service that they go to.
#[derive(Debug)]
pub struct PathRule {
    pub exact: bool,
    pub value: String,
    pub service: String,
    pub port: u16,
}

/// What a `PathRule` holds.
#[verifier::ext_equal]
pub ghost struct Lane {
    pub exact: bool,
    pub value: Seq<char>,
    pub service: Seq<char>,
    pub port: nat,
}

impl View for PathRule {
    type V = Lane;

    open spec fn view(&self) -> Lane {
        Lane {
            exact: self.exact,
            value: self.value@,
            service: self.service@,
            port: self.port as nat,
        }
    }
}

pub open spec fn lanes(v: Seq<PathRule>) -> Seq<Lane> {
    Seq::new(v.len(), |i: int| v[i]@)
}

/// A route.
#[derive(Debug)]
pub struct HttpRoute {
    pub name: String,
    pub namespace: String,
    /// The annotations of the Ingress that the route keeps.
    pub annotations: Vec<(String, Json)>,
    /// The host; every host where this is empty.
    pub host: String,
    pub rules: Vec<PathRule>,
}

/// What an `HttpRoute` holds.
#[verifier::ext_equal]
pub ghost struct Way {
    pub name: Seq<char>,
    pub namespace: Seq<char>,
    pub annotations: Seq<(Seq<char>, Tree)>,
    pub host: Seq<char>,
    pub rules: Seq<Lane>,
}

impl View for HttpRoute {
    type V = Way;

    open spec fn view(&self) -> Way {
        Way {
            name: self.name@,
            namespace: self.namespace@,
            annotations: member_trees(self.annotations@),
            host: self.host@,
            rules: lanes(self.rules@),
        }
    }
}

pub open spec fn ways(v: Seq<HttpRoute>) -> Seq<Way> {
    Seq::new(v.len(), |i: int| v[i]@)
}

/// What the rules of an Ingress are read in.
#[verifier::ext_equal]
pub ghost struct Setting {
    pub objects: Seq<Json>,
    pub default_ns: Seq<char>,
    pub ns: Seq<char>,
    pub name: Seq<char>,
    pub annotations: Seq<(Seq<char>, Tree)>,
}

impl Setting {
    pub open spec fn identity(self) -> Seq<char> {
        self.ns + "/"@ + self.name
    }
}

/// The paths of a rule, after what was found out about them; `found` is what was found out before.
pub open spec fn lanes_of(s: Setting, paths: Seq<Json>, found: Seq<(Seq<char>, Hint)>) -> (
    Seq<(Seq<char>, Hint)>,
    Result<Seq<Lane>, Fault>,
)
    decreases paths.len(),
{
    if paths.len() == 0 {
        (found, Ok(Seq::empty()))
    } else {
        let (f, r) = lanes_of(s, paths.drop_last(), found);
        match r {
            Err(e) => (f, Err(e)),
            Ok(v) => {
                let p = paths.last();
                let kind = p.at("pathType"@).string();
                let specific = kind == Some("ImplementationSpecific"@);
                if !(kind == Some("Exact"@) || kind == Some("Prefix"@) || specific) {
                    (f, Err(Fault::PathType))
                } else {
                    let g = if specific {
                        f.push((s.identity(), Hint::ImplementationSpecific))
                    } else {
                        f
                    };
                    match backend_of(p.at("backend"@), s.objects, s.ns, s.default_ns) {
                        Err(e) => (g, Err(e)),
                        Ok((service, port)) => (
                            g,
                            Ok(
                                v.push(
                                    Lane {
                                        exact: kind == Some("Exact"@),
                                        value: p.string_or("path"@, "/"@),
                                        service,
                                        port,
                                    },
                                ),
                            ),
                        ),
                    }
                }
            },
        }
    }
}

proof fn lemma_lanes_error(s: Setting, paths: Seq<Json>, found: Seq<(Seq<char>, Hint)>, i: int)
    requires
        0 <= i <= paths.len(),
        lanes_of(s, paths.take(i), found).1 is Err,
    ensures
        lanes_of(s, paths, found) == lanes_of(s, paths.take(i), found),
    decreases paths.len(),
{
    if i < paths.len() {
        assert(paths.drop_last().take(i) =~= paths.take(i));
        lemma_lanes_error(s, paths.drop_last(), found, i);
    } else {
        assert(paths.take(i) =~= paths);
    }
}

/// What the rules of an Ingress are read in.
struct Context<'a> {
    objects: &'a Vec<&'a Json>,
    default_ns: &'a str,
    ns: &'a str,
    name: &'a str,
    identity: String,
    annotations: Vec<(String, Json)>,
}

impl<'a> Context<'a> {
    spec fn setting(&self) -> Setting {
        Setting {
            objects: values(self.objects@),
            default_ns: self.default_ns@,
            ns: self.ns@,
            name: self.name@,
            annotations: member_trees(self.annotations@),
        }
    }

    spec fn wf(&self) -> bool {
        self.identity@ == self.setting().identity()
    }
}

spec fn lanes_result(r: Result<Vec<PathRule>, ConvertError>) -> Result<Seq<Lane>, Fault> {
    match r {
        Ok(v) => Ok(lanes(v@)),
        Err(e) => Err(e@),
    }
}

fn read_kind(p: &Json) -> (r: Option<(bool, bool)>)
    ensures
        match r {
            Some((exact, specific)) => {
                let kind = p.at("pathType"@).string();
                exact == (kind == Some("Exact"@)) && specific == (kind == Some(
                    "ImplementationSpecific"@,
                )) && (exact || specific || kind == Some("Prefix"@))
            },
            None => {
                let kind = p.at("pathType"@).string();
                !(kind == Some("Exact"@) || kind == Some("Prefix"@) || kind == Some(
                    "ImplementationSpecific"@,
                ))
            },
        },
{
    match p.get_str("pathType") {
        None => None,
        Some(s) => {
            let exact = text::same(s, "Exact");
            let specific = text::same(s, "ImplementationSpecific");
            if exact || specific || text::same(s, "Prefix") {
                Some((exact, specific))
            } else {
                None
            }
        },
    }
}

fn read_paths(c: &Context, paths: &Vec<Json>, found: &mut Vec<Finding>) -> (r: Result<
    Vec<PathRule>,
    ConvertError,
>)
    requires
        c.wf(),
    ensures
        (hints(final(found)@), lanes_result(r)) == lanes_of(
            c.setting(),
            paths@,
            hints(old(found)@),
        ),
{
    let ghost start = hints(found@);
    let ghost s = c.setting();
    let mut out: Vec<PathRule> = Vec::new();
    let mut i: usize = 0;
    assert(lanes(out@) =~= Seq::empty());
    while i < paths.len()
        invariant
            i <= paths.len(),
            c.wf(),
            s == c.setting(),
            start == hints(old(found)@),
            lanes_of(s, paths@.take(i as int), start) == (
                hints(found@),
                Ok::<Seq<Lane>, Fault>(lanes(out@)),
            ),
        decreases paths.len() - i,
    {
        let p = &paths[i];
        let ghost before = lanes(out@);
        proof {
            assert(paths@.take(i + 1).drop_last() =~= paths@.take(i as int));
            assert(paths@.take(i + 1).last() == *p);
        }
        let (exact, specific) = match read_kind(p) {
            None => {
                proof {
                    lemma_lanes_error(s, paths@, start, i + 1);
                }
                return Err(ConvertError::PathType);
            },
            Some(k) => k,
        };
        if specific {
            note(found, c.identity.as_str(), Note::ImplementationSpecific);
        }
        match backend(p.field("backend"), c.objects, c.ns, c.default_ns) {
            Err(e) => {
                proof {
                    lemma_lanes_error(s, paths@, start, i + 1);
                }
                return Err(e);
            },
            Ok((service, port)) => {
                let l = PathRule {
                    exact,
                    value: p.text("path", "/").to_owned(),
                    service,
                    port,
                };
                let ghost x = l@;
                out.push(l);
                assert(lanes(out@) =~= before.push(x));
            },
        }
        i += 1;
    }
    assert(paths@.take(i as int) =~= paths@);
    Ok(out)
}

/// A text without the dots and hyphens at its end.
pub open spec fn trimmed_name(s: Seq<char>) -> Seq<char>
    decreases s.len(),
{
    if s.len() > 0 && (s.last() == '.' || s.last() == '-') {
        trimmed_name(s.drop_last())
    } else {
        s
    }
}

/// The beginning of an Ingress's name.
pub open spec fn name_part(name: Seq<char>) -> Seq<char> {
    trimmed_name(
        if name.len() > NAME_PART {
            name.take(NAME_PART as int)
        } else {
            name
        },
    )
}

fn cut_name(name: &str) -> (out: String)
    ensures
        out@ == name_part(name@),
{
    let v = text::chars(name);
    let mut n: usize = if v.len() > NAME_PART {
        NAME_PART
    } else {
        v.len()
    };
    assert(v@.take(v@.len() as int) =~= v@);
    while n > 0 && (v[n - 1] == '.' || v[n - 1] == '-')
        invariant
            n <= v.len(),
            v@ == name@,
            trimmed_name(v@.take(n as int)) == name_part(name@),
        decreases n,
    {
        assert(v@.take(n as int).drop_last() =~= v@.take(n - 1));
        n -= 1;
    }
    let out = text::slice(&v, 0, n);
    assert(out@ =~= v@.take(n as int));
    out
}

/// The name of the route of a rule.
pub open spec fn route_name(name: Seq<char>, identity: Seq<char>, index: nat) -> Seq<char> {
    name_part(name) + "-"@ + text_digest(identity).take(10) + "-"@ + text::decimal(index)
}

fn name_route(name: &str, identity: &str, index: usize) -> (out: String)
    ensures
        out@ == route_name(name@, identity@, index as nat),
{
    let d = digest_text(identity);
    let v = text::chars(d.as_str());
    let h = text::slice(&v, 0, 10);
    assert(h@ =~= d@.take(10));
    let head = text::concat3(cut_name(name).as_str(), "-", h.as_str());
    text::concat3(head.as_str(), "-", text::decimal_string(index as u64).as_str())
}

/// The route of a host and its paths.
pub open spec fn way_of(
    s: Setting,
    host: Seq<char>,
    paths: Option<Seq<Json>>,
    index: nat,
    found: Seq<(Seq<char>, Hint)>,
) -> (Seq<(Seq<char>, Hint)>, Result<Way, Fault>) {
    if text::starts(host, "*."@) {
        (found, Err(Fault::WildcardHost))
    } else {
        match paths {
            None => (found, Err(Fault::PathsMissing)),
            Some(v) => {
                let (f, r) = lanes_of(s, v, found);
                match r {
                    Err(e) => (f, Err(e)),
                    Ok(rules) => (
                        f,
                        Ok(
                            Way {
                                name: route_name(s.name, s.identity(), index),
                                namespace: s.ns,
                                annotations: s.annotations,
                                host,
                                rules,
                            },
                        ),
                    ),
                }
            },
        }
    }
}

/// The routes of rules.
pub open spec fn ways_of(s: Setting, rules: Seq<Json>, found: Seq<(Seq<char>, Hint)>) -> (
    Seq<(Seq<char>, Hint)>,
    Result<Seq<Way>, Fault>,
)
    decreases rules.len(),
{
    if rules.len() == 0 {
        (found, Ok(Seq::empty()))
    } else {
        let (f, r) = ways_of(s, rules.drop_last(), found);
        match r {
            Err(e) => (f, Err(e)),
            Ok(v) => {
                let rule = rules.last();
                let (g, w) = way_of(
                    s,
                    rule.string_or("host"@, Seq::empty()),
                    rule.at("http"@).at("paths"@).list(),
                    (rules.len() - 1) as nat,
                    f,
                );
                match w {
                    Err(e) => (g, Err(e)),
                    Ok(w) => (g, Ok(v.push(w))),
                }
            },
        }
    }
}

proof fn lemma_ways_error(s: Setting, rules: Seq<Json>, found: Seq<(Seq<char>, Hint)>, i: int)
    requires
        0 <= i <= rules.len(),
        ways_of(s, rules.take(i), found).1 is Err,
    ensures
        ways_of(s, rules, found) == ways_of(s, rules.take(i), found),
    decreases rules.len(),
{
    if i < rules.len() {
        assert(rules.drop_last().take(i) =~= rules.take(i));
        lemma_ways_error(s, rules.drop_last(), found, i);
    } else {
        assert(rules.take(i) =~= rules);
    }
}

/// The path of a default backend.
pub open spec fn default_lane(s: Setting, value: Json) -> Result<Lane, Fault> {
    match backend_of(value, s.objects, s.ns, s.default_ns) {
        Err(e) => Err(e),
        Ok((service, port)) => Ok(Lane { exact: false, value: "/"@, service, port }),
    }
}

/// The routes of an Ingress: those of its rules, and one of its default backend.
pub open spec fn all_ways(
    s: Setting,
    rules: Seq<Json>,
    default_backend: Option<Json>,
    found: Seq<(Seq<char>, Hint)>,
) -> (Seq<(Seq<char>, Hint)>, Result<Seq<Way>, Fault>) {
    let (f, r) = ways_of(s, rules, found);
    match r {
        Err(e) => (f, Err(e)),
        Ok(v) => match default_backend {
            None => (f, Ok(v)),
            Some(value) => match default_lane(s, value) {
                Err(e) => (f, Err(e)),
                Ok(lane) => (
                    f,
                    Ok(
                        v.push(
                            Way {
                                name: route_name(s.name, s.identity(), rules.len()),
                                namespace: s.ns,
                                annotations: s.annotations,
                                host: Seq::empty(),
                                rules: seq![lane],
                            },
                        ),
                    ),
                ),
            },
        },
    }
}

spec fn ways_result(r: Result<Vec<HttpRoute>, ConvertError>) -> Result<Seq<Way>, Fault> {
    match r {
        Ok(v) => Ok(ways(v@)),
        Err(e) => Err(e@),
    }
}

spec fn way_result(r: Result<HttpRoute, ConvertError>) -> Result<Way, Fault> {
    match r {
        Ok(w) => Ok(w@),
        Err(e) => Err(e@),
    }
}

fn read_rule(c: &Context, rule: &Json, index: usize, found: &mut Vec<Finding>) -> (r: Result<
    HttpRoute,
    ConvertError,
>)
    requires
        c.wf(),
    ensures
        (hints(final(found)@), way_result(r)) == way_of(
            c.setting(),
            rule.string_or("host"@, Seq::empty()),
            rule.at("http"@).at("paths"@).list(),
            index as nat,
            hints(old(found)@),
        ),
{
    proof {
        reveal_strlit("");
        assert(""@ =~= Seq::<char>::empty());
    }
    let host = rule.text("host", "");
    if text::starts_with(host, "*.") {
        return Err(ConvertError::WildcardHost);
    }
    match rule.field("http").get_array("paths") {
        None => Err(ConvertError::PathsMissing),
        Some(paths) => match read_paths(c, paths, found) {
            Err(e) => Err(e),
            Ok(rules) => Ok(
                HttpRoute {
                    name: name_route(c.name, c.identity.as_str(), index),
                    namespace: c.ns.to_owned(),
                    annotations: copy_members(&c.annotations),
                    host: host.to_owned(),
                    rules,
                },
            ),
        },
    }
}

fn read_rules(
    c: &Context,
    rules: &Vec<Json>,
    found: &mut Vec<Finding>,
) -> (r: Result<Vec<HttpRoute>, ConvertError>)
    requires
        c.wf(),
    ensures
        (hints(final(found)@), ways_result(r)) == ways_of(
            c.setting(),
            rules@,
            hints(old(found)@),
        ),
{
    let ghost start = hints(found@);
    let ghost s = c.setting();
    let mut out: Vec<HttpRoute> = Vec::new();
    let mut i: usize = 0;
    assert(ways(out@) =~= Seq::empty());
    while i < rules.len()
        invariant
            i <= rules.len(),
            c.wf(),
            s == c.setting(),
            start == hints(old(found)@),
            ways_of(s, rules@.take(i as int), start) == (
                hints(found@),
                Ok::<Seq<Way>, Fault>(ways(out@)),
            ),
        decreases rules.len() - i,
    {
        let ghost before = ways(out@);
        proof {
            assert(rules@.take(i + 1).drop_last() =~= rules@.take(i as int));
            assert(rules@.take(i + 1).last() == rules@[i as int]);
        }
        match read_rule(c, &rules[i], i, found) {
            Err(e) => {
                proof {
                    lemma_ways_error(s, rules@, start, i + 1);
                }
                return Err(e);
            },
            Ok(w) => {
                let ghost x = w@;
                out.push(w);
                assert(ways(out@) =~= before.push(x));
            },
        }
        i += 1;
    }
    assert(rules@.take(i as int) =~= rules@);
    Ok(out)
}

fn read_all(
    c: &Context,
    rules: &Vec<Json>,
    default_backend: Option<&Json>,
    found: &mut Vec<Finding>,
) -> (r: Result<Vec<HttpRoute>, ConvertError>)
    requires
        c.wf(),
    ensures
        (hints(final(found)@), ways_result(r)) == all_ways(
            c.setting(),
            rules@,
            match default_backend {
                Some(j) => Some(*j),
                None => None,
            },
            hints(old(found)@),
        ),
{
    let mut out = match read_rules(c, rules, found) {
        Err(e) => return Err(e),
        Ok(v) => v,
    };
    if let Some(value) = default_backend {
        match backend(value, c.objects, c.ns, c.default_ns) {
            Err(e) => return Err(e),
            Ok((service, port)) => {
                let ghost before = ways(out@);
                let mut lane: Vec<PathRule> = Vec::new();
                let l = PathRule { exact: false, value: "/".to_owned(), service, port };
                let ghost x = l@;
                lane.push(l);
                assert(lanes(lane@) =~= seq![x]);
                let host = String::new();
                assert(host@ =~= Seq::<char>::empty());
                let w = HttpRoute {
                    name: name_route(c.name, c.identity.as_str(), rules.len()),
                    namespace: c.ns.to_owned(),
                    annotations: copy_members(&c.annotations),
                    host,
                    rules: lane,
                };
                let ghost y = w@;
                out.push(w);
                assert(ways(out@) =~= before.push(y));
            },
        }
    }
    Ok(out)
}

// ---------------------------------------------------------------------------
// One Ingress
// ---------------------------------------------------------------------------

/// What comes of Ingresses.
#[derive(Debug)]
pub struct Conversion {
    pub routes: Vec<HttpRoute>,
    pub gateways: Vec<Gateway>,
    pub findings: Vec<Finding>,
}

/// What a `Conversion` holds.
#[verifier::ext_equal]
pub ghost struct Product {
    pub routes: Seq<Way>,
    pub gateways: Seq<(Seq<char>, Seq<Door>)>,
    pub findings: Seq<(Seq<char>, Hint)>,
}

impl View for Conversion {
    type V = Product;

    open spec fn view(&self) -> Product {
        Product {
            routes: ways(self.routes@),
            gateways: gates(self.gateways@),
            findings: hints(self.findings@),
        }
    }
}

pub open spec fn list_or_empty(j: Json) -> Seq<Json> {
    match j.list() {
        Some(v) => v,
        None => Seq::empty(),
    }
}

pub open spec fn members_or_empty(j: Json) -> Seq<(String, Json)> {
    match j.members() {
        Some(v) => v,
        None => Seq::empty(),
    }
}

/// The listeners of a namespace with the plain one.
pub open spec fn with_plain(v: Seq<Door>) -> Seq<Door> {
    if door_named(v, "http"@) is None {
        with_door(v, Door { name: "http"@, tls: None })
    } else {
        v
    }
}

/// What comes of one more Ingress: its routes, or why there are none. Listeners that were opened before
/// a fault was found stay.
pub open spec fn with_ingress(
    p: Product,
    o: Json,
    objects: Seq<Json>,
    default_ns: Seq<char>,
) -> Product {
    let ns = namespace_of(o, default_ns);
    let name = o.at("metadata"@).string_or("name"@, "ingress"@);
    let identity = ns + "/"@ + name;
    let failed = |q: Product, e: Fault|
        Product { findings: q.findings.push((identity, Hint::Failed(e))), ..q };
    if o.at("apiVersion"@).string() != Some("networking.k8s.io/v1"@) {
        failed(p, Fault::ApiVersion)
    } else {
        match annotations_of(members_or_empty(o.at("metadata"@).at("annotations"@))) {
            Err(e) => failed(p, e),
            Ok(annotations) => {
                let plain = with_plain(doors_of(p.gateways, ns));
                let (d, e) = with_tls(plain, list_or_empty(o.at("spec"@).at("tls"@)));
                let q = Product { gateways: with_doors(p.gateways, ns, d), ..p };
                match e {
                    Some(e) => failed(q, e),
                    None => {
                        let s = Setting { objects, default_ns, ns, name, annotations };
                        let (f, r) = all_ways(
                            s,
                            list_or_empty(o.at("spec"@).at("rules"@)),
                            o.at("spec"@).entry("defaultBackend"@),
                            q.findings,
                        );
                        let t = Product { findings: f, ..q };
                        match r {
                            Err(e) => failed(t, e),
                            Ok(v) => Product { routes: t.routes + v, ..t },
                        }
                    },
                }
            },
        }
    }
}

fn members_of(j: &Json) -> (r: Option<&Vec<(String, Json)>>)
    ensures
        match r {
            Some(v) => v@ == members_or_empty(*j),
            None => members_or_empty(*j).len() == 0,
        },
{
    j.as_object()
}

fn append_routes(v: &mut Vec<HttpRoute>, w: Vec<HttpRoute>)
    ensures
        ways(final(v)@) == ways(old(v)@) + ways(w@),
{
    let ghost a = v@;
    let ghost b = w@;
    let mut w = w;
    v.append(&mut w);
    assert(v@ =~= a + b);
    assert(ways(v@) =~= ways(a) + ways(b));
}

/// The listeners that an Ingress asks for in its namespace, as far as that goes.
fn open_doors(c: &mut Conversion, o: &Json, ns: &str) -> (r: Result<(), ConvertError>)
    ensures
        ({
            let (d, e) = with_tls(
                with_plain(doors_of(old(c)@.gateways, ns@)),
                list_or_empty(o.at("spec"@).at("tls"@)),
            );
            final(c)@ == (Product { gateways: with_doors(old(c)@.gateways, ns@, d), ..old(c)@ })
                && fault(r) == e
        }),
{
    let mut listeners = find_doors(&c.gateways, ns);
    if find_door(&listeners, "http").is_none() {
        add_door(&mut listeners, ListenerEntry { name: "http".to_owned(), tls: None });
    }
    let r = match o.field("spec").get_array("tls") {
        Some(tls) => add_tls(&mut listeners, tls),
        None => Ok(()),
    };
    put_doors(&mut c.gateways, ns, listeners);
    r
}

fn try_ingress(c: &mut Conversion, o: &Json, objects: &Vec<&Json>, default_ns: &str) -> (r: Result<
    (),
    ConvertError,
>)
    ensures
        final(c)@ == match r {
            Ok(_) => with_ingress(old(c)@, *o, values(objects@), default_ns@),
            Err(_) => final(c)@,
        },
        r is Err ==> with_ingress(old(c)@, *o, values(objects@), default_ns@) == (Product {
            findings: final(c)@.findings.push(
                (
                    namespace_of(*o, default_ns@) + "/"@ + o.at("metadata"@).string_or(
                        "name"@,
                        "ingress"@,
                    ),
                    Hint::Failed(r->Err_0@),
                ),
            ),
            ..final(c)@
        }),
{
    let is_v1 = match o.get_str("apiVersion") {
        Some(s) => text::same(s, "networking.k8s.io/v1"),
        None => false,
    };
    if !is_v1 {
        return Err(ConvertError::ApiVersion);
    }
    let ns = namespace(o, default_ns);
    let metadata = o.field("metadata");
    let name = metadata.text("name", "ingress");
    let none: Vec<(String, Json)> = Vec::new();
    let members = match members_of(metadata.field("annotations")) {
        Some(v) => v,
        None => &none,
    };
    assert(members@ =~= members_or_empty(o.at("metadata"@).at("annotations"@)));
    let annotations = match keep_annotations(members) {
        Err(e) => return Err(e),
        Ok(v) => v,
    };
    if let Err(e) = open_doors(c, o, ns) {
        return Err(e);
    }
    let context = Context {
        objects,
        default_ns,
        ns,
        name,
        identity: text::concat3(ns, "/", name),
        annotations,
    };
    let spec_part = o.field("spec");
    let empty: Vec<Json> = Vec::new();
    let rules = match spec_part.get_array("rules") {
        Some(v) => v,
        None => &empty,
    };
    assert(rules@ =~= list_or_empty(o.at("spec"@).at("rules"@)));
    match read_all(&context, rules, spec_part.get("defaultBackend"), &mut c.findings) {
        Err(e) => Err(e),
        Ok(v) => {
            append_routes(&mut c.routes, v);
            Ok(())
        },
    }
}

fn add_ingress(c: &mut Conversion, o: &Json, objects: &Vec<&Json>, default_ns: &str)
    ensures
        final(c)@ == with_ingress(old(c)@, *o, values(objects@), default_ns@),
{
    if let Err(e) = try_ingress(c, o, objects, default_ns) {
        let ns = namespace(o, default_ns);
        let name = o.field("metadata").text("name", "ingress");
        let identity = text::concat3(ns, "/", name);
        note(&mut c.findings, identity.as_str(), Note::Failed(e));
    }
}

// ---------------------------------------------------------------------------
// All Ingresses
// ---------------------------------------------------------------------------

/// What the rules of all Ingresses claim.
#[verifier::ext_equal]
pub ghost struct Survey {
    /// The namespace, the host, the kind and the path of each rule.
    pub claims: Seq<(Seq<char>, Seq<char>, Seq<char>, Seq<char>)>,
    /// The namespaces of rules without a host.
    pub hostless: Seq<Seq<char>>,
    /// The namespace of each default backend.
    pub defaults: Seq<Seq<char>>,
    pub findings: Seq<(Seq<char>, Hint)>,
}

struct Surveyed {
    claims: Vec<(String, String, String, String)>,
    hostless: Vec<String>,
    defaults: Vec<String>,
    findings: Vec<Finding>,
}

spec fn claims_view(v: Seq<(String, String, String, String)>) -> Seq<
    (Seq<char>, Seq<char>, Seq<char>, Seq<char>),
> {
    Seq::new(v.len(), |i: int| (v[i].0@, v[i].1@, v[i].2@, v[i].3@))
}

impl Surveyed {
    spec fn survey(&self) -> Survey {
        Survey {
            claims: claims_view(self.claims@),
            hostless: text::texts(self.hostless@),
            defaults: text::texts(self.defaults@),
            findings: hints(self.findings@),
        }
    }
}

/// What a path of a rule claims; a slash at the end counts for exact paths only.
pub open spec fn claim_of(ns: Seq<char>, host: Seq<char>, path: Json) -> (
    Seq<char>,
    Seq<char>,
    Seq<char>,
    Seq<char>,
) {
    let kind = path.string_or("pathType"@, Seq::empty());
    let value = path.string_or("path"@, "/"@);
    (
        ns,
        host,
        kind,
        if kind == "Exact"@ {
            value
        } else {
            text::trim_end_char_spec(value, '/')
        },
    )
}

/// The survey with the paths of a rule.
pub open spec fn with_paths(
    s: Survey,
    ns: Seq<char>,
    host: Seq<char>,
    identity: Seq<char>,
    paths: Seq<Json>,
) -> Survey
    decreases paths.len(),
{
    if paths.len() == 0 {
        s
    } else {
        let t = with_paths(s, ns, host, identity, paths.drop_last());
        let claim = claim_of(ns, host, paths.last());
        if t.claims.contains(claim) {
            Survey { findings: t.findings.push((identity, Hint::Conflict)), ..t }
        } else {
            Survey { claims: t.claims.push(claim), ..t }
        }
    }
}

/// The survey with the rules of an Ingress.
pub open spec fn with_rules(s: Survey, ns: Seq<char>, identity: Seq<char>, rules: Seq<Json>) -> Survey
    decreases rules.len(),
{
    if rules.len() == 0 {
        s
    } else {
        let t = with_rules(s, ns, identity, rules.drop_last());
        let host = rules.last().string_or("host"@, Seq::empty());
        let u = if host.len() == 0 {
            Survey { hostless: t.hostless.push(ns), ..t }
        } else {
            t
        };
        with_paths(
            u,
            ns,
            host,
            identity,
            list_or_empty(rules.last().at("http"@).at("paths"@)),
        )
    }
}

/// The survey of some objects; those that are no Ingresses add nothing.
pub open spec fn surveyed(objects: Seq<Json>, default_ns: Seq<char>) -> Survey
    decreases objects.len(),
{
    if objects.len() == 0 {
        Survey {
            claims: Seq::empty(),
            hostless: Seq::empty(),
            defaults: Seq::empty(),
            findings: Seq::empty(),
        }
    } else {
        let s = surveyed(objects.drop_last(), default_ns);
        let o = objects.last();
        if !of_kind(o, "Ingress"@) {
            s
        } else {
            let ns = namespace_of(o, default_ns);
            let identity = ns + "/"@ + o.at("metadata"@).string_or("name"@, Seq::empty());
            let t = if o.at("spec"@).entry("defaultBackend"@) is Some {
                Survey { defaults: s.defaults.push(ns), ..s }
            } else {
                s
            };
            with_rules(t, ns, identity, list_or_empty(o.at("spec"@).at("rules"@)))
        }
    }
}

fn claims_hold(
    v: &Vec<(String, String, String, String)>,
    c: &(String, String, String, String),
) -> (r: bool)
    ensures
        r == claims_view(v@).contains((c.0@, c.1@, c.2@, c.3@)),
{
    let ghost all = claims_view(v@);
    let ghost x = (c.0@, c.1@, c.2@, c.3@);
    let mut i: usize = 0;
    while i < v.len()
        invariant
            i <= v.len(),
            all == claims_view(v@),
            x == (c.0@, c.1@, c.2@, c.3@),
            forall|j: int| 0 <= j < i ==> all[j] != x,
        decreases v.len() - i,
    {
        if text::same(v[i].0.as_str(), c.0.as_str()) && text::same(v[i].1.as_str(), c.1.as_str())
            && text::same(v[i].2.as_str(), c.2.as_str()) && text::same(
            v[i].3.as_str(),
            c.3.as_str(),
        ) {
            assert(all[i as int] == x);
            return true;
        }
        assert(all[i as int] != x);
        i += 1;
    }
    false
}

fn survey_paths(s: &mut Surveyed, ns: &str, host: &str, identity: &str, paths: &Vec<Json>)
    ensures
        final(s).survey() == with_paths(old(s).survey(), ns@, host@, identity@, paths@),
{
    let ghost start = s.survey();
    proof {
        reveal_strlit("");
        assert(""@ =~= Seq::<char>::empty());
    }
    let mut i: usize = 0;
    while i < paths.len()
        invariant
            i <= paths.len(),
            ""@ == Seq::<char>::empty(),
            start == old(s).survey(),
            s.survey() == with_paths(start, ns@, host@, identity@, paths@.take(i as int)),
        decreases paths.len() - i,
    {
        let p = &paths[i];
        let ghost before = s.survey();
        proof {
            assert(paths@.take(i + 1).drop_last() =~= paths@.take(i as int));
            assert(paths@.take(i + 1).last() == *p);
        }
        let kind = p.text("pathType", "");
        let value = p.text("path", "/");
        let place = if text::same(kind, "Exact") {
            value.to_owned()
        } else {
            text::trim_end_char(value, '/').to_owned()
        };
        let claim = (ns.to_owned(), host.to_owned(), kind.to_owned(), place);
        if claims_hold(&s.claims, &claim) {
            note(&mut s.findings, identity, Note::Conflict);
        } else {
            let ghost x = (claim.0@, claim.1@, claim.2@, claim.3@);
            s.claims.push(claim);
            assert(claims_view(s.claims@) =~= before.claims.push(x));
        }
        i += 1;
    }
    assert(paths@.take(i as int) =~= paths@);
}

fn survey_rules(s: &mut Surveyed, ns: &str, identity: &str, rules: &Vec<Json>)
    ensures
        final(s).survey() == with_rules(old(s).survey(), ns@, identity@, rules@),
{
    let ghost start = s.survey();
    proof {
        reveal_strlit("");
        assert(""@ =~= Seq::<char>::empty());
    }
    let mut i: usize = 0;
    while i < rules.len()
        invariant
            i <= rules.len(),
            ""@ == Seq::<char>::empty(),
            start == old(s).survey(),
            s.survey() == with_rules(start, ns@, identity@, rules@.take(i as int)),
        decreases rules.len() - i,
    {
        let ghost before = s.survey();
        proof {
            assert(rules@.take(i + 1).drop_last() =~= rules@.take(i as int));
            assert(rules@.take(i + 1).last() == rules@[i as int]);
        }
        let host = rules[i].text("host", "");
        if host.is_empty() {
            s.hostless.push(ns.to_owned());
            assert(text::texts(s.hostless@) =~= before.hostless.push(ns@));
        }
        if let Some(paths) = rules[i].field("http").get_array("paths") {
            survey_paths(s, ns, host, identity, paths);
        }
        i += 1;
    }
    assert(rules@.take(i as int) =~= rules@);
}

fn survey_all(objects: &Vec<&Json>, default_ns: &str) -> (s: Surveyed)
    ensures
        s.survey() == surveyed(values(objects@), default_ns@),
{
    let ghost all = values(objects@);
    proof {
        reveal_strlit("");
        assert(""@ =~= Seq::<char>::empty());
    }
    let mut s = Surveyed {
        claims: Vec::new(),
        hostless: Vec::new(),
        defaults: Vec::new(),
        findings: Vec::new(),
    };
    let mut i: usize = 0;
    assert(s.survey() =~= surveyed(all.take(0), default_ns@));
    while i < objects.len()
        invariant
            i <= objects.len(),
            ""@ == Seq::<char>::empty(),
            all == values(objects@),
            s.survey() == surveyed(all.take(i as int), default_ns@),
        decreases objects.len() - i,
    {
        let o = objects[i];
        let ghost before = s.survey();
        proof {
            assert(all.take(i + 1).drop_last() =~= all.take(i as int));
            assert(all.take(i + 1).last() == *o);
        }
        if is_kind(o, "Ingress") {
            let ns = namespace(o, default_ns);
            let identity = text::concat3(ns, "/", o.field("metadata").text("name", ""));
            let part = o.field("spec");
            if part.get("defaultBackend").is_some() {
                s.defaults.push(ns.to_owned());
                assert(text::texts(s.defaults@) =~= before.defaults.push(ns@));
            }
            if let Some(rules) = part.get_array("rules") {
                survey_rules(&mut s, ns, identity.as_str(), rules);
            }
        }
        i += 1;
    }
    assert(all.take(i as int) =~= all);
    s
}

/// How often a text occurs.
pub open spec fn occurrences(v: Seq<Seq<char>>, s: Seq<char>) -> nat
    decreases v.len(),
{
    if v.len() == 0 {
        0
    } else {
        occurrences(v.drop_last(), s) + if v.last() == s {
            1nat
        } else {
            0nat
        }
    }
}

proof fn lemma_occurrences(v: Seq<Seq<char>>, s: Seq<char>)
    ensures
        occurrences(v, s) <= v.len(),
    decreases v.len(),
{
    if v.len() > 0 {
        lemma_occurrences(v.drop_last(), s);
    }
}

fn count(v: &Vec<String>, s: &str) -> (n: usize)
    ensures
        n == occurrences(text::texts(v@), s@),
{
    let ghost all = text::texts(v@);
    let mut n: usize = 0;
    let mut i: usize = 0;
    while i < v.len()
        invariant
            i <= v.len(),
            all == text::texts(v@),
            n == occurrences(all.take(i as int), s@),
        decreases v.len() - i,
    {
        proof {
            lemma_occurrences(all.take(i as int), s@);
            assert(all.take(i + 1).drop_last() =~= all.take(i as int));
        }
        if text::same(v[i].as_str(), s) {
            n += 1;
        }
        i += 1;
    }
    assert(all.take(i as int) =~= all);
    n
}

/// The texts in order, each once.
pub open spec fn ordered(v: Seq<Seq<char>>) -> Seq<Seq<char>>
    decreases v.len(),
{
    if v.len() == 0 {
        Seq::empty()
    } else {
        inserted(ordered(v.drop_last()), v.last())
    }
}

fn order(v: &Vec<String>) -> (out: Vec<String>)
    ensures
        text::texts(out@) == ordered(text::texts(v@)),
{
    let ghost all = text::texts(v@);
    let mut out: Vec<String> = Vec::new();
    let mut i: usize = 0;
    assert(text::texts(out@) =~= Seq::empty());
    while i < v.len()
        invariant
            i <= v.len(),
            all == text::texts(v@),
            text::texts(out@) == ordered(all.take(i as int)),
        decreases v.len() - i,
    {
        assert(all.take(i + 1).drop_last() =~= all.take(i as int));
        insert_id(&mut out, v[i].as_str());
        i += 1;
    }
    assert(all.take(i as int) =~= all);
    out
}

/// What is found out about the default backends of some namespaces.
pub open spec fn overlaps(s: Survey, namespaces: Seq<Seq<char>>) -> Seq<(Seq<char>, Hint)>
    decreases namespaces.len(),
{
    if namespaces.len() == 0 {
        s.findings
    } else {
        let before = overlaps(s, namespaces.drop_last());
        let ns = namespaces.last();
        if occurrences(s.defaults, ns) > 1 || s.hostless.contains(ns) {
            before.push((ns, Hint::DefaultOverlap))
        } else {
            before
        }
    }
}

fn find_overlaps(s: Surveyed) -> (out: Vec<Finding>)
    ensures
        hints(out@) == overlaps(s.survey(), ordered(s.survey().defaults)),
{
    let namespaces = order(&s.defaults);
    let ghost all = text::texts(namespaces@);
    let ghost t = s.survey();
    let Surveyed { claims: _, hostless, defaults, findings } = s;
    let mut out = findings;
    let mut i: usize = 0;
    while i < namespaces.len()
        invariant
            i <= namespaces.len(),
            all == text::texts(namespaces@),
            t.defaults == text::texts(defaults@),
            t.hostless == text::texts(hostless@),
            hints(out@) == overlaps(t, all.take(i as int)),
        decreases namespaces.len() - i,
    {
        assert(all.take(i + 1).drop_last() =~= all.take(i as int));
        let ns = namespaces[i].as_str();
        if count(&defaults, ns) > 1 || text::contains(&hostless, ns) {
            note(&mut out, ns, Note::DefaultOverlap);
        }
        i += 1;
    }
    assert(all.take(i as int) =~= all);
    out
}

/// Why nothing is converted.
#[derive(Clone, Copy, Debug, PartialEq, Eq, Structural)]
pub enum InputError {
    Names,
    ListItems,
    TooMany,
    NoIngress,
}

/// The objects of some documents: null ones are left out, and a list stands for its items.
pub open spec fn gathered(documents: Seq<Json>) -> Result<Seq<Json>, InputError>
    decreases documents.len(),
{
    if documents.len() == 0 {
        Ok(Seq::empty())
    } else {
        match gathered(documents.drop_last()) {
            Err(e) => Err(e),
            Ok(v) => {
                let d = documents.last();
                if d is Null {
                    Ok(v)
                } else if of_kind(d, "List"@) {
                    match d.at("items"@).list() {
                        None => Err(InputError::ListItems),
                        Some(items) => Ok(v + items),
                    }
                } else {
                    Ok(v.push(d))
                }
            },
        }
    }
}

proof fn lemma_gathered_error(v: Seq<Json>, i: int)
    requires
        0 <= i <= v.len(),
        gathered(v.take(i)) is Err,
    ensures
        gathered(v) == gathered(v.take(i)),
    decreases v.len(),
{
    if i < v.len() {
        assert(v.drop_last().take(i) =~= v.take(i));
        lemma_gathered_error(v.drop_last(), i);
    } else {
        assert(v.take(i) =~= v);
    }
}

fn add_items<'a>(out: &mut Vec<&'a Json>, items: &'a Vec<Json>)
    ensures
        values(final(out)@) == values(old(out)@) + items@,
{
    let ghost start = values(out@);
    let mut i: usize = 0;
    assert(start + items@.take(0) =~= start);
    while i < items.len()
        invariant
            i <= items.len(),
            values(out@) == start + items@.take(i as int),
        decreases items.len() - i,
    {
        let ghost before = values(out@);
        out.push(&items[i]);
        proof {
            assert(values(out@) =~= before.push(items@[i as int]));
            assert(before.push(items@[i as int]) =~= start + items@.take(i + 1));
        }
        i += 1;
    }
    assert(items@.take(i as int) =~= items@);
}

/// The objects of some documents.
pub fn gather(documents: &Vec<Json>) -> (r: Result<Vec<&Json>, InputError>)
    ensures
        match r {
            Ok(v) => gathered(documents@) == Ok::<Seq<Json>, InputError>(values(v@)),
            Err(e) => gathered(documents@) == Err::<Seq<Json>, InputError>(e),
        },
{
    let mut out: Vec<&Json> = Vec::new();
    let mut i: usize = 0;
    assert(values(out@) =~= Seq::empty());
    while i < documents.len()
        invariant
            i <= documents.len(),
            gathered(documents@.take(i as int)) == Ok::<Seq<Json>, InputError>(values(out@)),
        decreases documents.len() - i,
    {
        let d = &documents[i];
        let ghost before = values(out@);
        proof {
            assert(documents@.take(i + 1).drop_last() =~= documents@.take(i as int));
            assert(documents@.take(i + 1).last() == *d);
        }
        if matches!(d, Json::Null) {
        } else if is_kind(d, "List") {
            match d.get_array("items") {
                None => {
                    proof {
                        lemma_gathered_error(documents@, i + 1);
                    }
                    return Err(InputError::ListItems);
                },
                Some(items) => add_items(&mut out, items),
            }
        } else {
            out.push(d);
            assert(values(out@) =~= before.push(*d));
        }
        i += 1;
    }
    assert(documents@.take(i as int) =~= documents@);
    Ok(out)
}

/// How many Ingresses there are.
pub open spec fn ingress_count(v: Seq<Json>) -> nat
    decreases v.len(),
{
    if v.len() == 0 {
        0
    } else {
        ingress_count(v.drop_last()) + if of_kind(v.last(), "Ingress"@) {
            1nat
        } else {
            0nat
        }
    }
}

proof fn lemma_ingress_count(v: Seq<Json>)
    ensures
        ingress_count(v) <= v.len(),
    decreases v.len(),
{
    if v.len() > 0 {
        lemma_ingress_count(v.drop_last());
    }
}

/// How many Ingresses there are.
pub fn count_ingresses(v: &Vec<&Json>) -> (n: usize)
    ensures
        n == ingress_count(values(v@)),
{
    let ghost all = values(v@);
    let mut n: usize = 0;
    let mut i: usize = 0;
    while i < v.len()
        invariant
            i <= v.len(),
            all == values(v@),
            n == ingress_count(all.take(i as int)),
        decreases v.len() - i,
    {
        proof {
            lemma_ingress_count(all.take(i as int));
            assert(all.take(i + 1).drop_last() =~= all.take(i as int));
            assert(all.take(i + 1).last() == *v@[i as int]);
        }
        if is_kind(v[i], "Ingress") {
            n += 1;
        }
        i += 1;
    }
    assert(all.take(i as int) =~= all);
    n
}

/// What comes of some of the objects, each Ingress in turn, after what was found out before.
pub open spec fn produced(
    v: Seq<Json>,
    objects: Seq<Json>,
    default_ns: Seq<char>,
    found: Seq<(Seq<char>, Hint)>,
) -> Product
    decreases v.len(),
{
    if v.len() == 0 {
        Product { routes: Seq::empty(), gateways: Seq::empty(), findings: found }
    } else {
        let p = produced(v.drop_last(), objects, default_ns, found);
        if of_kind(v.last(), "Ingress"@) {
            with_ingress(p, v.last(), objects, default_ns)
        } else {
            p
        }
    }
}

/// What comes of documents: the routes and the gateways, and what was found out.
pub open spec fn converted(
    documents: Seq<Json>,
    class: Seq<char>,
    gateway: Seq<char>,
    default_ns: Seq<char>,
) -> Result<Product, InputError> {
    if !(tenancy::label(class) && tenancy::label(gateway) && tenancy::label(default_ns)) {
        Err(InputError::Names)
    } else {
        match gathered(documents) {
            Err(e) => Err(e),
            Ok(objects) => if objects.len() > MAX_OBJECTS {
                Err(InputError::TooMany)
            } else if ingress_count(objects) == 0 {
                Err(InputError::NoIngress)
            } else {
                let s = surveyed(objects, default_ns);
                Ok(produced(objects, objects, default_ns, overlaps(s, ordered(s.defaults))))
            },
        }
    }
}

fn produce(objects: &Vec<&Json>, default_ns: &str, findings: Vec<Finding>) -> (c: Conversion)
    ensures
        c@ == produced(values(objects@), values(objects@), default_ns@, hints(findings@)),
{
    let ghost all = values(objects@);
    let ghost found = hints(findings@);
    let mut c = Conversion { routes: Vec::new(), gateways: Vec::new(), findings };
    let mut i: usize = 0;
    assert(c@ =~= produced(all.take(0), all, default_ns@, found));
    while i < objects.len()
        invariant
            i <= objects.len(),
            all == values(objects@),
            c@ == produced(all.take(i as int), all, default_ns@, found),
        decreases objects.len() - i,
    {
        proof {
            assert(all.take(i + 1).drop_last() =~= all.take(i as int));
            assert(all.take(i + 1).last() == *objects@[i as int]);
        }
        if is_kind(objects[i], "Ingress") {
            add_ingress(&mut c, objects[i], objects, default_ns);
        }
        i += 1;
    }
    assert(all.take(i as int) =~= all);
    c
}

/// Whether the namespace of an object can be looked up: what it says about itself is an object, or
/// nothing.
pub open spec fn addressable(o: Json) -> bool {
    of_kind(o, "Ingress"@) || of_kind(o, "Service"@) ==> o.at("metadata"@) is Null || o.at(
        "metadata"@,
    ) is Object
}

/// What comes of documents: the routes and the gateways, and what was found out.
pub fn convert(
    documents: &Vec<Json>,
    class: &str,
    gateway: &str,
    default_ns: &str,
) -> (r: Result<Conversion, InputError>)
    requires
        gathered(documents@) is Ok ==> forall|i: int|
            0 <= i < gathered(documents@)->Ok_0.len() ==> addressable(
                #[trigger] gathered(documents@)->Ok_0[i],
            ),
    ensures
        match r {
            Ok(c) => converted(documents@, class@, gateway@, default_ns@) == Ok::<
                Product,
                InputError,
            >(c@),
            Err(e) => converted(documents@, class@, gateway@, default_ns@) == Err::<
                Product,
                InputError,
            >(e),
        },
{
    if !tenancy::namespace_name(class) || !tenancy::namespace_name(gateway)
        || !tenancy::namespace_name(default_ns) {
        return Err(InputError::Names);
    }
    let objects = match gather(documents) {
        Err(e) => return Err(e),
        Ok(v) => v,
    };
    if objects.len() > MAX_OBJECTS {
        return Err(InputError::TooMany);
    }
    if count_ingresses(&objects) == 0 {
        return Err(InputError::NoIngress);
    }
    let findings = find_overlaps(survey_all(&objects, default_ns));
    Ok(produce(&objects, default_ns, findings))
}

impl Conversion {
    pub open spec fn spec_compatible(&self) -> bool {
        forall|i: int| 0 <= i < self@.findings.len() ==> !(#[trigger] self@.findings[i]).1.blocks()
    }

    /// Whether nothing has to be settled by hand.
    pub fn compatible(&self) -> (r: bool)
        ensures
            r == self.spec_compatible(),
    {
        let mut i: usize = 0;
        while i < self.findings.len()
            invariant
                i <= self.findings.len(),
                forall|j: int| 0 <= j < i ==> !(#[trigger] self@.findings[j]).1.blocks(),
            decreases self.findings.len() - i,
        {
            let blocks = match self.findings[i].note {
                Note::ImplementationSpecific => false,
                _ => true,
            };
            if blocks {
                assert(self@.findings[i as int].1.blocks());
                return false;
            }
            assert(!self@.findings[i as int].1.blocks());
            i += 1;
        }
        true
    }
}

// ---------------------------------------------------------------------------
// Laws
// ---------------------------------------------------------------------------

proof fn lemma_lanes_no_wildcards(
    s: Setting,
    rules: Seq<Json>,
    found: Seq<(Seq<char>, Hint)>,
    k: int,
)
    requires
        ways_of(s, rules, found).1 is Ok,
        0 <= k < ways_of(s, rules, found).1->Ok_0.len(),
    ensures
        !text::starts(ways_of(s, rules, found).1->Ok_0[k].host, "*."@),
    decreases rules.len(),
{
    if rules.len() > 0 {
        let before = ways_of(s, rules.drop_last(), found);
        assert(before.1 is Ok);
        if k < before.1->Ok_0.len() {
            lemma_lanes_no_wildcards(s, rules.drop_last(), found, k);
        }
    }
}

/// No route of a gateway has a wildcard for its host: the two kinds of wildcard take different hosts.
pub proof fn law_no_wildcards_are_converted(
    v: Seq<Json>,
    objects: Seq<Json>,
    default_ns: Seq<char>,
    found: Seq<(Seq<char>, Hint)>,
    k: int,
)
    requires
        0 <= k < produced(v, objects, default_ns, found).routes.len(),
    ensures
        !text::starts(produced(v, objects, default_ns, found).routes[k].host, "*."@),
    decreases v.len(),
{
    if v.len() > 0 {
        let p = produced(v.drop_last(), objects, default_ns, found);
        if k < p.routes.len() {
            law_no_wildcards_are_converted(v.drop_last(), objects, default_ns, found, k);
        } else {
            let o = v.last();
            let ns = namespace_of(o, default_ns);
            let name = o.at("metadata"@).string_or("name"@, "ingress"@);
            let annotations = annotations_of(
                members_or_empty(o.at("metadata"@).at("annotations"@)),
            )->Ok_0;
            let s = Setting { objects, default_ns, ns, name, annotations };
            let rules = list_or_empty(o.at("spec"@).at("rules"@));
            let w = ways_of(s, rules, p.findings);
            assert(w.1 is Ok);
            if k - p.routes.len() < w.1->Ok_0.len() {
                lemma_lanes_no_wildcards(s, rules, p.findings, k - p.routes.len());
            } else {
                reveal_strlit("*.");
            }
        }
    }
}

/// What was found out before is kept, so what blocks a conversion is never forgotten.
pub proof fn law_findings_are_kept(
    p: Product,
    o: Json,
    objects: Seq<Json>,
    default_ns: Seq<char>,
)
    ensures
        p.findings.is_prefix_of(with_ingress(p, o, objects, default_ns).findings),
        p.routes.is_prefix_of(with_ingress(p, o, objects, default_ns).routes),
{
    let ns = namespace_of(o, default_ns);
    let name = o.at("metadata"@).string_or("name"@, "ingress"@);
    if annotations_of(members_or_empty(o.at("metadata"@).at("annotations"@))) is Ok {
        let annotations = annotations_of(
            members_or_empty(o.at("metadata"@).at("annotations"@)),
        )->Ok_0;
        let s = Setting { objects, default_ns, ns, name, annotations };
        lemma_ways_keep(s, list_or_empty(o.at("spec"@).at("rules"@)), p.findings);
    }
}

proof fn lemma_lanes_keep(s: Setting, paths: Seq<Json>, found: Seq<(Seq<char>, Hint)>)
    ensures
        found.is_prefix_of(lanes_of(s, paths, found).0),
    decreases paths.len(),
{
    if paths.len() > 0 {
        lemma_lanes_keep(s, paths.drop_last(), found);
    }
}

proof fn lemma_ways_keep(s: Setting, rules: Seq<Json>, found: Seq<(Seq<char>, Hint)>)
    ensures
        found.is_prefix_of(ways_of(s, rules, found).0),
    decreases rules.len(),
{
    if rules.len() > 0 {
        lemma_ways_keep(s, rules.drop_last(), found);
        let f = ways_of(s, rules.drop_last(), found).0;
        let paths = rules.last().at("http"@).at("paths"@).list();
        if paths is Some {
            lemma_lanes_keep(s, paths->0, f);
        }
    }
}

/// A backend is the Service that it names, at a port from 1 to 65535; a number counts before a name.
pub proof fn law_backends_are_services(value: Json, objects: Seq<Json>, ns: Seq<char>, default_ns: Seq<char>)
    ensures
        value.entry("resource"@) is Some ==> backend_of(value, objects, ns, default_ns) == Err::<(Seq<char>, nat), Fault>(
            Fault::ResourceBackend,
        ),
        backend_of(value, objects, ns, default_ns) is Ok ==> {
            let b = backend_of(value, objects, ns, default_ns)->Ok_0;
            &&& value.at("service"@).at("name"@).string() == Some(b.0)
            &&& 1 <= b.1 <= 65535
            &&& value.at("service"@).at("port"@).at("number"@).number() is Some ==> value.at("service"@).at("port"@).at(
                "number"@,
            ).number() == Some(b.1)
        },
        value.entry("resource"@) is None && value.at("service"@).at("name"@).string() is None ==> backend_of(
            value,
            objects,
            ns,
            default_ns,
        ) == Err::<(Seq<char>, nat), Fault>(Fault::BackendName),
{
}

/// A port that is named is the port of that name of the Service of that name in that namespace.
pub proof fn law_named_ports_are_of_their_service(
    objects: Seq<Json>,
    service: Seq<char>,
    port: Seq<char>,
    ns: Seq<char>,
    default_ns: Seq<char>,
)
    requires
        named_port(objects, service, port, ns, default_ns) is Some,
    ensures
        exists|i: int, k: int|
            {
                &&& 0 <= i < objects.len()
                &&& (#[trigger] objects[i]).at("kind"@).string() == Some("Service"@)
                &&& objects[i].at("metadata"@).at("name"@).string() == Some(service)
                &&& objects[i].at("metadata"@).at("namespace"@).string() is Some ==> objects[i].at("metadata"@).at(
                    "namespace"@,
                ).string() == Some(ns)
                &&& objects[i].at("metadata"@).at("namespace"@) is Null ==> ns == default_ns
                &&& 0 <= k < objects[i].at("spec"@).at("ports"@).list()->0.len()
                &&& (#[trigger] objects[i].at("spec"@).at("ports"@).list()->0[k]).at("name"@).string() == Some(port)
                &&& objects[i].at("spec"@).at("ports"@).list()->0[k].at("port"@).number() == named_port(
                    objects,
                    service,
                    port,
                    ns,
                    default_ns,
                )
            },
{
    let o = service_in(objects, service, ns, default_ns)->0;
    lemma_service_in(objects, service, ns, default_ns);
    let i = choose|i: int|
        0 <= i < objects.len() && #[trigger] objects[i] == o && is_service_of(objects[i], service, ns, default_ns);
    let ports = o.at("spec"@).at("ports"@).list()->0;
    lemma_port_in(ports, port);
    let k = choose|k: int|
        0 <= k < ports.len() && #[trigger] ports[k] == port_in(ports, port)->0 && ports[k].at("name"@).string() == Some(
            port,
        );
    assert(objects[i].at("spec"@).at("ports"@).list()->0[k] == ports[k]);
}

proof fn lemma_service_in(v: Seq<Json>, name: Seq<char>, ns: Seq<char>, default_ns: Seq<char>)
    ensures
        service_in(v, name, ns, default_ns) is Some ==> exists|i: int|
            0 <= i < v.len() && #[trigger] v[i] == service_in(v, name, ns, default_ns)->0 && is_service_of(
                v[i],
                name,
                ns,
                default_ns,
            ),
    decreases v.len(),
{
    if v.len() > 0 {
        if is_service_of(v[0], name, ns, default_ns) {
            assert(v[0] == service_in(v, name, ns, default_ns)->0);
        } else {
            let r = v.drop_first();
            lemma_service_in(r, name, ns, default_ns);
            if service_in(r, name, ns, default_ns) is Some {
                let i = choose|i: int|
                    0 <= i < r.len() && #[trigger] r[i] == service_in(r, name, ns, default_ns)->0 && is_service_of(
                        r[i],
                        name,
                        ns,
                        default_ns,
                    );
                assert(v[i + 1] == r[i]);
            }
        }
    }
}

proof fn lemma_port_in(v: Seq<Json>, name: Seq<char>)
    ensures
        port_in(v, name) is Some ==> exists|i: int|
            0 <= i < v.len() && #[trigger] v[i] == port_in(v, name)->0 && v[i].at("name"@).string() == Some(name),
    decreases v.len(),
{
    if v.len() > 0 {
        if v[0].at("name"@).string() == Some(name) {
            assert(v[0] == port_in(v, name)->0);
        } else {
            let r = v.drop_first();
            lemma_port_in(r, name);
            if port_in(r, name) is Some {
                let i = choose|i: int|
                    0 <= i < r.len() && #[trigger] r[i] == port_in(r, name)->0 && r[i].at("name"@).string() == Some(name);
                assert(v[i + 1] == r[i]);
            }
        }
    }
}

/// Of the annotations, those on the script and on the body are kept, those of the tools are left out, and
/// any other keeps the Ingress back.
pub proof fn law_annotations_are_kept(v: Seq<(String, Json)>, k: int)
    requires
        0 <= k < v.len(),
    ensures
        annotations_of(v) is Ok ==> {
            let key = v[k].0@;
            ||| key == "kubernetes.io/ingress.class"@
            ||| key == "kubectl.kubernetes.io/last-applied-configuration"@
            ||| (key == "rgnix.io/script"@ || key == "rgnix.io/request-body"@ || key == "rgnix.io/request-body-timeout"@
                || key == "rgnix.io/client-max-body-size"@) && annotations_of(v)->Ok_0.contains((key, v[k].1.tree()))
        },
    decreases v.len(),
{
    if annotations_of(v) is Ok {
        let u = v.drop_last();
        let w = annotations_of(v)->Ok_0;
        let b = annotations_of(u)->Ok_0;
        if k == v.len() - 1 {
            assert(v.last() == v[k]);
            if !ignored_annotation(v[k].0@) {
                assert(w[w.len() - 1] == (v[k].0@, v[k].1.tree()));
            }
        } else {
            law_annotations_are_kept(u, k);
            assert(u[k] == v[k]);
            let m = (v[k].0@, v[k].1.tree());
            if b.contains(m) {
                let j = choose|j: int| 0 <= j < b.len() && b[j] == m;
                assert(w[j] == m);
            }
        }
    }
}

/// Each path becomes one rule, in order: exact where its kind is, on the path or on `/`, to its backend.
pub proof fn law_paths_become_rules(s: Setting, paths: Seq<Json>, found: Seq<(Seq<char>, Hint)>, k: int)
    requires
        lanes_of(s, paths, found).1 is Ok,
        0 <= k < paths.len(),
    ensures
        lanes_of(s, paths, found).1->Ok_0.len() == paths.len(),
        ({
            let lane = lanes_of(s, paths, found).1->Ok_0[k];
            let kind = paths[k].at("pathType"@).string();
            &&& kind == Some("Exact"@) || kind == Some("Prefix"@) || kind == Some("ImplementationSpecific"@)
            &&& lane.exact <==> kind == Some("Exact"@)
            &&& paths[k].at("path"@).string() is Some ==> lane.value == paths[k].at("path"@).string()->0
            &&& paths[k].at("path"@).string() is None ==> lane.value == "/"@
            &&& backend_of(paths[k].at("backend"@), s.objects, s.ns, s.default_ns) == Ok::<(Seq<char>, nat), Fault>(
                (lane.service, lane.port),
            )
        }),
    decreases paths.len(),
{
    let u = paths.drop_last();
    lemma_lanes_len(s, paths, found);
    if k < u.len() {
        law_paths_become_rules(s, u, found, k);
        assert(u[k] == paths[k]);
    } else {
        lemma_lanes_len(s, u, found);
    }
}

proof fn lemma_lanes_len(s: Setting, paths: Seq<Json>, found: Seq<(Seq<char>, Hint)>)
    ensures
        lanes_of(s, paths, found).1 is Ok ==> lanes_of(s, paths, found).1->Ok_0.len() == paths.len(),
    decreases paths.len(),
{
    if paths.len() > 0 {
        lemma_lanes_len(s, paths.drop_last(), found);
    }
}

/// A path whose kind is left to the implementation is pointed out, and keeps nothing back; everything else
/// that is found does.
pub proof fn law_findings_block(s: Setting, path: Json, found: Seq<(Seq<char>, Hint)>, e: Fault)
    ensures
        path.at("pathType"@).string() == Some("ImplementationSpecific"@) ==> lanes_of(s, seq![path], found).0 == found.push(
            (s.ns + "/"@ + s.name, Hint::ImplementationSpecific),
        ),
        path.at("pathType"@).string() is None ==> lanes_of(s, seq![path], found).1 == Err::<Seq<Lane>, Fault>(
            Fault::PathType,
        ),
        !Hint::ImplementationSpecific.blocks(),
        Hint::Conflict.blocks(),
        Hint::DefaultOverlap.blocks(),
        Hint::Failed(e).blocks(),
{
    reveal_with_fuel(lanes_of, 2);
    assert(seq![path].drop_last() =~= Seq::<Json>::empty());
    assert(seq![path].last() == path);
    reveal_strlit("ImplementationSpecific");
    reveal_strlit("Exact");
    assert("ImplementationSpecific"@.len() != "Exact"@.len());
    reveal_strlit("Prefix");
    assert("ImplementationSpecific"@.len() != "Prefix"@.len());
}

/// Each rule becomes a route in the namespace of its Ingress, for its host and with the annotations that are
/// kept; the default backend becomes one more, for every host and every path.
pub proof fn law_rules_become_routes(
    s: Setting,
    rules: Seq<Json>,
    default_backend: Option<Json>,
    found: Seq<(Seq<char>, Hint)>,
    k: int,
)
    requires
        all_ways(s, rules, default_backend, found).1 is Ok,
        0 <= k < all_ways(s, rules, default_backend, found).1->Ok_0.len(),
    ensures
        ({
            let v = all_ways(s, rules, default_backend, found).1->Ok_0;
            &&& v.len() == rules.len() + if default_backend is Some {
                1int
            } else {
                0int
            }
            &&& v[k].namespace == s.ns
            &&& v[k].annotations == s.annotations
            &&& k < rules.len() ==> v[k].host == rules[k].string_or("host"@, Seq::empty())
            &&& k == rules.len() ==> v[k].host.len() == 0 && v[k].rules.len() == 1 && v[k].rules[0].value == "/"@
                && !v[k].rules[0].exact
        }),
{
    lemma_ways_len(s, rules, found);
    if k < rules.len() {
        lemma_way_at(s, rules, found, k);
    }
}

proof fn lemma_ways_len(s: Setting, rules: Seq<Json>, found: Seq<(Seq<char>, Hint)>)
    ensures
        ways_of(s, rules, found).1 is Ok ==> ways_of(s, rules, found).1->Ok_0.len() == rules.len(),
    decreases rules.len(),
{
    if rules.len() > 0 {
        lemma_ways_len(s, rules.drop_last(), found);
    }
}

proof fn lemma_way_at(s: Setting, rules: Seq<Json>, found: Seq<(Seq<char>, Hint)>, k: int)
    requires
        ways_of(s, rules, found).1 is Ok,
        0 <= k < rules.len(),
    ensures
        ways_of(s, rules, found).1->Ok_0.len() == rules.len(),
        ways_of(s, rules, found).1->Ok_0[k].namespace == s.ns,
        ways_of(s, rules, found).1->Ok_0[k].annotations == s.annotations,
        ways_of(s, rules, found).1->Ok_0[k].host == rules[k].string_or("host"@, Seq::empty()),
    decreases rules.len(),
{
    let u = rules.drop_last();
    lemma_ways_len(s, rules, found);
    lemma_ways_len(s, u, found);
    if k < u.len() {
        lemma_way_at(s, u, found, k);
        assert(u[k] == rules[k]);
    }
}

/// The name of a route begins with at most 40 characters of the name of its Ingress, which end in no `.` or
/// `-`, and ends in its number.
pub proof fn law_route_names_are_short(name: Seq<char>, identity: Seq<char>, index: nat)
    ensures
        name_part(name).len() <= 40,
        name_part(name).is_prefix_of(name),
        name_part(name).len() > 0 ==> name_part(name).last() != '.' && name_part(name).last() != '-',
        name.len() <= 40 && name.len() > 0 && name.last() != '.' && name.last() != '-' ==> name_part(name) == name,
        route_name(name, identity, index) == name_part(name) + "-"@ + text_digest(identity).take(10) + "-"@
            + text::decimal(index),
{
    lemma_trimmed_name(
        if name.len() > NAME_PART {
            name.take(NAME_PART as int)
        } else {
            name
        },
    );
}

proof fn lemma_trimmed_name(s: Seq<char>)
    ensures
        trimmed_name(s).is_prefix_of(s),
        trimmed_name(s).len() > 0 ==> trimmed_name(s).last() != '.' && trimmed_name(s).last() != '-',
    decreases s.len(),
{
    if s.len() > 0 && (s.last() == '.' || s.last() == '-') {
        lemma_trimmed_name(s.drop_last());
    }
}

/// A host with a certificate gets a listener of its own that names the Secret; a host that is claimed with
/// another Secret is refused, as is one with a wildcard.
pub proof fn law_hosts_get_listeners(v: Seq<Door>, hosts: Seq<Json>, secret: Seq<char>, k: int)
    requires
        with_hosts(v, hosts, secret).1 is None,
        0 <= k < hosts.len(),
    ensures
        hosts[k].string() is Some,
        !text::starts(hosts[k].string()->0, "*."@),
        with_hosts(v, hosts, secret).0.contains(
            Door {
                name: ("tls-"@ + text_digest(hosts[k].string()->0)).take(20),
                tls: Some((hosts[k].string()->0, secret)),
            },
        ),
    decreases hosts.len(),
{
    let u = hosts.drop_last();
    let w = with_hosts(v, u, secret).0;
    let last = Door {
        name: listener_name(hosts.last().string()->0),
        tls: Some((hosts.last().string()->0, secret)),
    };
    lemma_with_door(w, last, last);
    if k < u.len() {
        law_hosts_get_listeners(v, u, secret, k);
        assert(u[k] == hosts[k]);
        let d = Door { name: listener_name(hosts[k].string()->0), tls: Some((hosts[k].string()->0, secret)) };
        lemma_with_door(w, last, d);
        lemma_door_listed(w, d);
    } else {
        assert(hosts.last() == hosts[k]);
    }
}

proof fn lemma_with_door(v: Seq<Door>, d: Door, e: Door)
    ensures
        with_door(v, d).contains(d),
        v.contains(e) && (e.name != d.name || door_named(v, d.name) == Some(d)) ==> with_door(v, d).contains(e),
    decreases v.len(),
{
    let w = with_door(v, d);
    if v.len() == 0 {
        assert(w[0] == d);
    } else if v[0].name == d.name {
        assert(w[0] == d);
        if v.contains(e) && (e.name != d.name || door_named(v, d.name) == Some(d)) {
            let k = choose|k: int| 0 <= k < v.len() && v[k] == e;
            assert(w[k] == e);
        }
    } else if text::before(d.name, v[0].name) {
        assert(w[0] == d);
        if v.contains(e) {
            let k = choose|k: int| 0 <= k < v.len() && v[k] == e;
            assert(w[k + 1] == e);
        }
    } else {
        let r = v.drop_first();
        let t = with_door(r, d);
        lemma_with_door(r, d, e);
        let k = choose|k: int| 0 <= k < t.len() && t[k] == d;
        assert(w[k + 1] == d);
        if v.contains(e) && (e.name != d.name || door_named(v, d.name) == Some(d)) {
            let j = choose|j: int| 0 <= j < v.len() && v[j] == e;
            if j == 0 {
                assert(w[0] == e);
            } else {
                assert(r[j - 1] == e);
                let m = choose|m: int| 0 <= m < t.len() && t[m] == e;
                assert(w[m + 1] == e);
            }
        }
    }
}

proof fn lemma_door_listed(v: Seq<Door>, d: Door)
    ensures
        v.contains(d) ==> door_named(v, d.name) is Some,
    decreases v.len(),
{
    if v.contains(d) && v[0].name != d.name {
        let k = choose|k: int| 0 <= k < v.len() && v[k] == d;
        assert(v.drop_first()[k - 1] == d);
        lemma_door_listed(v.drop_first(), d);
    }
}

/// Documents are read in order; the items of a list count as documents of their own, and empty documents do
/// not count.
pub proof fn law_documents_are_gathered(v: Seq<Json>, d: Json)
    requires
        gathered(v) is Ok,
    ensures
        gathered(Seq::empty()) == Ok::<Seq<Json>, InputError>(Seq::empty()),
        d is Null ==> gathered(v.push(d)) == gathered(v),
        d.at("kind"@).string() == Some("List"@) && d.at("items"@).list() is Some ==> gathered(v.push(d)) == Ok::<
            Seq<Json>,
            InputError,
        >(gathered(v)->Ok_0 + d.at("items"@).list()->0),
        d.at("kind"@).string() == Some("List"@) && d.at("items"@).list() is None ==> gathered(v.push(d)) == Err::<
            Seq<Json>,
            InputError,
        >(InputError::ListItems),
        !(d is Null) && d.at("kind"@).string() != Some("List"@) ==> gathered(v.push(d)) == Ok::<Seq<Json>, InputError>(
            gathered(v)->Ok_0.push(d),
        ),
{
    assert(v.push(d).drop_last() =~= v);
}

/// A conversion needs names that are labels, at least one Ingress, and at most 4096 objects.
pub proof fn law_conversions_need_an_ingress(
    documents: Seq<Json>,
    class: Seq<char>,
    gateway: Seq<char>,
    default_ns: Seq<char>,
)
    ensures
        !tenancy::label(class) || !tenancy::label(gateway) || !tenancy::label(default_ns) ==> converted(
            documents,
            class,
            gateway,
            default_ns,
        ) == Err::<Product, InputError>(InputError::Names),
        tenancy::label(class) && tenancy::label(gateway) && tenancy::label(default_ns) && gathered(documents) is Ok
            && gathered(documents)->Ok_0.len() > 4096 ==> converted(documents, class, gateway, default_ns) == Err::<
            Product,
            InputError,
        >(InputError::TooMany),
        tenancy::label(class) && tenancy::label(gateway) && tenancy::label(default_ns) && gathered(documents) is Ok
            && gathered(documents)->Ok_0.len() <= 4096 && ingress_count(gathered(documents)->Ok_0) == 0 ==> converted(
            documents,
            class,
            gateway,
            default_ns,
        ) == Err::<Product, InputError>(InputError::NoIngress),
{
}

/// Two paths that claim the same of a host conflict; a slash at the end makes a difference only to exact
/// paths.
pub proof fn law_claims_conflict(s: Survey, ns: Seq<char>, host: Seq<char>, identity: Seq<char>, path: Json)
    ensures
        s.claims.contains(claim_of(ns, host, path)) ==> with_paths(s, ns, host, identity, seq![path]).findings
            == s.findings.push((identity, Hint::Conflict)) && with_paths(s, ns, host, identity, seq![path]).claims
            == s.claims,
        !s.claims.contains(claim_of(ns, host, path)) ==> with_paths(s, ns, host, identity, seq![path]).findings
            == s.findings && with_paths(s, ns, host, identity, seq![path]).claims == s.claims.push(
            claim_of(ns, host, path),
        ),
        path.at("pathType"@).string() == Some("Exact"@) && path.at("path"@).string() is Some ==> claim_of(ns, host, path)
            == (ns, host, "Exact"@, path.at("path"@).string()->0),
        path.at("pathType"@).string() == Some("Prefix"@) && path.at("path"@).string() is Some ==> claim_of(
            ns,
            host,
            path,
        ) == (ns, host, "Prefix"@, text::trim_end_char_spec(path.at("path"@).string()->0, '/')),
{
    reveal_with_fuel(with_paths, 2);
    assert(seq![path].drop_last() =~= Seq::<Json>::empty());
    assert(seq![path].last() == path);
    reveal_strlit("Exact");
    reveal_strlit("Prefix");
    assert("Exact"@.len() != "Prefix"@.len());
}

/// Two default backends of a namespace overlap, as do a default backend and rules without a host.
pub proof fn law_default_backends_overlap(s: Survey, v: Seq<Seq<char>>, ns: Seq<char>)
    ensures
        occurrences(s.defaults, ns) > 1 || s.hostless.contains(ns) ==> overlaps(s, v.push(ns)) == overlaps(s, v).push(
            (ns, Hint::DefaultOverlap),
        ),
        occurrences(s.defaults, ns) <= 1 && !s.hostless.contains(ns) ==> overlaps(s, v.push(ns)) == overlaps(s, v),
        overlaps(s, Seq::empty()) == s.findings,
{
    assert(v.push(ns).drop_last() =~= v);
}

} // verus!
