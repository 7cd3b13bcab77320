//! What the configurations that run are told apart by.
use crate::certificates::{chain_digest, joined};
use crate::digest::{digest, digest_text, hex, hex_text, sha256, text_digest};
use crate::json::{
    lemma_tree, member_trees, object, put, start, text_json, text_or_null, text_trees, texts_json, trees,
    Json, Tree,
};
use crate::net::{socket_string, socket_text, Socket};
use crate::text;
use crate::text::texts;
use vstd::prelude::*;

verus! {

/// A route. What is a `Json` here is told as it is written.
#[derive(Debug)]
pub struct RouteContents {
    pub id: String,
    pub matcher: Json,
    pub action: Json,
    pub settings: Json,
    /// The digest of the script.
    pub script: Option<String>,
    pub allowed_backends: Json,
    pub rollout: Json,
    pub quota: Json,
}

/// A virtual host.
#[derive(Debug)]
pub struct HostContents {
    pub listener: Socket,
    pub names: Vec<String>,
    pub default: bool,
    pub ingress: bool,
    pub routes: Vec<RouteContents>,
}

/// A backend.
#[derive(Debug)]
pub struct BackendContents {
    pub name: String,
    pub endpoints: Json,
    pub tls: bool,
    pub hostname: String,
    pub host_header: String,
    pub options: Json,
    pub origins: Json,
    pub ca_pem: Option<String>,
    pub profile: Json,
}

/// A certificate that a listener presents, with those that vouch for it, where it could be read.
#[derive(Debug)]
pub struct CertificateContents {
    pub listener: Socket,
    pub name: String,
    pub ingress: bool,
    pub default: bool,
    pub chain: Option<Vec<Vec<u8>>>,
    pub client_auth: Json,
}

/// A configuration.
#[derive(Debug)]
pub struct Contents {
    pub gateway: Json,
    pub listeners: Json,
    pub hosts: Vec<HostContents>,
    pub backends: Vec<BackendContents>,
    pub certificates: Vec<CertificateContents>,
    pub log_rotation: Json,
    pub default_access_log: Option<String>,
}

fn list(v: Vec<Json>) -> (j: Json)
    ensures
        j.tree() == Tree::List(trees(v@)),
{
    let j = Json::List(v);
    proof {
        lemma_tree(j);
    }
    j
}

pub open spec fn route_tree(r: RouteContents) -> Tree {
    Tree::List(
        seq![
            Tree::Text(r.id@),
            r.matcher.tree(),
            r.action.tree(),
            r.settings.tree(),
            text_or_null(text::opt(r.script)),
            r.allowed_backends.tree(),
            r.rollout.tree(),
            r.quota.tree(),
        ],
    )
}

pub open spec fn route_trees(v: Seq<RouteContents>) -> Seq<Tree> {
    Seq::new(v.len(), |i: int| route_tree(v[i]))
}

pub open spec fn host_tree(h: HostContents) -> Tree {
    Tree::List(
        seq![
            Tree::Text(socket_text(h.listener)),
            text_trees(texts(h.names@)),
            Tree::Bool(h.default),
            Tree::Bool(h.ingress),
            Tree::List(route_trees(h.routes@)),
        ],
    )
}

pub open spec fn host_trees(v: Seq<HostContents>) -> Seq<Tree> {
    Seq::new(v.len(), |i: int| host_tree(v[i]))
}

pub open spec fn backend_tree(b: BackendContents) -> Tree {
    Tree::List(
        seq![
            Tree::Text(b.name@),
            b.endpoints.tree(),
            Tree::Bool(b.tls),
            Tree::Text(b.hostname@),
            Tree::Text(b.host_header@),
            b.options.tree(),
            b.origins.tree(),
            text_or_null(text::opt(b.ca_pem)),
            b.profile.tree(),
        ],
    )
}

pub open spec fn backend_trees(v: Seq<BackendContents>) -> Seq<Tree> {
    Seq::new(v.len(), |i: int| backend_tree(v[i]))
}

pub open spec fn certificate_tree(c: CertificateContents) -> Tree {
    Tree::List(
        seq![
            Tree::Text(socket_text(c.listener)),
            Tree::Text(c.name@),
            Tree::Bool(c.ingress),
            Tree::Bool(c.default),
            match c.chain {
                Some(v) => Tree::Text(hex(sha256(joined(v@)))),
                None => Tree::Null,
            },
            c.client_auth.tree(),
        ],
    )
}

pub open spec fn certificate_trees(v: Seq<CertificateContents>) -> Seq<Tree> {
    Seq::new(v.len(), |i: int| certificate_tree(v[i]))
}

/// What a configuration is told apart by, before it is written and digested.
pub open spec fn contents_tree(c: Contents) -> Tree {
    Tree::Object(
        seq![
            ("backends"@, Tree::List(backend_trees(c.backends@))),
            ("certificates"@, Tree::List(certificate_trees(c.certificates@))),
            ("default_access_log"@, text_or_null(text::opt(c.default_access_log))),
            ("gateway"@, c.gateway.tree()),
            ("hosts"@, Tree::List(host_trees(c.hosts@))),
            ("listeners"@, c.listeners.tree()),
            ("log_rotation"@, c.log_rotation.tree()),
        ],
    )
}

fn route(r: &RouteContents) -> (j: Json)
    ensures
        j.tree() == route_tree(*r),
{
    let mut v: Vec<Json> = Vec::new();
    v.push(Json::Text(r.id.clone()));
    v.push(r.matcher.copy());
    v.push(r.action.copy());
    v.push(r.settings.copy());
    v.push(text_json(&r.script));
    v.push(r.allowed_backends.copy());
    v.push(r.rollout.copy());
    v.push(r.quota.copy());
    proof {
        assert(trees(v@) =~= route_tree(*r)->List_0);
    }
    list(v)
}

fn routes(all: &Vec<RouteContents>) -> (j: Json)
    ensures
        j.tree() == Tree::List(route_trees(all@)),
{
    let mut out: Vec<Json> = Vec::new();
    let mut i: usize = 0;
    while i < all.len()
        invariant
            i <= all.len(),
            out@.len() == i,
            forall|k: int| 0 <= k < i ==> (#[trigger] out@[k]).tree() == route_tree(all@[k]),
        decreases all.len() - i,
    {
        out.push(route(&all[i]));
        i += 1;
    }
    assert(trees(out@) =~= route_trees(all@));
    list(out)
}

fn host(h: &HostContents) -> (j: Json)
    ensures
        j.tree() == host_tree(*h),
{
    let mut v: Vec<Json> = Vec::new();
    v.push(Json::Text(socket_string(h.listener)));
    v.push(texts_json(&h.names));
    v.push(Json::Bool(h.default));
    v.push(Json::Bool(h.ingress));
    v.push(routes(&h.routes));
    proof {
        assert(trees(v@) =~= host_tree(*h)->List_0);
    }
    list(v)
}

fn hosts(all: &Vec<HostContents>) -> (j: Json)
    ensures
        j.tree() == Tree::List(host_trees(all@)),
{
    let mut out: Vec<Json> = Vec::new();
    let mut i: usize = 0;
    while i < all.len()
        invariant
            i <= all.len(),
            out@.len() == i,
            forall|k: int| 0 <= k < i ==> (#[trigger] out@[k]).tree() == host_tree(all@[k]),
        decreases all.len() - i,
    {
        out.push(host(&all[i]));
        i += 1;
    }
    assert(trees(out@) =~= host_trees(all@));
    list(out)
}

fn backend(b: &BackendContents) -> (j: Json)
    ensures
        j.tree() == backend_tree(*b),
{
    let mut v: Vec<Json> = Vec::new();
    v.push(Json::Text(b.name.clone()));
    v.push(b.endpoints.copy());
    v.push(Json::Bool(b.tls));
    v.push(Json::Text(b.hostname.clone()));
    v.push(Json::Text(b.host_header.clone()));
    v.push(b.options.copy());
    v.push(b.origins.copy());
    v.push(text_json(&b.ca_pem));
    v.push(b.profile.copy());
    proof {
        assert(trees(v@) =~= backend_tree(*b)->List_0);
    }
    list(v)
}

fn backends(all: &Vec<BackendContents>) -> (j: Json)
    ensures
        j.tree() == Tree::List(backend_trees(all@)),
{
    let mut out: Vec<Json> = Vec::new();
    let mut i: usize = 0;
    while i < all.len()
        invariant
            i <= all.len(),
            out@.len() == i,
            forall|k: int| 0 <= k < i ==> (#[trigger] out@[k]).tree() == backend_tree(all@[k]),
        decreases all.len() - i,
    {
        out.push(backend(&all[i]));
        i += 1;
    }
    assert(trees(out@) =~= backend_trees(all@));
    list(out)
}

fn certificate(c: &CertificateContents) -> (j: Json)
    ensures
        j.tree() == certificate_tree(*c),
{
    let told = match &c.chain {
        Some(v) => Json::Text(chain_digest(v)),
        None => Json::Null,
    };
    let mut v: Vec<Json> = Vec::new();
    v.push(Json::Text(socket_string(c.listener)));
    v.push(Json::Text(c.name.clone()));
    v.push(Json::Bool(c.ingress));
    v.push(Json::Bool(c.default));
    v.push(told);
    v.push(c.client_auth.copy());
    proof {
        assert(trees(v@) =~= certificate_tree(*c)->List_0);
    }
    list(v)
}

fn certificates(all: &Vec<CertificateContents>) -> (j: Json)
    ensures
        j.tree() == Tree::List(certificate_trees(all@)),
{
    let mut out: Vec<Json> = Vec::new();
    let mut i: usize = 0;
    while i < all.len()
        invariant
            i <= all.len(),
            out@.len() == i,
            forall|k: int| 0 <= k < i ==> (#[trigger] out@[k]).tree() == certificate_tree(all@[k]),
        decreases all.len() - i,
    {
        out.push(certificate(&all[i]));
        i += 1;
    }
    assert(trees(out@) =~= certificate_trees(all@));
    list(out)
}

/// What a configuration is told apart by, to be written and digested.
pub fn contents(c: &Contents) -> (j: Json)
    ensures
        j.tree() == contents_tree(*c),
{
    let mut v = start();
    put(&mut v, "backends", backends(&c.backends));
    put(&mut v, "certificates", certificates(&c.certificates));
    put(&mut v, "default_access_log", text_json(&c.default_access_log));
    put(&mut v, "gateway", c.gateway.copy());
    put(&mut v, "hosts", hosts(&c.hosts));
    put(&mut v, "listeners", c.listeners.copy());
    put(&mut v, "log_rotation", c.log_rotation.copy());
    proof {
        assert(member_trees(v@) =~= contents_tree(*c)->Object_0);
    }
    object(v)
}

/// The digest of a configuration: that of the files that it was read from, where these are kept, else that
/// of its contents as they are written.
pub fn fingerprint(bundle: &Option<Vec<u8>>, written: &str) -> (out: String)
    ensures
        out@ == match *bundle {
            Some(b) => hex(sha256(b@)),
            None => text_digest(written@),
        },
{
    match bundle {
        Some(b) => hex_text(&digest(b)),
        None => digest_text(written),
    }
}

// ---------------------------------------------------------------------------
// Laws
// ---------------------------------------------------------------------------

/// Configurations that are told apart by nothing have the same hosts with the same routes in the same
/// order, and the same backends.
pub proof fn law_configurations_are_told_apart(a: Contents, b: Contents)
    requires
        contents_tree(a) == contents_tree(b),
    ensures
        a.gateway.tree() == b.gateway.tree(),
        a.listeners.tree() == b.listeners.tree(),
        a.log_rotation.tree() == b.log_rotation.tree(),
        text::opt(a.default_access_log) == text::opt(b.default_access_log),
        a.hosts@.len() == b.hosts@.len(),
        forall|i: int|
            0 <= i < a.hosts@.len() ==> {
                let x = #[trigger] a.hosts@[i];
                let y = b.hosts@[i];
                &&& socket_text(x.listener) == socket_text(y.listener)
                &&& texts(x.names@) == texts(y.names@)
                &&& x.default == y.default
                &&& x.ingress == y.ingress
                &&& x.routes@.len() == y.routes@.len()
                &&& forall|k: int|
                    0 <= k < x.routes@.len() ==> route_tree(#[trigger] x.routes@[k]) == route_tree(
                        y.routes@[k],
                    )
            },
        a.backends@.len() == b.backends@.len(),
        forall|i: int|
            0 <= i < a.backends@.len() ==> backend_tree(#[trigger] a.backends@[i]) == backend_tree(
                b.backends@[i],
            ),
        a.certificates@.len() == b.certificates@.len(),
        forall|i: int|
            0 <= i < a.certificates@.len() ==> certificate_tree(#[trigger] a.certificates@[i])
                == certificate_tree(b.certificates@[i]),
{
    let x = contents_tree(a)->Object_0;
    let y = contents_tree(b)->Object_0;
    assert forall|i: int| 0 <= i < 7 implies (#[trigger] x[i]).1 == y[i].1 by {
    }
    assert(x[0].1 == y[0].1 && x[1].1 == y[1].1 && x[2].1 == y[2].1 && x[3].1 == y[3].1);
    assert(x[4].1 == y[4].1 && x[5].1 == y[5].1 && x[6].1 == y[6].1);
    let (ha, hb) = (host_trees(a.hosts@), host_trees(b.hosts@));
    let (ba, bb) = (backend_trees(a.backends@), backend_trees(b.backends@));
    let (ca, cb) = (certificate_trees(a.certificates@), certificate_trees(b.certificates@));
    assert(ha == hb && ba == bb && ca == cb);
    assert(ha.len() == a.hosts@.len() && hb.len() == b.hosts@.len());
    assert(ba.len() == a.backends@.len() && bb.len() == b.backends@.len());
    assert(ca.len() == a.certificates@.len() && cb.len() == b.certificates@.len());
    assert forall|i: int| 0 <= i < a.backends@.len() implies backend_tree(#[trigger] a.backends@[i])
        == backend_tree(b.backends@[i]) by {
        assert(ba[i] == bb[i]);
    }
    assert forall|i: int| 0 <= i < a.certificates@.len() implies certificate_tree(
        #[trigger] a.certificates@[i],
    ) == certificate_tree(b.certificates@[i]) by {
        assert(ca[i] == cb[i]);
    }
    assert forall|i: int| 0 <= i < a.hosts@.len() implies {
        let x = #[trigger] a.hosts@[i];
        let y = b.hosts@[i];
        &&& socket_text(x.listener) == socket_text(y.listener)
        &&& texts(x.names@) == texts(y.names@)
        &&& x.default == y.default
        &&& x.ingress == y.ingress
        &&& x.routes@.len() == y.routes@.len()
        &&& forall|k: int|
            0 <= k < x.routes@.len() ==> route_tree(#[trigger] x.routes@[k]) == route_tree(y.routes@[k])
    } by {
        assert(ha[i] == hb[i]);
        lemma_hosts(a.hosts@[i], b.hosts@[i]);
    }
}

proof fn lemma_hosts(x: HostContents, y: HostContents)
    requires
        host_tree(x) == host_tree(y),
    ensures
        socket_text(x.listener) == socket_text(y.listener),
        texts(x.names@) == texts(y.names@),
        x.default == y.default,
        x.ingress == y.ingress,
        x.routes@.len() == y.routes@.len(),
        forall|k: int|
            0 <= k < x.routes@.len() ==> route_tree(#[trigger] x.routes@[k]) == route_tree(y.routes@[k]),
{
    let (u, v) = (host_tree(x)->List_0, host_tree(y)->List_0);
    assert(u[0] == v[0] && u[1] == v[1] && u[2] == v[2] && u[3] == v[3] && u[4] == v[4]);
    let (n, m) = (text_trees(texts(x.names@))->List_0, text_trees(texts(y.names@))->List_0);
    assert(n == m);
    assert(n.len() == texts(x.names@).len() && m.len() == texts(y.names@).len());
    assert forall|i: int| 0 <= i < texts(x.names@).len() implies texts(x.names@)[i] == texts(y.names@)[i] by {
        assert(n[i] == m[i]);
    }
    assert(texts(x.names@) =~= texts(y.names@));
    let (r, s) = (route_trees(x.routes@), route_trees(y.routes@));
    assert(r == s);
    assert(r.len() == x.routes@.len() && s.len() == y.routes@.len());
    assert forall|k: int| 0 <= k < x.routes@.len() implies route_tree(#[trigger] x.routes@[k]) == route_tree(
        y.routes@[k],
    ) by {
        assert(r[k] == s[k]);
    }
}

} // verus!
