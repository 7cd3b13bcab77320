//! The resources of the Gateway API that a conversion gives, as JSON whose members are in order.
use crate::json::{
    copy_members, lemma_tree, member_trees, number, number_json, object, put, start, trees, Json, Tree,
};
use crate::migration::ingress::{Conversion, Gateway, HttpRoute, ListenerEntry, PathRule};
use vstd::prelude::*;

verus! {

fn words(s: &str) -> (j: Json)
    ensures
        j.tree() == Tree::Text(s@),
{
    Json::Text(s.to_owned())
}

/// An object with one member.
pub open spec fn single(name: Seq<char>, t: Tree) -> Tree {
    Tree::Object(seq![(name, t)])
}

fn single_json(name: &str, j: Json) -> (r: Json)
    ensures
        r.tree() == single(name@, j.tree()),
{
    let ghost t = j.tree();
    let mut v = start();
    put(&mut v, name, j);
    assert(member_trees(v@) =~= seq![(name@, t)]);
    object(v)
}

/// A list with one value.
pub open spec fn only(t: Tree) -> Tree {
    Tree::List(seq![t])
}

fn only_json(j: Json) -> (r: Json)
    ensures
        r.tree() == only(j.tree()),
{
    let ghost t = j.tree();
    let mut v: Vec<Json> = Vec::new();
    v.push(j);
    let r = Json::List(v);
    proof {
        lemma_tree(r);
        assert(r.tree()->List_0 =~= seq![t]);
    }
    r
}

fn list_json(v: Vec<Json>) -> (r: Json)
    ensures
        r.tree() == Tree::List(trees(v@)),
{
    let r = Json::List(v);
    proof {
        lemma_tree(r);
    }
    r
}

/// A resource of the Gateway API.
pub open spec fn resource(kind: Seq<char>, metadata: Tree, spec: Tree) -> Tree {
    Tree::Object(
        seq![
            ("apiVersion"@, Tree::Text("gateway.networking.k8s.io/v1"@)),
            ("kind"@, Tree::Text(kind)),
            ("metadata"@, metadata),
            ("spec"@, spec),
        ],
    )
}

fn resource_json(kind: &str, metadata: Json, spec: Json) -> (r: Json)
    ensures
        r.tree() == resource(kind@, metadata.tree(), spec.tree()),
{
    let ghost (m, s) = (metadata.tree(), spec.tree());
    let mut v = start();
    put(&mut v, "apiVersion", words("gateway.networking.k8s.io/v1"));
    put(&mut v, "kind", words(kind));
    put(&mut v, "metadata", metadata);
    put(&mut v, "spec", spec);
    assert(member_trees(v@) =~= resource(kind@, m, s)->Object_0);
    object(v)
}

// ---------------------------------------------------------------------------
// Classes
// ---------------------------------------------------------------------------

/// The class of the gateways, and the controller that serves it.
pub open spec fn class_tree(class: Seq<char>, controller: Seq<char>) -> Tree {
    resource(
        "GatewayClass"@,
        single("name"@, Tree::Text(class)),
        single("controllerName"@, Tree::Text(controller)),
    )
}

pub fn class_manifest(class: &str, controller: &str) -> (r: Json)
    ensures
        r.tree() == class_tree(class@, controller@),
{
    resource_json(
        "GatewayClass",
        single_json("name", words(class)),
        single_json("controllerName", words(controller)),
    )
}

// ---------------------------------------------------------------------------
// Routes
// ---------------------------------------------------------------------------

pub open spec fn rule_tree(p: PathRule) -> Tree {
    Tree::Object(
        seq![
            (
                "backendRefs"@,
                only(
                    Tree::Object(
                        seq![("name"@, Tree::Text(p.service@)), ("port"@, number(p.port as nat))],
                    ),
                ),
            ),
            (
                "matches"@,
                only(
                    single(
                        "path"@,
                        Tree::Object(
                            seq![
                                (
                                    "type"@,
                                    Tree::Text(
                                        if p.exact {
                                            "Exact"@
                                        } else {
                                            "PathPrefix"@
                                        },
                                    ),
                                ),
                                ("value"@, Tree::Text(p.value@)),
                            ],
                        ),
                    ),
                ),
            ),
        ],
    )
}

fn rule_json(p: &PathRule) -> (r: Json)
    ensures
        r.tree() == rule_tree(*p),
{
    let mut backend = start();
    put(&mut backend, "name", Json::Text(p.service.clone()));
    put(&mut backend, "port", number_json(p.port as u64));
    assert(member_trees(backend@) =~= seq![
        ("name"@, Tree::Text(p.service@)),
        ("port"@, number(p.port as nat)),
    ]);
    let mut path = start();
    let kind: &str = if p.exact {
        "Exact"
    } else {
        "PathPrefix"
    };
    put(&mut path, "type", words(kind));
    put(&mut path, "value", Json::Text(p.value.clone()));
    assert(member_trees(path@) =~= seq![("type"@, Tree::Text(kind@)), ("value"@, Tree::Text(p.value@))]);
    let mut v = start();
    put(&mut v, "backendRefs", only_json(object(backend)));
    put(&mut v, "matches", only_json(single_json("path", object(path))));
    assert(member_trees(v@) =~= rule_tree(*p)->Object_0);
    object(v)
}

pub open spec fn rule_trees(v: Seq<PathRule>) -> Seq<Tree> {
    Seq::new(v.len(), |i: int| rule_tree(v[i]))
}

/// What a route asks for: every host where it names none.
pub open spec fn route_spec(r: HttpRoute, gateway: Seq<char>) -> Tree {
    let rest = seq![
        ("parentRefs"@, only(single("name"@, Tree::Text(gateway)))),
        ("rules"@, Tree::List(rule_trees(r.rules@))),
    ];
    Tree::Object(
        if r.host@.len() == 0 {
            rest
        } else {
            seq![("hostnames"@, only(Tree::Text(r.host@)))] + rest
        },
    )
}

/// A route at a gateway, with the annotations of the Ingress that it was made of.
pub open spec fn route_tree(r: HttpRoute, gateway: Seq<char>) -> Tree {
    resource(
        "HTTPRoute"@,
        Tree::Object(
            seq![
                ("annotations"@, Tree::Object(member_trees(r.annotations@))),
                ("name"@, Tree::Text(r.name@)),
                ("namespace"@, Tree::Text(r.namespace@)),
            ],
        ),
        route_spec(r, gateway),
    )
}

pub fn route_manifest(r: &HttpRoute, gateway: &str) -> (j: Json)
    ensures
        j.tree() == route_tree(*r, gateway@),
{
    let mut metadata = start();
    put(&mut metadata, "annotations", object(copy_members(&r.annotations)));
    put(&mut metadata, "name", Json::Text(r.name.clone()));
    put(&mut metadata, "namespace", Json::Text(r.namespace.clone()));
    assert(member_trees(metadata@) =~= seq![
        ("annotations"@, Tree::Object(member_trees(r.annotations@))),
        ("name"@, Tree::Text(r.name@)),
        ("namespace"@, Tree::Text(r.namespace@)),
    ]);
    let mut rules: Vec<Json> = Vec::new();
    let mut i: usize = 0;
    while i < r.rules.len()
        invariant
            i <= r.rules.len(),
            rules@.len() == i,
            forall|k: int| 0 <= k < i ==> (#[trigger] rules@[k]).tree() == rule_tree(r.rules@[k]),
        decreases r.rules.len() - i,
    {
        rules.push(rule_json(&r.rules[i]));
        i += 1;
    }
    assert(trees(rules@) =~= rule_trees(r.rules@));
    let mut spec = start();
    if !r.host.as_str().is_empty() {
        put(&mut spec, "hostnames", only_json(Json::Text(r.host.clone())));
    }
    put(&mut spec, "parentRefs", only_json(single_json("name", words(gateway))));
    put(&mut spec, "rules", list_json(rules));
    assert(member_trees(spec@) =~= route_spec(*r, gateway@)->Object_0);
    resource_json("HTTPRoute", object(metadata), object(spec))
}

// ---------------------------------------------------------------------------
// Gateways
// ---------------------------------------------------------------------------

/// A listener takes the routes of its own namespace.
pub open spec fn own_routes() -> Tree {
    single("namespaces"@, single("from"@, Tree::Text("Same"@)))
}

fn own_routes_json() -> (r: Json)
    ensures
        r.tree() == own_routes(),
{
    single_json("namespaces", single_json("from", words("Same")))
}

pub open spec fn listener_tree(l: ListenerEntry) -> Tree {
    Tree::Object(
        match l.tls {
            None => seq![
                ("allowedRoutes"@, own_routes()),
                ("name"@, Tree::Text(l.name@)),
                ("port"@, number(80)),
                ("protocol"@, Tree::Text("HTTP"@)),
            ],
            Some((host, secret)) => seq![
                ("allowedRoutes"@, own_routes()),
                ("hostname"@, Tree::Text(host@)),
                ("name"@, Tree::Text(l.name@)),
                ("port"@, number(443)),
                ("protocol"@, Tree::Text("HTTPS"@)),
                (
                    "tls"@,
                    Tree::Object(
                        seq![
                            ("certificateRefs"@, only(single("name"@, Tree::Text(secret@)))),
                            ("mode"@, Tree::Text("Terminate"@)),
                        ],
                    ),
                ),
            ],
        },
    )
}

fn listener_json(l: &ListenerEntry) -> (r: Json)
    ensures
        r.tree() == listener_tree(*l),
{
    let mut v = start();
    put(&mut v, "allowedRoutes", own_routes_json());
    match &l.tls {
        None => {
            put(&mut v, "name", Json::Text(l.name.clone()));
            put(&mut v, "port", number_json(80));
            put(&mut v, "protocol", words("HTTP"));
        },
        Some((host, secret)) => {
            let mut tls = start();
            put(&mut tls, "certificateRefs", only_json(single_json("name", Json::Text(secret.clone()))));
            put(&mut tls, "mode", words("Terminate"));
            assert(member_trees(tls@) =~= seq![
                ("certificateRefs"@, only(single("name"@, Tree::Text(secret@)))),
                ("mode"@, Tree::Text("Terminate"@)),
            ]);
            put(&mut v, "hostname", Json::Text(host.clone()));
            put(&mut v, "name", Json::Text(l.name.clone()));
            put(&mut v, "port", number_json(443));
            put(&mut v, "protocol", words("HTTPS"));
            put(&mut v, "tls", object(tls));
        },
    }
    assert(member_trees(v@) =~= listener_tree(*l)->Object_0);
    object(v)
}

pub open spec fn listener_trees(v: Seq<ListenerEntry>) -> Seq<Tree> {
    Seq::new(v.len(), |i: int| listener_tree(v[i]))
}

/// A gateway of a class, in one namespace.
pub open spec fn gateway_tree(g: Gateway, name: Seq<char>, class: Seq<char>) -> Tree {
    resource(
        "Gateway"@,
        Tree::Object(seq![("name"@, Tree::Text(name)), ("namespace"@, Tree::Text(g.namespace@))]),
        Tree::Object(
            seq![
                ("gatewayClassName"@, Tree::Text(class)),
                ("listeners"@, Tree::List(listener_trees(g.listeners@))),
            ],
        ),
    )
}

pub fn gateway_manifest(g: &Gateway, name: &str, class: &str) -> (j: Json)
    ensures
        j.tree() == gateway_tree(*g, name@, class@),
{
    let mut metadata = start();
    put(&mut metadata, "name", words(name));
    put(&mut metadata, "namespace", Json::Text(g.namespace.clone()));
    assert(member_trees(metadata@) =~= seq![
        ("name"@, Tree::Text(name@)),
        ("namespace"@, Tree::Text(g.namespace@)),
    ]);
    let mut listeners: Vec<Json> = Vec::new();
    let mut i: usize = 0;
    while i < g.listeners.len()
        invariant
            i <= g.listeners.len(),
            listeners@.len() == i,
            forall|k: int|
                0 <= k < i ==> (#[trigger] listeners@[k]).tree() == listener_tree(g.listeners@[k]),
        decreases g.listeners.len() - i,
    {
        listeners.push(listener_json(&g.listeners[i]));
        i += 1;
    }
    assert(trees(listeners@) =~= listener_trees(g.listeners@));
    let mut spec = start();
    put(&mut spec, "gatewayClassName", words(class));
    put(&mut spec, "listeners", list_json(listeners));
    assert(member_trees(spec@) =~= seq![
        ("gatewayClassName"@, Tree::Text(class@)),
        ("listeners"@, Tree::List(listener_trees(g.listeners@))),
    ]);
    resource_json("Gateway", object(metadata), object(spec))
}

// ---------------------------------------------------------------------------
// All of them
// ---------------------------------------------------------------------------

pub open spec fn route_trees(v: Seq<HttpRoute>, gateway: Seq<char>) -> Seq<Tree> {
    Seq::new(v.len(), |i: int| route_tree(v[i], gateway))
}

pub open spec fn gateway_trees(v: Seq<Gateway>, name: Seq<char>, class: Seq<char>) -> Seq<Tree> {
    Seq::new(v.len(), |i: int| gateway_tree(v[i], name, class))
}

/// The resources that a conversion gives: the class, then the routes, then the gateways.
pub open spec fn all_resources(c: Conversion, controller: Seq<char>, class: Seq<char>, gateway: Seq<char>) -> Seq<
    Tree,
> {
    seq![class_tree(class, controller)] + route_trees(c.routes@, gateway) + gateway_trees(
        c.gateways@,
        gateway,
        class,
    )
}

/// The resources that a conversion gives.
pub fn manifests(c: &Conversion, controller: &str, class: &str, gateway: &str) -> (out: Vec<Json>)
    ensures
        trees(out@) == all_resources(*c, controller@, class@, gateway@),
{
    let ghost head = seq![class_tree(class@, controller@)];
    let ghost routes = route_trees(c.routes@, gateway@);
    let ghost gateways = gateway_trees(c.gateways@, gateway@, class@);
    let mut out: Vec<Json> = Vec::new();
    out.push(class_manifest(class, controller));
    let mut i: usize = 0;
    assert(trees(out@) =~= head + routes.take(0));
    while i < c.routes.len()
        invariant
            i <= c.routes.len(),
            routes == route_trees(c.routes@, gateway@),
            trees(out@) == head + routes.take(i as int),
        decreases c.routes.len() - i,
    {
        let ghost before = trees(out@);
        let j = route_manifest(&c.routes[i], gateway);
        let ghost t = j.tree();
        out.push(j);
        assert(trees(out@) =~= before.push(t));
        assert(before.push(t) =~= head + routes.take(i + 1));
        i += 1;
    }
    let ghost upper = head + routes;
    assert(routes.take(i as int) =~= routes);
    let mut i: usize = 0;
    assert(trees(out@) =~= upper + gateways.take(0));
    while i < c.gateways.len()
        invariant
            i <= c.gateways.len(),
            gateways == gateway_trees(c.gateways@, gateway@, class@),
            trees(out@) == upper + gateways.take(i as int),
        decreases c.gateways.len() - i,
    {
        let ghost before = trees(out@);
        let j = gateway_manifest(&c.gateways[i], gateway, class);
        let ghost t = j.tree();
        out.push(j);
        assert(trees(out@) =~= before.push(t));
        assert(before.push(t) =~= upper + gateways.take(i + 1));
        i += 1;
    }
    assert(gateways.take(i as int) =~= gateways);
    out
}

/// A listener without a certificate speaks HTTP at port 80; one with a certificate speaks HTTPS at port 443,
/// for its host, and ends TLS with its Secret.
pub proof fn law_listeners_have_their_ports(l: ListenerEntry)
    ensures
        l.tls is None ==> {
            &&& listener_tree(l).at("port"@) == number(80)
            &&& listener_tree(l).at("protocol"@) == Tree::Text("HTTP"@)
        },
        l.tls is Some ==> {
            &&& listener_tree(l).at("port"@) == number(443)
            &&& listener_tree(l).at("protocol"@) == Tree::Text("HTTPS"@)
            &&& listener_tree(l).at("hostname"@) == Tree::Text((l.tls->0).0@)
            &&& listener_tree(l).at("tls"@).at("certificateRefs"@) == Tree::List(
                seq![Tree::Object(seq![("name"@, Tree::Text((l.tls->0).1@))])],
            )
            &&& listener_tree(l).at("tls"@).at("mode"@) == Tree::Text("Terminate"@)
        },
        listener_tree(l).at("name"@) == Tree::Text(l.name@),
        listener_tree(l).at("allowedRoutes"@).at("namespaces"@).at("from"@) == Tree::Text("Same"@),
{
    reveal_with_fuel(crate::json::branch, 7);
    reveal_strlit("port");
    reveal_strlit("allowedRoutes");
    assert("port"@.len() != "allowedRoutes"@.len());
    reveal_strlit("name");
    assert("port"@[0] != "name"@[0]);
    reveal_strlit("hostname");
    assert("port"@.len() != "hostname"@.len());
    reveal_strlit("protocol");
    reveal_strlit("allowedRoutes");
    assert("protocol"@.len() != "allowedRoutes"@.len());
    reveal_strlit("name");
    assert("protocol"@.len() != "name"@.len());
    reveal_strlit("hostname");
    assert("protocol"@[0] != "hostname"@[0]);
    reveal_strlit("port");
    assert("protocol"@.len() != "port"@.len());
    reveal_strlit("tls");
    reveal_strlit("allowedRoutes");
    assert("tls"@.len() != "allowedRoutes"@.len());
    reveal_strlit("name");
    assert("tls"@.len() != "name"@.len());
    reveal_strlit("hostname");
    assert("tls"@.len() != "hostname"@.len());
    reveal_strlit("port");
    assert("tls"@.len() != "port"@.len());
    reveal_strlit("protocol");
    assert("tls"@.len() != "protocol"@.len());
    reveal_strlit("name");
    reveal_strlit("allowedRoutes");
    assert("name"@.len() != "allowedRoutes"@.len());
    reveal_strlit("hostname");
    assert("name"@.len() != "hostname"@.len());
    reveal_strlit("hostname");
    reveal_strlit("allowedRoutes");
    assert("hostname"@.len() != "allowedRoutes"@.len());
    reveal_strlit("mode");
    reveal_strlit("certificateRefs");
    assert("mode"@.len() != "certificateRefs"@.len());
}

/// A rule of a path matches that path, exactly or as a prefix, and goes to its Service at its port.
pub proof fn law_rules_name_their_backends(p: PathRule)
    ensures
        rule_tree(p).at("matches"@).list() is Some,
        rule_tree(p).at("matches"@).list()->0.len() == 1,
        rule_tree(p).at("matches"@).list()->0[0].at("path"@).at("type"@) == Tree::Text(
            if p.exact {
                "Exact"@
            } else {
                "PathPrefix"@
            },
        ),
        rule_tree(p).at("matches"@).list()->0[0].at("path"@).at("value"@) == Tree::Text(p.value@),
        rule_tree(p).at("backendRefs"@).list() is Some,
        rule_tree(p).at("backendRefs"@).list()->0.len() == 1,
        rule_tree(p).at("backendRefs"@).list()->0[0].at("name"@) == Tree::Text(p.service@),
        rule_tree(p).at("backendRefs"@).list()->0[0].at("port"@) == number(p.port as nat),
{
    reveal_with_fuel(crate::json::branch, 4);
    reveal_strlit("matches");
    reveal_strlit("backendRefs");
    assert("matches"@.len() != "backendRefs"@.len());
    reveal_strlit("value");
    reveal_strlit("type");
    assert("value"@.len() != "type"@.len());
    reveal_strlit("port");
    reveal_strlit("name");
    assert("port"@[0] != "name"@[0]);
}

/// A route is of the Gateway, for its host where it has one, and holds a rule for each path.
pub proof fn law_routes_are_of_the_gateway(r: HttpRoute, gateway: Seq<char>, k: int)
    requires
        0 <= k < r.rules@.len(),
    ensures
        route_tree(r, gateway).at("kind"@) == Tree::Text("HTTPRoute"@),
        route_tree(r, gateway).at("apiVersion"@) == Tree::Text("gateway.networking.k8s.io/v1"@),
        route_tree(r, gateway).at("metadata"@).at("name"@) == Tree::Text(r.name@),
        route_tree(r, gateway).at("metadata"@).at("namespace"@) == Tree::Text(r.namespace@),
        r.host@.len() == 0 ==> route_tree(r, gateway).at("spec"@).at("hostnames"@) == Tree::Null,
        r.host@.len() > 0 ==> route_tree(r, gateway).at("spec"@).at("hostnames"@) == Tree::List(
            seq![Tree::Text(r.host@)],
        ),
        route_tree(r, gateway).at("spec"@).at("parentRefs"@) == Tree::List(
            seq![Tree::Object(seq![("name"@, Tree::Text(gateway))])],
        ),
        route_tree(r, gateway).at("spec"@).at("rules"@).list() is Some,
        route_tree(r, gateway).at("spec"@).at("rules"@).list()->0.len() == r.rules@.len(),
        route_tree(r, gateway).at("spec"@).at("rules"@).list()->0[k] == rule_tree(r.rules@[k]),
{
    reveal_with_fuel(crate::json::branch, 6);
    reveal_strlit("kind");
    reveal_strlit("apiVersion");
    assert("kind"@.len() != "apiVersion"@.len());
    reveal_strlit("metadata");
    reveal_strlit("apiVersion");
    assert("metadata"@.len() != "apiVersion"@.len());
    reveal_strlit("kind");
    assert("metadata"@.len() != "kind"@.len());
    reveal_strlit("spec");
    reveal_strlit("apiVersion");
    assert("spec"@.len() != "apiVersion"@.len());
    reveal_strlit("kind");
    assert("spec"@[0] != "kind"@[0]);
    reveal_strlit("metadata");
    assert("spec"@.len() != "metadata"@.len());
    reveal_strlit("name");
    reveal_strlit("annotations");
    assert("name"@.len() != "annotations"@.len());
    reveal_strlit("namespace");
    reveal_strlit("annotations");
    assert("namespace"@.len() != "annotations"@.len());
    reveal_strlit("name");
    assert("namespace"@.len() != "name"@.len());
    reveal_strlit("hostnames");
    reveal_strlit("parentRefs");
    assert("hostnames"@.len() != "parentRefs"@.len());
    reveal_strlit("rules");
    assert("hostnames"@.len() != "rules"@.len());
    reveal_strlit("parentRefs");
    reveal_strlit("hostnames");
    assert("parentRefs"@.len() != "hostnames"@.len());
    reveal_strlit("rules");
    reveal_strlit("hostnames");
    assert("rules"@.len() != "hostnames"@.len());
    reveal_strlit("parentRefs");
    assert("rules"@.len() != "parentRefs"@.len());
}

/// A Gateway is of its class and holds its listeners in order.
pub proof fn law_gateways_hold_their_listeners(g: Gateway, name: Seq<char>, class: Seq<char>, k: int)
    requires
        0 <= k < g.listeners@.len(),
    ensures
        gateway_tree(g, name, class).at("kind"@) == Tree::Text("Gateway"@),
        gateway_tree(g, name, class).at("metadata"@).at("name"@) == Tree::Text(name),
        gateway_tree(g, name, class).at("metadata"@).at("namespace"@) == Tree::Text(g.namespace@),
        gateway_tree(g, name, class).at("spec"@).at("gatewayClassName"@) == Tree::Text(class),
        gateway_tree(g, name, class).at("spec"@).at("listeners"@).list() is Some,
        gateway_tree(g, name, class).at("spec"@).at("listeners"@).list()->0.len() == g.listeners@.len(),
        gateway_tree(g, name, class).at("spec"@).at("listeners"@).list()->0[k] == listener_tree(g.listeners@[k]),
{
    reveal_with_fuel(crate::json::branch, 6);
    reveal_strlit("kind");
    reveal_strlit("apiVersion");
    assert("kind"@.len() != "apiVersion"@.len());
    reveal_strlit("metadata");
    reveal_strlit("apiVersion");
    assert("metadata"@.len() != "apiVersion"@.len());
    reveal_strlit("kind");
    assert("metadata"@.len() != "kind"@.len());
    reveal_strlit("spec");
    reveal_strlit("apiVersion");
    assert("spec"@.len() != "apiVersion"@.len());
    reveal_strlit("kind");
    assert("spec"@[0] != "kind"@[0]);
    reveal_strlit("metadata");
    assert("spec"@.len() != "metadata"@.len());
    reveal_strlit("namespace");
    reveal_strlit("name");
    assert("namespace"@.len() != "name"@.len());
    reveal_strlit("listeners");
    reveal_strlit("gatewayClassName");
    assert("listeners"@.len() != "gatewayClassName"@.len());
}

/// The class comes first and names the controller; then come all the routes and all the Gateways.
pub proof fn law_every_resource_is_written(
    c: Conversion,
    controller: Seq<char>,
    class: Seq<char>,
    gateway: Seq<char>,
    i: int,
    k: int,
)
    requires
        0 <= i < c.routes@.len(),
        0 <= k < c.gateways@.len(),
    ensures
        all_resources(c, controller, class, gateway).len() == 1 + c.routes@.len() + c.gateways@.len(),
        all_resources(c, controller, class, gateway)[0].at("kind"@) == Tree::Text("GatewayClass"@),
        all_resources(c, controller, class, gateway)[0].at("metadata"@).at("name"@) == Tree::Text(class),
        all_resources(c, controller, class, gateway)[0].at("spec"@).at("controllerName"@) == Tree::Text(controller),
        all_resources(c, controller, class, gateway)[1 + i] == route_tree(c.routes@[i], gateway),
        all_resources(c, controller, class, gateway)[1 + c.routes@.len() + k] == gateway_tree(
            c.gateways@[k],
            gateway,
            class,
        ),
{
    reveal_with_fuel(crate::json::branch, 6);
    reveal_strlit("kind");
    reveal_strlit("apiVersion");
    assert("kind"@.len() != "apiVersion"@.len());
    reveal_strlit("metadata");
    reveal_strlit("apiVersion");
    assert("metadata"@.len() != "apiVersion"@.len());
    reveal_strlit("kind");
    assert("metadata"@.len() != "kind"@.len());
    reveal_strlit("spec");
    reveal_strlit("apiVersion");
    assert("spec"@.len() != "apiVersion"@.len());
    reveal_strlit("kind");
    assert("spec"@[0] != "kind"@[0]);
    reveal_strlit("metadata");
    assert("spec"@.len() != "metadata"@.len());
}

} // verus!
