//! What is reported of a gateway, of its class and of routes, as JSON whose members are in order.
use crate::gateway::attachment::Attachment;
use crate::gateway::entries::attached_at;
use crate::gateway::listeners::{Explanation, Fate, Programmed, References};
use crate::gateway::placing::{ruled, Placing, RoutePlan, Ruling, Word};
use crate::gateway::references::Object;
use crate::gateway::spec::Reference;
use crate::gateway::status::{condition, condition_of, owns, owns_parent, Served};
use crate::gateway::tls_policy::{Reason, Verdict};
use crate::json::{
    lemma_tree, member_trees, number, number_json, object, put, start, trees, Json, Tree,
};
use crate::text;
use vstd::prelude::*;

verus! {

fn words(s: &str) -> (j: Json)
    ensures
        j.tree() == Tree::Text(s@),
{
    Json::Text(s.to_owned())
}

fn list(v: Vec<Json>) -> (j: Json)
    ensures
        j.tree() == Tree::List(trees(v@)),
{
    let j = Json::List(v);
    proof {
        lemma_tree(j);
    }
    j
}

/// Since when something is reported, and of which state of an object.
#[derive(Debug)]
pub struct Report {
    pub generation: Option<i64>,
    pub now: String,
}

impl Report {
    pub open spec fn told(&self, type_: Seq<char>, status: bool, reason: Seq<char>, message: Seq<char>) -> Tree {
        condition_of(self.generation, type_, status, reason, message, self.now@)
    }

    fn tell(&self, type_: &str, status: bool, reason: &str, message: &str) -> (j: Json)
        ensures
            j.tree() == self.told(type_@, status, reason@, message@),
    {
        condition(self.generation, type_, status, reason, message, self.now.as_str())
    }

    /// Whether something is accepted, and whether what it refers to could be had.
    pub open spec fn both(&self, w: Word) -> Seq<Tree> {
        seq![
            self.told("Accepted"@, w.accepted, w.reason, w.message),
            self.told(
                "ResolvedRefs"@,
                w.resolved,
                w.references,
                if w.resolved {
                    "References resolved"@
                } else {
                    "A backend or certificate reference cannot be used"@
                },
            ),
        ]
    }

    fn conditions(&self, accepted: bool, reason: &str, message: &str, resolved: bool, references: &str) -> (v:
        Vec<Json>)
        ensures
            trees(v@) == self.both(
                Word {
                    accepted,
                    reason: reason@,
                    message: message@,
                    resolved,
                    references: references@,
                },
            ),
    {
        let mut v: Vec<Json> = Vec::new();
        v.push(self.tell("Accepted", accepted, reason, message));
        v.push(
            self.tell(
                "ResolvedRefs",
                resolved,
                references,
                if resolved {
                    "References resolved"
                } else {
                    "A backend or certificate reference cannot be used"
                },
            ),
        );
        assert(trees(v@) =~= self.both(
            Word { accepted, reason: reason@, message: message@, resolved, references: references@ },
        ));
        v
    }
}

// ---------------------------------------------------------------------------
// Listeners
// ---------------------------------------------------------------------------

/// What is said of a listener; `certificate` is what is wrong with its certificate.
pub open spec fn explained(f: Fate, certificate: Seq<char>) -> Seq<char> {
    match f.why {
        Explanation::Accepted => "Listener accepted"@,
        Explanation::Unsupported =>
            "Listener requires a unique hostname, HTTP/HTTPS and a configured external port; unsupported fields are rejected"@,
        Explanation::Certificate(_) => certificate,
        Explanation::HttpWithTls => "HTTP listener cannot configure TLS"@,
    }
}

fn explain<'a>(f: Fate, certificate: &'a str) -> (r: &'a str)
    ensures
        r@ == explained(f, certificate@),
{
    match f.why {
        Explanation::Accepted => "Listener accepted",
        Explanation::Unsupported =>
            "Listener requires a unique hostname, HTTP/HTTPS and a configured external port; unsupported fields are rejected",
        Explanation::Certificate(_) => certificate,
        Explanation::HttpWithTls => "HTTP listener cannot configure TLS",
    }
}

/// A kind of route that listeners take.
pub open spec fn route_kind(kind: Seq<char>) -> Tree {
    Tree::Object(
        seq![
            ("group"@, Tree::Text("gateway.networking.k8s.io"@)),
            ("kind"@, Tree::Text(kind)),
        ],
    )
}

fn route_kind_json(kind: &str) -> (j: Json)
    ensures
        j.tree() == route_kind(kind@),
{
    let mut v = start();
    put(&mut v, "group", words("gateway.networking.k8s.io"));
    put(&mut v, "kind", words(kind));
    assert(member_trees(v@) =~= route_kind(kind@)->Object_0);
    object(v)
}

/// What is reported of a listener that so many routes are attached to.
pub open spec fn listener_tree(r: Report, name: Seq<char>, f: Fate, certificate: Seq<char>, count: nat) -> Tree {
    let message = explained(f, certificate);
    let word = Word {
        accepted: f.valid,
        reason: f.spec_reason(),
        message,
        resolved: f.references == References::Resolved,
        references: f.references.spec_text(),
    };
    Tree::Object(
        seq![
            ("attachedRoutes"@, number(count)),
            (
                "conditions"@,
                Tree::List(
                    r.both(word).push(
                        r.told(
                            "Programmed"@,
                            f.valid,
                            if f.valid {
                                "Programmed"@
                            } else {
                                "Invalid"@
                            },
                            message,
                        ),
                    ),
                ),
            ),
            ("name"@, Tree::Text(name)),
            (
                "supportedKinds"@,
                Tree::List(seq![route_kind("HTTPRoute"@), route_kind("GRPCRoute"@)]),
            ),
        ],
    )
}

fn listener_json(r: &Report, name: &str, f: Fate, certificate: &str, count: usize) -> (j: Json)
    ensures
        j.tree() == listener_tree(*r, name@, f, certificate@, count as nat),
{
    let message = explain(f, certificate);
    let resolved = f.references == References::Resolved;
    let mut conditions = r.conditions(f.valid, f.reason(), message, resolved, f.references.text());
    let ghost before = trees(conditions@);
    let last = r.tell(
        "Programmed",
        f.valid,
        if f.valid {
            "Programmed"
        } else {
            "Invalid"
        },
        message,
    );
    let ghost x = last.tree();
    conditions.push(last);
    assert(trees(conditions@) =~= before.push(x));
    let mut kinds: Vec<Json> = Vec::new();
    kinds.push(route_kind_json("HTTPRoute"));
    kinds.push(route_kind_json("GRPCRoute"));
    assert(trees(kinds@) =~= seq![route_kind("HTTPRoute"@), route_kind("GRPCRoute"@)]);
    let mut v = start();
    put(&mut v, "attachedRoutes", number_json(count as u64));
    put(&mut v, "conditions", list(conditions));
    put(&mut v, "name", words(name));
    put(&mut v, "supportedKinds", list(kinds));
    assert(member_trees(v@) =~= listener_tree(*r, name@, f, certificate@, count as nat)->Object_0);
    object(v)
}

/// What is reported of all listeners; `certificates` says what is wrong with the certificate of each.
pub open spec fn listener_trees(r: Report, p: Placing, certificates: Seq<String>) -> Seq<Tree> {
    Seq::new(
        p.listeners@.len(),
        |i: int|
            listener_tree(
                r,
                p.listeners@[i].string_or("name"@, ""@),
                p.fates@[i],
                certificates[i]@,
                attached_at(p.chart().bonds, i as nat),
            ),
    )
}

fn listeners_json(r: &Report, p: &Placing, certificates: &Vec<String>) -> (v: Vec<Json>)
    requires
        p.wf(),
        certificates@.len() == p.listeners@.len(),
    ensures
        trees(v@) == listener_trees(*r, *p, certificates@),
{
    let ghost goal = listener_trees(*r, *p, certificates@);
    let mut v: Vec<Json> = Vec::new();
    let mut i: usize = 0;
    assert(trees(v@) =~= goal.take(0));
    while i < p.listeners.len()
        invariant
            i <= p.listeners.len(),
            p.wf(),
            certificates@.len() == p.listeners@.len(),
            goal == listener_trees(*r, *p, certificates@),
            trees(v@) == goal.take(i as int),
        decreases p.listeners.len() - i,
    {
        let ghost before = trees(v@);
        let j = listener_json(
            r,
            p.listeners[i].text("name", ""),
            p.fates[i],
            certificates[i].as_str(),
            p.count(i),
        );
        assert(j.tree() == goal[i as int]);
        v.push(j);
        assert(trees(v@) =~= before.push(goal[i as int]));
        i += 1;
        assert(trees(v@) =~= goal.take(i as int));
    }
    assert(goal.take(i as int) =~= goal);
    v
}

// ---------------------------------------------------------------------------
// The gateway and its class
// ---------------------------------------------------------------------------

pub open spec fn programmed_message(p: Programmed) -> Seq<char> {
    match p {
        Programmed::Programmed => "Configuration published"@,
        Programmed::Pending => "Waiting for accepted plugins to restore"@,
        Programmed::Invalid => "No valid listener"@,
    }
}

/// What is reported of the gateway.
pub open spec fn gateway_tree(r: Report, p: Placing, certificates: Seq<String>, valid: bool, done: Programmed) -> Tree {
    Tree::Object(
        seq![
            (
                "conditions"@,
                Tree::List(
                    seq![
                        r.told(
                            "Accepted"@,
                            valid,
                            if valid {
                                "Accepted"@
                            } else {
                                "UnsupportedValue"@
                            },
                            "Pre-provisioned Gateway uses the configured HTTP and HTTPS ports"@,
                        ),
                        r.told(
                            "Programmed"@,
                            done == Programmed::Programmed,
                            done.spec_text(),
                            programmed_message(done),
                        ),
                    ],
                ),
            ),
            ("listeners"@, Tree::List(listener_trees(r, p, certificates))),
        ],
    )
}

/// What is reported of the gateway: whether it and what it says is valid, whether it is carried out, and of
/// each of its listeners how many routes are attached.
pub fn gateway_status(
    r: &Report,
    p: &Placing,
    certificates: &Vec<String>,
    valid: bool,
    done: Programmed,
) -> (j: Json)
    requires
        p.wf(),
        certificates@.len() == p.listeners@.len(),
    ensures
        j.tree() == gateway_tree(*r, *p, certificates@, valid, done),
{
    let mut conditions: Vec<Json> = Vec::new();
    conditions.push(
        r.tell(
            "Accepted",
            valid,
            if valid {
                "Accepted"
            } else {
                "UnsupportedValue"
            },
            "Pre-provisioned Gateway uses the configured HTTP and HTTPS ports",
        ),
    );
    let message = match done {
        Programmed::Programmed => "Configuration published",
        Programmed::Pending => "Waiting for accepted plugins to restore",
        Programmed::Invalid => "No valid listener",
    };
    conditions.push(r.tell("Programmed", done == Programmed::Programmed, done.text(), message));
    let ghost goal = gateway_tree(*r, *p, certificates@, valid, done)->Object_0;
    assert(trees(conditions@) =~= goal[0].1->List_0);
    let mut v = start();
    put(&mut v, "conditions", list(conditions));
    put(&mut v, "listeners", list(listeners_json(r, p, certificates)));
    assert(member_trees(v@) =~= goal);
    object(v)
}

/// What is reported of the class of the gateway.
pub open spec fn class_tree(r: Report, valid: bool) -> Tree {
    Tree::Object(
        seq![
            (
                "conditions"@,
                Tree::List(
                    seq![
                        r.told(
                            "Accepted"@,
                            valid,
                            if valid {
                                "Accepted"@
                            } else {
                                "InvalidParameters"@
                            },
                            "Pre-provisioned rgnix Gateway; parametersRef is unsupported"@,
                        ),
                    ],
                ),
            ),
        ],
    )
}

/// What is reported of the class of the gateway.
pub fn class_status(r: &Report, valid: bool) -> (j: Json)
    ensures
        j.tree() == class_tree(*r, valid),
{
    let mut conditions: Vec<Json> = Vec::new();
    conditions.push(
        r.tell(
            "Accepted",
            valid,
            if valid {
                "Accepted"
            } else {
                "InvalidParameters"
            },
            "Pre-provisioned rgnix Gateway; parametersRef is unsupported",
        ),
    );
    let ghost goal = class_tree(*r, valid)->Object_0;
    assert(trees(conditions@) =~= goal[0].1->List_0);
    let mut v = start();
    put(&mut v, "conditions", list(conditions));
    assert(member_trees(v@) =~= goal);
    object(v)
}

// ---------------------------------------------------------------------------
// Routes
// ---------------------------------------------------------------------------

/// A member that may be missing.
pub open spec fn optional(name: Seq<char>, s: Option<String>) -> Seq<(Seq<char>, Tree)> {
    match s {
        Some(s) => seq![(name, Tree::Text(s@))],
        None => Seq::empty(),
    }
}

fn put_optional(v: &mut Vec<(String, Json)>, name: &str, s: &Option<String>)
    ensures
        member_trees(final(v)@) == member_trees(old(v)@) + optional(name@, *s),
{
    let ghost before = member_trees(v@);
    match s {
        Some(s) => {
            put(v, name, words(s.as_str()));
            assert(before.push((name@, Tree::Text(s@))) =~= before + seq![(name@, Tree::Text(s@))]);
        },
        None => {
            assert(before + Seq::<(Seq<char>, Tree)>::empty() =~= before);
        },
    }
}

/// A reference as it is written: what is not said is left out.
pub open spec fn reference_tree(r: Reference) -> Tree {
    Tree::Object(
        optional("group"@, r.group) + optional("kind"@, r.kind) + seq![
            ("name"@, Tree::Text(r.name@)),
        ] + optional("namespace"@, r.namespace) + match r.port {
            Some(n) => seq![("port"@, number(n as nat))],
            None => Seq::empty(),
        } + optional("sectionName"@, r.section_name),
    )
}

fn reference_json(r: &Reference) -> (j: Json)
    ensures
        j.tree() == reference_tree(*r),
{
    let mut v = start();
    put_optional(&mut v, "group", &r.group);
    put_optional(&mut v, "kind", &r.kind);
    put(&mut v, "name", words(r.name.as_str()));
    put_optional(&mut v, "namespace", &r.namespace);
    if let Some(n) = r.port {
        put(&mut v, "port", number_json(n as u64));
    }
    put_optional(&mut v, "sectionName", &r.section_name);
    assert(member_trees(v@) =~= reference_tree(*r)->Object_0);
    object(v)
}

/// What is reported of a route to one of its parents.
pub open spec fn parent_tree(r: Report, s: Served, parent: Reference, w: Word, stale: bool) -> Tree {
    Tree::Object(
        seq![
            (
                "conditions"@,
                Tree::List(
                    if stale {
                        r.both(w).push(
                            r.told(
                                "rgnix.io/PluginReady"@,
                                false,
                                "CompilationFailed"@,
                                "Previous valid plugin retained; current references and endpoint withdrawals still apply"@,
                            ),
                        )
                    } else {
                        r.both(w)
                    },
                ),
            ),
            ("controllerName"@, Tree::Text(s.controller@)),
            ("parentRef"@, reference_tree(parent)),
        ],
    )
}

/// What is reported of a route to one of its parents; `stale` says whether what was accepted before takes
/// the place of a script that does not compile.
pub fn parent_status(r: &Report, s: &Served, parent: &Reference, w: &Ruling, stale: bool) -> (j: Json)
    ensures
        j.tree() == parent_tree(*r, *s, *parent, w@, stale),
{
    let mut conditions = r.conditions(
        w.accepted,
        w.reason.as_str(),
        w.message.as_str(),
        w.resolved,
        w.references.as_str(),
    );
    let ghost goal = parent_tree(*r, *s, *parent, w@, stale)->Object_0;
    let ghost before = trees(conditions@);
    if stale {
        let last = r.tell(
            "rgnix.io/PluginReady",
            false,
            "CompilationFailed",
            "Previous valid plugin retained; current references and endpoint withdrawals still apply",
        );
        let ghost x = last.tree();
        conditions.push(last);
        assert(trees(conditions@) =~= before.push(x));
    }
    assert(trees(conditions@) =~= goal[0].1->List_0);
    let mut v = start();
    put(&mut v, "conditions", list(conditions));
    put(&mut v, "controllerName", words(s.controller.as_str()));
    put(&mut v, "parentRef", reference_json(parent));
    assert(member_trees(v@) =~= goal);
    object(v)
}

/// What is reported of a route to all of its parents.
pub fn route_status(parents: Vec<Json>) -> (j: Json)
    ensures
        j.tree() == Tree::Object(seq![("parents"@, Tree::List(trees(parents@)))]),
{
    let ghost t = trees(parents@);
    let mut v = start();
    put(&mut v, "parents", list(parents));
    assert(member_trees(v@) =~= seq![("parents"@, Tree::List(t))]);
    object(v)
}

/// Whether something is on record of a route that was said by this controller for the gateway.
pub open spec fn on_record(o: Object, s: Served) -> bool {
    match o.data.at("status"@).at("parents"@).list() {
        None => false,
        Some(v) => exists|i: int|
            0 <= i < v.len() && (#[trigger] v[i]).at("controllerName"@).string() == Some(s.controller@)
                && owns(v[i].at("parentRef"@), text::opt(o.namespace), s),
    }
}

/// Whether what is on record of a route has to be withdrawn once none of its parents is the gateway.
pub fn withdraws(o: &Object, s: &Served) -> (r: bool)
    ensures
        r == on_record(*o, *s),
{
    let v = match o.data.field("status").get_array("parents") {
        None => return false,
        Some(v) => v,
    };
    let mut i: usize = 0;
    while i < v.len()
        invariant
            i <= v.len(),
            o.data.at("status"@).at("parents"@).list() == Some(v@),
            forall|j: int|
                0 <= j < i ==> !((#[trigger] v@[j]).at("controllerName"@).string() == Some(s.controller@)
                    && owns(v@[j].at("parentRef"@), text::opt(o.namespace), *s)),
        decreases v.len() - i,
    {
        let own = match v[i].get_str("controllerName") {
            Some(n) => text::same(n, s.controller.as_str()),
            None => false,
        };
        if own && owns_parent(v[i].field("parentRef"), &o.namespace, s) {
            proof {
                let all = o.data.at("status"@).at("parents"@).list()->0;
                assert(all == v@);
                assert(all[i as int].at("controllerName"@).string() == Some(s.controller@));
            }
            return true;
        }
        i += 1;
    }
    false
}

// ---------------------------------------------------------------------------
// Policies
// ---------------------------------------------------------------------------

/// The gateway that is served, as policies refer to it.
pub open spec fn ancestor(s: Served) -> Tree {
    Tree::Object(
        seq![
            ("group"@, Tree::Text("gateway.networking.k8s.io"@)),
            ("kind"@, Tree::Text("Gateway"@)),
            ("name"@, Tree::Text(s.name@)),
            ("namespace"@, Tree::Text(s.namespace@)),
        ],
    )
}

/// What is said of a policy; `failure` is why it is invalid.
pub open spec fn policy_message(v: Verdict, failure: Option<Seq<char>>) -> Seq<char> {
    match failure {
        Some(m) => m,
        None => if v.reason == Reason::Conflicted {
            "An older policy owns this target"@
        } else {
            "Backend TLS policy evaluated"@
        },
    }
}

/// What is reported of a policy on TLS.
pub open spec fn policy_tree(r: Report, s: Served, v: Verdict, failure: Option<Seq<char>>) -> Tree {
    let message = policy_message(v, failure);
    Tree::Object(
        seq![
            (
                "ancestors"@,
                Tree::List(
                    seq![
                        Tree::Object(
                            seq![
                                ("ancestorRef"@, ancestor(s)),
                                (
                                    "conditions"@,
                                    Tree::List(
                                        seq![
                                            r.told(
                                                "Accepted"@,
                                                v.accepted,
                                                v.reason.spec_text(),
                                                message,
                                            ),
                                            r.told(
                                                "ResolvedRefs"@,
                                                !v.authority,
                                                if v.authority {
                                                    "InvalidCACertificateRef"@
                                                } else {
                                                    "ResolvedRefs"@
                                                },
                                                message,
                                            ),
                                        ],
                                    ),
                                ),
                                ("controllerName"@, Tree::Text(s.controller@)),
                            ],
                        ),
                    ],
                ),
            ),
        ],
    )
}

/// What is reported of a policy on TLS; `failure` is why it is invalid.
pub fn policy_status(r: &Report, s: &Served, v: &Verdict, failure: &Option<String>) -> (j: Json)
    ensures
        j.tree() == policy_tree(*r, *s, *v, text::opt(*failure)),
{
    let message: &str = match failure {
        Some(m) => m.as_str(),
        None => if v.reason == Reason::Conflicted {
            "An older policy owns this target"
        } else {
            "Backend TLS policy evaluated"
        },
    };
    let ghost goal = policy_tree(*r, *s, *v, text::opt(*failure))->Object_0;
    let ghost one = goal[0].1->List_0[0]->Object_0;
    let mut conditions: Vec<Json> = Vec::new();
    conditions.push(r.tell("Accepted", v.accepted, v.reason.text(), message));
    conditions.push(
        r.tell(
            "ResolvedRefs",
            !v.authority,
            if v.authority {
                "InvalidCACertificateRef"
            } else {
                "ResolvedRefs"
            },
            message,
        ),
    );
    assert(trees(conditions@) =~= one[1].1->List_0);
    let mut a = start();
    put(&mut a, "group", words("gateway.networking.k8s.io"));
    put(&mut a, "kind", words("Gateway"));
    put(&mut a, "name", words(s.name.as_str()));
    put(&mut a, "namespace", words(s.namespace.as_str()));
    assert(member_trees(a@) =~= ancestor(*s)->Object_0);
    let mut e = start();
    put(&mut e, "ancestorRef", object(a));
    put(&mut e, "conditions", list(conditions));
    put(&mut e, "controllerName", words(s.controller.as_str()));
    assert(member_trees(e@) =~= one);
    let mut all: Vec<Json> = Vec::new();
    all.push(object(e));
    assert(trees(all@) =~= goal[0].1->List_0);
    let mut v = start();
    put(&mut v, "ancestors", list(all));
    assert(member_trees(v@) =~= goal);
    object(v)
}

// ---------------------------------------------------------------------------
// Laws
// ---------------------------------------------------------------------------

/// A route whose policies cannot be carried out is not accepted, wherever it is attached, and what is
/// reported says why.
pub proof fn law_failed_policies_are_reported(
    why: Attachment,
    attached: bool,
    p: RoutePlan,
)
    requires
        p.failed is Some,
    ensures
        !ruled(why, attached, p).accepted,
        attached ==> !ruled(why, attached, p).resolved,
        why == Attachment::Attached ==> ruled(
            why,
            attached,
            p,
        ).message == p.failed->0@,
{
}

/// Of a parent it is told whether the route is accepted and whether its references are resolved; and of one
/// that keeps an older script, that too.
pub proof fn law_parents_are_told(r: Report, s: Served, parent: Reference, w: Word, stale: bool)
    ensures
        ({
            let t = parent_tree(r, s, parent, w, stale);
            &&& t.at("controllerName"@) == Tree::Text(s.controller@)
            &&& t.at("parentRef"@) == reference_tree(parent)
            &&& t.at("conditions"@).list() is Some
            &&& t.at("conditions"@).list()->0.len() == if stale {
                3nat
            } else {
                2nat
            }
            &&& t.at("conditions"@).list()->0[0] == r.told("Accepted"@, w.accepted, w.reason, w.message)
            &&& t.at("conditions"@).list()->0[1] == r.told(
                "ResolvedRefs"@,
                w.resolved,
                w.references,
                if w.resolved {
                    "References resolved"@
                } else {
                    "A backend or certificate reference cannot be used"@
                },
            )
            &&& stale ==> t.at("conditions"@).list()->0[2] == r.told(
                "rgnix.io/PluginReady"@,
                false,
                "CompilationFailed"@,
                "Previous valid plugin retained; current references and endpoint withdrawals still apply"@,
            )
        }),
{
    reveal_with_fuel(crate::json::branch, 4);
    reveal_strlit("controllerName");
    reveal_strlit("conditions");
    assert("controllerName"@.len() != "conditions"@.len());
    reveal_strlit("parentRef");
    reveal_strlit("conditions");
    assert("parentRef"@.len() != "conditions"@.len());
    reveal_strlit("controllerName");
    assert("parentRef"@.len() != "controllerName"@.len());
}

/// Of a listener it is told how many routes are attached, and that it is programmed where it is valid.
pub proof fn law_listeners_are_told(r: Report, name: Seq<char>, f: Fate, certificate: Seq<char>, count: nat)
    ensures
        ({
            let t = listener_tree(r, name, f, certificate, count);
            &&& t.at("attachedRoutes"@) == number(count)
            &&& t.at("name"@) == Tree::Text(name)
            &&& t.at("conditions"@).list() is Some
            &&& t.at("conditions"@).list()->0.len() == 3
            &&& t.at("conditions"@).list()->0[2] == r.told(
                "Programmed"@,
                f.valid,
                if f.valid {
                    "Programmed"@
                } else {
                    "Invalid"@
                },
                explained(f, certificate),
            )
            &&& t.at("supportedKinds"@).list() == Some(seq![route_kind("HTTPRoute"@), route_kind("GRPCRoute"@)])
        }),
{
    reveal_with_fuel(crate::json::branch, 5);
    reveal_strlit("name");
    reveal_strlit("attachedRoutes");
    assert("name"@.len() != "attachedRoutes"@.len());
    reveal_strlit("conditions");
    assert("name"@.len() != "conditions"@.len());
    reveal_strlit("conditions");
    reveal_strlit("attachedRoutes");
    assert("conditions"@.len() != "attachedRoutes"@.len());
    reveal_strlit("supportedKinds");
    reveal_strlit("attachedRoutes");
    assert("supportedKinds"@[0] != "attachedRoutes"@[0]);
    reveal_strlit("conditions");
    assert("supportedKinds"@.len() != "conditions"@.len());
    reveal_strlit("name");
    assert("supportedKinds"@.len() != "name"@.len());
}

/// A Gateway is programmed where its configuration is published, and not while it waits or has no listener.
pub proof fn law_gateways_are_told(r: Report, p: Placing, certificates: Seq<String>, valid: bool, done: Programmed)
    ensures
        ({
            let t = gateway_tree(r, p, certificates, valid, done);
            &&& t.at("conditions"@).list() is Some
            &&& t.at("conditions"@).list()->0.len() == 2
            &&& t.at("conditions"@).list()->0[1] == r.told(
                "Programmed"@,
                done == Programmed::Programmed,
                done.spec_text(),
                programmed_message(done),
            )
            &&& t.at("listeners"@).list() is Some
            &&& t.at("listeners"@).list()->0.len() == p.listeners@.len()
        }),
        valid ==> gateway_tree(r, p, certificates, valid, done).at("conditions"@).list()->0[0] == r.told(
            "Accepted"@,
            true,
            "Accepted"@,
            "Pre-provisioned Gateway uses the configured HTTP and HTTPS ports"@,
        ),
        !valid ==> gateway_tree(r, p, certificates, valid, done).at("conditions"@).list()->0[0] == r.told(
            "Accepted"@,
            false,
            "UnsupportedValue"@,
            "Pre-provisioned Gateway uses the configured HTTP and HTTPS ports"@,
        ),
        programmed_message(Programmed::Programmed) == "Configuration published"@,
        programmed_message(Programmed::Pending) == "Waiting for accepted plugins to restore"@,
        programmed_message(Programmed::Invalid) == "No valid listener"@,
{
    reveal_with_fuel(crate::json::branch, 3);
    reveal_strlit("listeners");
    reveal_strlit("conditions");
    assert("listeners"@.len() != "conditions"@.len());
}

/// A class is accepted where its parameters are valid.
pub proof fn law_classes_are_told(r: Report)
    ensures
        class_tree(r, true).at("conditions"@).list() is Some,
        class_tree(r, true).at("conditions"@).list()->0[0] == r.told(
            "Accepted"@,
            true,
            "Accepted"@,
            "Pre-provisioned rgnix Gateway; parametersRef is unsupported"@,
        ),
        class_tree(r, false).at("conditions"@).list() is Some,
        class_tree(r, false).at("conditions"@).list()->0[0] == r.told(
            "Accepted"@,
            false,
            "InvalidParameters"@,
            "Pre-provisioned rgnix Gateway; parametersRef is unsupported"@,
        ),
{
    reveal_with_fuel(crate::json::branch, 2);
}

/// A policy on TLS is told of under the Gateway; whether its authority can be used is told for itself.
pub proof fn law_policies_are_told(r: Report, s: Served, v: Verdict, failure: Option<Seq<char>>)
    ensures
        ({
            let t = policy_tree(r, s, v, failure).at("ancestors"@);
            &&& t.list() is Some
            &&& t.list()->0.len() == 1
            &&& t.list()->0[0].at("ancestorRef"@).at("name"@) == Tree::Text(s.name@)
            &&& t.list()->0[0].at("ancestorRef"@).at("namespace"@) == Tree::Text(s.namespace@)
            &&& t.list()->0[0].at("controllerName"@) == Tree::Text(s.controller@)
            &&& t.list()->0[0].at("conditions"@).list() is Some
            &&& t.list()->0[0].at("conditions"@).list()->0.len() == 2
            &&& t.list()->0[0].at("conditions"@).list()->0[0] == r.told(
                "Accepted"@,
                v.accepted,
                v.reason.spec_text(),
                policy_message(v, failure),
            )
            &&& t.list()->0[0].at("conditions"@).list()->0[1] == r.told(
                "ResolvedRefs"@,
                !v.authority,
                if v.authority {
                    "InvalidCACertificateRef"@
                } else {
                    "ResolvedRefs"@
                },
                policy_message(v, failure),
            )
        }),
        failure is Some ==> policy_message(v, failure) == failure->0,
        failure is None && v.reason == Reason::Conflicted ==> policy_message(v, failure)
            == "An older policy owns this target"@,
        failure is None && v.reason != Reason::Conflicted ==> policy_message(v, failure)
            == "Backend TLS policy evaluated"@,
{
    reveal_with_fuel(crate::json::branch, 5);
    reveal_strlit("conditions");
    reveal_strlit("ancestorRef");
    assert("conditions"@.len() != "ancestorRef"@.len());
    reveal_strlit("controllerName");
    reveal_strlit("ancestorRef");
    assert("controllerName"@.len() != "ancestorRef"@.len());
    reveal_strlit("conditions");
    assert("controllerName"@.len() != "conditions"@.len());
    reveal_strlit("name");
    reveal_strlit("group");
    assert("name"@.len() != "group"@.len());
    reveal_strlit("kind");
    assert("name"@[0] != "kind"@[0]);
    reveal_strlit("namespace");
    reveal_strlit("group");
    assert("namespace"@.len() != "group"@.len());
    reveal_strlit("kind");
    assert("namespace"@.len() != "kind"@.len());
    reveal_strlit("name");
    assert("namespace"@.len() != "name"@.len());
}

/// What is on record of a route is withdrawn where this controller told it of this Gateway.
pub proof fn law_own_records_are_withdrawn(o: Object, s: Served, i: int)
    requires
        o.data.at("status"@).at("parents"@).list() is Some,
        0 <= i < o.data.at("status"@).at("parents"@).list()->0.len(),
        o.data.at("status"@).at("parents"@).list()->0[i].at("controllerName"@).string() == Some(s.controller@),
        owns(o.data.at("status"@).at("parents"@).list()->0[i].at("parentRef"@), text::opt(o.namespace), s),
    ensures
        on_record(o, s),
{
}

} // verus!
