//! What is kept of routes with scripts that were accepted.
use crate::digest::{digest_text, text_digest};
use crate::gateway::references::{Object, Resources};
use crate::gateway::status::{owns, owns_parent, Served};
use crate::ingress::backends::is_named;
use crate::ingress::checkpoint::{short_digest, short_digest_text};
use crate::ingress::dependencies::{annotations as treating_annotations, treating};
use crate::ingress::spec::same_pairs;
use crate::json::{alike, Json};
use crate::text;
use vstd::prelude::*;

verus! {

/// The longest checkpoint.
pub const MAX_CHECKPOINT: usize = 921600;

/// The form of the checkpoints.
pub const SCHEMA: u8 = 1;

/// A route that was accepted: the resource, the gateway and the script.
#[derive(Debug)]
pub struct Accepted {
    pub schema: u8,
    pub gateway_uid: String,
    pub namespace: String,
    pub name: String,
    pub kind: String,
    pub uid: String,
    pub reference: String,
    pub configmap_uid: String,
    pub source: String,
    /// What the route asks for.
    pub spec: Json,
    pub annotations: Vec<(String, String)>,
}

/// The scope of the checkpoints of a gateway.
pub open spec fn scope_of(s: Served) -> Seq<char> {
    short_digest(s.namespace@ + "/"@ + s.name@)
}

pub fn scope(s: &Served) -> (out: String)
    ensures
        out@ == scope_of(*s),
{
    short_digest_text(text::concat3(s.namespace.as_str(), "/", s.name.as_str()).as_str())
}

/// The name of the checkpoint of a route.
pub open spec fn name_of(s: Served, uid: Seq<char>) -> Seq<char> {
    ("rgnix-gw-"@ + text_digest(scope_of(s) + "/"@ + uid)).take(55)
}

/// The name of the checkpoint of a route.
pub fn name(s: &Served, uid: &str) -> (out: String)
    ensures
        out@ == name_of(*s, uid@),
{
    let inner = text::concat3(scope(s).as_str(), "/", uid);
    let d = digest_text(inner.as_str());
    let whole = text::concat("rgnix-gw-", d.as_str());
    proof {
        reveal_strlit("rgnix-gw-");
        assert(whole@.len() == 73);
    }
    let v = text::chars(whole.as_str());
    let out = text::slice(&v, 0, 55);
    assert(out@ =~= whole@.take(55));
    out
}

/// The config map with the checkpoint of a route, where it is labelled as one of the gateway; its text,
/// where it is not too long.
pub open spec fn text_of(r: Resources, publish: Seq<char>, s: Served, uid: Seq<char>) -> Option<Seq<char>> {
    match r.object("ConfigMap"@, publish, name_of(s, uid)) {
        None => None,
        Some(m) => if text::lookup(text::pairs(m.labels@), "rgnix.io/gateway-checkpoint"@) != Some(
            scope_of(s),
        ) {
            None
        } else {
            match m.data.at("data"@).at("accepted.json"@).string() {
                None => None,
                Some(t) => if text::byte_len(t) > MAX_CHECKPOINT {
                    None
                } else {
                    Some(t)
                },
            }
        },
    }
}

/// The text of the checkpoint of a route.
pub fn stored_text<'a>(resources: &'a Resources, publish: &str, s: &Served, uid: &str) -> (r: Option<&'a str>)
    ensures
        match r {
            Some(t) => text_of(*resources, publish@, *s, uid@) == Some(t@),
            None => text_of(*resources, publish@, *s, uid@) is None,
        },
{
    let key = name(s, uid);
    let m = match resources.find("ConfigMap", publish, key.as_str()) {
        None => return None,
        Some(m) => m,
    };
    let own = scope(s);
    let labelled = match text::find(&m.labels, "rgnix.io/gateway-checkpoint") {
        Some(l) => text::same(l, own.as_str()),
        None => false,
    };
    if !labelled {
        return None;
    }
    match m.data.field("data").get_str("accepted.json") {
        None => None,
        Some(t) => if text::len(t) > MAX_CHECKPOINT {
            None
        } else {
            Some(t)
        },
    }
}

/// The names of the checkpoints of routes.
pub open spec fn names_of(s: Served, uids: Seq<Seq<char>>) -> Seq<Seq<char>> {
    Seq::new(uids.len(), |i: int| name_of(s, uids[i]))
}

/// Whether a map, by its name, holds a checkpoint that no route wants.
pub open spec fn is_stale(name: Seq<char>, s: Served, uids: Seq<Seq<char>>) -> bool {
    text::starts(name, "rgnix-gw-"@) && !names_of(s, uids).contains(name)
}

/// Where the maps are that no route wants, among the first `n`.
pub open spec fn stale_until(v: Seq<Seq<char>>, s: Served, uids: Seq<Seq<char>>, n: int) -> Seq<usize>
    decreases n,
{
    if n <= 0 {
        Seq::empty()
    } else if is_stale(v[n - 1], s, uids) {
        stale_until(v, s, uids, n - 1).push((n - 1) as usize)
    } else {
        stale_until(v, s, uids, n - 1)
    }
}

/// Where the maps are, of those that are labelled with the scope of a gateway, whose checkpoint none of the
/// routes wants.
pub fn stale(maps: &Vec<String>, s: &Served, uids: &Vec<String>) -> (out: Vec<usize>)
    ensures
        out@ == stale_until(text::texts(maps@), *s, text::texts(uids@), maps@.len() as int),
{
    let mut names: Vec<String> = Vec::new();
    let mut i: usize = 0;
    while i < uids.len()
        invariant
            i <= uids.len(),
            names@.len() == i,
            forall|k: int| 0 <= k < i ==> (#[trigger] names@[k])@ == name_of(*s, uids@[k]@),
        decreases uids.len() - i,
    {
        names.push(name(s, uids[i].as_str()));
        i += 1;
    }
    assert(text::texts(names@) =~= names_of(*s, text::texts(uids@)));
    let mut out: Vec<usize> = Vec::new();
    let mut i: usize = 0;
    while i < maps.len()
        invariant
            i <= maps.len(),
            text::texts(names@) == names_of(*s, text::texts(uids@)),
            out@ == stale_until(text::texts(maps@), *s, text::texts(uids@), i as int),
        decreases maps.len() - i,
    {
        proof {
            assert(text::texts(maps@)[i as int] == maps@[i as int]@);
        }
        if text::starts_with(maps[i].as_str(), "rgnix-gw-") && !text::contains(
            &names,
            maps[i].as_str(),
        ) {
            out.push(i);
        }
        i += 1;
    }
    out
}

/// No checkpoint is removed that a route wants.
pub proof fn law_wanted_checkpoints_stay(
    v: Seq<Seq<char>>,
    s: Served,
    uids: Seq<Seq<char>>,
    n: int,
    i: int,
    k: int,
)
    requires
        0 <= n <= v.len(),
        v.len() <= usize::MAX,
        0 <= i < stale_until(v, s, uids, n).len(),
        0 <= k < uids.len(),
    ensures
        stale_until(v, s, uids, n)[i] < n,
        v[stale_until(v, s, uids, n)[i] as int] != name_of(s, uids[k]),
    decreases n,
{
    let before = stale_until(v, s, uids, n - 1);
    if i < before.len() {
        law_wanted_checkpoints_stay(v, s, uids, n - 1, i, k);
    } else {
        assert(names_of(s, uids)[k] == name_of(s, uids[k]));
    }
}

/// Whether a checkpoint is one for a route of a kind, at the gateway as it is.
pub open spec fn restorable(a: Accepted, o: Object, kind: Seq<char>, gateway_uid: Option<Seq<char>>) -> bool {
    &&& a.schema == SCHEMA
    &&& text::opt(o.uid) == Some(a.uid@)
    &&& a.kind@ == kind
    &&& text::opt(o.namespace) == Some(a.namespace@)
    &&& a.name@ == o.name@
    &&& gateway_uid == Some(a.gateway_uid@)
}

/// The identifier of the gateway that is served.
pub open spec fn gateway_uid_of(r: Resources, s: Served) -> Option<Seq<char>> {
    match r.object("Gateway"@, s.namespace@, s.name@) {
        Some(g) => text::opt(g.uid),
        None => None,
    }
}

/// Whether a checkpoint is one for a route of a kind, at the gateway as it is.
pub fn can_restore(a: &Accepted, o: &Object, kind: &str, resources: &Resources, s: &Served) -> (r: bool)
    ensures
        r == restorable(*a, *o, kind@, gateway_uid_of(*resources, *s)),
{
    let gateway = match resources.find("Gateway", s.namespace.as_str(), s.name.as_str()) {
        Some(g) => is_named(&g.uid, a.gateway_uid.as_str()),
        None => false,
    };
    a.schema == SCHEMA && is_named(&o.uid, a.uid.as_str()) && text::same(a.kind.as_str(), kind)
        && is_named(&o.namespace, a.namespace.as_str()) && text::same(
        a.name.as_str(),
        o.name.as_str(),
    ) && gateway
}

/// The annotations of a route that are kept: those that say how requests are treated, and the script.
pub open spec fn kept_annotations(v: Seq<(Seq<char>, Seq<char>)>) -> Seq<(Seq<char>, Seq<char>)> {
    match text::lookup(v, "rgnix.io/script"@) {
        Some(s) => text::put(treating(v), "rgnix.io/script"@, s),
        None => treating(v),
    }
}

/// The annotations of a route that are kept.
pub fn annotations(v: &Vec<(String, String)>) -> (out: Vec<(String, String)>)
    ensures
        text::pairs(out@) == kept_annotations(text::pairs(v@)),
{
    let mut out = treating_annotations(v);
    if let Some(s) = text::find(v, "rgnix.io/script") {
        text::put_pair(&mut out, "rgnix.io/script".to_owned(), s.to_owned());
    }
    out
}

// ---------------------------------------------------------------------------
// Writing
// ---------------------------------------------------------------------------

/// Whether a checkpoint can be of a kind.
pub fn check_kind(kind: &str) -> (r: bool)
    ensures
        r == (kind@ == "HTTPRoute"@ || kind@ == "GRPCRoute"@),
{
    text::same(kind, "HTTPRoute") || text::same(kind, "GRPCRoute")
}

/// What becomes of a checkpoint.
#[derive(Clone, Copy, Debug, PartialEq, Eq, Structural)]
pub enum Write {
    TooLong,
    /// It is written already.
    Kept,
    /// It is written where the resources are still those that were accepted.
    Verify,
}

pub fn write(previous: &Option<String>, data: &str) -> (r: Write)
    ensures
        r == if text::byte_len(data@) > MAX_CHECKPOINT {
            Write::TooLong
        } else if text::opt(*previous) == Some(data@) {
            Write::Kept
        } else {
            Write::Verify
        },
{
    if text::len(data) > MAX_CHECKPOINT {
        Write::TooLong
    } else if is_named(previous, data) {
        Write::Kept
    } else {
        Write::Verify
    }
}

/// A script as it is kept in a config map: the identifier of the map, and what it holds under the key.
#[derive(Debug)]
pub struct Script {
    pub uid: Option<String>,
    pub source: Option<String>,
}

/// Whether what was accepted is still so: the route, the gateway and the script are as they were. `spec`
/// is what the route asks for, where it can be read.
pub open spec fn still_accepted(
    a: Accepted,
    route: Option<Object>,
    spec: Option<Json>,
    gateway_uid: Option<Seq<char>>,
    script: Option<Script>,
) -> bool {
    &&& route is Some
    &&& text::opt(route->0.uid) == Some(a.uid@)
    &&& spec is Some && alike(spec->0.tree(), a.spec.tree())
    &&& kept_annotations(text::pairs(route->0.annotations@)) == text::pairs(a.annotations@)
    &&& gateway_uid == Some(a.gateway_uid@)
    &&& script is Some
    &&& text::opt(script->0.uid) == Some(a.configmap_uid@)
    &&& text::opt(script->0.source) == Some(a.source@)
}

/// Whether what was accepted is still so.
pub fn is_current(
    a: &Accepted,
    route: &Option<Object>,
    spec: &Option<Json>,
    gateway_uid: &Option<String>,
    script: &Option<Script>,
) -> (r: bool)
    ensures
        r == still_accepted(*a, *route, *spec, text::opt(*gateway_uid), *script),
{
    match (route, spec, script) {
        (Some(o), Some(j), Some(s)) => is_named(&o.uid, a.uid.as_str()) && j.same(&a.spec)
            && same_pairs(&annotations(&o.annotations), &a.annotations) && is_named(
            gateway_uid,
            a.gateway_uid.as_str(),
        ) && is_named(&s.uid, a.configmap_uid.as_str()) && is_named(&s.source, a.source.as_str()),
        _ => false,
    }
}

/// Whether a reference of a route is to the gateway that is served.
pub open spec fn any_parent(v: Seq<Json>, ns: Option<Seq<char>>, s: Served) -> bool {
    exists|i: int| 0 <= i < v.len() && owns(#[trigger] v[i], ns, s)
}

fn has_parent(v: &Vec<Json>, ns: &Option<String>, s: &Served) -> (r: bool)
    ensures
        r == any_parent(v@, text::opt(*ns), *s),
{
    let mut i: usize = 0;
    while i < v.len()
        invariant
            i <= v.len(),
            forall|j: int| 0 <= j < i ==> !owns(#[trigger] v@[j], text::opt(*ns), *s),
        decreases v.len() - i,
    {
        if owns_parent(&v[i], ns, s) {
            assert(owns(v@[i as int], text::opt(*ns), *s));
            return true;
        }
        i += 1;
    }
    false
}

/// Whether a checkpoint that nobody here asks for is spared: another replica may have accepted it, since the
/// route, the gateway and the script are there.
pub open spec fn spared(
    a: Accepted,
    route: Option<Object>,
    gateway_uid: Option<Seq<char>>,
    script: Option<Script>,
    s: Served,
) -> bool {
    &&& route is Some
    &&& text::opt(route->0.uid) == Some(a.uid@)
    &&& route->0.data.at("spec"@).at("parentRefs"@).list() is Some && any_parent(
        route->0.data.at("spec"@).at("parentRefs"@).list()->0,
        text::opt(route->0.namespace),
        s,
    )
    &&& gateway_uid == Some(a.gateway_uid@)
    &&& text::lookup(text::pairs(route->0.annotations@), "rgnix.io/script"@) == Some(a.reference@)
    &&& script is Some
    &&& text::opt(script->0.uid) == Some(a.configmap_uid@)
    &&& script->0.source is Some
}

/// Whether a checkpoint that nobody here asks for is spared.
pub fn is_spared(
    a: &Accepted,
    route: &Option<Object>,
    gateway_uid: &Option<String>,
    script: &Option<Script>,
    s: &Served,
) -> (r: bool)
    ensures
        r == spared(*a, *route, text::opt(*gateway_uid), *script, *s),
{
    match (route, script) {
        (Some(o), Some(x)) => {
            let parent = match o.data.field("spec").get_array("parentRefs") {
                Some(v) => has_parent(v, &o.namespace, s),
                None => false,
            };
            let scripted = match text::find(&o.annotations, "rgnix.io/script") {
                Some(t) => text::same(t, a.reference.as_str()),
                None => false,
            };
            is_named(&o.uid, a.uid.as_str()) && parent && is_named(
                gateway_uid,
                a.gateway_uid.as_str(),
            ) && scripted && is_named(&x.uid, a.configmap_uid.as_str()) && x.source.is_some()
        },
        _ => false,
    }
}

// ---------------------------------------------------------------------------
// Laws
// ---------------------------------------------------------------------------

/// What another replica accepted and what is still so is not deleted.
pub proof fn law_current_checkpoints_are_spared(
    a: Accepted,
    route: Option<Object>,
    spec: Option<Json>,
    gateway_uid: Option<Seq<char>>,
    script: Option<Script>,
    s: Served,
)
    requires
        still_accepted(a, route, spec, gateway_uid, script),
        text::lookup(text::pairs(route->0.annotations@), "rgnix.io/script"@) == Some(a.reference@),
        route->0.data.at("spec"@).at("parentRefs"@).list() is Some,
        any_parent(
            route->0.data.at("spec"@).at("parentRefs"@).list()->0,
            text::opt(route->0.namespace),
            s,
        ),
    ensures
        spared(a, route, gateway_uid, script, s),
{
}

/// A checkpoint of another schema, Gateway, kind or route is not restored.
pub proof fn law_only_own_checkpoints_are_restored(a: Accepted, o: Object, kind: Seq<char>, gateway: Option<Seq<char>>)
    ensures
        a.schema != 1 ==> !restorable(a, o, kind, gateway),
        a.kind@ != kind ==> !restorable(a, o, kind, gateway),
        text::opt(o.uid) != Some(a.uid@) ==> !restorable(a, o, kind, gateway),
        text::opt(o.namespace) != Some(a.namespace@) ==> !restorable(a, o, kind, gateway),
        o.name@ != a.name@ ==> !restorable(a, o, kind, gateway),
        gateway != Some(a.gateway_uid@) ==> !restorable(a, o, kind, gateway),
        a.schema == 1 && text::opt(o.uid) == Some(a.uid@) && text::opt(o.namespace) == Some(a.namespace@) && o.name@
            == a.name@ ==> restorable(a, o, a.kind@, Some(a.gateway_uid@)),
{
}

/// A checkpoint is stale where its name is that of a checkpoint and of none that is wanted; every such one
/// is named.
pub proof fn law_stale_checkpoints_are_named(v: Seq<Seq<char>>, s: Served, uids: Seq<Seq<char>>, n: int, k: int)
    requires
        0 <= k < n <= v.len(),
        v.len() <= usize::MAX,
    ensures
        stale_until(v, s, uids, n).contains(k as usize) <==> text::starts(v[k], "rgnix-gw-"@) && forall|i: int|
            0 <= i < uids.len() ==> v[k] != name_of(s, #[trigger] uids[i]),
    decreases n,
{
    let w = stale_until(v, s, uids, n);
    let u = stale_until(v, s, uids, n - 1);
    let names = names_of(s, uids);
    if names.contains(v[k]) {
        let i = choose|i: int| 0 <= i < names.len() && names[i] == v[k];
        assert(v[k] == name_of(s, uids[i]));
    } else {
        assert forall|i: int| 0 <= i < uids.len() implies v[k] != name_of(s, #[trigger] uids[i]) by {
            assert(names[i] == name_of(s, uids[i]));
        }
    }
    lemma_stale_below(v, s, uids, n - 1);
    if k == n - 1 {
        if is_stale(v[k], s, uids) {
            assert(w[w.len() - 1] == k as usize);
        } else if w.contains(k as usize) {
            let j = choose|j: int| 0 <= j < w.len() && w[j] == k as usize;
            assert(u[j] < n - 1);
        }
    } else {
        law_stale_checkpoints_are_named(v, s, uids, n - 1, k);
        if u.contains(k as usize) {
            let j = choose|j: int| 0 <= j < u.len() && u[j] == k as usize;
            assert(w[j] == k as usize);
        }
        if w.contains(k as usize) {
            let j = choose|j: int| 0 <= j < w.len() && w[j] == k as usize;
            assert(u[j] == k as usize);
        }
    }
}

proof fn lemma_stale_below(v: Seq<Seq<char>>, s: Served, uids: Seq<Seq<char>>, n: int)
    requires
        0 <= n <= v.len(),
        v.len() <= usize::MAX,
    ensures
        forall|i: int| 0 <= i < stale_until(v, s, uids, n).len() ==> #[trigger] stale_until(v, s, uids, n)[i] < n,
    decreases n,
{
    if n > 0 {
        lemma_stale_below(v, s, uids, n - 1);
        let u = stale_until(v, s, uids, n - 1);
        let w = stale_until(v, s, uids, n);
        assert forall|i: int| 0 <= i < w.len() implies #[trigger] w[i] < n by {
            if i < u.len() {
                assert(u[i] < n - 1);
            }
        }
    }
}

/// What was accepted stands no longer once the route, its annotations, the Gateway or the script are others.
pub proof fn law_changes_end_what_was_accepted(
    a: Accepted,
    route: Object,
    spec: Json,
    gateway: Option<Seq<char>>,
    script: Script,
)
    ensures
        !still_accepted(a, None, Some(spec), gateway, Some(script)),
        !still_accepted(a, Some(route), None, gateway, Some(script)),
        !still_accepted(a, Some(route), Some(spec), gateway, None),
        text::opt(route.uid) != Some(a.uid@) ==> !still_accepted(a, Some(route), Some(spec), gateway, Some(script)),
        gateway != Some(a.gateway_uid@) ==> !still_accepted(a, Some(route), Some(spec), gateway, Some(script)),
        text::opt(script.uid) != Some(a.configmap_uid@) ==> !still_accepted(
            a,
            Some(route),
            Some(spec),
            gateway,
            Some(script),
        ),
        text::opt(script.source) != Some(a.source@) ==> !still_accepted(
            a,
            Some(route),
            Some(spec),
            gateway,
            Some(script),
        ),
        !alike(spec.tree(), a.spec.tree()) ==> !still_accepted(a, Some(route), Some(spec), gateway, Some(script)),
{
}

/// The script that a route is annotated with is kept among its annotations.
pub proof fn law_scripts_are_kept(v: Seq<(Seq<char>, Seq<char>)>, s: Seq<char>)
    requires
        text::lookup(v, "rgnix.io/script"@) == Some(s),
    ensures
        text::lookup(kept_annotations(v), "rgnix.io/script"@) == Some(s),
{
    text::law_values_are_put(treating(v), "rgnix.io/script"@, s, "rgnix.io/script"@);
}

/// A checkpoint is read from the map of its name that is labelled with its Gateway, and not where it is too
/// long.
pub proof fn law_checkpoints_are_read(r: Resources, publish: Seq<char>, s: Served, uid: Seq<char>)
    requires
        text_of(r, publish, s, uid) is Some,
    ensures
        text::byte_len(text_of(r, publish, s, uid)->0) <= 921600,
        r.object("ConfigMap"@, publish, name_of(s, uid)) is Some,
        text::lookup(
            text::pairs(r.object("ConfigMap"@, publish, name_of(s, uid))->0.labels@),
            "rgnix.io/gateway-checkpoint"@,
        ) == Some(short_digest(s.namespace@ + "/"@ + s.name@)),
        text_of(r, publish, s, uid) == r.object("ConfigMap"@, publish, name_of(s, uid))->0.data.at("data"@).at(
            "accepted.json"@,
        ).string(),
{
}

} // verus!
