//! What the controller of gateways keeps of the objects that it watches, and what is wrong with them.
use crate::ingress::resources::{or_empty, text_or_empty};
use crate::gateway::references::{objects_of, Object, Resources};
use crate::gateway::status::{signed, signed_string};
use crate::json::{lemma_at, lemma_tree, member_trees, trees, Json, Tree};
use crate::text;
use crate::diagnostics::preflight::{insert_id, inserted};
use vstd::prelude::*;

verus! {

/// The group of a kind.
pub open spec fn group_of(kind: Seq<char>) -> Seq<char> {
    if kind == "Service"@ || kind == "Secret"@ || kind == "ConfigMap"@ || kind == "Namespace"@ {
        ""@
    } else if kind == "EndpointSlice"@ {
        "discovery.k8s.io"@
    } else {
        "gateway.networking.k8s.io"@
    }
}

/// The group of a kind.
pub fn group(kind: &str) -> (r: &'static str)
    ensures
        r@ == group_of(kind@),
{
    if text::same(kind, "Service") || text::same(kind, "Secret") || text::same(kind, "ConfigMap")
        || text::same(kind, "Namespace") {
        ""
    } else if text::same(kind, "EndpointSlice") {
        "discovery.k8s.io"
    } else {
        "gateway.networking.k8s.io"
    }
}

/// The namespaces that are watched, each once and in order; where none is named, all are.
pub open spec fn spaces(v: Seq<Seq<char>>, own: Seq<char>, publish: Seq<char>) -> Seq<Seq<char>> {
    if v.len() == 0 {
        Seq::empty()
    } else {
        inserted(inserted(all_inserted(v), own), publish)
    }
}

pub open spec fn all_inserted(v: Seq<Seq<char>>) -> Seq<Seq<char>>
    decreases v.len(),
{
    if v.len() == 0 {
        Seq::empty()
    } else {
        inserted(all_inserted(v.drop_last()), v.last())
    }
}

/// The namespaces that are watched, each once and in order; where none is named, all are.
pub fn watched(v: &Vec<String>, own: &str, publish: &str) -> (out: Vec<String>)
    ensures
        text::texts(out@) == spaces(text::texts(v@), own@, publish@),
{
    let mut out: Vec<String> = Vec::new();
    assert(text::texts(out@) =~= Seq::empty());
    assert(text::texts(v@).len() == v@.len());
    if v.len() == 0 {
        return out;
    }
    let ghost all = text::texts(v@);
    let mut i: usize = 0;
    while i < v.len()
        invariant
            i <= v.len(),
            all == text::texts(v@),
            text::texts(out@) == all_inserted(all.take(i as int)),
        decreases v.len() - i,
    {
        proof {
            assert(all.take(i + 1).drop_last() =~= all.take(i as int));
            assert(all.take(i + 1).last() == v@[i as int]@);
        }
        insert_id(&mut out, v[i].as_str());
        i += 1;
    }
    assert(all.take(i as int) =~= all);
    insert_id(&mut out, own);
    insert_id(&mut out, publish);
    out
}

// ---------------------------------------------------------------------------
// What is kept
// ---------------------------------------------------------------------------

/// What an object is known by.
pub type Name = (Seq<char>, Seq<char>);

pub open spec fn name_of(o: Object) -> Name {
    (or_empty(text::opt(o.namespace)), o.name@)
}

pub open spec fn name_before(a: Name, b: Name) -> bool {
    if a.0 != b.0 {
        text::before(a.0, b.0)
    } else {
        text::before(a.1, b.1)
    }
}

/// Objects with one more, in its place by its name; one of the same name gives way.
pub open spec fn with_object(v: Seq<Object>, o: Object) -> Seq<Object>
    decreases v.len(),
{
    if v.len() == 0 {
        seq![o]
    } else if name_of(v[0]) == name_of(o) {
        seq![o] + v.drop_first()
    } else if name_before(name_of(o), name_of(v[0])) {
        seq![o] + v
    } else {
        seq![v[0]] + with_object(v.drop_first(), o)
    }
}

/// Objects without the one of a name.
pub open spec fn without_object(v: Seq<Object>, n: Name) -> Seq<Object>
    decreases v.len(),
{
    if v.len() == 0 {
        Seq::empty()
    } else if name_of(v[0]) == n {
        v.drop_first()
    } else {
        seq![v[0]] + without_object(v.drop_first(), n)
    }
}

fn same_name(a: &Object, b: &Object) -> (r: bool)
    ensures
        r == (name_of(*a) == name_of(*b)),
{
    text::same(text_or_empty(&a.namespace).as_str(), text_or_empty(&b.namespace).as_str())
        && text::same(a.name.as_str(), b.name.as_str())
}

fn is_name_before(a: &Object, b: &Object) -> (r: bool)
    ensures
        r == name_before(name_of(*a), name_of(*b)),
{
    let x = text_or_empty(&a.namespace);
    let y = text_or_empty(&b.namespace);
    if !text::same(x.as_str(), y.as_str()) {
        text::is_before(x.as_str(), y.as_str())
    } else {
        text::is_before(a.name.as_str(), b.name.as_str())
    }
}

fn put_object(v: &mut Vec<Object>, o: Object)
    ensures
        final(v)@ == with_object(old(v)@, o),
{
    let ghost all = v@;
    let mut i: usize = 0;
    proof {
        assert(all.skip(0) =~= all);
        assert(all.take(0) + with_object(all, o) =~= with_object(all, o));
    }
    while i < v.len() && !same_name(&v[i], &o) && !is_name_before(&o, &v[i])
        invariant
            i <= v.len(),
            all == v@,
            all.take(i as int) + with_object(all.skip(i as int), o) == with_object(all, o),
        decreases v.len() - i,
    {
        proof {
            let rest = all.skip(i as int);
            assert(rest.drop_first() =~= all.skip(i + 1));
            assert(rest[0] == all[i as int]);
            assert(all.take(i + 1) + with_object(all.skip(i + 1), o) =~= all.take(i as int)
                + with_object(rest, o));
        }
        i += 1;
    }
    if i < v.len() && same_name(&v[i], &o) {
        proof {
            let rest = all.skip(i as int);
            assert(rest[0] == all[i as int]);
            assert(all.take(i as int) + (seq![o] + rest.drop_first()) =~= all.update(i as int, o));
        }
        v.set(i, o);
        return;
    }
    proof {
        if i < v.len() {
            assert(all.skip(i as int)[0] == all[i as int]);
            assert(all.take(i as int) + (seq![o] + all.skip(i as int)) =~= all.insert(i as int, o));
        } else {
            assert(all.skip(i as int) =~= Seq::empty());
            assert(all.take(i as int) + seq![o] =~= all.insert(i as int, o));
        }
    }
    v.insert(i, o);
}

fn drop_object(v: &mut Vec<Object>, o: &Object)
    ensures
        final(v)@ == without_object(old(v)@, name_of(*o)),
{
    let ghost all = v@;
    let ghost n = name_of(*o);
    let mut i: usize = 0;
    proof {
        assert(all.skip(0) =~= all);
        assert(all.take(0) + without_object(all, n) =~= without_object(all, n));
    }
    while i < v.len()
        invariant
            i <= v.len(),
            all == v@,
            all == old(v)@,
            n == name_of(*o),
            all.take(i as int) + without_object(all.skip(i as int), n) == without_object(all, n),
        decreases v.len() - i,
    {
        proof {
            let rest = all.skip(i as int);
            assert(rest.drop_first() =~= all.skip(i + 1));
            assert(rest[0] == all[i as int]);
        }
        if same_name(&v[i], o) {
            v.remove(i);
            assert(v@ =~= all.take(i as int) + all.skip(i + 1));
            return;
        }
        proof {
            assert(all.take(i + 1) + without_object(all.skip(i + 1), n) =~= all.take(i as int)
                + without_object(all.skip(i as int), n));
        }
        i += 1;
    }
    proof {
        assert(all.skip(i as int) =~= Seq::empty());
        assert(all.take(i as int) =~= all);
        assert(without_object(all, n) =~= all);
    }
}

/// What happens to the objects of a kind.
#[derive(Debug)]
pub enum Event {
    /// All objects are listed from here on.
    Init,
    InitApply(Object),
    /// All objects were listed.
    InitDone,
    Apply(Object),
    Delete(Object),
}

/// The objects of a kind: those that are there, and those that were listed so far.
#[derive(Debug)]
pub struct Cache {
    pub ready: bool,
    pub objects: Vec<Object>,
    pub staging: Vec<Object>,
}

/// The objects after something happened.
pub open spec fn observed(c: Cache, e: Event) -> (bool, Seq<Object>, Seq<Object>) {
    match e {
        Event::Init => (c.ready, c.objects@, Seq::empty()),
        Event::InitApply(o) => (c.ready, c.objects@, with_object(c.staging@, o)),
        Event::InitDone => (true, c.staging@, Seq::empty()),
        Event::Apply(o) => (c.ready, with_object(c.objects@, o), c.staging@),
        Event::Delete(o) => (c.ready, without_object(c.objects@, name_of(o)), c.staging@),
    }
}

impl Cache {
    pub fn new() -> (r: Cache)
        ensures
            !r.ready,
            r.objects@ == Seq::<Object>::empty(),
            r.staging@ == Seq::<Object>::empty(),
    {
        Cache { ready: false, objects: Vec::new(), staging: Vec::new() }
    }

    /// Notes what happened; `true` where it changes what is there.
    pub fn observe(&mut self, e: Event) -> (changed: bool)
        ensures
            (final(self).ready, final(self).objects@, final(self).staging@) == observed(
                *old(self),
                e,
            ),
            changed == (e is InitDone || e is Apply || e is Delete),
    {
        match e {
            Event::Init => {
                self.staging = Vec::new();
                false
            },
            Event::InitApply(o) => {
                put_object(&mut self.staging, o);
                false
            },
            Event::InitDone => {
                let mut found: Vec<Object> = Vec::new();
                std::mem::swap(&mut found, &mut self.staging);
                self.objects = found;
                self.ready = true;
                true
            },
            Event::Apply(o) => {
                put_object(&mut self.objects, o);
                true
            },
            Event::Delete(o) => {
                drop_object(&mut self.objects, &o);
                true
            },
        }
    }
}

// ---------------------------------------------------------------------------
// What is wrong
// ---------------------------------------------------------------------------

/// Whether a part of a status says that something is wrong.
pub open spec fn says_wrong(t: Tree) -> bool {
    t.at("status"@) == Tree::Text("False"@) || t.at("reason"@) == Tree::Text(
        "UsingLastValidConfiguration"@,
    )
}

/// What a part of a status of a resource says is wrong.
pub open spec fn complaint(resource: Seq<char>, t: Tree) -> Seq<char> {
    resource + ": "@ + t.string_or("reason"@, ""@) + " "@ + t.string_or("message"@, ""@)
}

/// Everything that a status says is wrong, each once and in order.
pub open spec fn complaints(t: Tree, resource: Seq<char>, out: Seq<Seq<char>>) -> Seq<Seq<char>>
    decreases t, 0nat,
{
    match t {
        Tree::Object(v) => member_complaints(
            v,
            resource,
            if says_wrong(t) {
                inserted(out, complaint(resource, t))
            } else {
                out
            },
        ),
        Tree::List(v) => list_complaints(v, resource, out),
        _ => out,
    }
}

pub open spec fn member_complaints(
    v: Seq<(Seq<char>, Tree)>,
    resource: Seq<char>,
    out: Seq<Seq<char>>,
) -> Seq<Seq<char>>
    decreases v, 1nat,
{
    if v.len() == 0 {
        out
    } else {
        member_complaints(v.drop_first(), resource, complaints(v[0].1, resource, out))
    }
}

pub open spec fn list_complaints(v: Seq<Tree>, resource: Seq<char>, out: Seq<Seq<char>>) -> Seq<
    Seq<char>,
>
    decreases v, 1nat,
{
    if v.len() == 0 {
        out
    } else {
        list_complaints(v.drop_first(), resource, complaints(v[0], resource, out))
    }
}

fn is_text(j: &Json, name: &str, value: &str) -> (r: bool)
    ensures
        r == (j.tree().at(name@) == Tree::Text(value@)),
{
    proof {
        lemma_at(*j, name@);
        lemma_tree(j.at(name@));
    }
    match j.get_str(name) {
        Some(s) => text::same(s, value),
        None => false,
    }
}

fn part(j: &Json, name: &str) -> (r: String)
    ensures
        r@ == j.tree().string_or(name@, ""@),
{
    proof {
        lemma_at(*j, name@);
        lemma_at(j.at(name@), name@);
    }
    j.text(name, "").to_owned()
}

fn collect_members(v: &Vec<(String, Json)>, resource: &str, out: &mut Vec<String>)
    ensures
        text::texts(final(out)@) == member_complaints(
            member_trees(v@),
            resource@,
            text::texts(old(out)@),
        ),
    decreases v@, 1nat,
{
    let ghost all = member_trees(v@);
    let ghost whole = member_complaints(all, resource@, text::texts(out@));
    let mut i: usize = 0;
    assert(all.skip(0) =~= all);
    while i < v.len()
        invariant
            i <= v.len(),
            all == member_trees(v@),
            member_complaints(all.skip(i as int), resource@, text::texts(out@)) == whole,
        decreases v.len() - i,
    {
        proof {
            assert(all.skip(i as int).drop_first() =~= all.skip(i + 1));
            assert(all.skip(i as int)[0] == (v@[i as int].0@, v@[i as int].1.tree()));
            assert(decreases_to!(v@ => v@[i as int]));
            assert(decreases_to!(v@[i as int] => v@[i as int].1));
        }
        collect_diagnostics(&v[i].1, resource, out);
        i += 1;
    }
    assert(all.skip(i as int) =~= Seq::empty());
}

fn collect_list(v: &Vec<Json>, resource: &str, out: &mut Vec<String>)
    ensures
        text::texts(final(out)@) == list_complaints(
            trees(v@),
            resource@,
            text::texts(old(out)@),
        ),
    decreases v@, 1nat,
{
    let ghost all = trees(v@);
    let ghost whole = list_complaints(all, resource@, text::texts(out@));
    let mut i: usize = 0;
    assert(all.skip(0) =~= all);
    while i < v.len()
        invariant
            i <= v.len(),
            all == trees(v@),
            list_complaints(all.skip(i as int), resource@, text::texts(out@)) == whole,
        decreases v.len() - i,
    {
        proof {
            assert(all.skip(i as int).drop_first() =~= all.skip(i + 1));
            assert(all.skip(i as int)[0] == v@[i as int].tree());
            assert(decreases_to!(v@ => v@[i as int]));
        }
        collect_diagnostics(&v[i], resource, out);
        i += 1;
    }
    assert(all.skip(i as int) =~= Seq::empty());
}

/// Collects everything that a status says is wrong, each once and in order.
pub fn collect_diagnostics(j: &Json, resource: &str, out: &mut Vec<String>)
    ensures
        text::texts(final(out)@) == complaints(j.tree(), resource@, text::texts(old(out)@)),
    decreases *j, 0nat,
{
    proof {
        lemma_tree(*j);
    }
    match j {
        Json::Object(v) => {
            proof {
                assert(decreases_to!(*j => v@));
            }
            if is_text(j, "status", "False") || is_text(j, "reason", "UsingLastValidConfiguration") {
                let head = text::concat3(resource, ": ", part(j, "reason").as_str());
                let s = text::concat3(head.as_str(), " ", part(j, "message").as_str());
                insert_id(out, s.as_str());
            }
            collect_members(v, resource, out);
        },
        Json::List(v) => {
            proof {
                assert(decreases_to!(*j => v@));
            }
            collect_list(v, resource, out);
        },
        _ => {},
    }
}

/// Those that were not there before.
pub open spec fn new_ones(v: Seq<Seq<char>>, before: Seq<Seq<char>>) -> Seq<Seq<char>>
    decreases v.len(),
{
    if v.len() == 0 {
        Seq::empty()
    } else if before.contains(v.last()) {
        new_ones(v.drop_last(), before)
    } else {
        new_ones(v.drop_last(), before).push(v.last())
    }
}

/// What is wrong now and was not before.
pub fn new_diagnostics(v: &Vec<String>, before: &Vec<String>) -> (out: Vec<String>)
    ensures
        text::texts(out@) == new_ones(text::texts(v@), text::texts(before@)),
{
    let ghost all = text::texts(v@);
    let mut out: Vec<String> = Vec::new();
    let mut i: usize = 0;
    assert(text::texts(out@) =~= new_ones(all.take(0), text::texts(before@)));
    while i < v.len()
        invariant
            i <= v.len(),
            all == text::texts(v@),
            text::texts(out@) == new_ones(all.take(i as int), text::texts(before@)),
        decreases v.len() - i,
    {
        let ghost done = text::texts(out@);
        proof {
            assert(all.take(i + 1).drop_last() =~= all.take(i as int));
            assert(all.take(i + 1).last() == v@[i as int]@);
        }
        if !text::contains(before, v[i].as_str()) {
            out.push(v[i].clone());
            assert(text::texts(out@) =~= done.push(v@[i as int]@));
        }
        i += 1;
    }
    assert(all.take(i as int) =~= all);
    out
}

/// Whether a configuration is published: it is another one, or is ready where the last one was not.
pub fn must_publish(active: &str, found: &str, was_ready: bool, ready: bool) -> (r: bool)
    ensures
        r == (active@ != found@ || was_ready != ready),
{
    !text::same(active, found) || was_ready != ready
}

// ---------------------------------------------------------------------------
// Laws
// ---------------------------------------------------------------------------

/// While objects are listed again, those that were there before stay.
pub proof fn law_listing_again_loses_nothing(c: Cache, e: Event)
    requires
        e is Init || e is InitApply,
    ensures
        observed(c, e).1 == c.objects@,
        observed(c, e).0 == c.ready,
{
}

/// An object that was applied is there; one that was deleted right after is gone.
pub proof fn law_deleted_objects_are_gone(v: Seq<Object>, o: Object)
    requires
        forall|i: int| 0 <= i < v.len() ==> name_of(#[trigger] v[i]) != name_of(o),
    ensures
        with_object(v, o).contains(o),
        without_object(with_object(v, o), name_of(o)) == v,
    decreases v.len(),
{
    let w = with_object(v, o);
    if v.len() == 0 {
        assert(w[0] == o);
        assert(w.drop_first() =~= v);
    } else if name_before(name_of(o), name_of(v[0])) {
        assert(w[0] == o);
        assert(w.drop_first() =~= v);
    } else {
        let u = v.drop_first();
        assert forall|i: int| 0 <= i < u.len() implies name_of(#[trigger] u[i]) != name_of(o) by {
            assert(u[i] == v[i + 1]);
        }
        law_deleted_objects_are_gone(u, o);
        let x = with_object(u, o);
        let k = choose|k: int| 0 <= k < x.len() && x[k] == o;
        assert(w[k + 1] == o);
        assert(w.drop_first() =~= x);
        assert(seq![v[0]] + u =~= v);
    }
}

/// What a resource is called where something is wrong with it.
pub open spec fn label_of(kind: Seq<char>, o: Object) -> Seq<char> {
    let generation = match o.generation {
        Some(n) => n,
        None => 0,
    };
    kind + " "@ + (or_empty(text::opt(o.namespace)) + "/"@ + o.name@) + (" generation "@ + signed(generation))
}

/// What a resource is called where something is wrong with it.
pub fn label(kind: &str, o: &Object) -> (out: String)
    ensures
        out@ == label_of(kind@, *o),
{
    let ns = text_or_empty(&o.namespace);
    let generation: i64 = match o.generation {
        Some(n) => n,
        None => 0,
    };
    let place = text::concat3(ns.as_str(), "/", o.name.as_str());
    let when = text::concat(" generation ", signed_string(generation).as_str());
    let named = text::concat3(kind, " ", place.as_str());
    text::concat(named.as_str(), when.as_str())
}

/// The objects of a kind in several stores, one store after the other.
pub open spec fn stored(v: Seq<(String, Cache)>, kind: Seq<char>) -> Seq<Object>
    decreases v.len(),
{
    if v.len() == 0 {
        Seq::empty()
    } else if v.last().0@ == kind {
        stored(v.drop_last(), kind) + v.last().1.objects@
    } else {
        stored(v.drop_last(), kind)
    }
}

proof fn lemma_kind_added(v: Seq<(String, Vec<Object>)>, x: (String, Vec<Object>), kind: Seq<char>)
    requires
        forall|i: int| 0 <= i < v.len() ==> (#[trigger] v[i]).0@ != x.0@,
    ensures
        objects_of(v.push(x), kind) == if kind == x.0@ {
            x.1@
        } else {
            objects_of(v, kind)
        },
        kind == x.0@ ==> objects_of(v, kind) == Seq::<Object>::empty(),
    decreases v.len(),
{
    let w = v.push(x);
    if v.len() > 0 {
        assert(w.drop_first() =~= v.drop_first().push(x));
        assert(v[0].0@ != x.0@);
        assert forall|i: int| 0 <= i < v.drop_first().len() implies (#[trigger] v.drop_first()[i]).0@
            != x.0@ by {
            assert(v.drop_first()[i] == v[i + 1]);
        }
        lemma_kind_added(v.drop_first(), x, kind);
    } else {
        assert(w.drop_first() =~= Seq::empty());
        assert(objects_of(w.drop_first(), kind) == Seq::<Object>::empty());
    }
}

proof fn lemma_kind_changed(
    v: Seq<(String, Vec<Object>)>,
    at: int,
    x: (String, Vec<Object>),
    kind: Seq<char>,
)
    requires
        0 <= at < v.len(),
        x.0@ == v[at].0@,
        forall|i: int| 0 <= i < at ==> (#[trigger] v[i]).0@ != x.0@,
    ensures
        objects_of(v.update(at, x), kind) == if kind == x.0@ {
            x.1@
        } else {
            objects_of(v, kind)
        },
        kind == x.0@ ==> objects_of(v, kind) == v[at].1@,
    decreases v.len(),
{
    let w = v.update(at, x);
    if at == 0 {
        assert(w.drop_first() =~= v.drop_first());
    } else {
        assert(w.drop_first() =~= v.drop_first().update(at - 1, x));
        assert(v[0].0@ != x.0@);
        assert forall|i: int| 0 <= i < at - 1 implies (#[trigger] v.drop_first()[i]).0@ != x.0@ by {
            assert(v.drop_first()[i] == v[i + 1]);
        }
        lemma_kind_changed(v.drop_first(), at - 1, x, kind);
    }
}

/// Adds objects to those of their kind.
fn extend(all: &mut Vec<(String, Vec<Object>)>, kind: &str, found: Vec<Object>)
    ensures
        forall|k: Seq<char>|
            #[trigger] objects_of(final(all)@, k) == if k == kind@ {
                objects_of(old(all)@, k) + found@
            } else {
                objects_of(old(all)@, k)
            },
{
    let ghost before = all@;
    let ghost added = found@;
    let mut i: usize = 0;
    while i < all.len() && !text::same(all[i].0.as_str(), kind)
        invariant
            i <= all.len(),
            all@ == before,
            forall|j: int| 0 <= j < i ==> (#[trigger] before[j]).0@ != kind@,
        decreases all.len() - i,
    {
        i += 1;
    }
    if i < all.len() {
        let mut more = found;
        let (name, mut list) = all.remove(i);
        let ghost held = list@;
        list.append(&mut more);
        assert(list@ =~= held + added);
        let ghost x = (name, list);
        all.insert(i, (name, list));
        proof {
            assert(all@ =~= before.update(i as int, x));
            assert forall|k: Seq<char>|
                #[trigger] objects_of(all@, k) == if k == kind@ {
                    objects_of(before, k) + added
                } else {
                    objects_of(before, k)
                } by {
                lemma_kind_changed(before, i as int, x, k);
            }
        }
        return;
    }
    let name = kind.to_owned();
    let ghost x = (name, found);
    all.push((name, found));
    proof {
        assert(all@ =~= before.push(x));
        assert forall|k: Seq<char>|
            #[trigger] objects_of(all@, k) == if k == kind@ {
                objects_of(before, k) + added
            } else {
                objects_of(before, k)
            } by {
            lemma_kind_added(before, x, k);
            assert(Seq::<Object>::empty() + added =~= added);
        }
    }
}

/// The objects of all stores by their kinds, as soon as every store has listed its own.
pub fn gather(stores: Vec<(String, Cache)>) -> (r: Option<Resources>)
    ensures
        match r {
            Some(r) => forall|k: Seq<char>| #[trigger] objects_of(r.kinds@, k) == stored(stores@, k),
            None => exists|i: int| 0 <= i < stores@.len() && !(#[trigger] stores@[i]).1.ready,
        },
        r is Some ==> forall|i: int| 0 <= i < stores@.len() ==> (#[trigger] stores@[i]).1.ready,
{
    let ghost all = stores@;
    let mut i: usize = 0;
    while i < stores.len()
        invariant
            i <= stores.len(),
            all == stores@,
            forall|j: int| 0 <= j < i ==> (#[trigger] all[j]).1.ready,
        decreases stores.len() - i,
    {
        if !stores[i].1.ready {
            return None;
        }
        i += 1;
    }
    let mut rest = stores;
    let mut kinds: Vec<(String, Vec<Object>)> = Vec::new();
    let ghost mut n: int = 0;
    proof {
        assert(rest@ =~= all.skip(0));
        assert(all.take(0) =~= Seq::empty());
    }
    while rest.len() > 0
        invariant
            0 <= n <= all.len(),
            rest@ == all.skip(n),
            forall|k: Seq<char>| #[trigger] objects_of(kinds@, k) == stored(all.take(n), k),
        decreases rest.len(),
    {
        let (kind, cache) = rest.remove(0);
        proof {
            assert((kind, cache) == all[n]);
            assert(all.take(n + 1).drop_last() =~= all.take(n));
            assert(rest@ =~= all.skip(n + 1));
        }
        extend(&mut kinds, kind.as_str(), cache.objects);
        proof {
            n = n + 1;
        }
    }
    proof {
        assert(all.take(n) =~= all);
    }
    Some(Resources { kinds })
}

/// Each kind is of its group.
pub proof fn law_kinds_are_of_their_group(kind: Seq<char>)
    ensures
        kind == "Service"@ || kind == "Secret"@ || kind == "ConfigMap"@ || kind == "Namespace"@ ==> group_of(kind)
            == ""@,
        group_of("EndpointSlice"@) == "discovery.k8s.io"@,
        group_of("Gateway"@) == "gateway.networking.k8s.io"@,
        group_of("HTTPRoute"@) == "gateway.networking.k8s.io"@,
        group_of("GRPCRoute"@) == "gateway.networking.k8s.io"@,
        group_of("GatewayClass"@) == "gateway.networking.k8s.io"@,
        group_of("ReferenceGrant"@) == "gateway.networking.k8s.io"@,
        group_of("BackendTLSPolicy"@) == "gateway.networking.k8s.io"@,
{
    reveal_strlit("EndpointSlice");
    reveal_strlit("Service");
    assert("EndpointSlice"@.len() != "Service"@.len());
    reveal_strlit("Secret");
    assert("EndpointSlice"@.len() != "Secret"@.len());
    reveal_strlit("ConfigMap");
    assert("EndpointSlice"@.len() != "ConfigMap"@.len());
    reveal_strlit("Namespace");
    assert("EndpointSlice"@.len() != "Namespace"@.len());
    reveal_strlit("Gateway");
    reveal_strlit("Service");
    assert("Gateway"@[0] != "Service"@[0]);
    reveal_strlit("Secret");
    assert("Gateway"@.len() != "Secret"@.len());
    reveal_strlit("ConfigMap");
    assert("Gateway"@.len() != "ConfigMap"@.len());
    reveal_strlit("Namespace");
    assert("Gateway"@.len() != "Namespace"@.len());
    reveal_strlit("EndpointSlice");
    assert("Gateway"@.len() != "EndpointSlice"@.len());
    reveal_strlit("HTTPRoute");
    reveal_strlit("Service");
    assert("HTTPRoute"@.len() != "Service"@.len());
    reveal_strlit("Secret");
    assert("HTTPRoute"@.len() != "Secret"@.len());
    reveal_strlit("ConfigMap");
    assert("HTTPRoute"@[0] != "ConfigMap"@[0]);
    reveal_strlit("Namespace");
    assert("HTTPRoute"@[0] != "Namespace"@[0]);
    reveal_strlit("EndpointSlice");
    assert("HTTPRoute"@.len() != "EndpointSlice"@.len());
    reveal_strlit("GRPCRoute");
    reveal_strlit("Service");
    assert("GRPCRoute"@.len() != "Service"@.len());
    reveal_strlit("Secret");
    assert("GRPCRoute"@.len() != "Secret"@.len());
    reveal_strlit("ConfigMap");
    assert("GRPCRoute"@[0] != "ConfigMap"@[0]);
    reveal_strlit("Namespace");
    assert("GRPCRoute"@[0] != "Namespace"@[0]);
    reveal_strlit("EndpointSlice");
    assert("GRPCRoute"@.len() != "EndpointSlice"@.len());
    reveal_strlit("GatewayClass");
    reveal_strlit("Service");
    assert("GatewayClass"@.len() != "Service"@.len());
    reveal_strlit("Secret");
    assert("GatewayClass"@.len() != "Secret"@.len());
    reveal_strlit("ConfigMap");
    assert("GatewayClass"@.len() != "ConfigMap"@.len());
    reveal_strlit("Namespace");
    assert("GatewayClass"@.len() != "Namespace"@.len());
    reveal_strlit("EndpointSlice");
    assert("GatewayClass"@.len() != "EndpointSlice"@.len());
    reveal_strlit("ReferenceGrant");
    reveal_strlit("Service");
    assert("ReferenceGrant"@.len() != "Service"@.len());
    reveal_strlit("Secret");
    assert("ReferenceGrant"@.len() != "Secret"@.len());
    reveal_strlit("ConfigMap");
    assert("ReferenceGrant"@.len() != "ConfigMap"@.len());
    reveal_strlit("Namespace");
    assert("ReferenceGrant"@.len() != "Namespace"@.len());
    reveal_strlit("EndpointSlice");
    assert("ReferenceGrant"@.len() != "EndpointSlice"@.len());
    reveal_strlit("BackendTLSPolicy");
    reveal_strlit("Service");
    assert("BackendTLSPolicy"@.len() != "Service"@.len());
    reveal_strlit("Secret");
    assert("BackendTLSPolicy"@.len() != "Secret"@.len());
    reveal_strlit("ConfigMap");
    assert("BackendTLSPolicy"@.len() != "ConfigMap"@.len());
    reveal_strlit("Namespace");
    assert("BackendTLSPolicy"@.len() != "Namespace"@.len());
    reveal_strlit("EndpointSlice");
    assert("BackendTLSPolicy"@.len() != "EndpointSlice"@.len());
}

/// The namespaces of the Gateway and of the controller are watched along with those that are named; where
/// none is named, all are.
pub proof fn law_own_namespaces_are_watched(v: Seq<Seq<char>>, own: Seq<char>, publish: Seq<char>, ns: Seq<char>)
    ensures
        v.len() == 0 ==> spaces(v, own, publish).len() == 0,
        v.len() > 0 ==> (spaces(v, own, publish).contains(ns) <==> v.contains(ns) || ns == own || ns == publish),
{
    lemma_all_inserted(v, ns);
    crate::diagnostics::preflight::law_identifiers_are_inserted(all_inserted(v), own, ns);
    crate::diagnostics::preflight::law_identifiers_are_inserted(inserted(all_inserted(v), own), publish, ns);
}

proof fn lemma_all_inserted(v: Seq<Seq<char>>, x: Seq<char>)
    ensures
        all_inserted(v).contains(x) <==> v.contains(x),
    decreases v.len(),
{
    if v.len() > 0 {
        let u = v.drop_last();
        lemma_all_inserted(u, x);
        crate::diagnostics::preflight::law_identifiers_are_inserted(all_inserted(u), v.last(), x);
        assert(v[v.len() - 1] == v.last());
        if v.contains(x) && v.last() != x {
            let k = choose|k: int| 0 <= k < v.len() && v[k] == x;
            assert(u[k] == x);
        }
        if u.contains(x) {
            let k = choose|k: int| 0 <= k < u.len() && u[k] == x;
            assert(v[k] == x);
        }
    }
}

/// An object that is applied is there, in place of the one of its name; one that is listed counts once all
/// are listed.
pub proof fn law_applied_objects_are_there(c: Cache, o: Object)
    ensures
        observed(c, Event::Apply(o)).1.contains(o),
        observed(c, Event::Apply(o)).0 == c.ready,
        observed(c, Event::InitApply(o)).2.contains(o),
        observed(c, Event::InitDone).0,
        observed(c, Event::InitDone).1 == c.staging@,
        observed(c, Event::InitDone).2.len() == 0,
        observed(c, Event::Init).2.len() == 0,
{
    lemma_with_object(c.objects@, o);
    lemma_with_object(c.staging@, o);
}

proof fn lemma_with_object(v: Seq<Object>, o: Object)
    ensures
        with_object(v, o).contains(o),
    decreases v.len(),
{
    let w = with_object(v, o);
    if v.len() == 0 || name_of(v[0]) == name_of(o) || name_before(name_of(o), name_of(v[0])) {
        assert(w[0] == o);
    } else {
        let t = with_object(v.drop_first(), o);
        lemma_with_object(v.drop_first(), o);
        let k = choose|k: int| 0 <= k < t.len() && t[k] == o;
        assert(w[k + 1] == o);
    }
}

/// A diagnosis is new where it was not there before.
pub proof fn law_only_new_diagnoses_are_told(v: Seq<Seq<char>>, before: Seq<Seq<char>>, x: Seq<char>)
    ensures
        new_ones(v, before).contains(x) <==> v.contains(x) && !before.contains(x),
    decreases v.len(),
{
    if v.len() > 0 {
        let u = v.drop_last();
        let b = new_ones(u, before);
        let w = new_ones(v, before);
        law_only_new_diagnoses_are_told(u, before, x);
        assert(v[v.len() - 1] == v.last());
        if v.contains(x) && v.last() != x {
            let k = choose|k: int| 0 <= k < v.len() && v[k] == x;
            assert(u[k] == x);
        }
        if u.contains(x) {
            let k = choose|k: int| 0 <= k < u.len() && u[k] == x;
            assert(v[k] == x);
        }
        if b.contains(x) {
            let k = choose|k: int| 0 <= k < b.len() && b[k] == x;
            assert(w[k] == x);
        }
        if w.contains(x) {
            let k = choose|k: int| 0 <= k < w.len() && w[k] == x;
            if k < b.len() {
                assert(b[k] == x);
            }
        }
        if !before.contains(v.last()) {
            assert(w[w.len() - 1] == v.last());
        }
    }
}

/// A condition that fails, and one that tells of an older configuration, is complained of with its reason
/// and its message.
pub proof fn law_failed_conditions_are_complained_of(t: Tree, resource: Seq<char>, reason: Seq<char>, message: Seq<char>)
    requires
        t.at("reason"@) == Tree::Text(reason),
        t.at("message"@) == Tree::Text(message),
    ensures
        t.at("status"@) == Tree::Text("False"@) ==> says_wrong(t),
        reason == "UsingLastValidConfiguration"@ ==> says_wrong(t),
        t.at("status"@) == Tree::Text("True"@) && reason != "UsingLastValidConfiguration"@ ==> !says_wrong(t),
        complaint(resource, t) == resource + ": "@ + reason + " "@ + message,
{
    reveal_strlit("True");
    reveal_strlit("False");
    assert("True"@.len() != "False"@.len());
}

/// Objects are gathered from every store of their kind.
pub proof fn law_stores_are_gathered(v: Seq<(String, Cache)>, kind: Seq<char>, i: int, o: Object)
    requires
        0 <= i < v.len(),
        v[i].0@ == kind,
        v[i].1.objects@.contains(o),
    ensures
        stored(v, kind).contains(o),
    decreases v.len(),
{
    let w = stored(v, kind);
    let u = v.drop_last();
    let b = stored(u, kind);
    if i == v.len() - 1 {
        let c = v[i].1.objects@;
        let k = choose|k: int| 0 <= k < c.len() && c[k] == o;
        assert(w[b.len() + k] == o);
    } else {
        assert(u[i] == v[i]);
        law_stores_are_gathered(u, kind, i, o);
        let k = choose|k: int| 0 <= k < b.len() && b[k] == o;
        assert(w[k] == o);
    }
}

} // verus!
