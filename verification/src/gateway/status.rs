//! What is reported of Gateway API resources.
use crate::digest::{digest_text, text_digest};
use crate::gateway::references::Object;
use crate::ingress::resources::{or_empty, text_or_empty};
use crate::ingress::spec::same_opt;
use crate::json::{
    alike, branch, find, lemma_at, lemma_tree, member_trees, set_member, trees, with_branch, Json, Tree,
};
use crate::text;
use vstd::prelude::*;

verus! {

/// The longest message of a condition, in characters.
pub const MAX_MESSAGE: usize = 2048;

/// Which gateway is served, and by whom.
#[derive(Debug)]
pub struct Served {
    pub namespace: String,
    pub name: String,
    /// The name that the controller goes by.
    pub controller: String,
}

// ---------------------------------------------------------------------------
// Conditions
// ---------------------------------------------------------------------------

/// A whole number, which may be negative.
pub open spec fn signed(n: i64) -> Seq<char> {
    if n < 0 {
        "-"@ + text::decimal((-n) as nat)
    } else {
        text::decimal(n as nat)
    }
}

pub fn signed_string(n: i64) -> (out: String)
    ensures
        out@ == signed(n),
{
    if n < 0 {
        let m: i128 = -(n as i128);
        text::concat("-", text::decimal_string(m as u64).as_str())
    } else {
        text::decimal_string(n as u64)
    }
}

pub open spec fn short_message(s: Seq<char>) -> Seq<char> {
    if s.len() > MAX_MESSAGE {
        s.take(MAX_MESSAGE as int)
    } else {
        s
    }
}

/// Whether something holds of an object, and why; `now` is since when.
pub open spec fn condition_of(
    generation: Option<i64>,
    type_: Seq<char>,
    status: bool,
    reason: Seq<char>,
    message: Seq<char>,
    now: Seq<char>,
) -> Tree {
    Tree::Object(
        seq![
            ("lastTransitionTime"@, Tree::Text(now)),
            ("message"@, Tree::Text(short_message(message))),
            (
                "observedGeneration"@,
                Tree::Number(
                    signed(
                        match generation {
                            Some(n) => n,
                            None => 1,
                        },
                    ),
                ),
            ),
            ("reason"@, Tree::Text(reason)),
            (
                "status"@,
                Tree::Text(
                    if status {
                        "True"@
                    } else {
                        "False"@
                    },
                ),
            ),
            ("type"@, Tree::Text(type_)),
        ],
    )
}

/// Whether something holds of an object, and why; `now` is since when.
pub fn condition(
    generation: Option<i64>,
    type_: &str,
    status: bool,
    reason: &str,
    message: &str,
    now: &str,
) -> (r: Json)
    ensures
        r.tree() == condition_of(generation, type_@, status, reason@, message@, now@),
{
    let v = text::chars(message);
    let message = if v.len() > MAX_MESSAGE {
        let out = text::slice(&v, 0, MAX_MESSAGE);
        assert(out@ =~= message@.take(MAX_MESSAGE as int));
        out
    } else {
        message.to_owned()
    };
    let n: i64 = match generation {
        Some(n) => n,
        None => 1,
    };
    let word: &str = if status {
        "True"
    } else {
        "False"
    };
    let mut members: Vec<(String, Json)> = Vec::new();
    members.push(("lastTransitionTime".to_owned(), Json::Text(now.to_owned())));
    members.push(("message".to_owned(), Json::Text(message)));
    members.push(("observedGeneration".to_owned(), Json::Number(signed_string(n))));
    members.push(("reason".to_owned(), Json::Text(reason.to_owned())));
    members.push(("status".to_owned(), Json::Text(word.to_owned())));
    members.push(("type".to_owned(), Json::Text(type_.to_owned())));
    let r = Json::Object(members);
    proof {
        lemma_tree(r);
        assert(r.tree()->Object_0 =~= condition_of(
            generation,
            type_@,
            status,
            reason@,
            message@,
            now@,
        )->Object_0);
    }
    r
}

// ---------------------------------------------------------------------------
// Since when
// ---------------------------------------------------------------------------

/// The first condition of the same type and status.
pub open spec fn same_condition(v: Seq<Tree>, c: Tree) -> Option<Tree>
    decreases v.len(),
{
    if v.len() == 0 {
        None
    } else if alike(v[0].at("type"@), c.at("type"@)) && alike(v[0].at("status"@), c.at("status"@)) {
        Some(v[0])
    } else {
        same_condition(v.drop_first(), c)
    }
}

/// A value with a member; one that has no members stays as it is.
pub open spec fn with_at(t: Tree, name: Seq<char>, x: Tree) -> Tree {
    match t {
        Tree::Object(v) => Tree::Object(with_branch(v, name, x)),
        Tree::Null => Tree::Object(seq![(name, x)]),
        _ => t,
    }
}

/// A condition that held before holds since then.
pub open spec fn settled(c: Tree, old: Option<Seq<Tree>>) -> Tree {
    match old {
        None => c,
        Some(v) => match same_condition(v, c) {
            Some(p) => with_at(c, "lastTransitionTime"@, p.at("lastTransitionTime"@)),
            None => c,
        },
    }
}

pub open spec fn all_settled(v: Seq<Tree>, old: Option<Seq<Tree>>) -> Seq<Tree> {
    Seq::new(v.len(), |i: int| settled(v[i], old))
}

/// What entries of a list are told apart by, where they have conditions of their own.
pub open spec fn entry_key(name: Seq<char>) -> Option<Seq<char>> {
    if name == "listeners"@ {
        Some("name"@)
    } else if name == "parents"@ {
        Some("parentRef"@)
    } else if name == "ancestors"@ {
        Some("ancestorRef"@)
    } else {
        None
    }
}

/// The first entry that is the same by its key.
pub open spec fn same_entry(v: Seq<Tree>, key: Seq<char>, e: Tree) -> Option<Tree>
    decreases v.len(),
{
    if v.len() == 0 {
        None
    } else if alike(v[0].at(key), e.at(key)) {
        Some(v[0])
    } else {
        same_entry(v.drop_first(), key, e)
    }
}

/// Members with one of a name, which is null where there was none.
pub open spec fn with_name(v: Seq<(Seq<char>, Tree)>, name: Seq<char>) -> Seq<(Seq<char>, Tree)> {
    match branch(v, name) {
        Some(_) => v,
        None => with_branch(v, name, Tree::Null),
    }
}

/// Members with one of each name under which there can be conditions.
pub open spec fn filled(v: Seq<(Seq<char>, Tree)>) -> Seq<(Seq<char>, Tree)> {
    with_name(
        with_name(with_name(with_name(v, "conditions"@), "listeners"@), "parents"@),
        "ancestors"@,
    )
}

/// A status whose conditions hold since they did in the status before it.
pub open spec fn stable(t: Tree, old: Tree) -> Tree
    decreases t, 0nat,
{
    match t {
        Tree::Object(v) => Tree::Object(filled(stable_members(v, old))),
        Tree::Null => Tree::Object(filled(Seq::empty())),
        _ => t,
    }
}

pub open spec fn stable_members(v: Seq<(Seq<char>, Tree)>, old: Tree) -> Seq<(Seq<char>, Tree)>
    decreases v, 1nat,
{
    if v.len() == 0 {
        Seq::empty()
    } else {
        let name = v[0].0;
        let rest = stable_members(v.drop_first(), old);
        let x = match v[0].1 {
            Tree::List(w) => if name == "conditions"@ {
                Tree::List(all_settled(w, old.at(name).list()))
            } else {
                match entry_key(name) {
                    Some(key) => Tree::List(stable_list(w, key, old.at(name).list())),
                    None => v[0].1,
                }
            },
            _ => v[0].1,
        };
        seq![(name, x)] + rest
    }
}

pub open spec fn stable_list(v: Seq<Tree>, key: Seq<char>, old: Option<Seq<Tree>>) -> Seq<Tree>
    decreases v, 1nat,
{
    if v.len() == 0 {
        Seq::empty()
    } else {
        let rest = stable_list(v.drop_first(), key, old);
        let x = match old {
            None => v[0],
            Some(w) => match same_entry(w, key, v[0]) {
                Some(p) => stable(v[0], p),
                None => v[0],
            },
        };
        seq![x] + rest
    }
}

fn find_condition<'a>(v: &'a Vec<Json>, c: &Json) -> (r: Option<&'a Json>)
    ensures
        match r {
            Some(p) => same_condition(trees(v@), c.tree()) == Some(p.tree()),
            None => same_condition(trees(v@), c.tree()) is None,
        },
{
    let ghost all = trees(v@);
    let mut i: usize = 0;
    assert(all.skip(0) =~= all);
    while i < v.len()
        invariant
            i <= v.len(),
            all == trees(v@),
            same_condition(all.skip(i as int), c.tree()) == same_condition(all, c.tree()),
        decreases v.len() - i,
    {
        proof {
            assert(all.skip(i as int).drop_first() =~= all.skip(i + 1));
            assert(all.skip(i as int)[0] == v@[i as int].tree());
            lemma_at(v@[i as int], "type"@);
            lemma_at(v@[i as int], "status"@);
            lemma_at(*c, "type"@);
            lemma_at(*c, "status"@);
        }
        if v[i].field("type").same(c.field("type")) && v[i].field("status").same(c.field("status")) {
            return Some(&v[i]);
        }
        i += 1;
    }
    None
}

fn find_entry<'a>(v: &'a Vec<Json>, key: &str, e: &Json) -> (r: Option<&'a Json>)
    ensures
        match r {
            Some(p) => same_entry(trees(v@), key@, e.tree()) == Some(p.tree()),
            None => same_entry(trees(v@), key@, e.tree()) is None,
        },
{
    let ghost all = trees(v@);
    let mut i: usize = 0;
    assert(all.skip(0) =~= all);
    while i < v.len()
        invariant
            i <= v.len(),
            all == trees(v@),
            same_entry(all.skip(i as int), key@, e.tree()) == same_entry(all, key@, e.tree()),
        decreases v.len() - i,
    {
        proof {
            assert(all.skip(i as int).drop_first() =~= all.skip(i + 1));
            assert(all.skip(i as int)[0] == v@[i as int].tree());
            lemma_at(v@[i as int], key@);
            lemma_at(*e, key@);
        }
        if v[i].field(key).same(e.field(key)) {
            return Some(&v[i]);
        }
        i += 1;
    }
    None
}

pub open spec fn old_list(v: Option<&Vec<Json>>) -> Option<Seq<Tree>> {
    match v {
        Some(v) => Some(trees(v@)),
        None => None,
    }
}

fn settle(c: &Json, old: Option<&Vec<Json>>) -> (r: Json)
    ensures
        r.tree() == settled(c.tree(), old_list(old)),
{
    let v = match old {
        None => return c.copy(),
        Some(v) => v,
    };
    let p = match find_condition(v, c) {
        None => return c.copy(),
        Some(p) => p,
    };
    let since = p.field("lastTransitionTime").copy();
    proof {
        lemma_at(*p, "lastTransitionTime"@);
    }
    let ghost x = since.tree();
    let mut r = c.copy();
    proof {
        lemma_tree(r);
    }
    match r {
        Json::Object(w) => {
            let mut w = w;
            set_member(&mut w, "lastTransitionTime", since);
            r = Json::Object(w);
            proof {
                lemma_tree(r);
            }
        },
        Json::Null => {
            let mut w: Vec<(String, Json)> = Vec::new();
            w.push(("lastTransitionTime".to_owned(), since));
            r = Json::Object(w);
            proof {
                lemma_tree(r);
                assert(r.tree()->Object_0 =~= seq![("lastTransitionTime"@, x)]);
            }
        },
        _ => {
            r = c.copy();
        },
    }
    r
}

fn settle_all(v: &Vec<Json>, old: Option<&Vec<Json>>) -> (out: Vec<Json>)
    ensures
        trees(out@) == all_settled(trees(v@), old_list(old)),
{
    let ghost goal = all_settled(trees(v@), old_list(old));
    let mut out: Vec<Json> = Vec::new();
    let mut i: usize = 0;
    while i < v.len()
        invariant
            i <= v.len(),
            goal == all_settled(trees(v@), old_list(old)),
            trees(out@) =~= goal.take(i as int),
        decreases v.len() - i,
    {
        let ghost before = trees(out@);
        let x = settle(&v[i], old);
        let ghost y = x.tree();
        out.push(x);
        assert(trees(out@) =~= before.push(y));
        i += 1;
    }
    out
}

fn stable_entries(v: &Vec<Json>, key: &str, old: Option<&Vec<Json>>) -> (out: Vec<Json>)
    ensures
        trees(out@) == stable_list(trees(v@), key@, old_list(old)),
    decreases v@, 1nat,
{
    let ghost all = trees(v@);
    let ghost o = old_list(old);
    let ghost whole = stable_list(all, key@, o);
    let mut out: Vec<Json> = Vec::new();
    let mut i: usize = 0;
    proof {
        assert(all.skip(0) =~= all);
        assert(trees(out@) + whole =~= whole);
    }
    while i < v.len()
        invariant
            i <= v.len(),
            all == trees(v@),
            o == old_list(old),
            whole == stable_list(all, key@, o),
            trees(out@) + stable_list(all.skip(i as int), key@, o) == whole,
        decreases v.len() - i,
    {
        let ghost done = trees(out@);
        let ghost rest = all.skip(i as int);
        let ghost more = stable_list(all.skip(i + 1), key@, o);
        proof {
            assert(rest.drop_first() =~= all.skip(i + 1));
            assert(rest[0] == v@[i as int].tree());
            assert(decreases_to!(v@ => v@[i as int]));
        }
        let x = match old {
            None => v[i].copy(),
            Some(w) => match find_entry(w, key, &v[i]) {
                Some(p) => stable_conditions(&v[i], p),
                None => v[i].copy(),
            },
        };
        let ghost y = x.tree();
        out.push(x);
        proof {
            assert(trees(out@) =~= done.push(y));
            assert(done.push(y) + more =~= done + (seq![y] + more));
        }
        i += 1;
    }
    proof {
        assert(all.skip(i as int) =~= Seq::empty());
        assert(trees(out@) + Seq::<Tree>::empty() =~= trees(out@));
    }
    out
}

fn stable_parts(v: &Vec<(String, Json)>, old: &Json) -> (out: Vec<(String, Json)>)
    ensures
        member_trees(out@) == stable_members(member_trees(v@), old.tree()),
    decreases v@, 1nat,
{
    let ghost all = member_trees(v@);
    let ghost whole = stable_members(all, old.tree());
    let mut out: Vec<(String, Json)> = Vec::new();
    let mut i: usize = 0;
    proof {
        assert(all.skip(0) =~= all);
        assert(member_trees(out@) + whole =~= whole);
    }
    while i < v.len()
        invariant
            i <= v.len(),
            all == member_trees(v@),
            whole == stable_members(all, old.tree()),
            member_trees(out@) + stable_members(all.skip(i as int), old.tree()) == whole,
        decreases v.len() - i,
    {
        let ghost done = member_trees(out@);
        let ghost rest = all.skip(i as int);
        let ghost more = stable_members(all.skip(i + 1), old.tree());
        let name = v[i].0.as_str();
        proof {
            assert(rest.drop_first() =~= all.skip(i + 1));
            assert(rest[0] == (v@[i as int].0@, v@[i as int].1.tree()));
            assert(decreases_to!(v@ => v@[i as int]));
            assert(decreases_to!(v@[i as int] => v@[i as int].1));
            lemma_tree(v@[i as int].1);
            lemma_at(*old, name@);
            lemma_at(old.at(name@), name@);
        }
        let key: Option<&str> = if text::same(name, "listeners") {
            Some("name")
        } else if text::same(name, "parents") {
            Some("parentRef")
        } else if text::same(name, "ancestors") {
            Some("ancestorRef")
        } else {
            None
        };
        let before = old.get_array(name);
        assert(old_list(before) == old.tree().at(name@).list());
        let x = match &v[i].1 {
            Json::List(w) => {
                proof {
                    assert(decreases_to!(v@[i as int].1 => w@));
                }
                if text::same(name, "conditions") {
                    Json::List(settle_all(w, before))
                } else {
                    match key {
                        Some(k) => Json::List(stable_entries(w, k, before)),
                        None => v[i].1.copy(),
                    }
                }
            },
            _ => v[i].1.copy(),
        };
        proof {
            lemma_tree(x);
        }
        let ghost y = (name@, x.tree());
        out.push((name.to_owned(), x));
        proof {
            assert(member_trees(out@) =~= done.push(y));
            assert(done.push(y) + more =~= done + (seq![y] + more));
        }
        i += 1;
    }
    proof {
        assert(all.skip(i as int) =~= Seq::empty());
        assert(member_trees(out@) + Seq::<(Seq<char>, Tree)>::empty() =~= member_trees(out@));
    }
    out
}

fn add_name(v: &mut Vec<(String, Json)>, name: &str)
    ensures
        member_trees(final(v)@) == with_name(member_trees(old(v)@), name@),
{
    let there = find(v, name).is_some();
    proof {
        crate::json::lemma_branch(v@, name@);
    }
    if !there {
        set_member(v, name, Json::Null);
    }
}

fn fill(v: &mut Vec<(String, Json)>)
    ensures
        member_trees(final(v)@) == filled(member_trees(old(v)@)),
{
    add_name(v, "conditions");
    add_name(v, "listeners");
    add_name(v, "parents");
    add_name(v, "ancestors");
}

/// A status whose conditions hold since they did in the status before it.
pub fn stable_conditions(new: &Json, old: &Json) -> (r: Json)
    ensures
        r.tree() == stable(new.tree(), old.tree()),
    decreases *new, 0nat,
{
    proof {
        lemma_tree(*new);
    }
    match new {
        Json::Object(v) => {
            proof {
                assert(decreases_to!(*new => v@));
            }
            let mut w = stable_parts(v, old);
            fill(&mut w);
            let r = Json::Object(w);
            proof {
                lemma_tree(r);
            }
            r
        },
        Json::Null => {
            let mut w: Vec<(String, Json)> = Vec::new();
            assert(member_trees(w@) =~= Seq::empty());
            fill(&mut w);
            let r = Json::Object(w);
            proof {
                lemma_tree(r);
            }
            r
        },
        _ => new.copy(),
    }
}

// ---------------------------------------------------------------------------
// Parents
// ---------------------------------------------------------------------------

/// Whether a reference of an object in a namespace is to the gateway that is served.
pub open spec fn owns(parent: Json, ns: Option<Seq<char>>, s: Served) -> bool {
    &&& parent.at("name"@).string() == Some(s.name@)
    &&& parent.string_or("namespace"@, or_empty(ns)) == s.namespace@
    &&& parent.string_or("group"@, "gateway.networking.k8s.io"@) == "gateway.networking.k8s.io"@
    &&& parent.string_or("kind"@, "Gateway"@) == "Gateway"@
}

/// Whether a reference of an object is to the gateway that is served.
pub fn owns_parent(parent: &Json, ns: &Option<String>, s: &Served) -> (r: bool)
    ensures
        r == owns(*parent, text::opt(*ns), *s),
{
    let named = match parent.get_str("name") {
        Some(n) => text::same(n, s.name.as_str()),
        None => false,
    };
    let own = text_or_empty(ns);
    named && text::same(parent.text("namespace", own.as_str()), s.namespace.as_str()) && text::same(
        parent.text("group", "gateway.networking.k8s.io"),
        "gateway.networking.k8s.io",
    ) && text::same(parent.text("kind", "Gateway"), "Gateway")
}

/// Whether an entry of a status is somebody else's.
pub open spec fn foreign(e: Json, reference: Seq<char>, ns: Option<Seq<char>>, s: Served) -> bool {
    e.at("controllerName"@).string() != Some(s.controller@) || !owns(e.at(reference), ns, s)
}

/// The entries of others.
pub open spec fn foreign_entries(
    v: Seq<Json>,
    reference: Seq<char>,
    ns: Option<Seq<char>>,
    s: Served,
) -> Seq<Tree>
    decreases v.len(),
{
    if v.len() == 0 {
        Seq::empty()
    } else {
        let before = foreign_entries(v.drop_last(), reference, ns, s);
        if foreign(v.last(), reference, ns, s) {
            before.push(v.last().tree())
        } else {
            before
        }
    }
}

/// Adds the entries of others, as they are on record.
pub fn keep_foreign(
    desired: &mut Vec<Json>,
    current: &Vec<Json>,
    reference: &str,
    ns: &Option<String>,
    s: &Served,
)
    ensures
        trees(final(desired)@) == trees(old(desired)@) + foreign_entries(
            current@,
            reference@,
            text::opt(*ns),
            *s,
        ),
{
    let ghost start = trees(desired@);
    let mut i: usize = 0;
    assert(start + foreign_entries(current@.take(0), reference@, text::opt(*ns), *s) =~= start);
    while i < current.len()
        invariant
            i <= current.len(),
            trees(desired@) == start + foreign_entries(
                current@.take(i as int),
                reference@,
                text::opt(*ns),
                *s,
            ),
        decreases current.len() - i,
    {
        let ghost done = trees(desired@);
        proof {
            assert(current@.take(i + 1).drop_last() =~= current@.take(i as int));
            assert(current@.take(i + 1).last() == current@[i as int]);
        }
        let own = match current[i].get_str("controllerName") {
            Some(c) => text::same(c, s.controller.as_str()),
            None => false,
        };
        if !own || !owns_parent(current[i].field(reference), ns, s) {
            let x = current[i].copy();
            let ghost y = x.tree();
            desired.push(x);
            proof {
                assert(trees(desired@) =~= done.push(y));
                assert(done.push(y) =~= start + foreign_entries(
                    current@.take(i as int),
                    reference@,
                    text::opt(*ns),
                    *s,
                ).push(y));
            }
        }
        i += 1;
    }
    assert(current@.take(i as int) =~= current@);
}

/// The list of a status that others write to as well, and what its entries refer by.
pub open spec fn shared_list(kind: Seq<char>) -> Option<(Seq<char>, Seq<char>)> {
    if kind == "BackendTLSPolicy"@ {
        Some(("ancestors"@, "ancestorRef"@))
    } else if text::ends(kind, "Route"@) {
        Some(("parents"@, "parentRef"@))
    } else {
        None
    }
}

/// The list of a status that others write to as well, and what its entries refer by.
pub fn shared(kind: &str) -> (r: Option<(&'static str, &'static str)>)
    ensures
        match r {
            Some((a, b)) => shared_list(kind@) == Some((a@, b@)),
            None => shared_list(kind@) is None,
        },
{
    if text::same(kind, "BackendTLSPolicy") {
        Some(("ancestors", "ancestorRef"))
    } else if text::ends_with(kind, "Route") {
        Some(("parents", "parentRef"))
    } else {
        None
    }
}

/// Whether an object is still the one that a status was made for.
pub fn is_current(current: &Object, seen: &Object) -> (r: bool)
    ensures
        r == (text::opt(current.uid) == text::opt(seen.uid) && current.generation
            == seen.generation),
{
    same_opt(&current.uid, &seen.uid) && current.generation == seen.generation
}

// ---------------------------------------------------------------------------
// What is written
// ---------------------------------------------------------------------------

/// An object with a member of a name.
pub open spec fn with_member(t: Tree, name: Seq<char>, x: Tree) -> Tree {
    match t {
        Tree::Object(v) => Tree::Object(with_branch(v, name, x)),
        _ => t,
    }
}

/// The status of an object of a kind, with the addresses where it is a gateway, and with the entries of
/// others where they are on record.
pub open spec fn merged(
    kind: Seq<char>,
    status: Tree,
    addresses: Tree,
    current: Json,
    ns: Option<Seq<char>>,
    s: Served,
) -> Tree {
    let t = if kind == "Gateway"@ {
        with_member(status, "addresses"@, addresses)
    } else {
        status
    };
    match shared_list(kind) {
        None => t,
        Some((list, reference)) => match (t.at(list).list(), current.at(list).list()) {
            (Some(own), Some(v)) => with_member(
                t,
                list,
                Tree::List(own + foreign_entries(v, reference, ns, s)),
            ),
            _ => t,
        },
    }
}

fn merge(kind: &str, status: &Json, addresses: &Json, current: &Json, ns: &Option<String>, s: &Served) -> (r:
    Json)
    ensures
        r.tree() == merged(
            kind@,
            status.tree(),
            addresses.tree(),
            *current,
            text::opt(*ns),
            *s,
        ),
{
    let mut t = status.copy();
    if text::same(kind, "Gateway") {
        proof {
            lemma_tree(t);
        }
        if let Json::Object(v) = &mut t {
            set_member(v, "addresses", addresses.copy());
        }
        proof {
            lemma_tree(t);
        }
    }
    let (list, reference) = match shared(kind) {
        None => return t,
        Some(x) => x,
    };
    proof {
        lemma_at(t, list@);
        lemma_at(t.at(list@), list@);
    }
    let other = match current.get_array(list) {
        None => return t,
        Some(v) => v,
    };
    let mut own = t.field(list).copy();
    let ghost held = own.tree();
    proof {
        lemma_tree(own);
        lemma_at(own, list@);
    }
    let found = if let Json::List(v) = &mut own {
        keep_foreign(v, other, reference, ns, s);
        true
    } else {
        false
    };
    if !found {
        return t;
    }
    proof {
        lemma_tree(own);
        lemma_tree(t);
    }
    if let Json::Object(v) = &mut t {
        set_member(v, list, own);
    }
    proof {
        lemma_tree(t);
    }
    t
}

/// The status that is written for an object: nothing where the object is not the one any more that the
/// status was made for, and nothing where the same is on record.
pub open spec fn published(
    kind: Seq<char>,
    status: Tree,
    addresses: Tree,
    same: bool,
    current: Json,
    ns: Option<Seq<char>>,
    s: Served,
) -> Option<Tree> {
    let t = stable(merged(kind, status, addresses, current, ns, s), current.tree());
    if !same || alike(t, current.tree()) {
        None
    } else {
        Some(t)
    }
}

/// The status that is written for an object; `seen` is the object that the status was made for, and
/// `current` is what is on record now.
pub fn publish(
    kind: &str,
    seen: &Object,
    status: &Json,
    addresses: &Json,
    current: &Object,
    s: &Served,
) -> (r: Option<Json>)
    ensures
        match r {
            Some(j) => Some(j.tree()),
            None => None,
        } == published(
            kind@,
            status.tree(),
            addresses.tree(),
            text::opt(current.uid) == text::opt(seen.uid) && current.generation == seen.generation,
            current.data.at("status"@),
            text::opt(current.namespace),
            *s,
        ),
{
    if !is_current(current, seen) {
        return None;
    }
    let before = current.data.field("status");
    let all = merge(kind, status, addresses, before, &current.namespace, s);
    let t = stable_conditions(&all, before);
    if t.same(before) {
        None
    } else {
        Some(t)
    }
}

// ---------------------------------------------------------------------------
// Names and addresses
// ---------------------------------------------------------------------------

/// The name of the record of who reports.
pub open spec fn lease_of(name: Seq<char>) -> Seq<char> {
    (if name.len() > 40 {
        name.take(40)
    } else {
        name
    }) + "-gw-"@ + text_digest(name).take(12)
}

/// The name of the record of who reports.
pub fn lease_name(name: &str) -> (out: String)
    ensures
        out@ == lease_of(name@),
{
    let v = text::chars(name);
    let n: usize = if v.len() > 40 {
        40
    } else {
        v.len()
    };
    let head = text::slice(&v, 0, n);
    assert(head@ =~= if name@.len() > 40 {
        name@.take(40)
    } else {
        name@
    });
    let d = digest_text(name);
    let w = text::chars(d.as_str());
    let tail = text::slice(&w, 0, 12);
    assert(tail@ =~= d@.take(12));
    text::concat3(head.as_str(), "-gw-", tail.as_str())
}

/// Where a service can be reached from outside: an address or a name.
#[derive(Debug)]
pub struct Outside {
    pub ip: Option<String>,
    pub hostname: Option<String>,
}

/// An address as it is reported.
pub open spec fn address_of(o: Outside) -> Option<Tree> {
    match (o.ip, o.hostname) {
        (Some(s), _) => Some(
            Tree::Object(seq![("type"@, Tree::Text("IPAddress"@)), ("value"@, Tree::Text(s@))]),
        ),
        (None, Some(s)) => Some(
            Tree::Object(seq![("type"@, Tree::Text("Hostname"@)), ("value"@, Tree::Text(s@))]),
        ),
        (None, None) => None,
    }
}

pub open spec fn addresses_of(v: Seq<Outside>) -> Seq<Tree>
    decreases v.len(),
{
    if v.len() == 0 {
        Seq::empty()
    } else {
        match address_of(v.last()) {
            Some(t) => addresses_of(v.drop_last()).push(t),
            None => addresses_of(v.drop_last()),
        }
    }
}

fn address(type_: &str, value: &str) -> (r: Json)
    ensures
        r.tree() == Tree::Object(
            seq![("type"@, Tree::Text(type_@)), ("value"@, Tree::Text(value@))],
        ),
{
    let mut v: Vec<(String, Json)> = Vec::new();
    v.push(("type".to_owned(), Json::Text(type_.to_owned())));
    v.push(("value".to_owned(), Json::Text(value.to_owned())));
    let r = Json::Object(v);
    proof {
        lemma_tree(r);
        assert(r.tree()->Object_0 =~= seq![
            ("type"@, Tree::Text(type_@)),
            ("value"@, Tree::Text(value@)),
        ]);
    }
    r
}

/// Addresses as they are reported.
pub fn addresses(v: &Vec<Outside>) -> (out: Vec<Json>)
    ensures
        trees(out@) == addresses_of(v@),
{
    let mut out: Vec<Json> = Vec::new();
    let mut i: usize = 0;
    assert(trees(out@) =~= addresses_of(v@.take(0)));
    while i < v.len()
        invariant
            i <= v.len(),
            trees(out@) == addresses_of(v@.take(i as int)),
        decreases v.len() - i,
    {
        let ghost before = trees(out@);
        proof {
            assert(v@.take(i + 1).drop_last() =~= v@.take(i as int));
            assert(v@.take(i + 1).last() == v@[i as int]);
        }
        let found = match (&v[i].ip, &v[i].hostname) {
            (Some(s), _) => Some(address("IPAddress", s.as_str())),
            (None, Some(s)) => Some(address("Hostname", s.as_str())),
            (None, None) => None,
        };
        if let Some(j) = found {
            let ghost y = j.tree();
            out.push(j);
            assert(trees(out@) =~= before.push(y));
        }
        i += 1;
    }
    assert(v@.take(i as int) =~= v@);
    out
}

// ---------------------------------------------------------------------------
// Laws
// ---------------------------------------------------------------------------

/// What others report of an object stays on record.
pub proof fn law_entries_of_others_stay(
    v: Seq<Json>,
    reference: Seq<char>,
    ns: Option<Seq<char>>,
    s: Served,
    i: int,
)
    requires
        0 <= i < v.len(),
        v[i].at("controllerName"@).string() != Some(s.controller@),
    ensures
        foreign_entries(v, reference, ns, s).contains(v[i].tree()),
    decreases v.len(),
{
    let w = foreign_entries(v.drop_last(), reference, ns, s);
    let u = foreign_entries(v, reference, ns, s);
    if i < v.len() - 1 {
        assert(v.drop_last()[i] == v[i]);
        law_entries_of_others_stay(v.drop_last(), reference, ns, s, i);
        let k = choose|k: int| 0 <= k < w.len() && w[k] == v[i].tree();
        assert(u[k] == v[i].tree());
    } else {
        assert(u[u.len() - 1] == v[i].tree());
    }
}

/// A condition that did not change holds since it did: only the time is taken over.
pub proof fn law_unchanged_conditions_keep_their_time(c: Tree, old: Seq<Tree>, p: Tree)
    requires
        c is Object,
        same_condition(old, c) == Some(p),
    ensures
        settled(c, Some(old)).at("lastTransitionTime"@) == p.at("lastTransitionTime"@),
{
    lemma_with_branch(c->Object_0, "lastTransitionTime"@, p.at("lastTransitionTime"@));
}

proof fn lemma_with_branch(v: Seq<(Seq<char>, Tree)>, name: Seq<char>, t: Tree)
    ensures
        branch(with_branch(v, name, t), name) == Some(t),
    decreases v.len(),
{
    let w = with_branch(v, name, t);
    if v.len() == 0 {
    } else if v[0].0 == name {
    } else if text::before(name, v[0].0) {
    } else {
        lemma_with_branch(v.drop_first(), name, t);
        assert(w.drop_first() =~= with_branch(v.drop_first(), name, t));
    }
}

/// A condition says what it is of, whether it holds, why, and for which generation.
pub proof fn law_conditions_say_what_holds(
    generation: i64,
    type_: Seq<char>,
    reason: Seq<char>,
    message: Seq<char>,
    now: Seq<char>,
)
    requires
        generation >= 0,
        message.len() <= 2048,
    ensures
        ({
            let c = condition_of(Some(generation), type_, true, reason, message, now);
            let d = condition_of(None, type_, false, reason, message, now);
            &&& c is Object && d is Object
            &&& c->Object_0.contains(("type"@, Tree::Text(type_)))
            &&& c->Object_0.contains(("status"@, Tree::Text("True"@)))
            &&& d->Object_0.contains(("status"@, Tree::Text("False"@)))
            &&& c->Object_0.contains(("reason"@, Tree::Text(reason)))
            &&& c->Object_0.contains(("message"@, Tree::Text(message)))
            &&& c->Object_0.contains(("lastTransitionTime"@, Tree::Text(now)))
            &&& c->Object_0.contains(
                ("observedGeneration"@, Tree::Number(text::decimal(generation as nat))),
            )
            &&& d->Object_0.contains(("observedGeneration"@, Tree::Number(text::decimal(1))))
            &&& c->Object_0.len() == 6
        }),
{
    let c = condition_of(Some(generation), type_, true, reason, message, now)->Object_0;
    let d = condition_of(None, type_, false, reason, message, now)->Object_0;
    assert(c[0] == ("lastTransitionTime"@, Tree::Text(now)));
    assert(c[1] == ("message"@, Tree::Text(message)));
    assert(c[2] == ("observedGeneration"@, Tree::Number(text::decimal(generation as nat))));
    assert(c[3] == ("reason"@, Tree::Text(reason)));
    assert(c[4] == ("status"@, Tree::Text("True"@)));
    assert(c[5] == ("type"@, Tree::Text(type_)));
    assert(d[2] == ("observedGeneration"@, Tree::Number(text::decimal(1))));
    assert(d[4] == ("status"@, Tree::Text("False"@)));
}

/// A long message is cut.
pub proof fn law_long_messages_are_cut(s: Seq<char>)
    ensures
        s.len() <= 2048 ==> short_message(s) == s,
        s.len() > 2048 ==> short_message(s).len() == 2048 && short_message(s) == s.take(2048),
{
}

/// A condition that changed has its new time.
pub proof fn law_changed_conditions_have_a_new_time(c: Tree, old: Seq<Tree>)
    ensures
        settled(c, None) == c,
        same_condition(old, c) is None ==> settled(c, Some(old)) == c,
{
}

/// An entry is this controller's where it has its name and its Gateway; entries of others are kept.
pub proof fn law_entries_are_told_apart(e: Json, reference: Seq<char>, ns: Option<Seq<char>>, s: Served)
    ensures
        e.at("controllerName"@).string() != Some(s.controller@) ==> foreign(e, reference, ns, s),
        e.at("controllerName"@).string() == Some(s.controller@) ==> (foreign(e, reference, ns, s) <==> !owns(
            e.at(reference),
            ns,
            s,
        )),
        e.at(reference).at("name"@).string() != Some(s.name@) ==> foreign(e, reference, ns, s),
{
}

/// The lists that controllers share.
pub proof fn law_shared_lists_are_named(kind: Seq<char>)
    ensures
        shared_list("BackendTLSPolicy"@) == Some(("ancestors"@, "ancestorRef"@)),
        shared_list("HTTPRoute"@) == Some(("parents"@, "parentRef"@)),
        shared_list("GRPCRoute"@) == Some(("parents"@, "parentRef"@)),
        shared_list("Gateway"@) is None,
        entry_key("listeners"@) == Some("name"@),
        entry_key("parents"@) == Some("parentRef"@),
        entry_key("ancestors"@) == Some("ancestorRef"@),
{
    reveal_strlit("BackendTLSPolicy");
    reveal_strlit("HTTPRoute");
    assert("BackendTLSPolicy"@.len() != "HTTPRoute"@.len());
    reveal_strlit("GRPCRoute");
    assert("BackendTLSPolicy"@.len() != "GRPCRoute"@.len());
    reveal_strlit("Gateway");
    assert("BackendTLSPolicy"@.len() != "Gateway"@.len());
    reveal_strlit("listeners");
    reveal_strlit("parents");
    assert("listeners"@.len() != "parents"@.len());
    reveal_strlit("ancestors");
    assert("listeners"@[0] != "ancestors"@[0]);
    reveal_strlit("parents");
    reveal_strlit("ancestors");
    assert("parents"@.len() != "ancestors"@.len());
    reveal_strlit("Route");
    assert("HTTPRoute"@.skip(4) =~= "Route"@);
    assert("GRPCRoute"@.skip(4) =~= "Route"@);
    assert("Gateway"@.skip(2)[0] == 't');
    assert("Route"@[0] == 'R');
}

/// A status is written where its object is still the same and what it says differs from what is there.
pub proof fn law_statuses_are_written_where_they_differ(
    kind: Seq<char>,
    status: Tree,
    addresses: Tree,
    current: Json,
    ns: Option<Seq<char>>,
    s: Served,
)
    ensures
        ({
            let t = stable(merged(kind, status, addresses, current, ns, s), current.tree());
            &&& published(kind, status, addresses, false, current, ns, s) is None
            &&& alike(t, current.tree()) ==> published(kind, status, addresses, true, current, ns, s) is None
            &&& !alike(t, current.tree()) ==> published(kind, status, addresses, true, current, ns, s) == Some(t)
        }),
{
}

/// An address is told as what it is.
pub proof fn law_addresses_are_told_by_type(v: Seq<Outside>, o: Outside, ip: String, host: String)
    ensures
        o.ip == Some(ip) ==> address_of(o) == Some(
            Tree::Object(seq![("type"@, Tree::Text("IPAddress"@)), ("value"@, Tree::Text(ip@))]),
        ),
        o.ip is None && o.hostname == Some(host) ==> address_of(o) == Some(
            Tree::Object(seq![("type"@, Tree::Text("Hostname"@)), ("value"@, Tree::Text(host@))]),
        ),
        o.ip is None && o.hostname is None ==> addresses_of(v.push(o)) == addresses_of(v),
        address_of(o) is Some ==> addresses_of(v.push(o)) == addresses_of(v).push(address_of(o)->0),
{
    assert(v.push(o).drop_last() =~= v);
}

/// The lease of a Gateway is named after it, and cut where the name is long.
pub proof fn law_leases_are_named(name: Seq<char>)
    ensures
        name.len() <= 40 ==> lease_of(name) == name + "-gw-"@ + text_digest(name).take(12),
        name.len() > 40 ==> lease_of(name) == name.take(40) + "-gw-"@ + text_digest(name).take(12),
{
}

/// The entries of other controllers are written with this one's own, and a Gateway's addresses with its status.
pub proof fn law_entries_of_others_are_written(
    v: Seq<(Seq<char>, Tree)>,
    own: Seq<Tree>,
    w: Seq<Json>,
    addresses: Tree,
    current: Json,
    ns: Option<Seq<char>>,
    s: Served,
)
    requires
        Tree::Object(v).at("parents"@).list() == Some(own),
        current.at("parents"@).list() == Some(w),
    ensures
        merged("HTTPRoute"@, Tree::Object(v), addresses, current, ns, s) == Tree::Object(
            with_branch(v, "parents"@, Tree::List(own + foreign_entries(w, "parentRef"@, ns, s))),
        ),
        merged("Gateway"@, Tree::Object(v), addresses, current, ns, s) == Tree::Object(
            with_branch(v, "addresses"@, addresses),
        ),
        merged("GatewayClass"@, Tree::Object(v), addresses, current, ns, s) == Tree::Object(v),
{
    law_shared_lists_are_named(Seq::empty());
    reveal_strlit("Gateway");
    reveal_strlit("HTTPRoute");
    assert("Gateway"@.len() != "HTTPRoute"@.len());
    reveal_strlit("GatewayClass");
    assert("Gateway"@.len() != "GatewayClass"@.len());
    reveal_strlit("GatewayClass");
    reveal_strlit("BackendTLSPolicy");
    assert("GatewayClass"@.len() != "BackendTLSPolicy"@.len());
    reveal_strlit("Route");
    assert("GatewayClass"@.skip(7)[0] == 'C');
    assert("Route"@[0] == 'R');
}

} // verus!
