//! Whether two configurations answer the same requests alike.
use crate::json::{alike, lemma_tree, member_trees, Json, Tree};
use crate::text;
use vstd::prelude::*;

verus! {

/// The most requests that are compared at once.
pub const MAX_FIXTURES: usize = 1000;

/// Whether so many requests are compared at once.
pub fn check_fixtures(count: usize) -> (r: bool)
    ensures
        r == (count <= MAX_FIXTURES),
{
    count <= MAX_FIXTURES
}

/// Whether a member names objects of the configuration, and says nothing about the answer.
pub open spec fn names_objects(name: Seq<char>) -> bool {
    name == "version"@ || name == "route"@
}

/// Members without those that name objects of the configuration.
pub open spec fn told_members(v: Seq<(Seq<char>, Tree)>) -> Seq<(Seq<char>, Tree)>
    decreases v.len(),
{
    if v.len() == 0 {
        Seq::empty()
    } else if names_objects(v.last().0) {
        told_members(v.drop_last())
    } else {
        told_members(v.drop_last()).push(v.last())
    }
}

/// What a result tells about the answer to a request.
pub open spec fn told(t: Tree) -> Tree {
    match t {
        Tree::Object(v) => Tree::Object(told_members(v)),
        _ => t,
    }
}

/// What a result tells about the answer to a request.
pub fn normalize(j: &Json) -> (r: Json)
    ensures
        r.tree() == told(j.tree()),
{
    proof {
        lemma_tree(*j);
    }
    let v = match j {
        Json::Object(v) => v,
        _ => return j.copy(),
    };
    let ghost all = member_trees(v@);
    let mut out: Vec<(String, Json)> = Vec::new();
    let mut i: usize = 0;
    assert(member_trees(out@) =~= told_members(all.take(0)));
    while i < v.len()
        invariant
            i <= v.len(),
            all == member_trees(v@),
            member_trees(out@) == told_members(all.take(i as int)),
        decreases v.len() - i,
    {
        let name = v[i].0.as_str();
        proof {
            assert(all.take(i + 1).drop_last() =~= all.take(i as int));
            assert(all.take(i + 1).last() == (v@[i as int].0@, v@[i as int].1.tree()));
        }
        if !text::same(name, "version") && !text::same(name, "route") {
            let ghost before = member_trees(out@);
            let x = (v[i].0.clone(), v[i].1.copy());
            let ghost t = (x.0@, x.1.tree());
            out.push(x);
            assert(member_trees(out@) =~= before.push(t));
        }
        i += 1;
    }
    assert(all.take(i as int) =~= all);
    let r = Json::Object(out);
    proof {
        lemma_tree(r);
    }
    r
}

/// What two configurations answer to a request, and whether that is the same.
#[derive(Debug)]
pub struct Case {
    pub equal: bool,
    pub before: Json,
    pub after: Json,
}

impl Case {
    pub open spec fn of(&self, before: Tree, after: Tree) -> bool {
        &&& self.before.tree() == told(before)
        &&& self.after.tree() == told(after)
        &&& self.equal == alike(told(before), told(after))
    }
}

/// Compares what two configurations answer to each request.
pub fn compare(results: &Vec<(Json, Json)>) -> (out: Vec<Case>)
    ensures
        out@.len() == results@.len(),
        forall|i: int|
            0 <= i < out@.len() ==> (#[trigger] out@[i]).of(
                results@[i].0.tree(),
                results@[i].1.tree(),
            ),
{
    let mut out: Vec<Case> = Vec::new();
    let mut i: usize = 0;
    while i < results.len()
        invariant
            i <= results.len(),
            out@.len() == i,
            forall|j: int|
                0 <= j < i ==> (#[trigger] out@[j]).of(
                    results@[j].0.tree(),
                    results@[j].1.tree(),
                ),
        decreases results.len() - i,
    {
        let before = normalize(&results[i].0);
        let after = normalize(&results[i].1);
        let equal = before.same(&after);
        out.push(Case { equal, before, after });
        i += 1;
    }
    out
}

/// Whether two configurations answer all requests alike.
pub fn compatible(cases: &Vec<Case>) -> (r: bool)
    ensures
        r == forall|i: int| 0 <= i < cases@.len() ==> (#[trigger] cases@[i]).equal,
{
    let mut i: usize = 0;
    while i < cases.len()
        invariant
            i <= cases.len(),
            forall|j: int| 0 <= j < i ==> (#[trigger] cases@[j]).equal,
        decreases cases.len() - i,
    {
        if !cases[i].equal {
            return false;
        }
        i += 1;
    }
    true
}

// ---------------------------------------------------------------------------
// Laws
// ---------------------------------------------------------------------------

proof fn lemma_named(v: Seq<(Seq<char>, Tree)>, k: int)
    requires
        0 <= k < told_members(v).len(),
    ensures
        !names_objects(told_members(v)[k].0),
    decreases v.len(),
{
    if v.len() > 0 && k < told_members(v.drop_last()).len() {
        lemma_named(v.drop_last(), k);
    }
}

/// How the objects of a configuration are named and counted makes no difference: results that differ in
/// nothing else count as the same.
pub proof fn law_names_make_no_difference(v: Seq<(Seq<char>, Tree)>, name: Seq<char>, t: Tree)
    requires
        names_objects(name),
    ensures
        told(Tree::Object(v.push((name, t)))) == told(Tree::Object(v)),
        forall|k: int|
            0 <= k < told_members(v).len() ==> !names_objects((#[trigger] told_members(v)[k]).0),
{
    assert(v.push((name, t)).drop_last() =~= v);
    assert forall|k: int| 0 <= k < told_members(v).len() implies !names_objects(
        (#[trigger] told_members(v)[k]).0,
    ) by {
        lemma_named(v, k);
    }
}

/// Of an object, the members named `version` and `route` are left out, and no other.
pub proof fn law_only_names_are_left_out(v: Seq<(Seq<char>, Tree)>, m: (Seq<char>, Tree), t: Tree)
    ensures
        told_members(v).contains(m) <==> v.contains(m) && m.0 != "version"@ && m.0 != "route"@,
        !(t is Object) ==> told(t) == t,
    decreases v.len(),
{
    if v.len() > 0 {
        let u = v.drop_last();
        law_only_names_are_left_out(u, m, t);
        let w = told_members(v);
        assert(v[v.len() - 1] == v.last());
        if v.contains(m) && m != v.last() {
            let k = choose|k: int| 0 <= k < v.len() && v[k] == m;
            assert(u[k] == m);
        }
        if u.contains(m) {
            let k = choose|k: int| 0 <= k < u.len() && u[k] == m;
            assert(v[k] == m);
        }
        if !names_objects(v.last().0) {
            assert(w.last() == v.last());
            assert(w[w.len() - 1] == v.last());
            if told_members(u).contains(m) {
                let k = choose|k: int| 0 <= k < told_members(u).len() && told_members(u)[k] == m;
                assert(w[k] == m);
            }
            if w.contains(m) && m != v.last() {
                let k = choose|k: int| 0 <= k < w.len() && w[k] == m;
                assert(told_members(u)[k] == m);
            }
        }
    }
}

/// Results that are the same before and after count as the same.
pub proof fn law_same_results_are_equal(c: Case, t: Tree)
    requires
        crate::json::well_named(told(t)),
        c.of(t, t),
    ensures
        c.equal,
{
    crate::json::law_values_are_like_themselves(told(t));
}

} // verus!
