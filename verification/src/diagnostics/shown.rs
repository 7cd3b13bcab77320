//! What is shown of the settings of a route: no value of a field, and no query of an address.
use crate::json::{branch, lemma_tree, member_trees, set_member, trees, with_branch, Json, Tree};
use crate::model::AddedHeader;
use crate::text;
use crate::text::texts;
use vstd::prelude::*;

verus! {

/// An address without its query.
pub uninterp spec fn without_query(s: Seq<char>) -> Option<Seq<char>>;

/// An address without its query, as `url::Url::parse` reads it and `url::Url::set_query` changes it; nothing
/// where it cannot be read.
#[verifier::external_body]
fn strip_query(s: &str) -> (r: Option<String>)
    ensures
        text::opt(r) == without_query(s@),
{
    let mut url = url::Url::parse(s).ok()?;
    url.set_query(None);
    Some(url.to_string())
}

/// What is done to a value.
#[derive(Clone, Copy, Debug, PartialEq, Eq, Structural)]
pub enum Edit {
    /// The query of an address goes.
    WithoutQuery,
    /// The values of a list of fields are hidden.
    HideValues,
}

pub open spec fn hidden_field(t: Tree) -> Tree {
    match t {
        Tree::Object(v) => Tree::Object(with_branch(v, "value"@, Tree::Text("[redacted]"@))),
        _ => t,
    }
}

pub open spec fn hidden_fields(v: Seq<Tree>) -> Seq<Tree> {
    Seq::new(v.len(), |i: int| hidden_field(v[i]))
}

pub open spec fn changed(t: Tree, e: Edit) -> Tree {
    match (e, t) {
        (Edit::WithoutQuery, Tree::Text(s)) => match without_query(s) {
            Some(u) => Tree::Text(u),
            None => t,
        },
        (Edit::HideValues, Tree::List(v)) => Tree::List(hidden_fields(v)),
        _ => t,
    }
}

/// A value with what stands at the end of a way changed, where that way is there.
pub open spec fn edited(t: Tree, way: Seq<Seq<char>>, e: Edit) -> Tree
    decreases way.len(), 1nat, 0nat,
{
    if way.len() == 0 {
        changed(t, e)
    } else {
        match t {
            Tree::Object(v) => Tree::Object(edited_members(v, way, e)),
            _ => t,
        }
    }
}

pub open spec fn edited_members(v: Seq<(Seq<char>, Tree)>, way: Seq<Seq<char>>, e: Edit) -> Seq<
    (Seq<char>, Tree),
>
    decreases way.len(), 0nat, v.len(),
    when way.len() > 0
{
    if v.len() == 0 {
        Seq::empty()
    } else if v[0].0 == way[0] {
        seq![(v[0].0, edited(v[0].1, way.drop_first(), e))] + v.drop_first()
    } else {
        seq![v[0]] + edited_members(v.drop_first(), way, e)
    }
}

fn change(j: &Json, e: Edit) -> (r: Json)
    ensures
        r.tree() == changed(j.tree(), e),
{
    proof {
        lemma_tree(*j);
    }
    match (e, j) {
        (Edit::WithoutQuery, Json::Text(s)) => match strip_query(s.as_str()) {
            Some(u) => {
                let r = Json::Text(u);
                proof {
                    lemma_tree(r);
                }
                r
            },
            None => j.copy(),
        },
        (Edit::HideValues, Json::List(v)) => {
            let ghost all = trees(v@);
            let mut out: Vec<Json> = Vec::new();
            let mut i: usize = 0;
            assert(trees(out@) =~= hidden_fields(all).take(0));
            while i < v.len()
                invariant
                    i <= v.len(),
                    all == trees(v@),
                    trees(out@) == hidden_fields(all).take(i as int),
                decreases v.len() - i,
            {
                let ghost before = trees(out@);
                let x = hide_field(&v[i]);
                let ghost t = x.tree();
                out.push(x);
                proof {
                    assert(trees(out@) =~= before.push(t));
                    assert(t == hidden_field(all[i as int]));
                    assert(trees(out@) =~= hidden_fields(all).take(i + 1));
                }
                i += 1;
            }
            assert(hidden_fields(all).take(i as int) =~= hidden_fields(all));
            let r = Json::List(out);
            proof {
                lemma_tree(r);
            }
            r
        },
        _ => j.copy(),
    }
}

fn hide_field(j: &Json) -> (r: Json)
    ensures
        r.tree() == hidden_field(j.tree()),
{
    let mut r = j.copy();
    proof {
        lemma_tree(*j);
        lemma_tree(r);
    }
    if let Json::Object(v) = &mut r {
        let x = Json::Text("[redacted]".to_owned());
        proof {
            lemma_tree(x);
        }
        set_member(v, "value", x);
    }
    proof {
        lemma_tree(r);
    }
    r
}

fn edit(j: &Json, way: &Vec<String>, at: usize, e: Edit) -> (r: Json)
    requires
        at <= way.len(),
    ensures
        r.tree() == edited(j.tree(), texts(way@).skip(at as int), e),
    decreases way.len() - at,
{
    let ghost rest = texts(way@).skip(at as int);
    if at == way.len() {
        return change(j, e);
    }
    proof {
        lemma_tree(*j);
        assert(rest.drop_first() =~= texts(way@).skip(at + 1));
        assert(rest[0] == way@[at as int]@);
    }
    let v = match j {
        Json::Object(v) => v,
        _ => return j.copy(),
    };
    let ghost all = member_trees(v@);
    let mut out: Vec<(String, Json)> = Vec::new();
    let mut done = false;
    let mut i: usize = 0;
    proof {
        assert(all.skip(0) =~= all);
        assert(member_trees(out@) + edited_members(all, rest, e) =~= edited_members(all, rest, e));
    }
    while i < v.len()
        invariant
            i <= v.len(),
            at < way.len(),
            all == member_trees(v@),
            rest == texts(way@).skip(at as int),
            rest.len() == way.len() - at,
            rest.drop_first() == texts(way@).skip(at + 1),
            rest[0] == way@[at as int]@,
            done ==> member_trees(out@) + all.skip(i as int) == edited_members(all, rest, e),
            !done ==> member_trees(out@) + edited_members(all.skip(i as int), rest, e)
                == edited_members(all, rest, e),
        decreases v.len() - i,
    {
        let ghost before = member_trees(out@);
        let ghost tail = all.skip(i as int);
        proof {
            assert(tail.drop_first() =~= all.skip(i + 1));
            assert(tail[0] == (v@[i as int].0@, v@[i as int].1.tree()));
        }
        let here = !done && text::same(v[i].0.as_str(), way[at].as_str());
        let x = if here {
            edit(&v[i].1, way, at + 1, e)
        } else {
            v[i].1.copy()
        };
        let ghost t = (v@[i as int].0@, x.tree());
        out.push((v[i].0.clone(), x));
        proof {
            assert(member_trees(out@) =~= before.push(t));
            if done {
                assert(member_trees(out@) + all.skip(i + 1) =~= before + tail);
            } else if here {
                assert(edited_members(tail, rest, e) =~= seq![t] + all.skip(i + 1));
                assert(member_trees(out@) + all.skip(i + 1) =~= before + edited_members(
                    tail,
                    rest,
                    e,
                ));
            } else {
                assert(edited_members(tail, rest, e) =~= seq![t] + edited_members(
                    all.skip(i + 1),
                    rest,
                    e,
                ));
                assert(member_trees(out@) + edited_members(all.skip(i + 1), rest, e) =~= before
                    + edited_members(tail, rest, e));
            }
        }
        if here {
            done = true;
        }
        i += 1;
    }
    proof {
        assert(all.skip(i as int) =~= Seq::empty());
        assert(member_trees(out@) + Seq::empty() =~= member_trees(out@));
    }
    let r = Json::Object(out);
    proof {
        lemma_tree(r);
    }
    r
}

/// An object with a member replaced, where it has one of that name.
pub open spec fn replaced(t: Tree, name: Seq<char>, x: Tree) -> Tree {
    match t {
        Tree::Object(v) => if branch(v, name) is Some {
            Tree::Object(with_branch(v, name, x))
        } else {
            t
        },
        _ => t,
    }
}

fn replace(j: Json, name: &str, x: Json) -> (r: Json)
    ensures
        r.tree() == replaced(j.tree(), name@, x.tree()),
{
    proof {
        lemma_tree(j);
    }
    let mut r = j;
    if let Json::Object(v) = &mut r {
        proof {
            crate::json::lemma_branch(v@, name@);
        }
        if crate::json::find(v, name).is_some() {
            set_member(v, name, x);
        }
    }
    proof {
        lemma_tree(r);
    }
    r
}

/// A field that is set for backends, without its value.
pub open spec fn request_mark(name: Seq<char>) -> Tree {
    Tree::List(seq![Tree::Text(name), Tree::Text("[redacted]"@)])
}

/// A field that is added to responses, without its value.
pub open spec fn response_mark(h: AddedHeader) -> Tree {
    Tree::Object(
        seq![
            ("always"@, Tree::Bool(h.always)),
            ("name"@, Tree::Text(h.name@)),
            ("value"@, Tree::Text("[redacted]"@)),
        ],
    )
}

pub open spec fn request_marks(v: Seq<(Seq<char>, Seq<char>)>) -> Tree {
    Tree::List(Seq::new(v.len(), |i: int| request_mark(v[i].0)))
}

pub open spec fn response_marks(v: Seq<AddedHeader>) -> Tree {
    Tree::List(Seq::new(v.len(), |i: int| response_mark(v[i])))
}

fn mark_requests(v: &Vec<(String, String)>) -> (r: Json)
    ensures
        r.tree() == request_marks(text::pairs(v@)),
{
    let ghost goal = request_marks(text::pairs(v@))->List_0;
    let mut out: Vec<Json> = Vec::new();
    let mut i: usize = 0;
    assert(trees(out@) =~= goal.take(0));
    while i < v.len()
        invariant
            i <= v.len(),
            goal == request_marks(text::pairs(v@))->List_0,
            goal.len() == v@.len(),
            trees(out@) == goal.take(i as int),
        decreases v.len() - i,
    {
        let ghost before = trees(out@);
        let mut pair: Vec<Json> = Vec::new();
        pair.push(Json::Text(v[i].0.clone()));
        pair.push(Json::Text("[redacted]".to_owned()));
        proof {
            lemma_tree(pair@[0]);
            lemma_tree(pair@[1]);
            assert(trees(pair@) =~= seq![Tree::Text(v@[i as int].0@), Tree::Text("[redacted]"@)]);
        }
        let x = Json::List(pair);
        proof {
            lemma_tree(x);
        }
        let ghost t = x.tree();
        out.push(x);
        proof {
            assert(trees(out@) =~= before.push(t));
            assert(trees(out@) =~= goal.take(i + 1));
        }
        i += 1;
    }
    assert(goal.take(i as int) =~= goal);
    let r = Json::List(out);
    proof {
        lemma_tree(r);
    }
    r
}

fn mark_responses(v: &Vec<AddedHeader>) -> (r: Json)
    ensures
        r.tree() == response_marks(v@),
{
    let ghost goal = response_marks(v@)->List_0;
    let mut out: Vec<Json> = Vec::new();
    let mut i: usize = 0;
    assert(trees(out@) =~= goal.take(0));
    while i < v.len()
        invariant
            i <= v.len(),
            goal == response_marks(v@)->List_0,
            goal.len() == v@.len(),
            trees(out@) == goal.take(i as int),
        decreases v.len() - i,
    {
        let ghost before = trees(out@);
        let mut members: Vec<(String, Json)> = Vec::new();
        members.push(("always".to_owned(), Json::Bool(v[i].always)));
        members.push(("name".to_owned(), Json::Text(v[i].name.clone())));
        members.push(("value".to_owned(), Json::Text("[redacted]".to_owned())));
        proof {
            lemma_tree(members@[0].1);
            lemma_tree(members@[1].1);
            lemma_tree(members@[2].1);
            assert(member_trees(members@) =~= response_mark(v@[i as int])->Object_0);
        }
        let x = Json::Object(members);
        proof {
            lemma_tree(x);
        }
        let ghost t = x.tree();
        out.push(x);
        proof {
            assert(trees(out@) =~= before.push(t));
            assert(trees(out@) =~= goal.take(i + 1));
        }
        i += 1;
    }
    assert(goal.take(i as int) =~= goal);
    let r = Json::List(out);
    proof {
        lemma_tree(r);
    }
    r
}

/// The settings of a route without the queries of the addresses in them.
pub open spec fn plain_addresses(t: Tree) -> Tree {
    edited(
        edited(t, seq!["security"@, "external"@, "url"@], Edit::WithoutQuery),
        seq!["security"@, "jwt"@, "spec"@, "source"@],
        Edit::WithoutQuery,
    )
}

/// The settings of a route without the values that its gateway sets and adds.
pub open spec fn plain_gateway(t: Tree) -> Tree {
    let a = edited(t, seq!["gateway"@, "request_headers"@, "set"@], Edit::HideValues);
    let b = edited(a, seq!["gateway"@, "request_headers"@, "add"@], Edit::HideValues);
    let c = edited(b, seq!["gateway"@, "response_headers"@, "set"@], Edit::HideValues);
    edited(c, seq!["gateway"@, "response_headers"@, "add"@], Edit::HideValues)
}

/// What is shown of the settings of a route, with the fields that it sets and adds.
pub open spec fn shown(t: Tree, request: Seq<(Seq<char>, Seq<char>)>, response: Seq<AddedHeader>) -> Tree {
    plain_gateway(
        replaced(
            replaced(plain_addresses(t), "request_headers"@, request_marks(request)),
            "response_headers"@,
            response_marks(response),
        ),
    )
}

fn way3(a: &str, b: &str, c: &str) -> (r: Vec<String>)
    ensures
        texts(r@) == seq![a@, b@, c@],
{
    let mut r: Vec<String> = Vec::new();
    r.push(a.to_owned());
    r.push(b.to_owned());
    r.push(c.to_owned());
    assert(texts(r@) =~= seq![a@, b@, c@]);
    r
}

fn edit_all(j: &Json, way: &Vec<String>, e: Edit) -> (r: Json)
    ensures
        r.tree() == edited(j.tree(), texts(way@), e),
{
    assert(texts(way@).skip(0) =~= texts(way@));
    edit(j, way, 0, e)
}

/// What is shown of the settings of a route, with the fields that it sets for backends and those that it
/// adds to responses.
pub fn show(settings: &Json, request: &Vec<(String, String)>, response: &Vec<AddedHeader>) -> (r: Json)
    ensures
        r.tree() == shown(settings.tree(), text::pairs(request@), response@),
{
    let a = edit_all(settings, &way3("security", "external", "url"), Edit::WithoutQuery);
    let mut way = way3("security", "jwt", "spec");
    let ghost before = texts(way@);
    way.push("source".to_owned());
    assert(texts(way@) =~= before.push("source"@));
    assert(texts(way@) =~= seq!["security"@, "jwt"@, "spec"@, "source"@]);
    let a = edit_all(&a, &way, Edit::WithoutQuery);
    let a = replace(a, "request_headers", mark_requests(request));
    let a = replace(a, "response_headers", mark_responses(response));
    let a = edit_all(&a, &way3("gateway", "request_headers", "set"), Edit::HideValues);
    let a = edit_all(&a, &way3("gateway", "request_headers", "add"), Edit::HideValues);
    let a = edit_all(&a, &way3("gateway", "response_headers", "set"), Edit::HideValues);
    edit_all(&a, &way3("gateway", "response_headers", "add"), Edit::HideValues)
}

proof fn lemma_edited_branch(v: Seq<(Seq<char>, Tree)>, way: Seq<Seq<char>>, e: Edit, name: Seq<char>)
    requires
        way.len() > 0,
        way[0] != name,
    ensures
        branch(edited_members(v, way, e), name) == branch(v, name),
    decreases v.len(),
{
    if v.len() > 0 {
        let w = edited_members(v, way, e);
        if v[0].0 == way[0] {
            assert(w.drop_first() =~= v.drop_first());
        } else {
            lemma_edited_branch(v.drop_first(), way, e, name);
            assert(w.drop_first() =~= edited_members(v.drop_first(), way, e));
        }
    }
}

proof fn lemma_edited_at(t: Tree, way: Seq<Seq<char>>, e: Edit, name: Seq<char>)
    requires
        way.len() > 0,
        way[0] != name,
    ensures
        edited(t, way, e).at(name) == t.at(name),
{
    if t is Object {
        lemma_edited_branch(t->Object_0, way, e, name);
    }
}

pub proof fn lemma_with_branch(v: Seq<(Seq<char>, Tree)>, n: Seq<char>, x: Tree, m: Seq<char>)
    ensures
        branch(with_branch(v, n, x), m) == if m == n {
            Some(x)
        } else {
            branch(v, m)
        },
    decreases v.len(),
{
    let w = with_branch(v, n, x);
    if v.len() == 0 {
        assert(w.drop_first() =~= Seq::empty());
        assert(branch(w.drop_first(), m) is None);
    } else if v[0].0 == n {
        assert(w.drop_first() =~= v.drop_first());
    } else if text::before(n, v[0].0) {
        assert(w.drop_first() =~= v);
    } else {
        lemma_with_branch(v.drop_first(), n, x, m);
        assert(w.drop_first() =~= with_branch(v.drop_first(), n, x));
    }
}

proof fn lemma_replaced_at(t: Tree, n: Seq<char>, x: Tree, m: Seq<char>)
    ensures
        m != n ==> replaced(t, n, x).at(m) == t.at(m),
        replaced(t, n, x).at(n) == Tree::Null || replaced(t, n, x).at(n) == x,
{
    if t is Object {
        lemma_with_branch(t->Object_0, n, x, m);
        lemma_with_branch(t->Object_0, n, x, n);
    }
}

/// Of the fields that a route sets and adds only the names are shown.
pub proof fn law_shown_settings_hide_values(
    t: Tree,
    request: Seq<(Seq<char>, Seq<char>)>,
    response: Seq<AddedHeader>,
)
    ensures
        shown(t, request, response).at("request_headers"@) == Tree::Null || shown(
            t,
            request,
            response,
        ).at("request_headers"@) == request_marks(request),
        shown(t, request, response).at("response_headers"@) == Tree::Null || shown(
            t,
            request,
            response,
        ).at("response_headers"@) == response_marks(response),
{
    reveal_strlit("request_headers");
    reveal_strlit("response_headers");
    reveal_strlit("gateway");
    let q = "request_headers"@;
    let p = "response_headers"@;
    assert("gateway"@.len() != q.len() && "gateway"@.len() != p.len() && q.len() != p.len());
    let a = replaced(plain_addresses(t), q, request_marks(request));
    lemma_replaced_at(plain_addresses(t), q, request_marks(request), q);
    let b = replaced(a, p, response_marks(response));
    lemma_replaced_at(a, p, response_marks(response), q);
    lemma_replaced_at(a, p, response_marks(response), p);
    let w1 = seq!["gateway"@, q, "set"@];
    let w2 = seq!["gateway"@, q, "add"@];
    let w3 = seq!["gateway"@, p, "set"@];
    let w4 = seq!["gateway"@, p, "add"@];
    let c1 = edited(b, w1, Edit::HideValues);
    let c2 = edited(c1, w2, Edit::HideValues);
    let c3 = edited(c2, w3, Edit::HideValues);
    lemma_edited_at(b, w1, Edit::HideValues, q);
    lemma_edited_at(b, w1, Edit::HideValues, p);
    lemma_edited_at(c1, w2, Edit::HideValues, q);
    lemma_edited_at(c1, w2, Edit::HideValues, p);
    lemma_edited_at(c2, w3, Edit::HideValues, q);
    lemma_edited_at(c2, w3, Edit::HideValues, p);
    lemma_edited_at(c3, w4, Edit::HideValues, q);
    lemma_edited_at(c3, w4, Edit::HideValues, p);
}

/// The value of a field is hidden, and its name is not.
pub proof fn law_field_values_are_hidden(v: Seq<(Seq<char>, Tree)>, name: Seq<char>)
    ensures
        hidden_field(Tree::Object(v)).at("value"@) == Tree::Text("[redacted]"@),
        name != "value"@ ==> hidden_field(Tree::Object(v)).at(name) == Tree::Object(v).at(name),
{
    crate::json::law_set_members_are_found(v, "value"@, Tree::Text("[redacted]"@), name);
}

/// Each field that is set keeps its name and its place, without its value.
pub proof fn law_marks_name_fields(
    request: Seq<(Seq<char>, Seq<char>)>,
    response: Seq<AddedHeader>,
    i: int,
)
    ensures
        request_marks(request).list() is Some,
        request_marks(request).list()->0.len() == request.len(),
        0 <= i < request.len() ==> request_marks(request).list()->0[i] == Tree::List(
            seq![Tree::Text(request[i].0), Tree::Text("[redacted]"@)],
        ),
        response_marks(response).list() is Some,
        response_marks(response).list()->0.len() == response.len(),
        0 <= i < response.len() ==> response_marks(response).list()->0[i].at("name"@) == Tree::Text(response[i].name@)
            && response_marks(response).list()->0[i].at("value"@) == Tree::Text("[redacted]"@) && response_marks(
            response,
        ).list()->0[i].at("always"@) == Tree::Bool(response[i].always),
{
    reveal_with_fuel(branch, 4);
    reveal_strlit("name");
    reveal_strlit("always");
    assert("name"@.len() != "always"@.len());
    reveal_strlit("value");
    reveal_strlit("always");
    assert("value"@.len() != "always"@.len());
    reveal_strlit("name");
    assert("value"@.len() != "name"@.len());
}

/// An edit changes what stands at the end of its way, and nothing beside it.
pub proof fn law_edits_stay_on_their_way(v: Seq<(Seq<char>, Tree)>, name: Seq<char>, e: Edit, other: Seq<char>)
    ensures
        branch(v, name) is Some ==> edited(Tree::Object(v), seq![name], e).at(name) == changed(branch(v, name)->0, e),
        other != name ==> edited(Tree::Object(v), seq![name], e).at(other) == Tree::Object(v).at(other),
{
    lemma_edited_member(v, seq![name], e, other);
    assert(seq![name].drop_first() =~= Seq::<Seq<char>>::empty());
}

proof fn lemma_edited_member(v: Seq<(Seq<char>, Tree)>, way: Seq<Seq<char>>, e: Edit, other: Seq<char>)
    requires
        way.len() > 0,
    ensures
        branch(v, way[0]) is Some ==> branch(edited_members(v, way, e), way[0]) == Some(
            edited(branch(v, way[0])->0, way.drop_first(), e),
        ),
        other != way[0] ==> branch(edited_members(v, way, e), other) == branch(v, other),
    decreases v.len(),
{
    let w = edited_members(v, way, e);
    if v.len() > 0 {
        if v[0].0 == way[0] {
            assert(w.drop_first() =~= v.drop_first());
        } else {
            lemma_edited_member(v.drop_first(), way, e, other);
            assert(w.drop_first() =~= edited_members(v.drop_first(), way, e));
        }
    }
}

} // verus!
