//! What is answered about requests that were played through a route, as JSON whose members are in order.
use crate::diagnostics::outbound::{Mirroring, Outbound};
use crate::diagnostics::report::RouteReport;
use crate::diagnostics::shown::lemma_with_branch;
use crate::diagnostics::simulation::Simulation;
use crate::diagnostics::trial::{Passed, Report, Told};
use crate::json::{
    branch, copy_or_null, lemma_tree, member_trees, number, number_json, object, put, set_member, start,
    text_json, text_or_null, tree_or_null, with_branch, Json, Tree,
};
use crate::script::Edits;
use crate::table::Table;
use crate::text;
use crate::text::pairs;
use vstd::prelude::*;

verus! {

fn words(s: &str) -> (j: Json)
    ensures
        j.tree() == Tree::Text(s@),
{
    Json::Text(s.to_owned())
}

/// A member that may be missing.
pub open spec fn optional(name: Seq<char>, t: Option<Tree>) -> Seq<(Seq<char>, Tree)> {
    match t {
        Some(t) => seq![(name, t)],
        None => Seq::empty(),
    }
}

pub open spec fn opt_tree(j: Option<Json>) -> Option<Tree> {
    match j {
        Some(j) => Some(j.tree()),
        None => None,
    }
}

fn put_some(v: &mut Vec<(String, Json)>, name: &str, j: Option<Json>)
    ensures
        member_trees(final(v)@) == member_trees(old(v)@) + optional(name@, opt_tree(j)),
{
    let ghost before = member_trees(v@);
    match j {
        Some(j) => {
            let ghost t = j.tree();
            put(v, name, j);
            assert(before.push((name@, t)) =~= before + seq![(name@, t)]);
        },
        None => {
            assert(before + Seq::<(Seq<char>, Tree)>::empty() =~= before);
        },
    }
}

// ---------------------------------------------------------------------------
// What would be done
// ---------------------------------------------------------------------------

pub open spec fn mirror_tree(m: Mirroring) -> Tree {
    Tree::Object(
        seq![
            ("backend"@, Tree::Text(m.backend@)),
            ("eligible"@, Tree::Bool(m.eligible)),
            ("percent"@, number(m.percent as nat)),
            ("reason"@, Tree::Text(m.reason.spec_text())),
            ("selected"@, Tree::Bool(m.selected)),
        ],
    )
}

fn mirror_json(m: &Mirroring) -> (j: Json)
    ensures
        j.tree() == mirror_tree(*m),
{
    let mut v = start();
    put(&mut v, "backend", Json::Text(m.backend.clone()));
    put(&mut v, "eligible", Json::Bool(m.eligible));
    put(&mut v, "percent", number_json(m.percent as u64));
    put(&mut v, "reason", words(m.reason.text()));
    put(&mut v, "selected", Json::Bool(m.selected));
    assert(member_trees(v@) =~= mirror_tree(*m)->Object_0);
    object(v)
}

/// Fields by their names.
pub open spec fn field_members(v: Seq<(Seq<char>, Seq<char>)>) -> Seq<(Seq<char>, Tree)>
    decreases v.len(),
{
    if v.len() == 0 {
        Seq::empty()
    } else {
        with_branch(field_members(v.drop_last()), v.last().0, Tree::Text(v.last().1))
    }
}

fn fields_json(t: &Table) -> (j: Json)
    ensures
        j.tree() == Tree::Object(field_members(pairs(t.entries@))),
{
    let ghost all = pairs(t.entries@);
    let mut v = start();
    let mut i: usize = 0;
    while i < t.entries.len()
        invariant
            i <= t.entries.len(),
            all == pairs(t.entries@),
            member_trees(v@) == field_members(all.take(i as int)),
        decreases t.entries.len() - i,
    {
        assert(all.take(i + 1).drop_last() =~= all.take(i as int));
        let e = &t.entries[i];
        set_member(&mut v, e.0.as_str(), Json::Text(e.1.clone()));
        i += 1;
    }
    assert(all.take(i as int) =~= all);
    object(v)
}

pub open spec fn told_backend(t: Option<Told>) -> Tree {
    match t {
        Some(t) => t.backend.tree(),
        None => Tree::Null,
    }
}

pub open spec fn told_traffic(t: Option<Told>) -> Tree {
    match t {
        Some(t) => tree_or_null(t.traffic),
        None => Tree::Null,
    }
}

/// What would be done for a request; nothing of it was done.
pub open spec fn outbound_tree(o: Outbound, told: Option<Told>) -> Tree {
    Tree::Object(
        match o {
            Outbound::Return { status, value } => seq![
                ("kind"@, Tree::Text("return"@)),
                ("status"@, number(status as nat)),
                ("value"@, Tree::Text(value@)),
            ],
            Outbound::Static { root, path } => seq![
                ("kind"@, Tree::Text("static"@)),
                ("path"@, Tree::Text(path@)),
                ("root"@, Tree::Text(root@)),
            ],
            Outbound::Unavailable => seq![
                ("kind"@, Tree::Text("unavailable"@)),
                ("status"@, number(503)),
            ],
            Outbound::Proxy { backend, uri, headers, mirror } => seq![
                ("backend"@, Tree::Text(backend@)),
                ("backend_state"@, told_backend(told)),
                ("headers"@, Tree::Object(field_members(pairs(headers.entries@)))),
                ("io_executed"@, Tree::Bool(false)),
                ("kind"@, Tree::Text("proxy"@)),
                (
                    "mirror"@,
                    match mirror {
                        Some(m) => mirror_tree(m),
                        None => Tree::Null,
                    },
                ),
                ("traffic"@, told_traffic(told)),
                ("uri"@, Tree::Text(uri@)),
            ],
        },
    )
}

fn outbound_json(o: &Outbound, told: &Option<Told>) -> (j: Json)
    ensures
        j.tree() == outbound_tree(*o, *told),
{
    let mut v = start();
    match o {
        Outbound::Return { status, value } => {
            put(&mut v, "kind", words("return"));
            put(&mut v, "status", number_json(*status as u64));
            put(&mut v, "value", Json::Text(value.clone()));
        },
        Outbound::Static { root, path } => {
            put(&mut v, "kind", words("static"));
            put(&mut v, "path", Json::Text(path.clone()));
            put(&mut v, "root", Json::Text(root.clone()));
        },
        Outbound::Unavailable => {
            put(&mut v, "kind", words("unavailable"));
            put(&mut v, "status", number_json(503));
        },
        Outbound::Proxy { backend, uri, headers, mirror } => {
            let (state, traffic) = match told {
                Some(t) => (t.backend.copy(), copy_or_null(&t.traffic)),
                None => (Json::Null, Json::Null),
            };
            let copied = match mirror {
                Some(m) => mirror_json(m),
                None => Json::Null,
            };
            put(&mut v, "backend", Json::Text(backend.clone()));
            put(&mut v, "backend_state", state);
            put(&mut v, "headers", fields_json(headers));
            put(&mut v, "io_executed", Json::Bool(false));
            put(&mut v, "kind", words("proxy"));
            put(&mut v, "mirror", copied);
            put(&mut v, "traffic", traffic);
            put(&mut v, "uri", Json::Text(uri.clone()));
        },
    }
    assert(member_trees(v@) =~= outbound_tree(*o, *told)->Object_0);
    object(v)
}

// ---------------------------------------------------------------------------
// What a script did
// ---------------------------------------------------------------------------

/// Changes to fields by their names; null where a field is removed.
pub open spec fn edit_members(v: Seq<(String, Option<String>)>) -> Seq<(Seq<char>, Tree)>
    decreases v.len(),
{
    if v.len() == 0 {
        Seq::empty()
    } else {
        with_branch(edit_members(v.drop_last()), v.last().0@, text_or_null(text::opt(v.last().1)))
    }
}

fn edits_json(e: &Vec<(String, Option<String>)>) -> (j: Json)
    ensures
        j.tree() == Tree::Object(edit_members(e@)),
{
    let mut v = start();
    let mut i: usize = 0;
    while i < e.len()
        invariant
            i <= e.len(),
            member_trees(v@) == edit_members(e@.take(i as int)),
        decreases e.len() - i,
    {
        assert(e@.take(i + 1).drop_last() =~= e@.take(i as int));
        set_member(&mut v, e[i].0.as_str(), text_json(&e[i].1));
        i += 1;
    }
    assert(e@.take(i as int) =~= e@);
    object(v)
}

pub open spec fn plugin_tree(decision: Tree, e: Edits) -> Tree {
    Tree::Object(
        seq![
            ("decision"@, decision),
            ("headers"@, Tree::Object(edit_members(e.headers@))),
            ("path"@, text_or_null(text::opt(e.path))),
            ("query"@, text_or_null(text::opt(e.query))),
        ],
    )
}

fn plugin_json(decision: Json, e: &Edits) -> (j: Json)
    ensures
        j.tree() == plugin_tree(decision.tree(), *e),
{
    let ghost t = decision.tree();
    let mut v = start();
    put(&mut v, "decision", decision);
    put(&mut v, "headers", edits_json(&e.headers));
    put(&mut v, "path", text_json(&e.path));
    put(&mut v, "query", text_json(&e.query));
    assert(member_trees(v@) =~= plugin_tree(t, *e)->Object_0);
    object(v)
}

/// What a script decided that lets a request go on.
pub open spec fn passing(named: Option<Seq<char>>) -> Tree {
    Tree::Object(
        match named {
            Some(b) => seq![("backend"@, Tree::Text(b))],
            None => seq![("pass"@, Tree::Bool(true))],
        },
    )
}

pub open spec fn passed_plugin(p: Passed) -> Option<Tree> {
    if p.scripted {
        Some(plugin_tree(passing(text::opt(p.named)), p.edits))
    } else {
        None
    }
}

fn passed_json(p: &Passed) -> (j: Option<Json>)
    ensures
        opt_tree(j) == passed_plugin(*p),
{
    if !p.scripted {
        return None;
    }
    let mut v = start();
    match &p.named {
        Some(b) => put(&mut v, "backend", Json::Text(b.clone())),
        None => put(&mut v, "pass", Json::Bool(true)),
    }
    assert(member_trees(v@) =~= passing(text::opt(p.named))->Object_0);
    Some(plugin_json(object(v), &p.edits))
}

pub open spec fn reply_tree(status: u16, body: Seq<char>) -> Tree {
    Tree::Object(seq![("body"@, Tree::Text(body)), ("status"@, number(status as nat))])
}

fn reply_json(status: u16, body: &str) -> (j: Json)
    ensures
        j.tree() == reply_tree(status, body@),
{
    let mut v = start();
    put(&mut v, "body", words(body));
    put(&mut v, "status", number_json(status as u64));
    assert(member_trees(v@) =~= reply_tree(status, body@)->Object_0);
    object(v)
}

// ---------------------------------------------------------------------------
// A run
// ---------------------------------------------------------------------------

/// What all runs through a route have in common.
#[derive(Debug)]
pub struct Setting {
    /// The normal path of the request.
    pub path: String,
    /// Whether an authentication service is asked in fact.
    pub live: bool,
}

/// What a run adds to what all have in common.
pub ghost struct Outline {
    pub admitted: bool,
    pub error: Option<Seq<char>>,
    pub outbound: Option<Tree>,
    pub plugin: Option<Tree>,
    pub status: Option<u16>,
}

pub open spec fn opt_text(s: Option<Seq<char>>) -> Option<Tree> {
    match s {
        Some(s) => Some(Tree::Text(s)),
        None => None,
    }
}

pub open spec fn opt_number(n: Option<u16>) -> Option<Tree> {
    match n {
        Some(n) => Some(number(n as nat)),
        None => None,
    }
}

pub open spec fn outlined(id: Seq<char>, action: Tree, path: Seq<char>, live: bool, o: Outline) -> Seq<
    (Seq<char>, Tree),
> {
    seq![("action"@, action), ("admitted"@, Tree::Bool(o.admitted))] + optional(
        "error"@,
        opt_text(o.error),
    ) + seq![
        (
            "external_auth"@,
            Tree::Text(
                if live {
                    "live"@
                } else {
                    "fixture"@
                },
            ),
        ),
        (
            "mode"@,
            Tree::Text("isolated admission and RGL simulation; upstream I/O is not executed"@),
        ),
        ("normalized_path"@, Tree::Text(path)),
    ] + optional("outbound"@, o.outbound) + optional("plugin"@, o.plugin) + seq![
        ("route"@, Tree::Text(id)),
    ] + optional("status"@, opt_number(o.status))
}

/// What is told of a run through a route. A client that is sent away and a body that is too long for the
/// script are told of without the route.
pub open spec fn run_members(id: Seq<char>, action: Tree, s: Setting, r: Report) -> Seq<(Seq<char>, Tree)> {
    match r {
        Report::Redirected(location) => seq![
            ("admitted"@, Tree::Bool(true)),
            (
                "outbound"@,
                Tree::Object(
                    seq![("kind"@, Tree::Text("redirect"@)), ("location"@, Tree::Text(location@))],
                ),
            ),
            ("status"@, number(308)),
        ],
        Report::BodyTooLong => seq![("admitted"@, Tree::Bool(false)), ("status"@, number(413))],
        Report::Refused(status) => outlined(
            id,
            action,
            s.path@,
            s.live,
            Outline {
                admitted: false,
                error: if status == 424 {
                    Some("external_auth fixture required; use CLI --live-auth for a real auth call"@)
                } else {
                    None
                },
                outbound: None,
                plugin: None,
                status: Some(status),
            },
        ),
        Report::Failed(e) => outlined(
            id,
            action,
            s.path@,
            s.live,
            Outline {
                admitted: true,
                error: Some(e@),
                outbound: None,
                plugin: None,
                status: Some(500),
            },
        ),
        Report::Answered(status, body, edits) => outlined(
            id,
            action,
            s.path@,
            s.live,
            Outline {
                admitted: true,
                error: None,
                outbound: Some(
                    Tree::Object(
                        seq![
                            ("body"@, Tree::Text(body@)),
                            ("kind"@, Tree::Text("return"@)),
                            ("status"@, number(status as nat)),
                        ],
                    ),
                ),
                plugin: Some(plugin_tree(reply_tree(status, body@), edits)),
                status: None,
            },
        ),
        Report::Forwarded(p, o, told) => outlined(
            id,
            action,
            s.path@,
            s.live,
            Outline {
                admitted: true,
                error: None,
                outbound: Some(outbound_tree(o, told)),
                plugin: passed_plugin(p),
                status: None,
            },
        ),
    }
}

fn outline(
    route: &RouteReport,
    s: &Setting,
    admitted: bool,
    error: Option<String>,
    outbound: Option<Json>,
    plugin: Option<Json>,
    status: Option<u16>,
) -> (v: Vec<(String, Json)>)
    ensures
        member_trees(v@) == outlined(
            route.id@,
            route.action.tree(),
            s.path@,
            s.live,
            Outline {
                admitted,
                error: text::opt(error),
                outbound: opt_tree(outbound),
                plugin: opt_tree(plugin),
                status,
            },
        ),
{
    let ghost o = Outline {
        admitted,
        error: text::opt(error),
        outbound: opt_tree(outbound),
        plugin: opt_tree(plugin),
        status,
    };
    let mut v = start();
    put(&mut v, "action", route.action.copy());
    put(&mut v, "admitted", Json::Bool(admitted));
    let error = match error {
        Some(e) => Some(Json::Text(e)),
        None => None,
    };
    assert(opt_tree(error) == opt_text(o.error));
    put_some(&mut v, "error", error);
    put(
        &mut v,
        "external_auth",
        words(
            if s.live {
                "live"
            } else {
                "fixture"
            },
        ),
    );
    put(&mut v, "mode", words("isolated admission and RGL simulation; upstream I/O is not executed"));
    put(&mut v, "normalized_path", Json::Text(s.path.clone()));
    put_some(&mut v, "outbound", outbound);
    put_some(&mut v, "plugin", plugin);
    put(&mut v, "route", Json::Text(route.id.clone()));
    let status = match status {
        Some(n) => Some(number_json(n as u64)),
        None => None,
    };
    assert(opt_tree(status) == opt_number(o.status));
    put_some(&mut v, "status", status);
    assert(member_trees(v@) =~= outlined(route.id@, route.action.tree(), s.path@, s.live, o));
    v
}

fn run(route: &RouteReport, s: &Setting, r: &Report) -> (v: Vec<(String, Json)>)
    ensures
        member_trees(v@) == run_members(route.id@, route.action.tree(), *s, *r),
{
    match r {
        Report::Redirected(location) => {
            let mut place = start();
            put(&mut place, "kind", words("redirect"));
            put(&mut place, "location", Json::Text(location.clone()));
            let ghost inner = member_trees(place@);
            assert(inner =~= seq![
                ("kind"@, Tree::Text("redirect"@)),
                ("location"@, Tree::Text(location@)),
            ]);
            let mut v = start();
            put(&mut v, "admitted", Json::Bool(true));
            put(&mut v, "outbound", object(place));
            put(&mut v, "status", number_json(308));
            assert(member_trees(v@) =~= run_members(route.id@, route.action.tree(), *s, *r));
            v
        },
        Report::BodyTooLong => {
            let mut v = start();
            put(&mut v, "admitted", Json::Bool(false));
            put(&mut v, "status", number_json(413));
            assert(member_trees(v@) =~= run_members(route.id@, route.action.tree(), *s, *r));
            v
        },
        Report::Refused(status) => {
            let error = if *status == 424 {
                Some("external_auth fixture required; use CLI --live-auth for a real auth call".to_owned())
            } else {
                None
            };
            outline(route, s, false, error, None, None, Some(*status))
        },
        Report::Failed(e) => outline(route, s, true, Some(e.clone()), None, None, Some(500)),
        Report::Answered(status, body, edits) => {
            let mut reply = start();
            put(&mut reply, "body", Json::Text(body.clone()));
            put(&mut reply, "kind", words("return"));
            put(&mut reply, "status", number_json(*status as u64));
            assert(member_trees(reply@) =~= seq![
                ("body"@, Tree::Text(body@)),
                ("kind"@, Tree::Text("return"@)),
                ("status"@, number(*status as nat)),
            ]);
            let plugin = plugin_json(reply_json(*status, body.as_str()), edits);
            outline(route, s, true, None, Some(object(reply)), Some(plugin), None)
        },
        Report::Forwarded(p, o, told) => {
            let plugin = passed_json(p);
            outline(route, s, true, None, Some(outbound_json(o, told)), plugin, None)
        },
    }
}

// ---------------------------------------------------------------------------
// The answer
// ---------------------------------------------------------------------------

/// What is told of the runs, one after the other.
pub open spec fn run_trees(id: Seq<char>, action: Tree, s: Setting, v: Seq<Report>) -> Seq<Tree> {
    Seq::new(v.len(), |i: int| Tree::Object(run_members(id, action, s, v[i])))
}

/// What is told of the runs through a route: of a single one itself, of several as a list.
pub open spec fn told_members(route: RouteReport, s: Setting, reports: Seq<Report>, input: Simulation) -> Seq<
    (Seq<char>, Tree),
> {
    if input.repeat == 1 {
        run_members(route.id@, route.action.tree(), s, reports[0])
    } else {
        seq![
            ("hold_permits"@, Tree::Bool(input.hold_permits)),
            ("repeat"@, number(input.repeat as nat)),
            ("results"@, Tree::List(run_trees(route.id@, route.action.tree(), s, reports))),
        ]
    }
}

/// What is answered about a request that was played: where no route takes it, that nothing was found.
pub open spec fn answer_tree(
    route: Option<RouteReport>,
    s: Setting,
    reports: Seq<Report>,
    input: Simulation,
) -> Tree {
    match route {
        None => Tree::Object(seq![("matched"@, Tree::Bool(false)), ("status"@, number(404))]),
        Some(r) => Tree::Object(
            with_branch(
                with_branch(
                    told_members(r, s, reports, input),
                    "rate_limit_scope"@,
                    Tree::Text("isolated_simulation"@),
                ),
                "shared_quota_checked"@,
                Tree::Bool(false),
            ),
        ),
    }
}

fn results(route: &RouteReport, s: &Setting, reports: &Vec<Report>) -> (j: Json)
    ensures
        j.tree() == Tree::List(run_trees(route.id@, route.action.tree(), *s, reports@)),
{
    let mut out: Vec<Json> = Vec::new();
    let mut i: usize = 0;
    while i < reports.len()
        invariant
            i <= reports.len(),
            out@.len() == i,
            forall|k: int|
                0 <= k < i ==> (#[trigger] out@[k]).tree() == Tree::Object(
                    run_members(route.id@, route.action.tree(), *s, reports@[k]),
                ),
        decreases reports.len() - i,
    {
        out.push(object(run(route, s, &reports[i])));
        i += 1;
    }
    let j = Json::List(out);
    proof {
        lemma_tree(j);
        assert(j.tree()->List_0 =~= run_trees(route.id@, route.action.tree(), *s, reports@));
    }
    j
}

/// What is answered about a request that was played through the route that takes it, once all runs are over.
pub fn answer(route: &Option<RouteReport>, s: &Setting, reports: &Vec<Report>, input: &Simulation) -> (j: Json)
    requires
        route is Some ==> reports@.len() == input.repeat,
    ensures
        j.tree() == answer_tree(*route, *s, reports@, *input),
{
    let route = match route {
        None => {
            let mut v = start();
            put(&mut v, "matched", Json::Bool(false));
            put(&mut v, "status", number_json(404));
            assert(member_trees(v@) =~= seq![
                ("matched"@, Tree::Bool(false)),
                ("status"@, number(404)),
            ]);
            return object(v);
        },
        Some(r) => r,
    };
    let mut v = if input.repeat == 1 {
        run(route, s, &reports[0])
    } else {
        let mut v = start();
        put(&mut v, "hold_permits", Json::Bool(input.hold_permits));
        put(&mut v, "repeat", number_json(input.repeat as u64));
        put(&mut v, "results", results(route, s, reports));
        v
    };
    assert(member_trees(v@) =~= told_members(*route, *s, reports@, *input));
    set_member(&mut v, "rate_limit_scope", words("isolated_simulation"));
    set_member(&mut v, "shared_quota_checked", Json::Bool(false));
    object(v)
}

// ---------------------------------------------------------------------------
// Laws
// ---------------------------------------------------------------------------

/// Of several runs each is told of, in its place.
pub proof fn law_each_run_has_its_result(route: RouteReport, s: Setting, reports: Seq<Report>, input: Simulation)
    requires
        input.repeat > 1,
        reports.len() == input.repeat,
    ensures
        ({
            let t = answer_tree(Some(route), s, reports, input);
            &&& t.at("results"@) is List
            &&& t.at("results"@)->List_0.len() == input.repeat
            &&& forall|i: int|
                0 <= i < reports.len() ==> #[trigger] t.at("results"@)->List_0[i] == Tree::Object(
                    run_members(route.id@, route.action.tree(), s, reports[i]),
                )
            &&& t.at("repeat"@) == number(input.repeat as nat)
        }),
{
    reveal_strlit("results");
    reveal_strlit("repeat");
    reveal_strlit("hold_permits");
    reveal_strlit("rate_limit_scope");
    reveal_strlit("shared_quota_checked");
    let m = told_members(route, s, reports, input);
    let scope = Tree::Text("isolated_simulation"@);
    let w = with_branch(m, "rate_limit_scope"@, scope);
    let names = seq!["results"@, "repeat"@];
    assert forall|k: int| 0 <= k < 2 implies branch(
        with_branch(w, "shared_quota_checked"@, Tree::Bool(false)),
        #[trigger] names[k],
    ) == branch(m, names[k]) by {
        assert(names[k].len() != "rate_limit_scope"@.len());
        assert(names[k].len() != "shared_quota_checked"@.len());
        lemma_with_branch(m, "rate_limit_scope"@, scope, names[k]);
        lemma_with_branch(w, "shared_quota_checked"@, Tree::Bool(false), names[k]);
    }
    assert(names[0] == "results"@ && names[1] == "repeat"@);
    assert("hold_permits"@.len() == 12 && "repeat"@.len() == 6 && "results"@.len() == 7);
    let rest = m.drop_first();
    let last = rest.drop_first();
    assert(m[0].0 == "hold_permits"@ && rest[0] == m[1] && last[0] == m[2]);
    assert(branch(m, "repeat"@) == branch(rest, "repeat"@));
    assert(branch(m, "results"@) == branch(rest, "results"@));
    assert(branch(rest, "results"@) == branch(last, "results"@));
}

/// A run that is not admitted is told of without anything that would be done.
pub proof fn law_refused_runs_have_no_outbound(id: Seq<char>, action: Tree, s: Setting, r: Report)
    requires
        !r@.admitted(),
    ensures
        branch(run_members(id, action, s, r), "outbound"@) is None,
        branch(run_members(id, action, s, r), "admitted"@) == Some(Tree::Bool(false)),
{
    reveal_strlit("outbound");
    reveal_strlit("action");
    reveal_strlit("admitted");
    reveal_strlit("error");
    reveal_strlit("external_auth");
    reveal_strlit("mode");
    reveal_strlit("normalized_path");
    reveal_strlit("route");
    reveal_strlit("status");
    let m = run_members(id, action, s, r);
    let n = "outbound"@;
    assert("admitted"@[0] == 'a' && n[0] == 'o');
    assert forall|i: int| 0 <= i < m.len() implies (#[trigger] m[i]).0 != n by {
        assert(m[i].0.len() != 8 || m[i].0[0] == 'a');
    }
    lemma_no_branch(m, n);
    if r is Refused {
        assert(m[0].0 == "action"@ && m.drop_first()[0] == m[1]);
        assert("action"@.len() != "admitted"@.len());
        assert(branch(m, "admitted"@) == branch(m.drop_first(), "admitted"@));
        assert(m[1] == ("admitted"@, Tree::Bool(false)));
    }
}

proof fn lemma_no_branch(v: Seq<(Seq<char>, Tree)>, name: Seq<char>)
    requires
        forall|i: int| 0 <= i < v.len() ==> (#[trigger] v[i]).0 != name,
    ensures
        branch(v, name) is None,
    decreases v.len(),
{
    if v.len() > 0 {
        assert(v[0].0 != name);
        assert forall|i: int| 0 <= i < v.drop_first().len() implies (#[trigger] v.drop_first()[i]).0
            != name by {
            assert(v.drop_first()[i] == v[i + 1]);
        }
        lemma_no_branch(v.drop_first(), name);
    }
}

proof fn lemma_branch_found(v: Seq<(Seq<char>, Tree)>, i: int)
    requires
        0 <= i < v.len(),
        forall|k: int| 0 <= k < i ==> (#[trigger] v[k]).0 != v[i].0,
    ensures
        branch(v, v[i].0) == Some(v[i].1),
    decreases v.len(),
{
    if i > 0 {
        assert(v[0].0 != v[i].0);
        let r = v.drop_first();
        assert forall|k: int| 0 <= k < i - 1 implies (#[trigger] r[k]).0 != r[i - 1].0 by {
            assert(r[k] == v[k + 1]);
        }
        lemma_branch_found(r, i - 1);
    }
}

/// A request that no route takes is answered as not found; one that is sent elsewhere, with the address; one
/// whose body is too long, as that.
pub proof fn law_answers_have_their_status(
    id: Seq<char>,
    action: Tree,
    s: Setting,
    reports: Seq<Report>,
    input: Simulation,
    location: String,
)
    ensures
        answer_tree(None, s, reports, input).at("status"@) == number(404),
        answer_tree(None, s, reports, input).at("matched"@) == Tree::Bool(false),
        Tree::Object(run_members(id, action, s, Report::BodyTooLong)).at("status"@) == number(413),
        Tree::Object(run_members(id, action, s, Report::Redirected(location))).at("status"@) == number(308),
        Tree::Object(run_members(id, action, s, Report::Redirected(location))).at("outbound"@).at("location"@)
            == Tree::Text(location@),
{
    reveal_with_fuel(branch, 4);
    reveal_strlit("status");
    reveal_strlit("matched");
    assert("status"@.len() != "matched"@.len());
    reveal_strlit("admitted");
    assert("status"@.len() != "admitted"@.len());
    reveal_strlit("outbound");
    assert("status"@.len() != "outbound"@.len());
    reveal_strlit("outbound");
    reveal_strlit("admitted");
    assert("outbound"@[0] != "admitted"@[0]);
    reveal_strlit("location");
    reveal_strlit("kind");
    assert("location"@.len() != "kind"@.len());
}

/// What is told of a run names the route, the normal path, and whether the authentication service was asked
/// in fact.
pub proof fn law_runs_tell_their_route(id: Seq<char>, action: Tree, path: Seq<char>, live: bool, o: Outline)
    ensures
        Tree::Object(outlined(id, action, path, live, o)).at("action"@) == action,
        Tree::Object(outlined(id, action, path, live, o)).at("admitted"@) == Tree::Bool(o.admitted),
        Tree::Object(outlined(id, action, path, live, o)).at("route"@) == Tree::Text(id),
        Tree::Object(outlined(id, action, path, live, o)).at("normalized_path"@) == Tree::Text(path),
        Tree::Object(outlined(id, action, path, live, o)).at("external_auth"@) == Tree::Text(
            if live {
                "live"@
            } else {
                "fixture"@
            },
        ),
        o.status is Some ==> Tree::Object(outlined(id, action, path, live, o)).at("status"@) == number(
            o.status->0 as nat,
        ),
        o.error is Some ==> Tree::Object(outlined(id, action, path, live, o)).at("error"@) == Tree::Text(o.error->0),
        o.outbound is Some ==> Tree::Object(outlined(id, action, path, live, o)).at("outbound"@) == o.outbound->0,
        o.plugin is Some ==> Tree::Object(outlined(id, action, path, live, o)).at("plugin"@) == o.plugin->0,
{
    let v = outlined(id, action, path, live, o);
    let e: int = if o.error is Some {
        1
    } else {
        0
    };
    let b: int = if o.outbound is Some {
        1
    } else {
        0
    };
    let p: int = if o.plugin is Some {
        1
    } else {
        0
    };
    reveal_strlit("admitted");
    reveal_strlit("action");
    assert("admitted"@.len() != "action"@.len());
    reveal_strlit("error");
    reveal_strlit("action");
    assert("error"@.len() != "action"@.len());
    reveal_strlit("admitted");
    assert("error"@.len() != "admitted"@.len());
    reveal_strlit("external_auth");
    reveal_strlit("action");
    assert("external_auth"@.len() != "action"@.len());
    reveal_strlit("admitted");
    assert("external_auth"@.len() != "admitted"@.len());
    reveal_strlit("error");
    assert("external_auth"@.len() != "error"@.len());
    reveal_strlit("normalized_path");
    reveal_strlit("action");
    assert("normalized_path"@.len() != "action"@.len());
    reveal_strlit("admitted");
    assert("normalized_path"@.len() != "admitted"@.len());
    reveal_strlit("error");
    assert("normalized_path"@.len() != "error"@.len());
    reveal_strlit("external_auth");
    assert("normalized_path"@.len() != "external_auth"@.len());
    reveal_strlit("mode");
    assert("normalized_path"@.len() != "mode"@.len());
    reveal_strlit("outbound");
    reveal_strlit("action");
    assert("outbound"@.len() != "action"@.len());
    reveal_strlit("admitted");
    assert("outbound"@[0] != "admitted"@[0]);
    reveal_strlit("error");
    assert("outbound"@.len() != "error"@.len());
    reveal_strlit("external_auth");
    assert("outbound"@.len() != "external_auth"@.len());
    reveal_strlit("mode");
    assert("outbound"@.len() != "mode"@.len());
    reveal_strlit("normalized_path");
    assert("outbound"@.len() != "normalized_path"@.len());
    reveal_strlit("plugin");
    reveal_strlit("action");
    assert("plugin"@[0] != "action"@[0]);
    reveal_strlit("admitted");
    assert("plugin"@.len() != "admitted"@.len());
    reveal_strlit("error");
    assert("plugin"@.len() != "error"@.len());
    reveal_strlit("external_auth");
    assert("plugin"@.len() != "external_auth"@.len());
    reveal_strlit("mode");
    assert("plugin"@.len() != "mode"@.len());
    reveal_strlit("normalized_path");
    assert("plugin"@.len() != "normalized_path"@.len());
    reveal_strlit("outbound");
    assert("plugin"@.len() != "outbound"@.len());
    reveal_strlit("route");
    reveal_strlit("action");
    assert("route"@.len() != "action"@.len());
    reveal_strlit("admitted");
    assert("route"@.len() != "admitted"@.len());
    reveal_strlit("error");
    assert("route"@[0] != "error"@[0]);
    reveal_strlit("external_auth");
    assert("route"@.len() != "external_auth"@.len());
    reveal_strlit("mode");
    assert("route"@.len() != "mode"@.len());
    reveal_strlit("normalized_path");
    assert("route"@.len() != "normalized_path"@.len());
    reveal_strlit("outbound");
    assert("route"@.len() != "outbound"@.len());
    reveal_strlit("plugin");
    assert("route"@.len() != "plugin"@.len());
    reveal_strlit("status");
    reveal_strlit("action");
    assert("status"@[0] != "action"@[0]);
    reveal_strlit("admitted");
    assert("status"@.len() != "admitted"@.len());
    reveal_strlit("error");
    assert("status"@.len() != "error"@.len());
    reveal_strlit("external_auth");
    assert("status"@.len() != "external_auth"@.len());
    reveal_strlit("mode");
    assert("status"@.len() != "mode"@.len());
    reveal_strlit("normalized_path");
    assert("status"@.len() != "normalized_path"@.len());
    reveal_strlit("outbound");
    assert("status"@.len() != "outbound"@.len());
    reveal_strlit("plugin");
    assert("status"@[0] != "plugin"@[0]);
    reveal_strlit("route");
    assert("status"@.len() != "route"@.len());
    assert(v[0] == ("action"@, action));
    assert(v[1] == ("admitted"@, Tree::Bool(o.admitted)));
    lemma_branch_found(v, 0);
    lemma_branch_found(v, 1);
    if o.error is Some {
        assert(v[2] == ("error"@, Tree::Text(o.error->0)));
        lemma_branch_found(v, 2);
    }
    assert(v[2 + e].0 == "external_auth"@);
    assert(v[3 + e].0 == "mode"@);
    assert(v[4 + e] == ("normalized_path"@, Tree::Text(path)));
    lemma_branch_found(v, 2 + e);
    lemma_branch_found(v, 4 + e);
    if o.outbound is Some {
        assert(v[5 + e] == ("outbound"@, o.outbound->0));
        lemma_branch_found(v, 5 + e);
    }
    if o.plugin is Some {
        assert(v[5 + e + b] == ("plugin"@, o.plugin->0));
        lemma_branch_found(v, 5 + e + b);
    }
    assert(v[5 + e + b + p] == ("route"@, Tree::Text(id)));
    lemma_branch_found(v, 5 + e + b + p);
    if o.status is Some {
        assert(v[6 + e + b + p] == ("status"@, number(o.status->0 as nat)));
        lemma_branch_found(v, 6 + e + b + p);
    }
}

/// What would be sent is told by its kind: what is returned, the file, the lack of a backend, or the backend
/// with the address; and nothing is sent.
pub proof fn law_outbounds_tell_their_kind(o: Outbound, told: Option<Told>)
    ensures
        o is Return ==> outbound_tree(o, told).at("kind"@) == Tree::Text("return"@) && outbound_tree(o, told).at(
            "status"@,
        ) == number(o->status as nat),
        o is Static ==> outbound_tree(o, told).at("kind"@) == Tree::Text("static"@) && outbound_tree(o, told).at("path"@)
            == Tree::Text(o->path@) && outbound_tree(o, told).at("root"@) == Tree::Text(o->root@),
        o is Unavailable ==> outbound_tree(o, told).at("kind"@) == Tree::Text("unavailable"@) && outbound_tree(
            o,
            told,
        ).at("status"@) == number(503),
        o is Proxy ==> outbound_tree(o, told).at("kind"@) == Tree::Text("proxy"@) && outbound_tree(o, told).at(
            "backend"@,
        ) == Tree::Text(o->backend@) && outbound_tree(o, told).at("uri"@) == Tree::Text(o->uri@) && outbound_tree(
            o,
            told,
        ).at("io_executed"@) == Tree::Bool(false),
{
    reveal_with_fuel(branch, 9);
    reveal_strlit("status");
    reveal_strlit("kind");
    assert("status"@.len() != "kind"@.len());
    reveal_strlit("path");
    reveal_strlit("kind");
    assert("path"@[0] != "kind"@[0]);
    reveal_strlit("root");
    reveal_strlit("kind");
    assert("root"@[0] != "kind"@[0]);
    reveal_strlit("path");
    assert("root"@[0] != "path"@[0]);
    reveal_strlit("io_executed");
    reveal_strlit("backend");
    assert("io_executed"@.len() != "backend"@.len());
    reveal_strlit("backend_state");
    assert("io_executed"@.len() != "backend_state"@.len());
    reveal_strlit("headers");
    assert("io_executed"@.len() != "headers"@.len());
    reveal_strlit("kind");
    reveal_strlit("backend");
    assert("kind"@.len() != "backend"@.len());
    reveal_strlit("backend_state");
    assert("kind"@.len() != "backend_state"@.len());
    reveal_strlit("headers");
    assert("kind"@.len() != "headers"@.len());
    reveal_strlit("io_executed");
    assert("kind"@.len() != "io_executed"@.len());
    reveal_strlit("uri");
    reveal_strlit("backend");
    assert("uri"@.len() != "backend"@.len());
    reveal_strlit("backend_state");
    assert("uri"@.len() != "backend_state"@.len());
    reveal_strlit("headers");
    assert("uri"@.len() != "headers"@.len());
    reveal_strlit("io_executed");
    assert("uri"@.len() != "io_executed"@.len());
    reveal_strlit("kind");
    assert("uri"@.len() != "kind"@.len());
    reveal_strlit("mirror");
    assert("uri"@.len() != "mirror"@.len());
    reveal_strlit("traffic");
    assert("uri"@.len() != "traffic"@.len());
}

} // verus!
