//! The parts of route resources.
use crate::gateway::timeouts::Timeouts;
use crate::json::{Json, Tree};
use crate::model::copy_opt;
use crate::text;
use vstd::prelude::*;

verus! {

/// A reference to an object; without a namespace, in that of the object that holds the reference.
#[derive(Debug)]
pub struct Reference {
    pub name: String,
    pub namespace: Option<String>,
    pub group: Option<String>,
    pub kind: Option<String>,
    pub section_name: Option<String>,
    pub port: Option<u16>,
}

#[derive(Debug)]
pub struct RouteSpec {
    pub parent_refs: Vec<Reference>,
    pub hostnames: Vec<String>,
    pub rules: Vec<Rule>,
}

#[derive(Debug)]
pub struct Rule {
    pub name: Option<String>,
    pub matches: Vec<Match>,
    pub filters: Vec<Filter>,
    pub backend_refs: Vec<BackendRef>,
    pub timeouts: Option<Timeouts>,
}

/// What a request has to be like. The method of a gRPC route is an object, that of others a text.
#[derive(Debug)]
pub struct Match {
    pub path: Option<Path>,
    pub method: Option<Json>,
    pub headers: Vec<NamedMatch>,
    pub query_params: Vec<NamedMatch>,
}

#[derive(Debug)]
pub struct Path {
    pub type_: String,
    pub value: String,
}

#[derive(Debug)]
pub struct NamedMatch {
    pub type_: String,
    pub name: String,
    pub value: String,
}

#[derive(Debug)]
pub struct BackendRef {
    pub group: Option<String>,
    pub kind: Option<String>,
    pub name: String,
    pub namespace: Option<String>,
    pub port: Option<u16>,
    pub weight: Option<u32>,
    pub filters: Vec<Json>,
}

#[derive(Debug)]
pub struct Filter {
    pub type_: String,
    pub request_header_modifier: Option<Headers>,
    pub response_header_modifier: Option<Headers>,
    pub request_redirect: Option<Redirect>,
    pub url_rewrite: Option<Rewrite>,
    pub request_mirror: Option<Mirror>,
}

#[derive(Debug)]
pub struct Mirror {
    pub backend_ref: BackendRef,
    pub percent: Option<u32>,
    pub fraction: Option<Fraction>,
}

#[derive(Clone, Copy, Debug, PartialEq, Eq, Structural)]
pub struct Fraction {
    pub numerator: u32,
    pub denominator: Option<u32>,
}

/// Fields to set, to add and to remove.
#[derive(Debug)]
pub struct Headers {
    pub set: Vec<Header>,
    pub add: Vec<Header>,
    pub remove: Vec<String>,
}

#[derive(Debug)]
pub struct Header {
    pub name: String,
    pub value: String,
}

#[derive(Debug)]
pub struct Redirect {
    pub scheme: Option<String>,
    pub hostname: Option<String>,
    pub port: Option<u16>,
    pub path: Option<PathModifier>,
    pub status_code: Option<u16>,
}

#[derive(Debug)]
pub struct Rewrite {
    pub hostname: Option<String>,
    pub path: Option<PathModifier>,
}

#[derive(Debug)]
pub struct PathModifier {
    pub type_: String,
    pub replace_full_path: Option<String>,
    pub replace_prefix_match: Option<String>,
}

// ---------------------------------------------------------------------------
// What they hold
// ---------------------------------------------------------------------------

/// The names and values of fields.
pub open spec fn fields(v: Seq<Header>) -> Seq<(Seq<char>, Seq<char>)> {
    Seq::new(v.len(), |i: int| (v[i].name@, v[i].value@))
}

/// What a `Headers` holds.
#[verifier::ext_equal]
pub ghost struct FieldChanges {
    pub set: Seq<(Seq<char>, Seq<char>)>,
    pub add: Seq<(Seq<char>, Seq<char>)>,
    pub remove: Seq<Seq<char>>,
}

impl View for Headers {
    type V = FieldChanges;

    open spec fn view(&self) -> FieldChanges {
        FieldChanges {
            set: fields(self.set@),
            add: fields(self.add@),
            remove: text::texts(self.remove@),
        }
    }
}

pub open spec fn no_changes() -> FieldChanges {
    FieldChanges { set: Seq::empty(), add: Seq::empty(), remove: Seq::empty() }
}

/// What a `PathModifier` holds.
#[verifier::ext_equal]
pub ghost struct Replacement {
    pub type_: Seq<char>,
    pub full: Option<Seq<char>>,
    pub prefix: Option<Seq<char>>,
}

impl View for PathModifier {
    type V = Replacement;

    open spec fn view(&self) -> Replacement {
        Replacement {
            type_: self.type_@,
            full: text::opt(self.replace_full_path),
            prefix: text::opt(self.replace_prefix_match),
        }
    }
}

pub open spec fn replacement(p: Option<PathModifier>) -> Option<Replacement> {
    match p {
        Some(p) => Some(p@),
        None => None,
    }
}

/// What a `Redirect` holds.
#[verifier::ext_equal]
pub ghost struct Detour {
    pub scheme: Option<Seq<char>>,
    pub hostname: Option<Seq<char>>,
    pub port: Option<u16>,
    pub path: Option<Replacement>,
    pub status_code: Option<u16>,
}

impl View for Redirect {
    type V = Detour;

    open spec fn view(&self) -> Detour {
        Detour {
            scheme: text::opt(self.scheme),
            hostname: text::opt(self.hostname),
            port: self.port,
            path: replacement(self.path),
            status_code: self.status_code,
        }
    }
}

/// What a `Rewrite` holds.
#[verifier::ext_equal]
pub ghost struct Substitute {
    pub hostname: Option<Seq<char>>,
    pub path: Option<Replacement>,
}

impl View for Rewrite {
    type V = Substitute;

    open spec fn view(&self) -> Substitute {
        Substitute { hostname: text::opt(self.hostname), path: replacement(self.path) }
    }
}

pub open spec fn detour(r: Option<Redirect>) -> Option<Detour> {
    match r {
        Some(r) => Some(r@),
        None => None,
    }
}

pub open spec fn substitute(r: Option<Rewrite>) -> Option<Substitute> {
    match r {
        Some(r) => Some(r@),
        None => None,
    }
}

pub fn copy_fields(v: &Vec<Header>) -> (out: Vec<Header>)
    ensures
        fields(out@) == fields(v@),
{
    let mut out: Vec<Header> = Vec::new();
    let mut i: usize = 0;
    while i < v.len()
        invariant
            i <= v.len(),
            fields(out@) == fields(v@).take(i as int),
        decreases v.len() - i,
    {
        let ghost before = fields(out@);
        out.push(Header { name: v[i].name.clone(), value: v[i].value.clone() });
        proof {
            let x = (v@[i as int].name@, v@[i as int].value@);
            assert(fields(out@) =~= before.push(x));
            assert(fields(v@).take(i + 1) =~= fields(v@).take(i as int).push(x));
        }
        i += 1;
    }
    assert(fields(v@).take(i as int) =~= fields(v@));
    out
}

impl Default for Headers {
    fn default() -> (r: Self)
        ensures
            r@ == no_changes(),
    {
        let r = Headers { set: Vec::new(), add: Vec::new(), remove: Vec::new() };
        assert(r@ =~= no_changes());
        r
    }
}

impl Headers {
    /// The same changes again.
    pub fn copy(&self) -> (r: Headers)
        ensures
            r@ == self@,
    {
        Headers {
            set: copy_fields(&self.set),
            add: copy_fields(&self.add),
            remove: text::copy_all(&self.remove),
        }
    }
}

impl PathModifier {
    /// The same replacement again.
    pub fn copy(&self) -> (r: PathModifier)
        ensures
            r@ == self@,
    {
        PathModifier {
            type_: self.type_.clone(),
            replace_full_path: copy_opt(&self.replace_full_path),
            replace_prefix_match: copy_opt(&self.replace_prefix_match),
        }
    }
}

fn copy_modifier(p: &Option<PathModifier>) -> (r: Option<PathModifier>)
    ensures
        replacement(r) == replacement(*p),
{
    match p {
        Some(p) => Some(p.copy()),
        None => None,
    }
}

impl Redirect {
    /// The same redirect again.
    pub fn copy(&self) -> (r: Redirect)
        ensures
            r@ == self@,
    {
        Redirect {
            scheme: copy_opt(&self.scheme),
            hostname: copy_opt(&self.hostname),
            port: self.port,
            path: copy_modifier(&self.path),
            status_code: self.status_code,
        }
    }
}

impl Rewrite {
    /// The same rewrite again.
    pub fn copy(&self) -> (r: Rewrite)
        ensures
            r@ == self@,
    {
        Rewrite { hostname: copy_opt(&self.hostname), path: copy_modifier(&self.path) }
    }
}

/// The first mirror among filters.
pub open spec fn first_mirror(v: Seq<Filter>) -> Option<Mirror>
    decreases v.len(),
{
    if v.len() == 0 {
        None
    } else if v[0].request_mirror is Some {
        v[0].request_mirror
    } else {
        first_mirror(v.drop_first())
    }
}

impl Rule {
    /// The backend that gets a copy of the requests.
    pub fn mirror(&self) -> (r: Option<&Mirror>)
        ensures
            match r {
                Some(m) => first_mirror(self.filters@) == Some(*m),
                None => first_mirror(self.filters@) is None,
            },
    {
        let mut i: usize = 0;
        assert(self.filters@.skip(0) =~= self.filters@);
        while i < self.filters.len()
            invariant
                i <= self.filters.len(),
                first_mirror(self.filters@.skip(i as int)) == first_mirror(self.filters@),
            decreases self.filters.len() - i,
        {
            assert(self.filters@.skip(i as int).drop_first() =~= self.filters@.skip(i + 1));
            if let Some(m) = &self.filters[i].request_mirror {
                return Some(m);
            }
            i += 1;
        }
        None
    }

    /// The backends that the rule names, the mirror's at the end.
    pub fn all_backends(&self) -> (out: Vec<&BackendRef>)
        ensures
            out@.len() == self.backend_refs@.len() + (if first_mirror(self.filters@) is Some {
                1int
            } else {
                0
            }),
            forall|i: int|
                0 <= i < self.backend_refs@.len() ==> *#[trigger] out@[i] == self.backend_refs@[i],
            first_mirror(self.filters@) is Some ==> *out@[out@.len() - 1] == first_mirror(
                self.filters@,
            )->0.backend_ref,
    {
        let mut out: Vec<&BackendRef> = Vec::new();
        let mut i: usize = 0;
        while i < self.backend_refs.len()
            invariant
                i <= self.backend_refs.len(),
                out@.len() == i,
                forall|j: int| 0 <= j < i ==> *#[trigger] out@[j] == self.backend_refs@[j],
            decreases self.backend_refs.len() - i,
        {
            out.push(&self.backend_refs[i]);
            i += 1;
        }
        if let Some(m) = self.mirror() {
            out.push(&m.backend_ref);
        }
        out
    }
}

// ---------------------------------------------------------------------------
// Matches
// ---------------------------------------------------------------------------

/// What a `Match` holds: its path, its method, and what it asks of fields and parameters.
#[verifier::ext_equal]
pub ghost struct Pattern {
    pub path: Option<(Seq<char>, Seq<char>)>,
    pub method: Option<Tree>,
    pub headers: Seq<(Seq<char>, Seq<char>, Seq<char>)>,
    pub query_params: Seq<(Seq<char>, Seq<char>, Seq<char>)>,
}

pub open spec fn named_matches(v: Seq<NamedMatch>) -> Seq<(Seq<char>, Seq<char>, Seq<char>)> {
    Seq::new(v.len(), |i: int| (v[i].type_@, v[i].name@, v[i].value@))
}

impl View for Match {
    type V = Pattern;

    open spec fn view(&self) -> Pattern {
        Pattern {
            path: match self.path {
                Some(p) => Some((p.type_@, p.value@)),
                None => None,
            },
            method: match self.method {
                Some(j) => Some(j.tree()),
                None => None,
            },
            headers: named_matches(self.headers@),
            query_params: named_matches(self.query_params@),
        }
    }
}

/// The match of a rule that has none: all requests.
pub open spec fn any_request() -> Pattern {
    Pattern { path: None, method: None, headers: Seq::empty(), query_params: Seq::empty() }
}

fn copy_named(v: &Vec<NamedMatch>) -> (out: Vec<NamedMatch>)
    ensures
        named_matches(out@) == named_matches(v@),
{
    let ghost all = named_matches(v@);
    let mut out: Vec<NamedMatch> = Vec::new();
    let mut i: usize = 0;
    assert(named_matches(out@) =~= all.take(0));
    while i < v.len()
        invariant
            i <= v.len(),
            all == named_matches(v@),
            named_matches(out@) == all.take(i as int),
        decreases v.len() - i,
    {
        let ghost before = named_matches(out@);
        out.push(
            NamedMatch {
                type_: v[i].type_.clone(),
                name: v[i].name.clone(),
                value: v[i].value.clone(),
            },
        );
        assert(named_matches(out@) =~= before.push(all[i as int]));
        i += 1;
        assert(named_matches(out@) =~= all.take(i as int));
    }
    assert(all.take(i as int) =~= all);
    out
}

impl Match {
    pub fn copy(&self) -> (r: Match)
        ensures
            r@ == self@,
    {
        Match {
            path: match &self.path {
                Some(p) => Some(Path { type_: p.type_.clone(), value: p.value.clone() }),
                None => None,
            },
            method: match &self.method {
                Some(j) => Some(j.copy()),
                None => None,
            },
            headers: copy_named(&self.headers),
            query_params: copy_named(&self.query_params),
        }
    }

    /// The match of a rule that has none.
    pub fn any() -> (r: Match)
        ensures
            r@ == any_request(),
    {
        let r = Match { path: None, method: None, headers: Vec::new(), query_params: Vec::new() };
        assert(r@ =~= any_request());
        r
    }
}

} // verus!
