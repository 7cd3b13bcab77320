//! Reviews of ingresses before they are stored, and the certificate of the endpoint that gives them.
use crate::digest::{digest, sha256};
use crate::json::{alike, lemma_tree, member_trees, object, put, Json, Tree};
use crate::text;
use vstd::prelude::*;

verus! {

/// The longest certificate, and the longest key, that is read.
pub const MAX_TLS_FILE: usize = 1048576;

/// Why something is denied.
#[derive(Clone, Copy, Debug, PartialEq, Eq, Structural)]
pub enum Denial {
    UnknownEndpoint,
    NoUid,
    WrongKind,
    Operation,
    Object,
    Unavailable,
    Controlled,
    Capacity,
    TaskFailed,
    Invalid,
}

impl Denial {
    pub open spec fn spec_status(self) -> u16 {
        match self {
            Denial::UnknownEndpoint => 404,
            Denial::NoUid => 400,
            Denial::WrongKind => 400,
            Denial::Operation => 400,
            Denial::Object => 400,
            Denial::Unavailable => 503,
            Denial::Controlled => 403,
            Denial::Capacity => 429,
            Denial::TaskFailed => 500,
            Denial::Invalid => 422,
        }
    }

    pub fn status(&self) -> (r: u16)
        ensures
            r == self.spec_status(),
    {
        match self {
            Denial::UnknownEndpoint => 404,
            Denial::NoUid => 400,
            Denial::WrongKind => 400,
            Denial::Operation => 400,
            Denial::Object => 400,
            Denial::Unavailable => 503,
            Denial::Controlled => 403,
            Denial::Capacity => 429,
            Denial::TaskFailed => 500,
            Denial::Invalid => 422,
        }
    }
}

/// How a review goes on.
#[derive(Clone, Copy, Debug, PartialEq, Eq, Structural)]
pub enum Step {
    Allow,
    Deny(Denial),
    /// There is more to look at.
    Proceed,
}

/// Whether a path is that of the reviews.
pub fn endpoint(path: &str) -> (r: Result<(), Denial>)
    ensures
        r == if path@ == "/admission/ingress"@ {
            Ok::<(), Denial>(())
        } else {
            Err(Denial::UnknownEndpoint)
        },
{
    if text::same(path, "/admission/ingress") {
        Ok(())
    } else {
        Err(Denial::UnknownEndpoint)
    }
}

/// The identifier of what is reviewed, which the answer has to name.
pub fn review_uid(input: &Json) -> (r: Result<&str, Denial>)
    ensures
        match r {
            Ok(s) => input.at("request"@).at("uid"@).string() == Some(s@),
            Err(e) => e == Denial::NoUid && input.at("request"@).at("uid"@).string() is None,
        },
{
    match input.field("request").get_str("uid") {
        Some(s) => Ok(s),
        None => Err(Denial::NoUid),
    }
}

/// Whether a member is a text and which one.
fn is_text(j: &Json, name: &str, value: &str) -> (r: bool)
    ensures
        r == (j.at(name@).string() == Some(value@)),
{
    match j.get_str(name) {
        Some(s) => text::same(s, value),
        None => false,
    }
}

/// How a review begins.
pub open spec fn begun(request: Json) -> Step {
    let op = request.at("operation"@).string();
    if request.at("kind"@).at("group"@).string() != Some("networking.k8s.io"@) || request.at(
        "kind"@,
    ).at("kind"@).string() != Some("Ingress"@) {
        Step::Deny(Denial::WrongKind)
    } else if op == Some("DELETE"@) {
        Step::Allow
    } else if op != Some("CREATE"@) && op != Some("UPDATE"@) {
        Step::Deny(Denial::Operation)
    } else {
        Step::Proceed
    }
}

/// How a review begins.
pub fn begin(request: &Json) -> (r: Step)
    ensures
        r == begun(*request),
{
    let kind = request.field("kind");
    if !is_text(kind, "group", "networking.k8s.io") || !is_text(kind, "kind", "Ingress") {
        return Step::Deny(Denial::WrongKind);
    }
    if is_text(request, "operation", "DELETE") {
        return Step::Allow;
    }
    if !is_text(request, "operation", "CREATE") && !is_text(request, "operation", "UPDATE") {
        return Step::Deny(Denial::Operation);
    }
    Step::Proceed
}

/// The namespace of what is reviewed: its own, or else that of the review.
pub open spec fn namespace_of(own: Option<Seq<char>>, request: Json) -> Option<Seq<char>> {
    match own {
        Some(s) => Some(s),
        None => request.at("namespace"@).string(),
    }
}

pub fn namespace(own: Option<String>, request: &Json) -> (r: Option<String>)
    ensures
        text::opt(r) == namespace_of(text::opt(own), *request),
{
    match own {
        Some(s) => Some(s),
        None => match request.get_str("namespace") {
            Some(s) => Some(s.to_owned()),
            None => None,
        },
    }
}

// ---------------------------------------------------------------------------
// Progress of rollouts
// ---------------------------------------------------------------------------

/// An annotation that only the controller sets.
pub open spec fn controlled(name: Seq<char>) -> bool {
    name == "rgnix.io/rollout-state"@ || name == "rgnix.io/rolled-back-revision"@
}

/// The members that others may set too.
pub open spec fn others(v: Seq<(Seq<char>, Tree)>) -> Seq<(Seq<char>, Tree)>
    decreases v.len(),
{
    if v.len() == 0 {
        Seq::empty()
    } else if controlled(v.last().0) {
        others(v.drop_last())
    } else {
        others(v.drop_last()).push(v.last())
    }
}

/// Annotations without those that only the controller sets.
pub open spec fn uncontrolled(t: Tree) -> Tree {
    match t {
        Tree::Object(v) => Tree::Object(others(v)),
        _ => t,
    }
}

fn is_controlled(name: &str) -> (r: bool)
    ensures
        r == controlled(name@),
{
    text::same(name, "rgnix.io/rollout-state") || text::same(name, "rgnix.io/rolled-back-revision")
}

/// The members that others may set too.
fn keep_others(v: &Vec<(String, Json)>) -> (out: Vec<(String, Json)>)
    ensures
        member_trees(out@) == others(member_trees(v@)),
{
    let ghost all = member_trees(v@);
    let mut out: Vec<(String, Json)> = Vec::new();
    let mut i: usize = 0;
    assert(member_trees(out@) =~= Seq::empty());
    while i < v.len()
        invariant
            i <= v@.len(),
            all == member_trees(v@),
            member_trees(out@) == others(all.take(i as int)),
        decreases v@.len() - i,
    {
        proof {
            assert(all.take(i + 1).drop_last() =~= all.take(i as int));
            assert(all.take(i + 1).last() == (v@[i as int].0@, v@[i as int].1.tree()));
        }
        if !is_controlled(v[i].0.as_str()) {
            put(&mut out, v[i].0.as_str(), v[i].1.copy());
        }
        i += 1;
    }
    assert(all.take(i as int) =~= all);
    out
}

/// Annotations without those that only the controller sets.
fn without_controlled(j: &Json) -> (r: Json)
    ensures
        r.tree() == uncontrolled(j.tree()),
{
    proof {
        lemma_tree(*j);
    }
    match j {
        Json::Object(v) => object(keep_others(v)),
        _ => j.copy(),
    }
}

/// Whether two values are the same but for the annotations that only the controller sets.
fn same_uncontrolled(a: &Json, b: &Json) -> (r: bool)
    ensures
        r == alike(uncontrolled(a.tree()), uncontrolled(b.tree())),
{
    without_controlled(a).same(&without_controlled(b))
}

/// Whether a review changes an annotation that only the controller sets.
pub open spec fn progress_changed(request: Json) -> bool {
    let old = request.at("oldObject"@).at("metadata"@).at("annotations"@);
    let new = request.at("object"@).at("metadata"@).at("annotations"@);
    !alike(old.at("rgnix.io/rollout-state"@).tree(), new.at("rgnix.io/rollout-state"@).tree()) || !alike(
        old.at("rgnix.io/rolled-back-revision"@).tree(),
        new.at("rgnix.io/rolled-back-revision"@).tree(),
    )
}

/// Whether a review changes nothing but annotations that only the controller sets.
pub open spec fn only_progress(request: Json) -> bool {
    let old = request.at("oldObject"@);
    let new = request.at("object"@);
    &&& alike(old.at("spec"@).tree(), new.at("spec"@).tree())
    &&& alike(
        uncontrolled(old.at("metadata"@).at("annotations"@).tree()),
        uncontrolled(new.at("metadata"@).at("annotations"@).tree()),
    )
}

/// Reviews ingresses; the controller goes by a name where it is known.
#[derive(Debug)]
pub struct Admission {
    pub controller_user: Option<String>,
}

impl Admission {
    /// Whether a review is one of what the controller does.
    pub open spec fn by_controller(&self, request: Json) -> bool {
        self.controller_user is Some && request.at("userInfo"@).at("username"@).string() == Some(
            self.controller_user->0@,
        )
    }

    /// How a review goes on once it is known whether the ingress can be read, and whether it is one of
    /// this controller, which may not be known yet.
    pub open spec fn judged(&self, request: Json, readable: bool, managed: Option<bool>) -> Step {
        if !readable {
            Step::Deny(Denial::Object)
        } else if managed is None {
            Step::Deny(Denial::Unavailable)
        } else if !managed->0 {
            Step::Allow
        } else if !progress_changed(request) {
            Step::Proceed
        } else if !self.by_controller(request) {
            Step::Deny(Denial::Controlled)
        } else if only_progress(request) {
            Step::Allow
        } else {
            Step::Proceed
        }
    }

    /// How a review goes on once it is known whether the ingress can be read, and whether it is one of
    /// this controller.
    pub fn judge(&self, request: &Json, readable: bool, managed: Option<bool>) -> (r: Step)
        ensures
            r == self.judged(*request, readable, managed),
    {
        if !readable {
            return Step::Deny(Denial::Object);
        }
        match managed {
            None => return Step::Deny(Denial::Unavailable),
            Some(false) => return Step::Allow,
            Some(true) => {},
        }
        let old = request.field("oldObject");
        let new = request.field("object");
        let before = old.field("metadata").field("annotations");
        let after = new.field("metadata").field("annotations");
        let changed = !before.field("rgnix.io/rollout-state").same(
            after.field("rgnix.io/rollout-state"),
        ) || !before.field("rgnix.io/rolled-back-revision").same(
            after.field("rgnix.io/rolled-back-revision"),
        );
        if !changed {
            return Step::Proceed;
        }
        let own = match &self.controller_user {
            None => false,
            Some(name) => is_text(request.field("userInfo"), "username", name.as_str()),
        };
        if !own {
            return Step::Deny(Denial::Controlled);
        }
        if old.field("spec").same(new.field("spec")) && same_uncontrolled(before, after) {
            return Step::Allow;
        }
        Step::Proceed
    }
}

/// What became of checking an ingress against all others.
#[derive(Clone, Copy, Debug, PartialEq, Eq, Structural)]
pub enum Check {
    /// Too many checks are under way.
    Busy,
    Crashed,
    Failed,
    Checked(bool),
}

/// How a review ends.
pub fn conclude(check: Check) -> (r: Step)
    ensures
        r == match check {
            Check::Busy => Step::Deny(Denial::Capacity),
            Check::Crashed => Step::Deny(Denial::TaskFailed),
            Check::Failed => Step::Deny(Denial::Invalid),
            Check::Checked(valid) => if valid {
                Step::Allow
            } else {
                Step::Deny(Denial::Invalid)
            },
        },
{
    match check {
        Check::Busy => Step::Deny(Denial::Capacity),
        Check::Crashed => Step::Deny(Denial::TaskFailed),
        Check::Failed => Step::Deny(Denial::Invalid),
        Check::Checked(valid) => if valid {
            Step::Allow
        } else {
            Step::Deny(Denial::Invalid)
        },
    }
}

// ---------------------------------------------------------------------------
// The certificate
// ---------------------------------------------------------------------------

/// What a certificate and its key are told apart by.
pub fn certificate_digest(cert: &Vec<u8>, key: &Vec<u8>) -> (out: Vec<u8>)
    ensures
        out@ == sha256(cert@ + key@),
        out@.len() == 32,
{
    let mut all: Vec<u8> = Vec::new();
    let mut i: usize = 0;
    assert(all@ =~= cert@.take(0));
    while i < cert.len()
        invariant
            i <= cert.len(),
            all@ == cert@.take(i as int),
        decreases cert.len() - i,
    {
        all.push(cert[i]);
        assert(all@ =~= cert@.take(i + 1));
        i += 1;
    }
    let mut j: usize = 0;
    assert(all@ =~= cert@ + key@.take(0));
    while j < key.len()
        invariant
            j <= key.len(),
            all@ == cert@ + key@.take(j as int),
        decreases key.len() - j,
    {
        all.push(key[j]);
        assert(all@ =~= cert@ + key@.take(j + 1));
        j += 1;
    }
    assert(all@ =~= cert@ + key@);
    digest(&all)
}

/// What became of reading the certificate: what it is told apart by, or why it cannot be used.
#[derive(Debug)]
pub enum Reading {
    Read(Vec<u8>),
    Failed(String),
}

/// What to do with what was read.
#[derive(Clone, Copy, Debug, PartialEq, Eq, Structural)]
pub enum Move {
    /// The certificate comes into force.
    Store,
    Keep,
    /// The certificate in force stays; the reason is told and counted.
    Report,
}

/// The certificate in force, as far as it is known, and the last reason for which one was not used.
#[derive(Debug)]
pub struct Reload {
    pub digest: Option<Vec<u8>>,
    pub last_error: String,
}

/// What a `Reload` holds.
#[verifier::ext_equal]
pub ghost struct InForce {
    pub digest: Option<Seq<u8>>,
    pub last_error: Seq<char>,
}

impl View for Reload {
    type V = InForce;

    open spec fn view(&self) -> InForce {
        InForce {
            digest: match self.digest {
                Some(v) => Some(v@),
                None => None,
            },
            last_error: self.last_error@,
        }
    }
}

/// What is in force after the certificate was read, and what to do.
pub open spec fn reloaded(f: InForce, digest: Result<Seq<u8>, Seq<char>>) -> (InForce, Move) {
    match digest {
        Ok(d) => (
            InForce { digest: Some(d), last_error: Seq::empty() },
            if f.digest == Some(d) {
                Move::Keep
            } else {
                Move::Store
            },
        ),
        Err(e) => (
            InForce { last_error: e, ..f },
            if f.last_error == e {
                Move::Keep
            } else {
                Move::Report
            },
        ),
    }
}

pub open spec fn reading(r: Reading) -> Result<Seq<u8>, Seq<char>> {
    match r {
        Reading::Read(d) => Ok(d@),
        Reading::Failed(e) => Err(e@),
    }
}

fn same_bytes(a: &Vec<u8>, b: &Vec<u8>) -> (r: bool)
    ensures
        r == (a@ == b@),
{
    if a.len() != b.len() {
        return false;
    }
    let mut i: usize = 0;
    while i < a.len()
        invariant
            i <= a.len() == b.len(),
            forall|j: int| 0 <= j < i ==> a@[j] == b@[j],
        decreases a.len() - i,
    {
        if a[i] != b[i] {
            return false;
        }
        i += 1;
    }
    assert(a@ =~= b@);
    true
}

impl Reload {
    pub fn new() -> (r: Reload)
        ensures
            r@ == (InForce { digest: None, last_error: Seq::empty() }),
    {
        let s = String::new();
        assert(s@ =~= Seq::<char>::empty());
        Reload { digest: None, last_error: s }
    }

    /// Goes by what was read.
    pub fn step(&mut self, r: Reading) -> (m: Move)
        ensures
            (final(self)@, m) == reloaded(old(self)@, reading(r)),
    {
        match r {
            Reading::Read(d) => {
                let known = match &self.digest {
                    Some(v) => same_bytes(v, &d),
                    None => false,
                };
                self.digest = Some(d);
                self.last_error = String::new();
                assert(self.last_error@ =~= Seq::<char>::empty());
                if known {
                    Move::Keep
                } else {
                    Move::Store
                }
            },
            Reading::Failed(e) => {
                let known = text::same(self.last_error.as_str(), e.as_str());
                self.last_error = e;
                if known {
                    Move::Keep
                } else {
                    Move::Report
                }
            },
        }
    }
}

// ---------------------------------------------------------------------------
// Laws
// ---------------------------------------------------------------------------

/// The progress of rollouts is the controller's: nobody else changes it.
pub proof fn law_progress_is_the_controllers(a: Admission, request: Json)
    requires
        progress_changed(request),
        !a.by_controller(request),
    ensures
        a.judged(request, true, Some(true)) == Step::Deny(Denial::Controlled),
{
}

/// The controller can always note progress, even where an ingress has become invalid since.
pub proof fn law_progress_can_be_noted(a: Admission, request: Json)
    requires
        progress_changed(request),
        only_progress(request),
        a.by_controller(request),
    ensures
        a.judged(request, true, Some(true)) == Step::Allow,
{
}

/// A certificate that cannot be used leaves the one in force as it is.
pub proof fn law_valid_certificates_stay(f: InForce, e: Seq<char>)
    ensures
        reloaded(f, Err(e)).0.digest == f.digest,
        reloaded(f, Err(e)).1 != Move::Store,
{
}

/// Only Ingresses are judged; what is deleted is let go, and what is neither made nor changed is refused.
pub proof fn law_requests_are_for_ingresses(r: Json)
    ensures
        r.at("kind"@).at("kind"@).string() != Some("Ingress"@) ==> begun(r) == Step::Deny(Denial::WrongKind),
        r.at("kind"@).at("group"@).string() != Some("networking.k8s.io"@) ==> begun(r) == Step::Deny(
            Denial::WrongKind,
        ),
        r.at("kind"@).at("kind"@).string() == Some("Ingress"@) && r.at("kind"@).at("group"@).string() == Some(
            "networking.k8s.io"@,
        ) ==> {
            &&& r.at("operation"@).string() == Some("DELETE"@) ==> begun(r) == Step::Allow
            &&& r.at("operation"@).string() == Some("CREATE"@) ==> begun(r) == Step::Proceed
            &&& r.at("operation"@).string() == Some("UPDATE"@) ==> begun(r) == Step::Proceed
            &&& r.at("operation"@).string() == Some("CONNECT"@) ==> begun(r) == Step::Deny(Denial::Operation)
            &&& r.at("operation"@).string() is None ==> begun(r) == Step::Deny(Denial::Operation)
        },
{
    reveal_strlit("DELETE");
    reveal_strlit("CREATE");
    assert("DELETE"@[0] != "CREATE"@[0]);
    reveal_strlit("UPDATE");
    assert("DELETE"@[0] != "UPDATE"@[0]);
    reveal_strlit("CONNECT");
    assert("DELETE"@.len() != "CONNECT"@.len());
    reveal_strlit("CONNECT");
    reveal_strlit("CREATE");
    assert("CONNECT"@.len() != "CREATE"@.len());
    reveal_strlit("UPDATE");
    assert("CONNECT"@.len() != "UPDATE"@.len());
}

/// What is not managed here is let in, what cannot be read or judged now is not.
pub proof fn law_unmanaged_ingresses_are_let_in(a: Admission, r: Json, managed: Option<bool>)
    ensures
        a.judged(r, false, managed) == Step::Deny(Denial::Object),
        a.judged(r, true, None) == Step::Deny(Denial::Unavailable),
        a.judged(r, true, Some(false)) == Step::Allow,
        !progress_changed(r) ==> a.judged(r, true, Some(true)) == Step::Proceed,
{
}

/// A namespace is the object's own, or that of the request.
pub proof fn law_namespaces_are_the_objects(own: Seq<char>, r: Json)
    ensures
        namespace_of(Some(own), r) == Some(own),
        namespace_of(None, r) == r.at("namespace"@).string(),
{
}

/// A certificate comes into force once, and an error is told once.
pub proof fn law_certificates_come_into_force_once(f: InForce, d: Seq<u8>, e: Seq<char>)
    ensures
        f.digest != Some(d) ==> reloaded(f, Ok(d)).1 == Move::Store,
        f.digest == Some(d) ==> reloaded(f, Ok(d)).1 == Move::Keep,
        reloaded(f, Ok(d)).0 == (InForce { digest: Some(d), last_error: Seq::empty() }),
        f.last_error != e ==> reloaded(f, Err(e)).1 == Move::Report,
        f.last_error == e ==> reloaded(f, Err(e)).1 == Move::Keep,
        reloaded(f, Err(e)).0.last_error == e,
{
}

/// A refusal has its status.
pub proof fn law_refusals_have_a_status()
    ensures
        Denial::UnknownEndpoint.spec_status() == 404,
        Denial::NoUid.spec_status() == 400,
        Denial::WrongKind.spec_status() == 400,
        Denial::Unavailable.spec_status() == 503,
        Denial::Controlled.spec_status() == 403,
        Denial::Capacity.spec_status() == 429,
        Denial::TaskFailed.spec_status() == 500,
        Denial::Invalid.spec_status() == 422,
{
}

/// The progress of a rollout is left out where annotations are compared, and nothing else is.
pub proof fn law_progress_is_left_out(v: Seq<(Seq<char>, Tree)>, name: Seq<char>, t: Tree)
    ensures
        others(v.push(("rgnix.io/rollout-state"@, t))) == others(v),
        others(v.push(("rgnix.io/rolled-back-revision"@, t))) == others(v),
        name != "rgnix.io/rollout-state"@ && name != "rgnix.io/rolled-back-revision"@ ==> others(
            v.push((name, t)),
        ) == others(v).push((name, t)),
{
    assert(v.push(("rgnix.io/rollout-state"@, t)).drop_last() =~= v);
    assert(v.push(("rgnix.io/rolled-back-revision"@, t)).drop_last() =~= v);
    assert(v.push((name, t)).drop_last() =~= v);
}

/// A review changes what only the controller sets where the state of a rollout or the revision that was
/// rolled back is another than before.
pub proof fn law_progress_is_the_state_of_a_rollout(request: Json)
    ensures
        ({
            let old = request.at("oldObject"@).at("metadata"@).at("annotations"@);
            let new = request.at("object"@).at("metadata"@).at("annotations"@);
            &&& !alike(old.at("rgnix.io/rollout-state"@).tree(), new.at("rgnix.io/rollout-state"@).tree())
                ==> progress_changed(request)
            &&& !alike(
                old.at("rgnix.io/rolled-back-revision"@).tree(),
                new.at("rgnix.io/rolled-back-revision"@).tree(),
            ) ==> progress_changed(request)
            &&& progress_changed(request) ==> !alike(
                old.at("rgnix.io/rollout-state"@).tree(),
                new.at("rgnix.io/rollout-state"@).tree(),
            ) || !alike(
                old.at("rgnix.io/rolled-back-revision"@).tree(),
                new.at("rgnix.io/rolled-back-revision"@).tree(),
            )
        }),
        !alike(request.at("oldObject"@).at("spec"@).tree(), request.at("object"@).at("spec"@).tree())
            ==> !only_progress(request),
{
}

} // verus!
