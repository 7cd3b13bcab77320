//! Who of several controllers reports, and what is reported of Ingresses.
use crate::ingress::backends::is_named;
use crate::ingress::routes::opt_before;
use crate::ingress::spec::same_opt;
use crate::json::{alike, lemma_at, lemma_tree, member_trees, Json, Tree};
use crate::model::copy_opt;
use crate::text;
use vstd::prelude::*;

verus! {

/// How long who reports does so without saying it again, in seconds.
pub const LEASE_SECONDS: i32 = 30;

/// The longest message of an event, in characters.
pub const MAX_MESSAGE: usize = 1000;

// ---------------------------------------------------------------------------
// Who reports
// ---------------------------------------------------------------------------

/// Who reports, as it is on record: since when, in microseconds, and for how many seconds.
#[derive(Debug)]
pub struct Hold {
    pub holder: Option<String>,
    pub renewed: Option<i64>,
    pub seconds: Option<i32>,
}

/// Whether somebody reports at a time.
pub open spec fn held(h: Hold, now: i64) -> bool {
    h.renewed is Some && h.renewed->0 + (match h.seconds {
        Some(n) => n as int,
        None => LEASE_SECONDS as int,
    }) * 1000000 > now
}

/// What to do to report.
#[derive(Clone, Copy, Debug, PartialEq, Eq, Structural)]
pub enum Claim {
    /// Somebody else reports.
    Contended,
    /// The record is written again.
    Replace,
    /// There is no record yet.
    Create,
}

/// What to do to report: nothing where somebody else does.
pub open spec fn claim_of(record: Option<Option<Hold>>, identity: Seq<char>, now: i64) -> Claim {
    match record {
        None => Claim::Create,
        Some(Some(h)) => if held(h, now) && text::opt(h.holder) != Some(identity) {
            Claim::Contended
        } else {
            Claim::Replace
        },
        Some(None) => Claim::Replace,
    }
}

fn is_held(h: &Hold, now: i64) -> (r: bool)
    ensures
        r == held(*h, now),
{
    match h.renewed {
        None => false,
        Some(t) => {
            let n: i32 = match h.seconds {
                Some(n) => n,
                None => LEASE_SECONDS,
            };
            t as i128 + n as i128 * 1000000 > now as i128
        },
    }
}

/// What to do to report; a record may be empty.
pub fn claim(record: &Option<Option<Hold>>, identity: &str, now: i64) -> (r: Claim)
    ensures
        r == claim_of(*record, identity@, now),
{
    match record {
        None => Claim::Create,
        Some(None) => Claim::Replace,
        Some(Some(h)) => if is_held(h, now) && !is_named(&h.holder, identity) {
            Claim::Contended
        } else {
            Claim::Replace
        },
    }
}

/// The name of the record of a class.
pub fn lease_name(class: &str) -> (out: String)
    ensures
        out@ == class@ + "-leader"@,
{
    text::concat(class, "-leader")
}

/// What became of writing something: it is there, or the service answered with a status, or there was no
/// answer.
#[derive(Clone, Copy, Debug, PartialEq, Eq, Structural)]
pub enum Written {
    Done,
    Refused(u16),
    Failed,
}

/// What became of a claim.
#[derive(Clone, Copy, Debug, PartialEq, Eq, Structural)]
pub enum Standing {
    /// This controller reports, until a time in seconds.
    Acquired(i64),
    Contended,
    Error,
    Timeout,
}

/// What became of a claim whose record was written: somebody may have been first.
pub open spec fn settled(w: Written, now: i64) -> Standing {
    match w {
        Written::Done => Standing::Acquired((now + LEASE_SECONDS) as i64),
        Written::Refused(409) => Standing::Contended,
        _ => Standing::Error,
    }
}

/// What became of a claim whose record was written; `now` is in seconds.
pub fn settle(w: Written, now: i64) -> (r: Standing)
    requires
        now + LEASE_SECONDS <= i64::MAX,
    ensures
        r == settled(w, now),
{
    match w {
        Written::Done => Standing::Acquired(now + LEASE_SECONDS as i64),
        Written::Refused(409) => Standing::Contended,
        _ => Standing::Error,
    }
}

impl Standing {
    pub open spec fn spec_label(self) -> Seq<char> {
        match self {
            Standing::Acquired(_) => "acquired"@,
            Standing::Contended => "contended"@,
            Standing::Error => "error"@,
            Standing::Timeout => "timeout"@,
        }
    }

    /// What is counted.
    pub fn label(&self) -> (r: &'static str)
        ensures
            r@ == self.spec_label(),
    {
        match self {
            Standing::Acquired(_) => "acquired",
            Standing::Contended => "contended",
            Standing::Error => "error",
            Standing::Timeout => "timeout",
        }
    }

    /// Until when this controller reports, where that changes.
    pub fn leader_until(&self) -> (r: Option<i64>)
        ensures
            r == match *self {
                Standing::Acquired(t) => Some(t),
                Standing::Contended => Some(0i64),
                _ => None,
            },
    {
        match self {
            Standing::Acquired(t) => Some(*t),
            Standing::Contended => Some(0),
            _ => None,
        }
    }
}

// ---------------------------------------------------------------------------
// Addresses
// ---------------------------------------------------------------------------

/// An Ingress as it is stored now.
#[derive(Debug)]
pub struct Stored {
    pub uid: Option<String>,
    pub class_name: Option<String>,
    /// Where it can be reached, as it is on record.
    pub addresses: Json,
}

/// Whether an Ingress is told where it can be reached: it is still the one that was seen, and does not
/// say so yet.
pub open spec fn told(
    current: Option<Stored>,
    uid: Option<Seq<char>>,
    class_name: Option<Seq<char>>,
    desired: Json,
) -> bool {
    match current {
        None => false,
        Some(c) => text::opt(c.uid) == uid && text::opt(c.class_name) == class_name
            && !alike(c.addresses.tree(), desired.tree()),
    }
}

/// Whether an Ingress is told where it can be reached.
pub fn needs_addresses(
    current: &Option<Stored>,
    uid: &Option<String>,
    class_name: &Option<String>,
    desired: &Json,
) -> (r: bool)
    ensures
        r == told(*current, text::opt(*uid), text::opt(*class_name), *desired),
{
    match current {
        None => false,
        Some(c) => same_opt(&c.uid, uid) && same_opt(&c.class_name, class_name)
            && !c.addresses.same(desired),
    }
}

/// What an Ingress is told: where it can be reached, or null where that is withdrawn. The version is that of
/// the Ingress as it is stored, so that no later one is changed.
pub open spec fn address_change(version: Option<Seq<char>>, desired: Tree) -> Tree {
    let addresses = Tree::Object(seq![("ingress"@, desired.at("ingress"@))]);
    Tree::Object(
        seq![
            (
                "metadata"@,
                Tree::Object(
                    seq![
                        (
                            "resourceVersion"@,
                            match version {
                                Some(v) => Tree::Text(v),
                                None => Tree::Null,
                            },
                        ),
                    ],
                ),
            ),
            ("status"@, Tree::Object(seq![("loadBalancer"@, addresses)])),
        ],
    )
}

fn single(name: &str, j: Json) -> (r: Json)
    ensures
        r.tree() == Tree::Object(seq![(name@, j.tree())]),
{
    let ghost t = j.tree();
    let mut v: Vec<(String, Json)> = Vec::new();
    v.push((name.to_owned(), j));
    assert(member_trees(v@) =~= seq![(name@, t)]);
    let r = Json::Object(v);
    proof {
        lemma_tree(r);
    }
    r
}

/// What an Ingress is told of where it can be reached.
pub fn address_patch(version: &Option<String>, desired: &Json) -> (r: Json)
    ensures
        r.tree() == address_change(text::opt(*version), desired.tree()),
{
    let known = match version {
        Some(v) => Json::Text(v.clone()),
        None => Json::Null,
    };
    let addresses = desired.field("ingress").copy();
    let mut v: Vec<(String, Json)> = Vec::new();
    v.push(("metadata".to_owned(), single("resourceVersion", known)));
    v.push(("status".to_owned(), single("loadBalancer", single("ingress", addresses))));
    proof {
        lemma_at(*desired, "ingress"@);
        assert(member_trees(v@) =~= address_change(text::opt(*version), desired.tree())->Object_0);
    }
    let r = Json::Object(v);
    proof {
        lemma_tree(r);
    }
    r
}

/// Whether an Ingress that was told something is done with: it may have changed or gone meanwhile.
pub fn addresses_written(w: Written) -> (r: bool)
    ensures
        r == (w == Written::Done || w == Written::Refused(409) || w == Written::Refused(404)),
{
    match w {
        Written::Done => true,
        Written::Refused(s) => s == 409 || s == 404,
        Written::Failed => false,
    }
}

// ---------------------------------------------------------------------------
// Events
// ---------------------------------------------------------------------------

/// What is wrong with an Ingress.
#[derive(Debug)]
pub struct EventKey {
    pub namespace: String,
    pub name: String,
    pub uid: Option<String>,
    pub reason: String,
    pub message: String,
}

/// What an `EventKey` holds.
#[verifier::ext_equal]
pub ghost struct Event {
    pub namespace: Seq<char>,
    pub name: Seq<char>,
    pub uid: Option<Seq<char>>,
    pub reason: Seq<char>,
    pub message: Seq<char>,
}

impl View for EventKey {
    type V = Event;

    open spec fn view(&self) -> Event {
        Event {
            namespace: self.namespace@,
            name: self.name@,
            uid: text::opt(self.uid),
            reason: self.reason@,
            message: self.message@,
        }
    }
}

pub open spec fn events(v: Seq<EventKey>) -> Seq<Event> {
    Seq::new(v.len(), |i: int| v[i]@)
}

/// Which of two comes first.
pub open spec fn event_before(a: Event, b: Event) -> bool {
    if a.namespace != b.namespace {
        text::before(a.namespace, b.namespace)
    } else if a.name != b.name {
        text::before(a.name, b.name)
    } else if a.uid != b.uid {
        opt_before(a.uid, b.uid)
    } else if a.reason != b.reason {
        text::before(a.reason, b.reason)
    } else {
        text::before(a.message, b.message)
    }
}

impl EventKey {
    /// The same again.
    pub fn copy(&self) -> (r: EventKey)
        ensures
            r@ == self@,
    {
        EventKey {
            namespace: self.namespace.clone(),
            name: self.name.clone(),
            uid: copy_opt(&self.uid),
            reason: self.reason.clone(),
            message: self.message.clone(),
        }
    }

    pub fn same(&self, other: &EventKey) -> (r: bool)
        ensures
            r == (self@ == other@),
    {
        text::same(self.namespace.as_str(), other.namespace.as_str()) && text::same(
            self.name.as_str(),
            other.name.as_str(),
        ) && same_opt(&self.uid, &other.uid) && text::same(
            self.reason.as_str(),
            other.reason.as_str(),
        ) && text::same(self.message.as_str(), other.message.as_str())
    }

    fn is_before(&self, other: &EventKey) -> (r: bool)
        ensures
            r == event_before(self@, other@),
    {
        if !text::same(self.namespace.as_str(), other.namespace.as_str()) {
            return text::is_before(self.namespace.as_str(), other.namespace.as_str());
        }
        if !text::same(self.name.as_str(), other.name.as_str()) {
            return text::is_before(self.name.as_str(), other.name.as_str());
        }
        match (&self.uid, &other.uid) {
            (None, Some(_)) => return true,
            (Some(_), None) => return false,
            (Some(x), Some(y)) => if !text::same(x.as_str(), y.as_str()) {
                return text::is_before(x.as_str(), y.as_str());
            },
            (None, None) => {},
        }
        if !text::same(self.reason.as_str(), other.reason.as_str()) {
            return text::is_before(self.reason.as_str(), other.reason.as_str());
        }
        text::is_before(self.message.as_str(), other.message.as_str())
    }
}

/// An event put in its place, once.
pub open spec fn placed(v: Seq<Event>, e: Event) -> Seq<Event>
    decreases v.len(),
{
    if v.len() == 0 {
        seq![e]
    } else if v[0] == e {
        v
    } else if event_before(e, v[0]) {
        seq![e] + v
    } else {
        seq![v[0]] + placed(v.drop_first(), e)
    }
}

/// Events in their order, each once.
pub open spec fn ordered(v: Seq<Event>) -> Seq<Event>
    decreases v.len(),
{
    if v.len() == 0 {
        Seq::empty()
    } else {
        placed(ordered(v.drop_last()), v.last())
    }
}

fn place(v: &mut Vec<EventKey>, e: EventKey)
    ensures
        events(final(v)@) == placed(events(old(v)@), e@),
{
    let ghost all = events(v@);
    let mut i: usize = 0;
    proof {
        assert(all.skip(0) =~= all);
        assert(all.take(0) + placed(all.skip(0), e@) =~= placed(all, e@));
    }
    while i < v.len() && !v[i].same(&e) && !e.is_before(&v[i])
        invariant
            i <= v.len(),
            all == events(v@),
            all.take(i as int) + placed(all.skip(i as int), e@) == placed(all, e@),
        decreases v.len() - i,
    {
        proof {
            let rest = all.skip(i as int);
            assert(rest.drop_first() =~= all.skip(i + 1));
            assert(rest[0] == v@[i as int]@);
            assert(all.take(i + 1) + placed(all.skip(i + 1), e@) =~= all.take(i as int) + placed(
                rest,
                e@,
            ));
        }
        i += 1;
    }
    if i < v.len() && v[i].same(&e) {
        proof {
            assert(all.skip(i as int)[0] == v@[i as int]@);
            assert(all.take(i as int) + all.skip(i as int) =~= all);
        }
        return;
    }
    let ghost x = e@;
    proof {
        if i < v.len() {
            assert(all.skip(i as int)[0] == v@[i as int]@);
        }
    }
    v.insert(i, e);
    proof {
        assert(events(v@) =~= all.insert(i as int, x));
        if i < all.len() {
            assert(all.take(i as int) + (seq![x] + all.skip(i as int)) =~= all.insert(i as int, x));
        } else {
            assert(all.skip(i as int) =~= Seq::empty());
            assert(all.take(i as int) + seq![x] =~= all.insert(i as int, x));
        }
    }
}

/// Those that are, or are not, among others.
pub open spec fn among(v: Seq<Event>, w: Seq<Event>, wanted: bool) -> Seq<Event>
    decreases v.len(),
{
    if v.len() == 0 {
        Seq::empty()
    } else if w.contains(v.last()) == wanted {
        among(v.drop_last(), w, wanted).push(v.last())
    } else {
        among(v.drop_last(), w, wanted)
    }
}

fn is_among(v: &Vec<EventKey>, e: &EventKey) -> (r: bool)
    ensures
        r == events(v@).contains(e@),
{
    let ghost all = events(v@);
    let mut i: usize = 0;
    while i < v.len()
        invariant
            i <= v.len(),
            all == events(v@),
            forall|j: int| 0 <= j < i ==> all[j] != e@,
        decreases v.len() - i,
    {
        assert(all[i as int] == v@[i as int]@);
        if v[i].same(e) {
            assert(all.contains(e@));
            return true;
        }
        i += 1;
    }
    assert(!all.contains(e@));
    false
}

fn keep_among(v: &Vec<EventKey>, w: &Vec<EventKey>, wanted: bool) -> (out: Vec<EventKey>)
    ensures
        events(out@) == among(events(v@), events(w@), wanted),
{
    let ghost all = events(v@);
    let mut out: Vec<EventKey> = Vec::new();
    let mut i: usize = 0;
    assert(events(out@) =~= among(all.take(0), events(w@), wanted));
    while i < v.len()
        invariant
            i <= v.len(),
            all == events(v@),
            events(out@) == among(all.take(i as int), events(w@), wanted),
        decreases v.len() - i,
    {
        let ghost before = events(out@);
        proof {
            assert(all.take(i + 1).drop_last() =~= all.take(i as int));
            assert(all.take(i + 1).last() == v@[i as int]@);
        }
        if is_among(w, &v[i]) == wanted {
            out.push(v[i].copy());
            assert(events(out@) =~= before.push(v@[i as int]@));
        }
        i += 1;
    }
    assert(all.take(i as int) =~= all);
    out
}

/// What was told and is still so.
pub open spec fn still_told(found: Seq<Event>, published: Seq<Event>) -> Seq<Event> {
    among(published, ordered(found), true)
}

/// What has to be told.
pub open spec fn untold(found: Seq<Event>, published: Seq<Event>) -> Seq<Event> {
    among(ordered(found), still_told(found, published), false)
}

/// What has to be told; what is no longer so is forgotten.
pub fn plan_events(found: &Vec<EventKey>, published: &mut Vec<EventKey>) -> (out: Vec<EventKey>)
    ensures
        events(final(published)@) == still_told(events(found@), events(old(published)@)),
        events(out@) == untold(events(found@), events(old(published)@)),
{
    let ghost all = events(found@);
    let mut active: Vec<EventKey> = Vec::new();
    let mut i: usize = 0;
    assert(events(active@) =~= ordered(all.take(0)));
    while i < found.len()
        invariant
            i <= found.len(),
            all == events(found@),
            events(active@) == ordered(all.take(i as int)),
        decreases found.len() - i,
    {
        proof {
            assert(all.take(i + 1).drop_last() =~= all.take(i as int));
            assert(all.take(i + 1).last() == found@[i as int]@);
        }
        place(&mut active, found[i].copy());
        i += 1;
    }
    assert(all.take(i as int) =~= all);
    let kept = keep_among(published, &active, true);
    *published = kept;
    keep_among(&active, published, false)
}

/// Notes that something was told.
pub fn acknowledge(published: &mut Vec<EventKey>, e: EventKey)
    ensures
        events(final(published)@) == events(old(published)@).push(e@),
{
    let ghost before = events(published@);
    published.push(e);
    assert(events(published@) =~= before.push(e@));
}

/// The message of an event: its beginning.
pub fn event_message(s: &str) -> (out: String)
    ensures
        out@ == if s@.len() > MAX_MESSAGE {
            s@.take(MAX_MESSAGE as int)
        } else {
            s@
        },
{
    let v = text::chars(s);
    if v.len() > MAX_MESSAGE {
        let out = text::slice(&v, 0, MAX_MESSAGE);
        assert(out@ =~= s@.take(MAX_MESSAGE as int));
        out
    } else {
        s.to_owned()
    }
}

// ---------------------------------------------------------------------------
// Laws
// ---------------------------------------------------------------------------

/// Two controllers do not report at once: while one does, another may not.
pub proof fn law_one_reports(h: Hold, holder: Seq<char>, other: Seq<char>, now: i64)
    requires
        text::opt(h.holder) == Some(holder),
        held(h, now),
        other != holder,
    ensures
        claim_of(Some(Some(h)), other, now) == Claim::Contended,
        claim_of(Some(Some(h)), holder, now) == Claim::Replace,
{
}

/// Who reported and does so no more can be followed: the record runs out.
pub proof fn law_records_run_out(h: Hold, identity: Seq<char>, now: i64)
    requires
        h.renewed is Some,
        h.seconds == Some(LEASE_SECONDS),
        now >= h.renewed->0 + 30000000,
    ensures
        claim_of(Some(Some(h)), identity, now) == Claim::Replace,
{
}

proof fn lemma_among(v: Seq<Event>, w: Seq<Event>, wanted: bool, e: Event)
    ensures
        among(v, w, wanted).contains(e) == (v.contains(e) && w.contains(e) == wanted),
    decreases v.len(),
{
    if v.len() == 0 {
        assert(among(v, w, wanted) =~= Seq::empty());
    } else {
        let u = v.drop_last();
        lemma_among(u, w, wanted, e);
        let a = among(u, w, wanted);
        let b = among(v, w, wanted);
        if u.contains(e) {
            let i = choose|i: int| 0 <= i < u.len() && u[i] == e;
            assert(v[i] == e);
        }
        if v.last() == e {
            assert(v[v.len() - 1] == e);
        }
        if v.contains(e) && v.last() != e {
            let i = choose|i: int| 0 <= i < v.len() && v[i] == e;
            assert(u[i] == e);
        }
        if w.contains(v.last()) == wanted {
            if a.contains(e) {
                let i = choose|i: int| 0 <= i < a.len() && a[i] == e;
                assert(b[i] == e);
            }
            if v.last() == e {
                assert(b[b.len() - 1] == e);
            }
            if b.contains(e) && v.last() != e {
                let i = choose|i: int| 0 <= i < b.len() && b[i] == e;
                assert(a[i] == e);
            }
        }
    }
}

proof fn lemma_placed(v: Seq<Event>, x: Event, e: Event)
    ensures
        placed(v, x).contains(e) == (v.contains(e) || e == x),
    decreases v.len(),
{
    let p = placed(v, x);
    if v.len() == 0 {
        assert(p[0] == x);
    } else if v[0] == x {
    } else if event_before(x, v[0]) {
        assert(p[0] == x);
        if v.contains(e) {
            let i = choose|i: int| 0 <= i < v.len() && v[i] == e;
            assert(p[i + 1] == e);
        }
        if p.contains(e) && e != x {
            let i = choose|i: int| 0 <= i < p.len() && p[i] == e;
            assert(v[i - 1] == e);
        }
    } else {
        let u = v.drop_first();
        lemma_placed(u, x, e);
        let q = placed(u, x);
        if v.contains(e) {
            let i = choose|i: int| 0 <= i < v.len() && v[i] == e;
            if i > 0 {
                assert(u[i - 1] == e);
            } else {
                assert(p[0] == e);
            }
        }
        if q.contains(e) {
            let i = choose|i: int| 0 <= i < q.len() && q[i] == e;
            assert(p[i + 1] == e);
        }
        if u.contains(e) {
            let i = choose|i: int| 0 <= i < u.len() && u[i] == e;
            assert(v[i + 1] == e);
        }
        if p.contains(e) {
            let i = choose|i: int| 0 <= i < p.len() && p[i] == e;
            if i > 0 {
                assert(q[i - 1] == e);
            } else {
                assert(v[0] == e);
            }
        }
    }
}

proof fn lemma_ordered(v: Seq<Event>, e: Event)
    ensures
        ordered(v).contains(e) == v.contains(e),
    decreases v.len(),
{
    if v.len() > 0 {
        let u = v.drop_last();
        lemma_ordered(u, e);
        lemma_placed(ordered(u), v.last(), e);
        if u.contains(e) {
            let i = choose|i: int| 0 <= i < u.len() && u[i] == e;
            assert(v[i] == e);
        }
        if v.contains(e) {
            let i = choose|i: int| 0 <= i < v.len() && v[i] == e;
            if i < u.len() {
                assert(u[i] == e);
            }
        }
        if e == v.last() {
            assert(v[v.len() - 1] == e);
        }
    } else {
        assert(ordered(v) =~= Seq::empty());
    }
}

/// Everything that is wrong is told, and nothing is told twice while it stays so.
pub proof fn law_events_are_told_once(found: Seq<Event>, published: Seq<Event>, e: Event)
    ensures
        untold(found, published).contains(e) == (found.contains(e) && !published.contains(e)),
{
    lemma_ordered(found, e);
    lemma_among(published, ordered(found), true, e);
    lemma_among(ordered(found), still_told(found, published), false, e);
}

/// A lease is held for the seconds that it says, thirty where it says none.
pub proof fn law_leases_last(h: Hold, t: i64, n: i32, now: i64)
    requires
        h.renewed == Some(t),
    ensures
        h.seconds == Some(n) ==> (held(h, now) <==> now < t + n * 1000000),
        h.seconds is None ==> (held(h, now) <==> now < t + 30 * 1000000),
        !held(Hold { renewed: None, ..h }, now),
{
}

/// Without a record one is made; one that is empty is written again.
pub proof fn law_records_are_made(identity: Seq<char>, now: i64, h: Hold)
    ensures
        claim_of(None, identity, now) == Claim::Create,
        claim_of(Some(None), identity, now) == Claim::Replace,
        !held(h, now) ==> claim_of(Some(Some(h)), identity, now) == Claim::Replace,
{
}

/// Who wrote the record reports for thirty seconds; who was refused for a conflict does not.
pub proof fn law_writers_report(now: i64)
    requires
        now + 30 <= i64::MAX,
    ensures
        settled(Written::Done, now) == Standing::Acquired((now + 30) as i64),
        settled(Written::Refused(409), now) == Standing::Contended,
        settled(Written::Refused(403), now) == Standing::Error,
        settled(Written::Failed, now) == Standing::Error,
{
}

/// Addresses are told of an Ingress that is still the same, where they differ from those on record.
pub proof fn law_addresses_are_told_where_they_differ(
    c: Stored,
    uid: Option<Seq<char>>,
    class_name: Option<Seq<char>>,
    desired: Json,
)
    ensures
        !told(None, uid, class_name, desired),
        text::opt(c.uid) != uid ==> !told(Some(c), uid, class_name, desired),
        text::opt(c.class_name) != class_name ==> !told(Some(c), uid, class_name, desired),
        alike(c.addresses.tree(), desired.tree()) ==> !told(Some(c), uid, class_name, desired),
        text::opt(c.uid) == uid && text::opt(c.class_name) == class_name && !alike(
            c.addresses.tree(),
            desired.tree(),
        ) ==> told(Some(c), uid, class_name, desired),
{
}

/// A change of the addresses is for the version that was read, and of nothing else.
pub proof fn law_changes_are_of_the_addresses(version: Seq<char>, desired: Tree)
    ensures
        address_change(Some(version), desired) == Tree::Object(
            seq![
                ("metadata"@, Tree::Object(seq![("resourceVersion"@, Tree::Text(version))])),
                (
                    "status"@,
                    Tree::Object(
                        seq![("loadBalancer"@, Tree::Object(seq![("ingress"@, desired.at("ingress"@))]))],
                    ),
                ),
            ],
        ),
{
    let m = Tree::Object(seq![("resourceVersion"@, Tree::Text(version))]);
    let c = address_change(Some(version), desired);
    assert(c is Object);
    assert(c->Object_0[0].1 == m);
    assert(c->Object_0 =~= seq![("metadata"@, m), c->Object_0[1]]);
}

/// Events that are not found any more are forgotten, so that they are told again when they come back.
pub proof fn law_past_events_are_forgotten(found: Seq<Event>, published: Seq<Event>, e: Event)
    requires
        !found.contains(e),
    ensures
        !still_told(found, published).contains(e),
{
    if still_told(found, published).contains(e) {
        lemma_among(published, ordered(found), true, e);
        lemma_ordered(found, e);
    }
}

} // verus!
