//! What the replicas of a controller say about themselves, and whether they agree.
use crate::ingress::checkpoint::{short_digest, short_digest_text};
use crate::json::{lemma_tree, member_trees, trees, Json, Tree};
use crate::text;
use crate::uri::{Parts, Url};
use vstd::prelude::*;

verus! {

/// How long what a replica says counts, in seconds.
pub const FRESH_SECONDS: i64 = 20;

/// The longest report, in bytes.
pub const MAX_REPORT: usize = 196608;

/// The longest reason that a report gives, in characters.
pub const MAX_REASON: usize = 512;

/// The most replicas, and the most reports of present and past ones.
pub const MAX_PODS: usize = 256;

pub const MAX_LEASES: usize = 1024;

// ---------------------------------------------------------------------------
// What a replica says about itself
// ---------------------------------------------------------------------------

/// What a replica wants and what it has seen; times are in seconds since 1970.
#[derive(Debug)]
pub struct Local {
    pub desired_sha256: String,
    pub observed_sha256: String,
    pub attempt_at: i64,
    pub completed_at: i64,
    pub rejection: Option<String>,
}

/// What a `Local` holds.
#[verifier::ext_equal]
pub ghost struct Stand {
    pub desired: Seq<char>,
    pub observed: Seq<char>,
    pub attempt_at: i64,
    pub completed_at: i64,
    pub rejection: Option<Seq<char>>,
}

impl View for Local {
    type V = Stand;

    open spec fn view(&self) -> Stand {
        Stand {
            desired: self.desired_sha256@,
            observed: self.observed_sha256@,
            attempt_at: self.attempt_at,
            completed_at: self.completed_at,
            rejection: text::opt(self.rejection),
        }
    }
}

/// The beginning of a reason.
pub open spec fn short_reason(s: Seq<char>) -> Seq<char> {
    if s.len() > MAX_REASON {
        s.take(MAX_REASON as int)
    } else {
        s
    }
}

fn shorten(s: &str) -> (out: String)
    ensures
        out@ == short_reason(s@),
{
    let v = text::chars(s);
    if v.len() > MAX_REASON {
        let out = text::slice(&v, 0, MAX_REASON);
        assert(out@ =~= s@.take(MAX_REASON as int));
        out
    } else {
        s.to_owned()
    }
}

impl Local {
    /// Notes what is wanted; a new wish begins an attempt.
    pub fn begin(&mut self, enabled: bool, digest: String, now: i64)
        ensures
            final(self)@ == if !enabled {
                old(self)@
            } else if old(self)@.desired == digest@ {
                old(self)@
            } else {
                Stand { desired: digest@, attempt_at: now, ..old(self)@ }
            },
    {
        if !enabled {
            return;
        }
        if !text::same(self.desired_sha256.as_str(), digest.as_str()) {
            self.attempt_at = now;
        }
        self.desired_sha256 = digest;
    }

    /// Notes that what is wanted was seen, and why it was rejected where it was.
    pub fn complete(&mut self, enabled: bool, rejection: Option<String>, now: i64)
        ensures
            final(self)@ == if !enabled {
                old(self)@
            } else {
                Stand {
                    observed: old(self)@.desired,
                    completed_at: now,
                    rejection: match rejection {
                        Some(s) => Some(short_reason(s@)),
                        None => None,
                    },
                    ..old(self)@
                }
            },
    {
        if !enabled {
            return;
        }
        self.observed_sha256 = self.desired_sha256.clone();
        self.completed_at = now;
        self.rejection = match rejection {
            Some(s) => Some(shorten(s.as_str())),
            None => None,
        };
    }
}

/// What a replica reports.
#[derive(Debug)]
pub struct Report {
    pub pod_uid: String,
    pub local: Local,
    pub active_sha256: String,
    pub controls_sha256: String,
    pub version: u64,
    pub ready: bool,
    /// How many configurations are rejected.
    pub rejected: i64,
    pub published_at: i64,
}

/// What a `Report` holds.
#[verifier::ext_equal]
pub ghost struct Account {
    pub pod_uid: Seq<char>,
    pub local: Stand,
    pub active: Seq<char>,
    pub controls: Seq<char>,
    pub version: u64,
    pub ready: bool,
    pub rejected: i64,
    pub published_at: i64,
}

impl View for Report {
    type V = Account;

    open spec fn view(&self) -> Account {
        Account {
            pod_uid: self.pod_uid@,
            local: self.local@,
            active: self.active_sha256@,
            controls: self.controls_sha256@,
            version: self.version,
            ready: self.ready,
            rejected: self.rejected,
            published_at: self.published_at,
        }
    }
}

// ---------------------------------------------------------------------------
// Replicas
// ---------------------------------------------------------------------------

/// A replica.
#[derive(Debug)]
pub struct PodInfo {
    pub name: String,
    pub uid: Option<String>,
    pub deleting: bool,
    pub phase: Option<String>,
    pub ready: bool,
}

/// A report on record: who it is from, when it was renewed, and what it says where it can be read and is
/// not too long.
#[derive(Debug)]
pub struct LeaseInfo {
    pub holder: Option<String>,
    pub renewed: Option<i64>,
    pub report: Option<Report>,
}

/// Whether a replica counts.
pub open spec fn counts(p: PodInfo) -> bool {
    !p.deleting && !(p.phase is Some && (p.phase->0@ == "Failed"@ || p.phase->0@ == "Succeeded"@))
}

pub fn is_counted(p: &PodInfo) -> (r: bool)
    ensures
        r == counts(*p),
{
    if p.deleting {
        return false;
    }
    match &p.phase {
        Some(s) => !text::same(s.as_str(), "Failed") && !text::same(s.as_str(), "Succeeded"),
        None => true,
    }
}

/// Whether a report is one of a replica.
pub open spec fn speaks_for(l: LeaseInfo, uid: Option<Seq<char>>) -> bool {
    &&& text::opt(l.holder) == uid
    &&& l.report is Some && uid is Some && l.report->0@.pod_uid == uid->0
    &&& l.renewed is Some
}

/// The index of the first report of a replica.
pub open spec fn report_at(v: Seq<LeaseInfo>, uid: Option<Seq<char>>) -> Option<int>
    decreases v.len(),
{
    if v.len() == 0 {
        None
    } else if speaks_for(v[0], uid) {
        Some(0)
    } else {
        match report_at(v.drop_first(), uid) {
            Some(i) => Some(i + 1),
            None => None,
        }
    }
}

fn is_for(l: &LeaseInfo, uid: &Option<String>) -> (r: bool)
    ensures
        r == speaks_for(*l, text::opt(*uid)),
{
    match (&l.holder, uid, &l.report, l.renewed) {
        (Some(h), Some(u), Some(p), Some(_)) => text::same(h.as_str(), u.as_str()) && text::same(
            p.pod_uid.as_str(),
            u.as_str(),
        ),
        _ => false,
    }
}

fn find_report(v: &Vec<LeaseInfo>, uid: &Option<String>) -> (r: Option<usize>)
    ensures
        match r {
            Some(i) => report_at(v@, text::opt(*uid)) == Some(i as int) && i < v@.len()
                && speaks_for(v@[i as int], text::opt(*uid)),
            None => report_at(v@, text::opt(*uid)) is None,
        },
{
    let ghost u = text::opt(*uid);
    let mut i: usize = 0;
    assert(v@.skip(0) =~= v@);
    while i < v.len()
        invariant
            i <= v.len(),
            u == text::opt(*uid),
            report_at(v@, u) == match report_at(v@.skip(i as int), u) {
                Some(k) => Some(k + i),
                None => None,
            },
        decreases v.len() - i,
    {
        assert(v@.skip(i as int).drop_first() =~= v@.skip(i + 1));
        assert(v@.skip(i as int)[0] == v@[i as int]);
        if is_for(&v[i], uid) {
            return Some(i);
        }
        i += 1;
    }
    None
}

/// How a replica stands to the one that looks.
#[derive(Clone, Copy, Debug, PartialEq, Eq, Structural)]
pub enum PeerState {
    Missing,
    Stale,
    Unready,
    Rejected,
    Reconciling,
    Drifted,
    Converged,
}

impl PeerState {
    pub open spec fn spec_text(self) -> Seq<char> {
        match self {
            PeerState::Missing => "missing"@,
            PeerState::Stale => "stale"@,
            PeerState::Unready => "unready"@,
            PeerState::Rejected => "rejected"@,
            PeerState::Reconciling => "reconciling"@,
            PeerState::Drifted => "drifted"@,
            PeerState::Converged => "converged"@,
        }
    }

    pub fn text(&self) -> (r: &'static str)
        ensures
            r@ == self.spec_text(),
    {
        match self {
            PeerState::Missing => "missing",
            PeerState::Stale => "stale",
            PeerState::Unready => "unready",
            PeerState::Rejected => "rejected",
            PeerState::Reconciling => "reconciling",
            PeerState::Drifted => "drifted",
            PeerState::Converged => "converged",
        }
    }
}

/// Whether something is as old as it may be and not from the future.
pub open spec fn fresh(age: int) -> bool {
    0 <= age <= FRESH_SECONDS
}

/// How a replica stands, by its report and how old it is.
pub open spec fn state_of(peer: Option<(Account, int)>, ready: bool, own: Account) -> PeerState {
    match peer {
        None => PeerState::Missing,
        Some((p, age)) => if !fresh(age) {
            PeerState::Stale
        } else if !ready || !p.ready {
            PeerState::Unready
        } else if p.rejected > 0 {
            PeerState::Rejected
        } else if p.local.desired.len() == 0 || p.local.desired != p.local.observed {
            PeerState::Reconciling
        } else if p.active != own.active || p.controls != own.controls || p.local.desired
            != own.local.desired {
            PeerState::Drifted
        } else {
            PeerState::Converged
        },
    }
}

/// How a replica stands, by the reports on record.
pub open spec fn peer_of(pod: PodInfo, leases: Seq<LeaseInfo>, own: Account, now: i64) -> PeerState {
    state_of(
        match report_at(leases, text::opt(pod.uid)) {
            None => None,
            Some(i) => Some((leases[i].report->0@, now - leases[i].renewed->0)),
        },
        pod.ready,
        own,
    )
}

fn compare(p: &Report, age: i128, ready: bool, own: &Report) -> (r: PeerState)
    ensures
        r == state_of(Some((p@, age as int)), ready, own@),
{
    if age < 0 || age > FRESH_SECONDS as i128 {
        return PeerState::Stale;
    }
    if !ready || !p.ready {
        return PeerState::Unready;
    }
    if p.rejected > 0 {
        return PeerState::Rejected;
    }
    if p.local.desired_sha256.as_str().is_empty() || !text::same(
        p.local.desired_sha256.as_str(),
        p.local.observed_sha256.as_str(),
    ) {
        return PeerState::Reconciling;
    }
    if !text::same(p.active_sha256.as_str(), own.active_sha256.as_str()) || !text::same(
        p.controls_sha256.as_str(),
        own.controls_sha256.as_str(),
    ) || !text::same(
        p.local.desired_sha256.as_str(),
        own.local.desired_sha256.as_str(),
    ) {
        return PeerState::Drifted;
    }
    PeerState::Converged
}

/// How a replica stands, and how old its report is.
pub fn peer(pod: &PodInfo, leases: &Vec<LeaseInfo>, own: &Report, now: i64) -> (r: (
    PeerState,
    Option<i128>,
))
    ensures
        r.0 == peer_of(*pod, leases@, own@, now),
        match r.1 {
            Some(age) => report_at(leases@, text::opt(pod.uid)) is Some && age == now
                - leases@[report_at(leases@, text::opt(pod.uid))->0].renewed->0,
            None => report_at(leases@, text::opt(pod.uid)) is None,
        },
{
    match find_report(leases, &pod.uid) {
        None => (PeerState::Missing, None),
        Some(i) => {
            let l = &leases[i];
            match (&l.report, l.renewed) {
                (Some(p), Some(t)) => {
                    let age: i128 = now as i128 - t as i128;
                    (compare(p, age, pod.ready, own), Some(age))
                },
                _ => (PeerState::Missing, None),
            }
        },
    }
}

/// How each replica that counts stands.
pub open spec fn peers_of(
    pods: Seq<PodInfo>,
    leases: Seq<LeaseInfo>,
    own: Account,
    now: i64,
) -> Seq<PeerState>
    decreases pods.len(),
{
    if pods.len() == 0 {
        Seq::empty()
    } else {
        let before = peers_of(pods.drop_last(), leases, own, now);
        if counts(pods.last()) {
            before.push(peer_of(pods.last(), leases, own, now))
        } else {
            before
        }
    }
}

/// How each replica that counts stands.
pub fn peers(pods: &Vec<PodInfo>, leases: &Vec<LeaseInfo>, own: &Report, now: i64) -> (out: Vec<
    PeerState,
>)
    ensures
        out@ == peers_of(pods@, leases@, own@, now),
{
    let mut out: Vec<PeerState> = Vec::new();
    let mut i: usize = 0;
    while i < pods.len()
        invariant
            i <= pods.len(),
            out@ == peers_of(pods@.take(i as int), leases@, own@, now),
        decreases pods.len() - i,
    {
        assert(pods@.take(i + 1).drop_last() =~= pods@.take(i as int));
        assert(pods@.take(i + 1).last() == pods@[i as int]);
        if is_counted(&pods[i]) {
            let (state, _) = peer(&pods[i], leases, own, now);
            out.push(state);
        }
        i += 1;
    }
    assert(pods@.take(i as int) =~= pods@);
    out
}

/// Whether there are replicas and all of them agree.
pub open spec fn all_converged(v: Seq<PeerState>) -> bool {
    v.len() > 0 && forall|i: int| 0 <= i < v.len() ==> #[trigger] v[i] == PeerState::Converged
}

pub fn converged(v: &Vec<PeerState>) -> (r: bool)
    ensures
        r == all_converged(v@),
{
    if v.len() == 0 {
        return false;
    }
    let mut i: usize = 0;
    while i < v.len()
        invariant
            i <= v.len(),
            forall|j: int| 0 <= j < i ==> #[trigger] v@[j] == PeerState::Converged,
        decreases v.len() - i,
    {
        if v[i] != PeerState::Converged {
            return false;
        }
        i += 1;
    }
    true
}

/// Whether an observation still says that the replicas agree: it is fresh.
pub fn still_converged(said: bool, observed_at: i64, now: i64) -> (r: bool)
    ensures
        r == (said && fresh(now - observed_at)),
{
    let age: i128 = now as i128 - observed_at as i128;
    said && 0 <= age && age <= FRESH_SECONDS as i128
}

#[derive(Clone, Copy, Debug, PartialEq, Eq, Structural)]
pub enum FleetError {
    NoSelector,
    TooManyPods,
    NotSelected,
    NoUid,
    ReportTooLong,
    ForeignLease,
    TooManyLeases,
}

/// Whether replicas can be watched; a list may have been cut off.
pub fn check_pods(count: usize, cut: bool) -> (r: Result<(), FleetError>)
    ensures
        r == if count <= MAX_PODS && !cut {
            Ok::<(), FleetError>(())
        } else {
            Err(FleetError::TooManyPods)
        },
{
    if count <= MAX_PODS && !cut {
        Ok(())
    } else {
        Err(FleetError::TooManyPods)
    }
}

pub fn check_leases(count: usize, cut: bool) -> (r: Result<(), FleetError>)
    ensures
        r == if count <= MAX_LEASES && !cut {
            Ok::<(), FleetError>(())
        } else {
            Err(FleetError::TooManyLeases)
        },
{
    if count <= MAX_LEASES && !cut {
        Ok(())
    } else {
        Err(FleetError::TooManyLeases)
    }
}

/// The identifier of the replica that looks, which is one of those that are watched.
pub open spec fn own_uid(pods: Seq<PodInfo>, name: Seq<char>) -> Result<Seq<char>, FleetError>
    decreases pods.len(),
{
    if pods.len() == 0 {
        Err(FleetError::NotSelected)
    } else if pods[0].name@ == name {
        match text::opt(pods[0].uid) {
            Some(u) => Ok(u),
            None => Err(FleetError::NoUid),
        }
    } else {
        own_uid(pods.drop_first(), name)
    }
}

pub fn find_own(pods: &Vec<PodInfo>, name: &str) -> (r: Result<String, FleetError>)
    ensures
        match r {
            Ok(u) => own_uid(pods@, name@) == Ok::<Seq<char>, FleetError>(u@),
            Err(e) => own_uid(pods@, name@) == Err::<Seq<char>, FleetError>(e),
        },
{
    let mut i: usize = 0;
    assert(pods@.skip(0) =~= pods@);
    while i < pods.len()
        invariant
            i <= pods.len(),
            own_uid(pods@.skip(i as int), name@) == own_uid(pods@, name@),
        decreases pods.len() - i,
    {
        assert(pods@.skip(i as int).drop_first() =~= pods@.skip(i + 1));
        assert(pods@.skip(i as int)[0] == pods@[i as int]);
        if text::same(pods[i].name.as_str(), name) {
            return match &pods[i].uid {
                Some(u) => Ok(u.clone()),
                None => Err(FleetError::NoUid),
            };
        }
        i += 1;
    }
    Err(FleetError::NotSelected)
}

/// Whether a report may be put on record: it is not too long, and the record is not somebody else's.
pub fn check_report(len: usize, previous: &Option<Option<String>>, uid: &str) -> (r: Result<
    (),
    FleetError,
>)
    ensures
        r == if len > MAX_REPORT {
            Err::<(), FleetError>(FleetError::ReportTooLong)
        } else if previous is Some && text::opt(previous->0) != Some(uid@) {
            Err(FleetError::ForeignLease)
        } else {
            Ok(())
        },
{
    if len > MAX_REPORT {
        return Err(FleetError::ReportTooLong);
    }
    match previous {
        None => Ok(()),
        Some(None) => Err(FleetError::ForeignLease),
        Some(Some(h)) => if text::same(h.as_str(), uid) {
            Ok(())
        } else {
            Err(FleetError::ForeignLease)
        },
    }
}

// ---------------------------------------------------------------------------
// Names
// ---------------------------------------------------------------------------

/// What the replicas of a controller are known by.
pub open spec fn scope_of(namespace: Seq<char>, service: Seq<char>, group: Seq<char>) -> Seq<char> {
    short_digest(namespace + "/"@ + service + "/"@ + group)
}

pub fn scope(namespace: &str, service: &str, group: &str) -> (out: String)
    ensures
        out@ == scope_of(namespace@, service@, group@),
{
    let head = text::concat3(namespace, "/", service);
    short_digest_text(text::concat3(head.as_str(), "/", group).as_str())
}

/// The name of the record of a replica.
pub open spec fn lease_name_of(scope: Seq<char>, uid: Seq<char>) -> Seq<char> {
    "rgnix-replica-"@ + short_digest(scope + "/"@ + uid)
}

pub fn lease_name(scope: &str, uid: &str) -> (out: String)
    ensures
        out@ == lease_name_of(scope@, uid@),
{
    text::concat("rgnix-replica-", short_digest_text(text::concat3(scope, "/", uid).as_str()).as_str())
}

/// What selects replicas, as one text.
pub open spec fn selector_of(v: Seq<(Seq<char>, Seq<char>)>) -> Seq<char> {
    text::join_spec(Seq::new(v.len(), |i: int| v[i].0 + "="@ + v[i].1), ","@)
}

pub fn selector(v: &Vec<(String, String)>) -> (r: Result<String, FleetError>)
    ensures
        match r {
            Ok(s) => v@.len() > 0 && s@ == selector_of(text::pairs(v@)),
            Err(e) => v@.len() == 0 && e == FleetError::NoSelector,
        },
{
    if v.len() == 0 {
        return Err(FleetError::NoSelector);
    }
    let ghost all = text::pairs(v@);
    let ghost goal = Seq::new(all.len(), |i: int| all[i].0 + "="@ + all[i].1);
    let mut parts: Vec<String> = Vec::new();
    let mut i: usize = 0;
    while i < v.len()
        invariant
            i <= v.len(),
            all == text::pairs(v@),
            goal == Seq::new(all.len(), |i: int| all[i].0 + "="@ + all[i].1),
            text::texts(parts@) == goal.take(i as int),
        decreases v.len() - i,
    {
        let ghost before = text::texts(parts@);
        let p = text::concat3(v[i].0.as_str(), "=", v[i].1.as_str());
        let ghost x = p@;
        parts.push(p);
        proof {
            assert(text::texts(parts@) =~= before.push(x));
            assert(goal.take(i + 1) =~= goal.take(i as int).push(x));
        }
        i += 1;
    }
    assert(goal.take(i as int) =~= goal);
    Ok(text::join(&parts, ","))
}

// ---------------------------------------------------------------------------
// Samples
// ---------------------------------------------------------------------------

/// How requests of a rollout went.
#[derive(Clone, Copy, Debug, PartialEq, Eq, Structural)]
pub struct Samples {
    pub count: u64,
    pub errors: u64,
    pub slow: u64,
}

/// What one replica has of a rollout.
#[derive(Clone, Copy, Debug)]
pub struct PeerSamples {
    pub state: PeerState,
    pub age: Option<i128>,
    pub ready: bool,
    pub samples: Option<Samples>,
}

/// Whether what a replica has counts; `since` is how long ago the replicas were looked at.
pub open spec fn usable(p: PeerSamples, since: int, freshness: int) -> bool {
    p.age is Some && 0 <= p.age->0 + since <= freshness && p.ready && !(p.state
        == PeerState::Missing || p.state == PeerState::Stale || p.state == PeerState::Unready)
        && p.samples is Some
}

pub open spec fn sum_of(a: Samples, b: Samples) -> Option<Samples> {
    if a.count + b.count > u64::MAX || a.errors + b.errors > u64::MAX || a.slow + b.slow > u64::MAX {
        None
    } else {
        Some(
            Samples {
                count: (a.count + b.count) as u64,
                errors: (a.errors + b.errors) as u64,
                slow: (a.slow + b.slow) as u64,
            },
        )
    }
}

pub open spec fn total_of(v: Seq<PeerSamples>, since: int, freshness: int) -> Option<Samples>
    decreases v.len(),
{
    if v.len() == 0 {
        Some(Samples { count: 0, errors: 0, slow: 0 })
    } else {
        match total_of(v.drop_last(), since, freshness) {
            None => None,
            Some(t) => if !usable(v.last(), since, freshness) {
                None
            } else {
                sum_of(t, v.last().samples->0)
            },
        }
    }
}

/// What all replicas have of a rollout together; nothing where the last look failed or is too old, or
/// where a replica has nothing that counts.
pub open spec fn rollout_total(
    v: Seq<PeerSamples>,
    observed_at: Option<i64>,
    failed: bool,
    window: u32,
    now: i64,
) -> Option<Samples> {
    match observed_at {
        None => None,
        Some(t) => {
            let since = now - t;
            let freshness = if (window as int) < FRESH_SECONDS {
                window as int
            } else {
                FRESH_SECONDS as int
            };
            if !(0 <= since <= freshness) || failed || v.len() == 0 {
                None
            } else {
                total_of(v, since, freshness)
            }
        },
    }
}

proof fn lemma_total_none(v: Seq<PeerSamples>, since: int, freshness: int, i: int)
    requires
        0 <= i <= v.len(),
        total_of(v.take(i), since, freshness) is None,
    ensures
        total_of(v, since, freshness) is None,
    decreases v.len(),
{
    if i < v.len() {
        assert(v.drop_last().take(i) =~= v.take(i));
        lemma_total_none(v.drop_last(), since, freshness, i);
    } else {
        assert(v.take(i) =~= v);
    }
}

fn is_usable(p: &PeerSamples, since: i64, freshness: i64) -> (r: Option<Samples>)
    requires
        0 <= since <= freshness <= FRESH_SECONDS,
    ensures
        match r {
            Some(s) => usable(*p, since as int, freshness as int) && p.samples == Some(s),
            None => !usable(*p, since as int, freshness as int),
        },
{
    let young = match p.age {
        Some(a) => a >= -(since as i128) && a <= (freshness - since) as i128,
        None => false,
    };
    if !young || !p.ready || p.state == PeerState::Missing || p.state == PeerState::Stale || p.state
        == PeerState::Unready {
        return None;
    }
    p.samples
}

fn add_samples(a: Samples, b: Samples) -> (r: Option<Samples>)
    ensures
        r == sum_of(a, b),
{
    match (a.count.checked_add(b.count), a.errors.checked_add(b.errors), a.slow.checked_add(b.slow)) {
        (Some(count), Some(errors), Some(slow)) => Some(Samples { count, errors, slow }),
        _ => None,
    }
}

/// What all replicas have of a rollout together.
pub fn rollout_samples(
    v: &Vec<PeerSamples>,
    observed_at: Option<i64>,
    failed: bool,
    window: u32,
    now: i64,
) -> (r: Option<Samples>)
    ensures
        r == rollout_total(v@, observed_at, failed, window, now),
{
    let t = match observed_at {
        None => return None,
        Some(t) => t,
    };
    let age: i128 = now as i128 - t as i128;
    let freshness: i64 = if (window as i64) < FRESH_SECONDS {
        window as i64
    } else {
        FRESH_SECONDS
    };
    if age < 0 || age > freshness as i128 || failed || v.len() == 0 {
        return None;
    }
    let since: i64 = age as i64;
    let mut total = Samples { count: 0, errors: 0, slow: 0 };
    let mut i: usize = 0;
    while i < v.len()
        invariant
            i <= v.len(),
            0 <= since <= freshness <= FRESH_SECONDS,
            rollout_total(v@, observed_at, failed, window, now) == total_of(
                v@,
                since as int,
                freshness as int,
            ),
            total_of(v@.take(i as int), since as int, freshness as int) == Some(total),
        decreases v.len() - i,
    {
        proof {
            assert(v@.take(i + 1).drop_last() =~= v@.take(i as int));
            assert(v@.take(i + 1).last() == v@[i as int]);
        }
        match is_usable(&v[i], since, freshness) {
            None => {
                proof {
                    lemma_total_none(v@, since as int, freshness as int, i + 1);
                }
                return None;
            },
            Some(s) => match add_samples(total, s) {
                None => {
                    proof {
                        lemma_total_none(v@, since as int, freshness as int, i + 1);
                    }
                    return None;
                },
                Some(t) => {
                    total = t;
                },
            },
        }
        i += 1;
    }
    assert(v@.take(i as int) =~= v@);
    Some(total)
}

// ---------------------------------------------------------------------------
// What is wanted
// ---------------------------------------------------------------------------

pub open spec fn tree_member(v: Seq<(Seq<char>, Tree)>, name: Seq<char>) -> bool {
    exists|i: int| 0 <= i < v.len() && (#[trigger] v[i]).0 == name
}

/// A member that the API keeps for itself; `object` says whether it is one of an object of the API, and
/// `metadata` whether it is one of what such an object says about itself.
pub open spec fn bookkeeping(name: Seq<char>, object: bool, metadata: bool) -> bool {
    (object && name == "status"@) || (metadata && (name == "resourceVersion"@ || name
        == "managedFields"@))
}

/// A value without what the API keeps for itself.
pub open spec fn cleaned(t: Tree, metadata: bool) -> Tree
    decreases t, 0nat,
{
    match t {
        Tree::Object(v) => Tree::Object(
            cleaned_members(v, tree_member(v, "metadata"@), metadata),
        ),
        Tree::List(v) => Tree::List(cleaned_list(v)),
        _ => t,
    }
}

pub open spec fn cleaned_members(v: Seq<(Seq<char>, Tree)>, object: bool, metadata: bool) -> Seq<
    (Seq<char>, Tree),
>
    decreases v, 1nat,
{
    if v.len() == 0 {
        Seq::empty()
    } else {
        let rest = cleaned_members(v.drop_first(), object, metadata);
        if bookkeeping(v[0].0, object, metadata) {
            rest
        } else {
            seq![(v[0].0, cleaned(v[0].1, object && v[0].0 == "metadata"@))] + rest
        }
    }
}

pub open spec fn cleaned_list(v: Seq<Tree>) -> Seq<Tree>
    decreases v, 1nat,
{
    if v.len() == 0 {
        Seq::empty()
    } else {
        seq![cleaned(v[0], false)] + cleaned_list(v.drop_first())
    }
}

fn has_metadata(v: &Vec<(String, Json)>) -> (r: bool)
    ensures
        r == tree_member(member_trees(v@), "metadata"@),
{
    let ghost all = member_trees(v@);
    let mut i: usize = 0;
    while i < v.len()
        invariant
            i <= v.len(),
            all == member_trees(v@),
            forall|j: int| 0 <= j < i ==> (#[trigger] all[j]).0 != "metadata"@,
        decreases v.len() - i,
    {
        if text::same(v[i].0.as_str(), "metadata") {
            assert(all[i as int].0 == "metadata"@);
            return true;
        }
        assert(all[i as int].0 != "metadata"@);
        i += 1;
    }
    false
}

fn clean_members(v: &Vec<(String, Json)>, object: bool, metadata: bool) -> (out: Vec<
    (String, Json),
>)
    ensures
        member_trees(out@) == cleaned_members(member_trees(v@), object, metadata),
    decreases v@, 1nat,
{
    let ghost all = member_trees(v@);
    let ghost whole = cleaned_members(all, object, metadata);
    let mut out: Vec<(String, Json)> = Vec::new();
    let mut i: usize = 0;
    proof {
        assert(all.skip(0) =~= all);
        assert(member_trees(out@) + whole =~= whole);
    }
    while i < v.len()
        invariant
            i <= v.len(),
            all == member_trees(v@),
            whole == cleaned_members(all, object, metadata),
            member_trees(out@) + cleaned_members(all.skip(i as int), object, metadata) == whole,
        decreases v.len() - i,
    {
        let name = v[i].0.as_str();
        let ghost done = member_trees(out@);
        let ghost rest = all.skip(i as int);
        let ghost more = cleaned_members(all.skip(i + 1), object, metadata);
        proof {
            assert(rest.drop_first() =~= all.skip(i + 1));
            assert(rest[0] == (v@[i as int].0@, v@[i as int].1.tree()));
            assert(decreases_to!(v@ => v@[i as int]));
            assert(decreases_to!(v@[i as int] => v@[i as int].1));
        }
        let kept = !((object && text::same(name, "status")) || (metadata && (text::same(
            name,
            "resourceVersion",
        ) || text::same(name, "managedFields"))));
        if kept {
            let x = clean(&v[i].1, object && text::same(name, "metadata"));
            let ghost y = (name@, x.tree());
            out.push((name.to_owned(), x));
            proof {
                assert(member_trees(out@) =~= done.push(y));
                assert(done.push(y) + more =~= done + (seq![y] + more));
            }
        }
        i += 1;
    }
    proof {
        assert(all.skip(i as int) =~= Seq::empty());
        assert(member_trees(out@) + Seq::<(Seq<char>, Tree)>::empty() =~= member_trees(out@));
    }
    out
}

fn clean_list(v: &Vec<Json>) -> (out: Vec<Json>)
    ensures
        trees(out@) == cleaned_list(trees(v@)),
    decreases v@, 1nat,
{
    let ghost all = trees(v@);
    let ghost whole = cleaned_list(all);
    let mut out: Vec<Json> = Vec::new();
    let mut i: usize = 0;
    proof {
        assert(all.skip(0) =~= all);
        assert(trees(out@) + whole =~= whole);
    }
    while i < v.len()
        invariant
            i <= v.len(),
            all == trees(v@),
            whole == cleaned_list(all),
            trees(out@) + cleaned_list(all.skip(i as int)) == whole,
        decreases v.len() - i,
    {
        let ghost done = trees(out@);
        let ghost rest = all.skip(i as int);
        let ghost more = cleaned_list(all.skip(i + 1));
        proof {
            assert(rest.drop_first() =~= all.skip(i + 1));
            assert(rest[0] == v@[i as int].tree());
            assert(decreases_to!(v@ => v@[i as int]));
        }
        let x = clean(&v[i], false);
        let ghost y = x.tree();
        out.push(x);
        proof {
            assert(trees(out@) =~= done.push(y));
            assert(done.push(y) + more =~= done + (seq![y] + more));
        }
        i += 1;
    }
    proof {
        assert(all.skip(i as int) =~= Seq::empty());
        assert(trees(out@) + Seq::<Tree>::empty() =~= trees(out@));
    }
    out
}

/// A value without what the API keeps for itself.
pub fn clean(j: &Json, metadata: bool) -> (r: Json)
    ensures
        r.tree() == cleaned(j.tree(), metadata),
    decreases *j, 0nat,
{
    proof {
        lemma_tree(*j);
    }
    let r = match j {
        Json::Null => Json::Null,
        Json::Bool(b) => Json::Bool(*b),
        Json::Number(s) => Json::Number(s.clone()),
        Json::Text(s) => Json::Text(s.clone()),
        Json::List(v) => {
            proof {
                assert(decreases_to!(*j => v@));
            }
            Json::List(clean_list(v))
        },
        Json::Object(v) => {
            proof {
                assert(decreases_to!(*j => v@));
            }
            Json::Object(clean_members(v, has_metadata(v), metadata))
        },
    };
    proof {
        lemma_tree(r);
    }
    r
}

// ---------------------------------------------------------------------------
// Waiting
// ---------------------------------------------------------------------------

/// What somebody waits for.
#[derive(Debug)]
pub struct WaitOptions {
    pub admin_url: String,
    pub expected_sha256: String,
    pub replicas: usize,
    pub timeout_seconds: u64,
}

#[derive(Clone, Copy, Debug, PartialEq, Eq, Structural)]
pub enum WaitError {
    Digest,
    Bounds,
    Url,
    UrlParts,
    Token,
}

/// Whether what somebody waits for makes sense; `url` is how the address is read.
pub open spec fn wait_checked(
    digest: Seq<char>,
    replicas: usize,
    timeout: u64,
    url: Option<Parts>,
) -> Result<(), WaitError> {
    if !crate::diagnostics::auth::hex_digest(digest) {
        Err(WaitError::Digest)
    } else if !(1 <= replicas <= 256 && 1 <= timeout <= 3600) {
        Err(WaitError::Bounds)
    } else {
        match url {
            None => Err(WaitError::Url),
            Some(u) => if (u.scheme == "http"@ || u.scheme == "https"@) && u.username.len() == 0
                && u.password is None {
                Ok(())
            } else {
                Err(WaitError::UrlParts)
            },
        }
    }
}

fn is_hex_digest(s: &str) -> (r: bool)
    ensures
        r == crate::diagnostics::auth::hex_digest(s@),
{
    let v = text::chars(s);
    if v.len() != 64 {
        return false;
    }
    let mut i: usize = 0;
    while i < v.len()
        invariant
            i <= v.len() == 64,
            v@ == s@,
            forall|j: int| 0 <= j < i ==> text::spec_hex_digit(#[trigger] s@[j]),
        decreases v.len() - i,
    {
        if !text::hex_digit(v[i]) {
            assert(!text::spec_hex_digit(s@[i as int]));
            return false;
        }
        i += 1;
    }
    true
}

impl WaitOptions {
    /// Whether what is waited for makes sense, by how the address is read.
    pub fn check(&self, url: &Option<Url>) -> (r: Result<(), WaitError>)
        ensures
            r == wait_checked(
                self.expected_sha256@,
                self.replicas,
                self.timeout_seconds,
                crate::uri::url_view(*url),
            ),
    {
        if !is_hex_digest(self.expected_sha256.as_str()) {
            return Err(WaitError::Digest);
        }
        if self.replicas < 1 || self.replicas > 256 || self.timeout_seconds < 1
            || self.timeout_seconds > 3600 {
            return Err(WaitError::Bounds);
        }
        match url {
            None => Err(WaitError::Url),
            Some(u) => if (text::same(u.scheme.as_str(), "http") || text::same(
                u.scheme.as_str(),
                "https",
            )) && u.username.as_str().is_empty() && u.password.is_none() {
                Ok(())
            } else {
                Err(WaitError::UrlParts)
            },
        }
    }

    /// Whether what is waited for makes sense.
    pub fn validate(&self) -> (r: Result<(), WaitError>)
        ensures
            r == wait_checked(
                self.expected_sha256@,
                self.replicas,
                self.timeout_seconds,
                crate::uri::parsed_url(self.admin_url@),
            ),
    {
        let url = crate::uri::parse(self.admin_url.as_str());
        self.check(&url)
    }

    /// What is waited for has come.
    pub open spec fn reached_by(&self, value: Json) -> bool {
        value.at("converged"@) == Json::Bool(true) && value.at("target"@).at(
            "active_sha256"@,
        ).string() == Some(text::lowercase(self.expected_sha256@)) && match value.at(
            "replicas"@,
        ).list() {
            Some(v) => v.len() >= self.replicas,
            None => false,
        }
    }

    /// Whether what is waited for has come.
    pub fn reached(&self, value: &Json) -> (r: bool)
        ensures
            r == self.reached_by(*value),
    {
        let agreed = match value.field("converged") {
            Json::Bool(b) => *b,
            _ => false,
        };
        if !agreed {
            return false;
        }
        let digest = match value.field("target").get_str("active_sha256") {
            Some(s) => text::same(s, text::to_lowercase(self.expected_sha256.as_str()).as_str()),
            None => false,
        };
        if !digest {
            return false;
        }
        match value.get_array("replicas") {
            Some(v) => v.len() >= self.replicas,
            None => false,
        }
    }
}

/// Whether a token can be one of the management interface, by its length without the blanks around it.
pub fn token_fits(token: &str) -> (r: Result<(), WaitError>)
    ensures
        r == if 32 <= text::byte_len(text::trim_spec(token@)) <= 4096 {
            Ok::<(), WaitError>(())
        } else {
            Err(WaitError::Token)
        },
{
    let n = text::len(text::trim(token));
    if n < 32 || n > 4096 {
        Err(WaitError::Token)
    } else {
        Ok(())
    }
}

// ---------------------------------------------------------------------------
// Laws
// ---------------------------------------------------------------------------

/// Replicas that agree have the same configuration and the same controls, and have seen what they want.
pub proof fn law_converged_replicas_agree(
    pods: Seq<PodInfo>,
    leases: Seq<LeaseInfo>,
    own: Account,
    now: i64,
    i: int,
)
    requires
        all_converged(peers_of(pods, leases, own, now)),
        0 <= i < pods.len(),
        counts(pods[i]),
    ensures
        ({
            let k = report_at(leases, text::opt(pods[i].uid));
            &&& k is Some
            &&& leases[k->0].report->0@.active == own.active
            &&& leases[k->0].report->0@.controls == own.controls
            &&& leases[k->0].report->0@.local.observed == own.local.desired
            &&& fresh(now - leases[k->0].renewed->0)
        }),
    decreases pods.len(),
{
    let v = peers_of(pods, leases, own, now);
    let w = pods.drop_last();
    if i < w.len() {
        assert(w[i] == pods[i]);
        lemma_peers_present(w, leases, own, now, i);
        let u = peers_of(w, leases, own, now);
        assert forall|j: int| 0 <= j < u.len() implies #[trigger] u[j] == PeerState::Converged by {
            assert(v[j] == u[j]);
        }
        law_converged_replicas_agree(w, leases, own, now, i);
    } else {
        assert(v.last() == peer_of(pods[i], leases, own, now));
        assert(v[v.len() - 1] == PeerState::Converged);
    }
}

proof fn lemma_peers_present(
    pods: Seq<PodInfo>,
    leases: Seq<LeaseInfo>,
    own: Account,
    now: i64,
    i: int,
)
    requires
        0 <= i < pods.len(),
        counts(pods[i]),
    ensures
        peers_of(pods, leases, own, now).len() > 0,
    decreases pods.len(),
{
    if i < pods.len() - 1 {
        assert(pods.drop_last()[i] == pods[i]);
        lemma_peers_present(pods.drop_last(), leases, own, now, i);
    }
}

/// What the API keeps for itself does not change what is wanted: a status is as good as none.
pub proof fn law_status_is_not_wanted(
    head: Seq<(Seq<char>, Tree)>,
    status: Tree,
    tail: Seq<(Seq<char>, Tree)>,
)
    requires
        tree_member(head, "metadata"@),
    ensures
        cleaned(Tree::Object(head + seq![("status"@, status)] + tail), false) == cleaned(
            Tree::Object(head + tail),
            false,
        ),
{
    let k = choose|k: int| 0 <= k < head.len() && (#[trigger] head[k]).0 == "metadata"@;
    let a = head + seq![("status"@, status)] + tail;
    let b = head + tail;
    assert(a[k].0 == "metadata"@);
    assert(b[k].0 == "metadata"@);
    lemma_status(head, status, tail);
}

proof fn lemma_status(
    head: Seq<(Seq<char>, Tree)>,
    status: Tree,
    tail: Seq<(Seq<char>, Tree)>,
)
    ensures
        cleaned_members(head + seq![("status"@, status)] + tail, true, false) == cleaned_members(
            head + tail,
            true,
            false,
        ),
    decreases head.len(),
{
    let a = head + seq![("status"@, status)] + tail;
    let b = head + tail;
    if head.len() == 0 {
        assert(a.drop_first() =~= tail);
        assert(b =~= tail);
        assert(a[0].0 == "status"@);
    } else {
        assert(a.drop_first() =~= head.drop_first() + seq![("status"@, status)] + tail);
        assert(b.drop_first() =~= head.drop_first() + tail);
        assert(a[0] == head[0] && b[0] == head[0]);
        lemma_status(head.drop_first(), status, tail);
    }
}

/// The state of a replica: no report, an old one, one that is not ready or rejects, one that is still at work, one
/// with another configuration, and one that agrees.
pub proof fn law_states_of_replicas(p: Account, own: Account, age: int)
    ensures
        state_of(None, true, own) == PeerState::Missing,
        age < 0 || age > 20 ==> state_of(Some((p, age)), true, own) == PeerState::Stale,
        0 <= age <= 20 ==> {
            &&& state_of(Some((p, age)), false, own) == PeerState::Unready
            &&& !p.ready ==> state_of(Some((p, age)), true, own) == PeerState::Unready
            &&& p.ready && p.rejected > 0 ==> state_of(Some((p, age)), true, own) == PeerState::Rejected
            &&& p.ready && p.rejected <= 0 && p.local.desired != p.local.observed ==> state_of(
                Some((p, age)),
                true,
                own,
            ) == PeerState::Reconciling
            &&& p.ready && p.rejected <= 0 && p.local.desired == p.local.observed && p.local.desired.len() > 0 ==> {
                &&& p.active != own.active ==> state_of(Some((p, age)), true, own) == PeerState::Drifted
                &&& p.controls != own.controls ==> state_of(Some((p, age)), true, own) == PeerState::Drifted
                &&& p.active == own.active && p.controls == own.controls && p.local.desired == own.local.desired
                    ==> state_of(Some((p, age)), true, own) == PeerState::Converged
            }
        },
{
}

/// Replicas that are going or have ended do not count.
pub proof fn law_ended_replicas_do_not_count(p: PodInfo)
    ensures
        p.deleting ==> !counts(p),
        p.phase is Some && p.phase->0@ == "Failed"@ ==> !counts(p),
        p.phase is Some && p.phase->0@ == "Succeeded"@ ==> !counts(p),
        !p.deleting && p.phase is None ==> counts(p),
        !p.deleting && p.phase is Some && p.phase->0@ == "Running"@ ==> counts(p),
{
    reveal_strlit("Running");
    reveal_strlit("Failed");
    assert("Running"@.len() != "Failed"@.len());
    reveal_strlit("Succeeded");
    assert("Running"@.len() != "Succeeded"@.len());
}

/// A report speaks for the replica that holds its lease and that it names.
pub proof fn law_reports_speak_for_their_replica(l: LeaseInfo, uid: Seq<char>)
    ensures
        text::opt(l.holder) != Some(uid) ==> !speaks_for(l, Some(uid)),
        l.report is None ==> !speaks_for(l, Some(uid)),
        l.report is Some && l.report->0@.pod_uid != uid ==> !speaks_for(l, Some(uid)),
        l.renewed is None ==> !speaks_for(l, Some(uid)),
        text::opt(l.holder) == Some(uid) && l.report is Some && l.report->0@.pod_uid == uid && l.renewed is Some
            ==> speaks_for(l, Some(uid)),
{
}

/// All replicas agree where there is one and each does.
pub proof fn law_all_replicas_have_to_agree(v: Seq<PeerState>, i: int)
    ensures
        !all_converged(Seq::empty()),
        0 <= i < v.len() && v[i] != PeerState::Converged ==> !all_converged(v),
        v.len() == 1 && v[0] == PeerState::Converged ==> all_converged(v),
{
}

/// The samples of all replicas are added up; one that cannot be used spoils the sum.
pub proof fn law_samples_are_added_up(v: Seq<PeerSamples>, p: PeerSamples, since: int, freshness: int, t: Samples, s: Samples)
    requires
        total_of(v, since, freshness) == Some(t),
        p.samples == Some(s),
    ensures
        usable(p, since, freshness) && t.count + s.count <= u64::MAX && t.errors + s.errors <= u64::MAX && t.slow
            + s.slow <= u64::MAX ==> total_of(v.push(p), since, freshness) == Some(
            Samples {
                count: (t.count + s.count) as u64,
                errors: (t.errors + s.errors) as u64,
                slow: (t.slow + s.slow) as u64,
            },
        ),
        !usable(p, since, freshness) ==> total_of(v.push(p), since, freshness) is None,
        p.state == PeerState::Stale || p.state == PeerState::Missing || p.state == PeerState::Unready || !p.ready
            || p.age is None ==> !usable(p, since, freshness),
{
    assert(v.push(p).drop_last() =~= v);
}

/// Samples are of now: what was seen too long ago, or not at all, does not count.
pub proof fn law_samples_are_fresh(v: Seq<PeerSamples>, t: i64, window: u32, now: i64)
    ensures
        rollout_total(v, None, false, window, now) is None,
        rollout_total(v, Some(t), true, window, now) is None,
        now - t > 20 || now - t > window || now < t ==> rollout_total(v, Some(t), false, window, now) is None,
        v.len() == 0 ==> rollout_total(v, Some(t), false, window, now) is None,
        window >= 20 && 0 <= now - t <= 20 && v.len() > 0 ==> rollout_total(v, Some(t), false, window, now)
            == total_of(v, now - t, 20),
{
}

/// The bookkeeping of the cluster is left out of an object, and nothing else is.
pub proof fn law_bookkeeping_is_left_out(name: Seq<char>)
    ensures
        bookkeeping("status"@, true, false),
        !bookkeeping("status"@, false, false),
        bookkeeping("resourceVersion"@, false, true),
        bookkeeping("managedFields"@, false, true),
        !bookkeeping("resourceVersion"@, true, false),
        name != "status"@ && name != "resourceVersion"@ && name != "managedFields"@ ==> !bookkeeping(
            name,
            true,
            true,
        ),
{
    reveal_strlit("status");
    reveal_strlit("resourceVersion");
    assert("status"@.len() != "resourceVersion"@.len());
    reveal_strlit("managedFields");
    assert("status"@.len() != "managedFields"@.len());
}

/// One waits for at least one replica and at most 256, for at most an hour, at an address without credentials.
pub proof fn law_waits_have_bounds(digest: Seq<char>, replicas: usize, timeout: u64, u: Parts)
    requires
        crate::diagnostics::auth::hex_digest(digest),
    ensures
        replicas == 0 || replicas > 256 || timeout == 0 || timeout > 3600 ==> wait_checked(
            digest,
            replicas,
            timeout,
            Some(u),
        ) == Err::<(), WaitError>(WaitError::Bounds),
        1 <= replicas <= 256 && 1 <= timeout <= 3600 ==> {
            &&& wait_checked(digest, replicas, timeout, None) == Err::<(), WaitError>(WaitError::Url)
            &&& u.username.len() > 0 || u.password is Some ==> wait_checked(digest, replicas, timeout, Some(u))
                == Err::<(), WaitError>(WaitError::UrlParts)
            &&& u.scheme == "https"@ && u.username.len() == 0 && u.password is None ==> wait_checked(
                digest,
                replicas,
                timeout,
                Some(u),
            ) == Ok::<(), WaitError>(())
            &&& u.scheme == "ftp"@ ==> wait_checked(digest, replicas, timeout, Some(u)) == Err::<(), WaitError>(
                WaitError::UrlParts,
            )
        },
{
    reveal_strlit("ftp");
    reveal_strlit("http");
    assert("ftp"@.len() != "http"@.len());
    reveal_strlit("https");
    assert("ftp"@.len() != "https"@.len());
}

/// Replicas are labelled by all of the service's labels.
pub proof fn law_selectors_name_labels(key: Seq<char>, value: Seq<char>)
    ensures
        selector_of(seq![(key, value)]) == key + "="@ + value,
{
    let v = seq![(key, value)];
    let w = Seq::new(v.len(), |i: int| v[i].0 + "="@ + v[i].1);
    assert(w[0] == key + "="@ + value);
}

/// A rollout is reached where the replicas agree on the configuration that is expected, in lower case, and
/// are as many as are asked for.
pub proof fn law_rollouts_are_reached_together(e: WaitOptions, value: Json)
    ensures
        value.at("converged"@) != Json::Bool(true) ==> !e.reached_by(value),
        value.at("target"@).at("active_sha256"@).string() != Some(text::lowercase(e.expected_sha256@)) ==> !e.reached_by(
            value,
        ),
        value.at("replicas"@).list() is None ==> !e.reached_by(value),
        value.at("replicas"@).list() is Some && value.at("replicas"@).list()->0.len() < e.replicas ==> !e.reached_by(
            value,
        ),
        value.at("converged"@) == Json::Bool(true) && value.at("target"@).at("active_sha256"@).string() == Some(
            text::lowercase(e.expected_sha256@),
        ) && value.at("replicas"@).list() is Some && value.at("replicas"@).list()->0.len() >= e.replicas
            ==> e.reached_by(value),
{
}

/// A long reason is cut at its front, and a short one stays whole.
pub proof fn law_reasons_are_cut(s: Seq<char>)
    ensures
        short_reason(s).is_prefix_of(s),
        short_reason(s).len() <= 512,
        s.len() <= 512 ==> short_reason(s) == s,
{
}

/// A replica is the pod of its name among those that are selected.
pub proof fn law_replicas_are_their_pods(pods: Seq<PodInfo>, name: Seq<char>, i: int)
    requires
        0 <= i <= pods.len(),
        forall|k: int| 0 <= k < i ==> (#[trigger] pods[k]).name@ != name,
        i < pods.len() ==> pods[i].name@ == name,
    ensures
        i == pods.len() ==> own_uid(pods, name) == Err::<Seq<char>, FleetError>(FleetError::NotSelected),
        i < pods.len() && text::opt(pods[i].uid) is None ==> own_uid(pods, name) == Err::<Seq<char>, FleetError>(
            FleetError::NoUid,
        ),
        i < pods.len() && text::opt(pods[i].uid) is Some ==> own_uid(pods, name) == Ok::<Seq<char>, FleetError>(
            text::opt(pods[i].uid)->0,
        ),
    decreases pods.len(),
{
    if i > 0 {
        assert(pods[0].name@ != name);
        let d = pods.drop_first();
        assert forall|k: int| 0 <= k < i - 1 implies (#[trigger] d[k]).name@ != name by {
            assert(d[k] == pods[k + 1]);
        }
        law_replicas_are_their_pods(d, name, i - 1);
    }
}

} // verus!
