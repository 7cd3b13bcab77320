//! The endpoints behind a route: which one serves the next request, and which ones are left out.
use crate::net;
use crate::net::{Ip, Socket};
use crate::text;
use vstd::prelude::*;

verus! {

pub const MAX_INFLIGHT: usize = 1000000;

/// How requests are spread over endpoints.
#[derive(Debug)]
pub enum Balance {
    RoundRobin,
    LeastConnections,
    /// By the hash of what this text names in a request.
    Hash(String),
    /// By the value of this cookie.
    Sticky(String),
}

/// An active check of endpoints. Times are in milliseconds.
#[derive(Debug)]
pub struct HealthCheck {
    pub path: String,
    pub interval: u64,
    pub timeout: u64,
    pub status: u16,
}

#[derive(Debug)]
pub struct Options {
    pub balance: Balance,
    /// The number of requests that may be under way at once; 0 for any number.
    pub max_inflight: usize,
    pub health: Option<HealthCheck>,
}

#[derive(Clone, Copy, Debug, PartialEq, Eq, Structural)]
pub enum OptionsError {
    Concurrency,
    HealthPath,
    HealthTimes,
    HealthStatus,
}

/// A server of an upstream as it is configured.
#[derive(Debug)]
pub struct Origin {
    pub host: String,
    pub port: u16,
    pub weight: u32,
}

/// A path that a health check can ask for.
pub open spec fn health_path(p: Seq<char>) -> bool {
    &&& p.len() > 0 && p[0] == '/'
    &&& !(p.len() > 1 && p[1] == '/')
    &&& text::byte_len(p) <= 1024
    &&& !p.contains('\r') && !p.contains('\n') && !p.contains('#')
}

/// What a `Balance` holds.
#[verifier::ext_equal]
pub ghost enum Spread {
    RoundRobin,
    LeastConnections,
    Hash(Seq<char>),
    Sticky(Seq<char>),
}

/// What a `HealthCheck` holds.
#[verifier::ext_equal]
pub ghost struct Check {
    pub path: Seq<char>,
    pub interval: u64,
    pub timeout: u64,
    pub status: u16,
}

/// What `Options` hold.
#[verifier::ext_equal]
pub ghost struct Rules {
    pub balance: Spread,
    pub max_inflight: usize,
    pub health: Option<Check>,
}

/// What an `Origin` holds.
#[verifier::ext_equal]
pub ghost struct Server {
    pub host: Seq<char>,
    pub port: u16,
    pub weight: u32,
}

impl View for Balance {
    type V = Spread;

    open spec fn view(&self) -> Spread {
        match self {
            Balance::RoundRobin => Spread::RoundRobin,
            Balance::LeastConnections => Spread::LeastConnections,
            Balance::Hash(k) => Spread::Hash(k@),
            Balance::Sticky(c) => Spread::Sticky(c@),
        }
    }
}

impl View for HealthCheck {
    type V = Check;

    open spec fn view(&self) -> Check {
        Check {
            path: self.path@,
            interval: self.interval,
            timeout: self.timeout,
            status: self.status,
        }
    }
}

impl View for Options {
    type V = Rules;

    open spec fn view(&self) -> Rules {
        Rules {
            balance: self.balance@,
            max_inflight: self.max_inflight,
            health: match self.health {
                Some(h) => Some(h@),
                None => None,
            },
        }
    }
}

impl View for Origin {
    type V = Server;

    open spec fn view(&self) -> Server {
        Server { host: self.host@, port: self.port, weight: self.weight }
    }
}

pub open spec fn servers(v: Seq<Origin>) -> Seq<Server> {
    Seq::new(v.len(), |i: int| v[i]@)
}

/// Whether options are within their limits.
pub open spec fn rules_checked(r: Rules) -> Result<(), OptionsError> {
    if r.max_inflight > MAX_INFLIGHT {
        Err(OptionsError::Concurrency)
    } else {
        match r.health {
            None => Ok(()),
            Some(h) => if !health_path(h.path) {
                Err(OptionsError::HealthPath)
            } else if !(1 <= h.interval / 1000 <= 3600 && 0 < h.timeout <= 30000) {
                Err(OptionsError::HealthTimes)
            } else if !(200 <= h.status <= 399) {
                Err(OptionsError::HealthStatus)
            } else {
                Ok(())
            },
        }
    }
}

impl Default for Options {
    fn default() -> (r: Self)
        ensures
            r@ == (Rules { balance: Spread::RoundRobin, max_inflight: 0, health: None }),
    {
        Options { balance: Balance::RoundRobin, max_inflight: 0, health: None }
    }
}

impl Options {
    pub fn copy(&self) -> (r: Options)
        ensures
            r@ == self@,
    {
        Options {
            balance: match &self.balance {
                Balance::RoundRobin => Balance::RoundRobin,
                Balance::LeastConnections => Balance::LeastConnections,
                Balance::Hash(s) => Balance::Hash(s.clone()),
                Balance::Sticky(s) => Balance::Sticky(s.clone()),
            },
            max_inflight: self.max_inflight,
            health: match &self.health {
                Some(h) => Some(
                    HealthCheck {
                        path: h.path.clone(),
                        interval: h.interval,
                        timeout: h.timeout,
                        status: h.status,
                    },
                ),
                None => None,
            },
        }
    }
}

impl Options {
    pub fn validate(&self) -> (r: Result<(), OptionsError>)
        ensures
            r == rules_checked(self@),
    {
        if self.max_inflight > MAX_INFLIGHT {
            return Err(OptionsError::Concurrency);
        }
        match &self.health {
            None => Ok(()),
            Some(h) => {
                let p = h.path.as_str();
                let n = p.unicode_len();
                if !(n > 0 && p.get_char(0) == '/' && !(n > 1 && p.get_char(1) == '/') && text::len(p)
                    <= 1024 && !text::has_char(p, '\r') && !text::has_char(p, '\n')
                    && !text::has_char(p, '#')) {
                    return Err(OptionsError::HealthPath);
                }
                let seconds: u64 = h.interval / 1000;
                if !(1 <= seconds && seconds <= 3600 && 0 < h.timeout && h.timeout <= 30000) {
                    return Err(OptionsError::HealthTimes);
                }
                if !(200 <= h.status && h.status <= 399) {
                    return Err(OptionsError::HealthStatus);
                }
                Ok(())
            },
        }
    }
}

/// An address that requests go to, with its share of them.
#[derive(Clone, Copy, Debug, PartialEq, Eq, Structural)]
pub struct Endpoint {
    pub address: Socket,
    pub weight: u32,
}

/// An endpoint and how it is doing.
#[derive(Clone, Copy, Debug, PartialEq, Eq, Structural)]
pub struct Member {
    pub endpoint: Endpoint,
    /// Tells this stay of the endpoint in the pool from earlier and later ones.
    pub id: u64,
    /// The requests that are under way.
    pub active: usize,
    pub failures: usize,
    pub blocked_until: Option<u64>,
    pub active_ok: Option<bool>,
}

/// The endpoints of a backend. Times are in milliseconds on one clock.
#[derive(Debug)]
pub struct Pool {
    pub members: Vec<Member>,
    pub active: usize,
    pub cursor: u64,
    pub next_id: u64,
    pub next_dns: u64,
    pub dns_success: u64,
    pub next_health: u64,
}

/// A request that is under way at an endpoint.
#[derive(Clone, Copy, Debug, PartialEq, Eq, Structural)]
pub struct Lease {
    pub address: Socket,
    pub id: u64,
}

/// A member whose block has run out is let in again.
pub open spec fn woken(m: Member, now: u64) -> Member {
    match m.blocked_until {
        Some(until) => if until <= now {
            Member { blocked_until: None, failures: 0, ..m }
        } else {
            m
        },
        None => m,
    }
}

pub open spec fn all_woken(v: Seq<Member>, now: u64) -> Seq<Member> {
    Seq::new(v.len(), |i: int| woken(v[i], now))
}

/// Whether requests may go to a member; where checks are made, they have to have succeeded.
pub open spec fn usable(m: Member, checks: bool) -> bool {
    m.blocked_until is None && (!checks || m.active_ok == Some(true))
}

/// The indices of the members that may be used, in order.
pub open spec fn eligible(v: Seq<Member>, checks: bool) -> Seq<int>
    decreases v.len(),
{
    if v.len() == 0 {
        Seq::empty()
    } else if usable(v.last(), checks) {
        eligible(v.drop_last(), checks).push(v.len() - 1)
    } else {
        eligible(v.drop_last(), checks)
    }
}

/// The sum of the weights of some members.
pub open spec fn weight_of(v: Seq<Member>, at: Seq<int>) -> nat
    decreases at.len(),
{
    if at.len() == 0 {
        0
    } else {
        weight_of(v, at.drop_last()) + v[at.last()].endpoint.weight as nat
    }
}

/// Whether `k` is the place in `at` on which `n` falls when each member takes as many numbers as its
/// weight.
pub open spec fn falls_on(v: Seq<Member>, at: Seq<int>, n: int, k: int) -> bool {
    0 <= k < at.len() && weight_of(v, at.take(k)) <= n < weight_of(v, at.take(k + 1))
}

/// Whether a member has fewer requests under way than another, by weight.
pub open spec fn lighter(a: Member, b: Member) -> bool {
    a.active * b.endpoint.weight < b.active * a.endpoint.weight
}

/// The member of `order` that is kept when each is compared with the ones before it.
pub open spec fn lightest(v: Seq<Member>, order: Seq<int>) -> int
    decreases order.len(),
{
    if order.len() <= 1 {
        order[0]
    } else {
        let best = lightest(v, order.drop_last());
        if lighter(v[order.last()], v[best]) {
            order.last()
        } else {
            best
        }
    }
}

/// `at` from place `k` on, then the places before it.
pub open spec fn rotated(at: Seq<int>, k: int) -> Seq<int> {
    at.skip(k) + at.take(k)
}

/// The first of `at` with the least score.
pub open spec fn least_score(at: Seq<int>, scores: Seq<u64>) -> int
    decreases at.len(),
{
    if at.len() <= 1 {
        at[0]
    } else {
        let best = least_score(at.drop_last(), scores);
        if scores[at.last()] < scores[best] {
            at.last()
        } else {
            best
        }
    }
}

/// Whether the pool has to be left alone because enough requests are under way.
pub open spec fn saturated(active: usize, options: Options) -> bool {
    options.max_inflight > 0 && active >= options.max_inflight
}

/// Whether `i` is the member that the next request goes to.
pub open spec fn picked(
    v: Seq<Member>,
    options: Options,
    cursor: u64,
    scores: Seq<u64>,
    i: int,
) -> bool {
    let at = eligible(v, options.health is Some);
    match options.balance {
        Balance::RoundRobin => exists|k: int|
            #[trigger] falls_on(v, at, cursor as int % weight_of(v, at) as int, k) && i == at[k],
        Balance::LeastConnections => i == lightest(
            v,
            rotated(at, cursor as int % at.len() as int),
        ),
        _ => i == least_score(at, scores),
    }
}

proof fn lemma_eligible(v: Seq<Member>, checks: bool)
    ensures
        eligible(v, checks).len() <= v.len(),
        forall|k: int|
            0 <= k < eligible(v, checks).len() ==> 0 <= #[trigger] eligible(v, checks)[k] < v.len()
                && usable(v[eligible(v, checks)[k]], checks),
    decreases v.len(),
{
    if v.len() > 0 {
        lemma_eligible(v.drop_last(), checks);
        let e = eligible(v, checks);
        assert forall|k: int| 0 <= k < e.len() implies 0 <= #[trigger] e[k] < v.len() && usable(
            v[e[k]],
            checks,
        ) by {
            if k < eligible(v.drop_last(), checks).len() {
                assert(e[k] == eligible(v.drop_last(), checks)[k]);
                assert(v.drop_last()[e[k]] == v[e[k]]);
            }
        }
    }
}

proof fn lemma_weight_bound(v: Seq<Member>, at: Seq<int>)
    ensures
        weight_of(v, at) <= at.len() * 0xFFFF_FFFF,
    decreases at.len(),
{
    if at.len() > 0 {
        lemma_weight_bound(v, at.drop_last());
        assert(at.len() * 0xFFFF_FFFF == (at.len() - 1) * 0xFFFF_FFFF + 0xFFFF_FFFF)
            by (nonlinear_arith)
            requires
                at.len() > 0,
        ;
    }
}

proof fn lemma_weight_monotone(v: Seq<Member>, at: Seq<int>, i: int)
    requires
        0 <= i <= at.len(),
    ensures
        weight_of(v, at.take(i)) <= weight_of(v, at),
    decreases at.len(),
{
    if i < at.len() {
        lemma_weight_monotone(v, at.drop_last(), i);
        assert(at.drop_last().take(i) =~= at.take(i));
    } else {
        assert(at.take(i) =~= at);
    }
}

spec fn as_ints(v: Seq<usize>) -> Seq<int> {
    Seq::new(v.len(), |i: int| v[i] as int)
}

/// What a pool is after a member was looked for, and the lease of the one that was taken.
pub open spec fn taken(p: Pool, options: Options, now: u64, scores: Seq<u64>, r: Option<Lease>, q: Pool) -> bool {
    let v = all_woken(p.members@, now);
    let at = eligible(v, options.health is Some);
    &&& if saturated(p.active, options) {
        r is None && q == p
    } else if weight_of(v, at) == 0 {
        &&& r is None
        &&& q.members@ == v
        &&& q.active == p.active
        &&& q.cursor == p.cursor
    } else {
        &&& r is Some
        &&& exists|i: int|
            #![trigger v[i]]
            0 <= i < v.len() && usable(v[i], options.health is Some) && picked(
                v,
                options,
                p.cursor,
                scores,
                i,
            ) && r->0 == (Lease { address: v[i].endpoint.address, id: v[i].id }) && q.members@ == v.update(
                i,
                Member { active: (v[i].active + 1) as usize, ..v[i] },
            )
        &&& q.active == p.active + 1
        &&& q.cursor == match options.balance {
            Balance::RoundRobin => turned(p.cursor),
            Balance::LeastConnections => turned(p.cursor),
            _ => p.cursor,
        }
    }
    &&& q.next_id == p.next_id
    &&& q.next_dns == p.next_dns
    &&& q.dns_success == p.dns_success
    &&& q.next_health == p.next_health
}

impl Pool {
    /// There are few enough members to add up their weights, and fresh identities are left.
    pub open spec fn wf(&self) -> bool {
        &&& self.members@.len() <= 0xFFFF_FFFF
        &&& forall|i: int| 0 <= i < self.members@.len() ==> (#[trigger] self.members@[i]).id
            < self.next_id
        &&& forall|i: int, j: int|
            0 <= i < j < self.members@.len() ==> (#[trigger] self.members@[i]).id != (
            #[trigger] self.members@[j]).id
    }

    /// A pool of endpoints that nothing is known of yet.
    pub fn new(endpoints: &Vec<Endpoint>, now: u64) -> (p: Pool)
        requires
            endpoints@.len() <= 0xFFFF_FFFF,
        ensures
            p.wf(),
            p.active == 0 && p.cursor == 0,
            p.next_dns == now && p.dns_success == now && p.next_health == now,
            p.members@.len() == endpoints@.len(),
            forall|i: int|
                0 <= i < endpoints@.len() ==> #[trigger] p.members@[i] == fresh(
                    endpoints@[i],
                    i as u64,
                ),
    {
        let mut members: Vec<Member> = Vec::new();
        let mut i: usize = 0;
        while i < endpoints.len()
            invariant
                i <= endpoints.len() <= 0xFFFF_FFFF,
                members@.len() == i,
                forall|j: int|
                    0 <= j < i ==> #[trigger] members@[j] == fresh(endpoints@[j], j as u64),
            decreases endpoints.len() - i,
        {
            members.push(
                Member {
                    endpoint: endpoints[i],
                    id: i as u64,
                    active: 0,
                    failures: 0,
                    blocked_until: None,
                    active_ok: None,
                },
            );
            i += 1;
        }
        Pool {
            members,
            active: 0,
            cursor: 0,
            next_id: endpoints.len() as u64,
            next_dns: now,
            dns_success: now,
            next_health: now,
        }
    }

    fn wake(&mut self, now: u64)
        ensures
            final(self).members@ == all_woken(old(self).members@, now),
            final(self).active == old(self).active,
            final(self).cursor == old(self).cursor,
            final(self).next_id == old(self).next_id,
            final(self).next_dns == old(self).next_dns,
            final(self).dns_success == old(self).dns_success,
            final(self).next_health == old(self).next_health,
    {
        let mut i: usize = 0;
        while i < self.members.len()
            invariant
                i <= self.members.len(),
                self.members@.len() == old(self).members@.len(),
                forall|j: int|
                    0 <= j < i ==> #[trigger] self.members@[j] == woken(old(self).members@[j], now),
                forall|j: int|
                    i <= j < self.members@.len() ==> #[trigger] self.members@[j] == old(
                        self,
                    ).members@[j],
                self.active == old(self).active,
                self.cursor == old(self).cursor,
                self.next_id == old(self).next_id,
                self.next_dns == old(self).next_dns,
                self.dns_success == old(self).dns_success,
                self.next_health == old(self).next_health,
            decreases self.members.len() - i,
        {
            let mut m = self.members[i];
            match m.blocked_until {
                Some(until) => {
                    if until <= now {
                        m.blocked_until = None;
                        m.failures = 0;
                    }
                },
                None => {},
            }
            self.members.set(i, m);
            i += 1;
        }
        assert(self.members@ =~= all_woken(old(self).members@, now));
    }

    fn find_eligible(&self, checks: bool) -> (out: Vec<usize>)
        ensures
            as_ints(out@) == eligible(self.members@, checks),
    {
        let mut out: Vec<usize> = Vec::new();
        let mut i: usize = 0;
        assert(as_ints(out@) =~= eligible(self.members@.take(0), checks));
        while i < self.members.len()
            invariant
                i <= self.members.len(),
                as_ints(out@) == eligible(self.members@.take(i as int), checks),
            decreases self.members.len() - i,
        {
            assert(self.members@.take(i + 1).drop_last() =~= self.members@.take(i as int));
            let m = self.members[i];
            let ok = match m.active_ok {
                Some(b) => b,
                None => false,
            };
            if m.blocked_until.is_none() && (!checks || ok) {
                let ghost before = as_ints(out@);
                out.push(i);
                assert(as_ints(out@) =~= before.push(i as int));
            }
            i += 1;
        }
        assert(self.members@.take(i as int) =~= self.members@);
        out
    }

    fn total_weight(&self, at: &Vec<usize>) -> (n: u64)
        requires
            self.wf(),
            at@.len() <= self.members@.len(),
            forall|k: int| 0 <= k < at@.len() ==> #[trigger] at@[k] < self.members@.len(),
        ensures
            n == weight_of(self.members@, as_ints(at@)),
    {
        let ghost ints = as_ints(at@);
        let mut n: u64 = 0;
        let mut i: usize = 0;
        while i < at.len()
            invariant
                i <= at.len() <= self.members@.len() <= 0xFFFF_FFFF,
                forall|k: int| 0 <= k < at@.len() ==> #[trigger] at@[k] < self.members@.len(),
                ints == as_ints(at@),
                n == weight_of(self.members@, ints.take(i as int)),
            decreases at.len() - i,
        {
            proof {
                assert(ints.take(i + 1).drop_last() =~= ints.take(i as int));
                lemma_weight_bound(self.members@, ints.take(i + 1));
                assert((i + 1) * 0xFFFF_FFFF <= 0xFFFF_FFFF * 0xFFFF_FFFF) by (nonlinear_arith)
                    requires
                        i + 1 <= 0xFFFF_FFFF,
                ;
            }
            n += self.members[at[i]].endpoint.weight as u64;
            i += 1;
        }
        assert(ints.take(i as int) =~= ints);
        n
    }

    fn weighted(&self, at: &Vec<usize>, n: u64) -> (r: usize)
        requires
            self.wf(),
            at@.len() <= self.members@.len(),
            forall|k: int| 0 <= k < at@.len() ==> #[trigger] at@[k] < self.members@.len(),
            n < weight_of(self.members@, as_ints(at@)),
        ensures
            r < at@.len(),
            falls_on(self.members@, as_ints(at@), n as int, r as int),
    {
        let ghost ints = as_ints(at@);
        let mut left: u64 = n;
        let mut i: usize = 0;
        while i < at.len()
            invariant
                i <= at.len() <= self.members@.len() <= 0xFFFF_FFFF,
                forall|k: int| 0 <= k < at@.len() ==> #[trigger] at@[k] < self.members@.len(),
                ints == as_ints(at@),
                n < weight_of(self.members@, ints),
                n == left + weight_of(self.members@, ints.take(i as int)),
            decreases at.len() - i,
        {
            assert(ints.take(i + 1).drop_last() =~= ints.take(i as int));
            let w: u64 = self.members[at[i]].endpoint.weight as u64;
            if left < w {
                return i;
            }
            left -= w;
            i += 1;
        }
        proof {
            assert(ints.take(i as int) =~= ints);
            assert(false);
        }
        0
    }

    fn least_loaded(&self, at: &Vec<usize>, offset: usize) -> (r: usize)
        requires
            at@.len() > 0,
            offset < at@.len(),
            forall|k: int| 0 <= k < at@.len() ==> #[trigger] at@[k] < self.members@.len(),
        ensures
            r < self.members@.len(),
            r == lightest(self.members@, rotated(as_ints(at@), offset as int)),
            exists|k: int| 0 <= k < at@.len() && at@[k] == r,
    {
        let ghost order = rotated(as_ints(at@), offset as int);
        let mut best: usize = at[offset];
        let ghost mut place: int = offset as int;
        let mut i: usize = 1;
        assert(order[0] == at@[offset as int]);
        assert(order.take(1)[0] == order[0]);
        while i < at.len()
            invariant
                1 <= i <= at.len(),
                offset < at.len(),
                forall|k: int| 0 <= k < at@.len() ==> #[trigger] at@[k] < self.members@.len(),
                order == rotated(as_ints(at@), offset as int),
                best == lightest(self.members@, order.take(i as int)),
                best < self.members@.len(),
                0 <= place < at@.len() && at@[place] == best,
            decreases at.len() - i,
        {
            let k: usize = if i < at.len() - offset {
                offset + i
            } else {
                i - (at.len() - offset)
            };
            proof {
                assert(order[i as int] == at@[k as int]);
                assert(order.take(i + 1).drop_last() =~= order.take(i as int));
                assert(order.take(i + 1).last() == order[i as int]);
            }
            let a = self.members[at[k]];
            let b = self.members[best];
            proof {
                assert(a.active * b.endpoint.weight <= 0xFFFF_FFFF_FFFF_FFFF * 0xFFFF_FFFF
                    && b.active * a.endpoint.weight <= 0xFFFF_FFFF_FFFF_FFFF * 0xFFFF_FFFF)
                    by (nonlinear_arith)
                    requires
                        a.active <= 0xFFFF_FFFF_FFFF_FFFF,
                        b.active <= 0xFFFF_FFFF_FFFF_FFFF,
                        0 <= a.endpoint.weight <= 0xFFFF_FFFF,
                        0 <= b.endpoint.weight <= 0xFFFF_FFFF,
                        0 <= a.active,
                        0 <= b.active,
                ;
            }
            if (a.active as u128) * (b.endpoint.weight as u128) < (b.active as u128) * (
            a.endpoint.weight as u128) {
                best = at[k];
                proof {
                    place = k as int;
                }
            }
            i += 1;
        }
        assert(order.take(i as int) =~= order);
        best
    }

    fn least_scored(&self, at: &Vec<usize>, scores: &Vec<u64>) -> (r: usize)
        requires
            at@.len() > 0,
            scores@.len() == self.members@.len(),
            forall|k: int| 0 <= k < at@.len() ==> #[trigger] at@[k] < self.members@.len(),
        ensures
            r < self.members@.len(),
            r == least_score(as_ints(at@), scores@),
            exists|k: int| 0 <= k < at@.len() && at@[k] == r,
    {
        let ghost ints = as_ints(at@);
        let mut best: usize = at[0];
        let ghost mut place: int = 0;
        let mut i: usize = 1;
        assert(ints.take(1)[0] == at@[0]);
        while i < at.len()
            invariant
                1 <= i <= at.len(),
                scores@.len() == self.members@.len(),
                forall|k: int| 0 <= k < at@.len() ==> #[trigger] at@[k] < self.members@.len(),
                ints == as_ints(at@),
                best == least_score(ints.take(i as int), scores@),
                best < self.members@.len(),
                0 <= place < at@.len() && at@[place] == best,
            decreases at.len() - i,
        {
            proof {
                assert(ints.take(i + 1).drop_last() =~= ints.take(i as int));
                assert(ints.take(i + 1).last() == at@[i as int]);
            }
            if scores[at[i]] < scores[best] {
                best = at[i];
                proof {
                    place = i as int;
                }
            }
            i += 1;
        }
        assert(ints.take(i as int) =~= ints);
        best
    }

    /// Takes the endpoint that the next request goes to; none where too many are under way or no
    /// endpoint may be used. For `Hash` and `Sticky` the scores decide, the least first.
    pub fn select(&mut self, options: &Options, now: u64, scores: &Vec<u64>) -> (r: Option<Lease>)
        requires
            old(self).wf(),
            old(self).active < usize::MAX,
            forall|i: int|
                0 <= i < old(self).members@.len() ==> (#[trigger] old(self).members@[i]).active
                    < usize::MAX,
            scores@.len() == old(self).members@.len(),
        ensures
            final(self).wf(),
            taken(*old(self), *options, now, scores@, r, *final(self)),
    {
        if options.max_inflight > 0 && self.active >= options.max_inflight {
            return None;
        }
        self.wake(now);
        let ghost v = self.members@;
        let at = self.find_eligible(options.health.is_some());
        proof {
            lemma_eligible(v, options.health is Some);
            assert forall|k: int| 0 <= k < at@.len() implies #[trigger] at@[k]
                < self.members@.len() && usable(v[at@[k] as int], options.health is Some) by {
                assert(as_ints(at@)[k] == at@[k]);
            }
            assert(as_ints(at@).len() == at@.len());
        }
        let total = self.total_weight(&at);
        if total == 0 {
            return None;
        }
        let ghost ints = as_ints(at@);
        assert(at@.len() > 0);
        let ghost cursor = self.cursor;
        let i: usize = match &options.balance {
            Balance::RoundRobin => {
                let n: u64 = self.cursor % total;
                self.turn();
                let k = self.weighted(&at, n);
                assert(ints[k as int] == at@[k as int]);
                at[k]
            },
            Balance::LeastConnections => {
                let offset: usize = (self.cursor % at.len() as u64) as usize;
                self.turn();
                self.least_loaded(&at, offset)
            },
            _ => self.least_scored(&at, scores),
        };
        let mut m = self.members[i];
        m.active += 1;
        self.members.set(i, m);
        self.active += 1;
        proof {
            assert(v[i as int].id == m.id);
            assert(picked(v, *options, cursor, scores@, i as int));
        }
        Some(Lease { address: m.endpoint.address, id: m.id })
    }

    fn turn(&mut self)
        ensures
            *final(self) == (Pool { cursor: turned(old(self).cursor), ..*old(self) }),
    {
        self.cursor = if self.cursor == u64::MAX {
            0
        } else {
            self.cursor + 1
        };
    }
}

/// The cursor after one more request.
pub open spec fn turned(cursor: u64) -> u64 {
    if cursor == u64::MAX {
        0
    } else {
        (cursor + 1) as u64
    }
}

/// An endpoint that nothing is known of.
pub open spec fn fresh(e: Endpoint, id: u64) -> Member {
    Member {
        endpoint: e,
        id,
        active: 0,
        failures: 0,
        blocked_until: None,
        active_ok: None,
    }
}

// ---------------------------------------------------------------------------
// Results of requests
// ---------------------------------------------------------------------------

/// The first member at an address, or the number of members.
pub open spec fn place_of(v: Seq<Member>, address: Socket) -> int
    decreases v.len(),
{
    if v.len() == 0 || v[0].endpoint.address == address {
        0
    } else {
        1 + place_of(v.drop_first(), address)
    }
}

/// A member after a request to it, and whether it is left out from now on.
pub open spec fn after_result(
    m: Member,
    failed: bool,
    max_fails: usize,
    until: u64,
) -> (Member, bool) {
    if !failed {
        (Member { failures: 0, blocked_until: None, ..m }, false)
    } else if max_fails == 0 {
        (m, false)
    } else {
        let failures = if m.failures == usize::MAX {
            m.failures
        } else {
            (m.failures + 1) as usize
        };
        if failures >= max_fails && m.blocked_until is None {
            (Member { failures, blocked_until: Some(until), ..m }, true)
        } else {
            (Member { failures, ..m }, false)
        }
    }
}

/// The pool after some members were replaced.
pub open spec fn with_members(p: Pool, v: Seq<Member>, q: Pool) -> bool {
    &&& q.members@ == v
    &&& q.active == p.active && q.cursor == p.cursor && q.next_id == p.next_id
    &&& q.next_dns == p.next_dns && q.dns_success == p.dns_success && q.next_health
        == p.next_health
}

proof fn lemma_place(v: Seq<Member>, address: Socket, p: int)
    requires
        0 <= p <= v.len(),
        p < v.len() ==> v[p].endpoint.address == address,
        forall|i: int| 0 <= i < p ==> (#[trigger] v[i]).endpoint.address != address,
    ensures
        place_of(v, address) == p,
    decreases v.len(),
{
    if v.len() > 0 && p > 0 {
        let w = v.drop_first();
        assert forall|i: int| 0 <= i < p - 1 implies (#[trigger] w[i]).endpoint.address
            != address by {
            assert(w[i] == v[i + 1]);
        }
        lemma_place(w, address, p - 1);
        assert(v[0].endpoint.address != address);
    }
}

impl Pool {
    fn find(&self, address: Socket) -> (r: usize)
        ensures
            r <= self.members@.len(),
            r == place_of(self.members@, address),
            r < self.members@.len() ==> self.members@[r as int].endpoint.address == address,
    {
        let mut i: usize = 0;
        while i < self.members.len() && self.members[i].endpoint.address != address
            invariant
                i <= self.members.len(),
                forall|j: int|
                    0 <= j < i ==> (#[trigger] self.members@[j]).endpoint.address != address,
            decreases self.members.len() - i,
        {
            i += 1;
        }
        proof {
            lemma_place(self.members@, address, i as int);
        }
        i
    }

    /// Notes how a request to an endpoint went; says whether the endpoint is left out from now on.
    ///
    /// After `max_fails` failures in a row it is, for `cooldown`; a success clears the count.
    pub fn record_result(
        &mut self,
        address: Socket,
        failed: bool,
        max_fails: usize,
        now: u64,
        cooldown: u64,
    ) -> (r: bool)
        requires
            old(self).wf(),
            now + cooldown <= u64::MAX,
        ensures
            final(self).wf(),
            ({
                let v = old(self).members@;
                let i = place_of(v, address);
                if i >= v.len() {
                    !r && *final(self) == *old(self)
                } else {
                    let (m, blocked) = after_result(
                        v[i],
                        failed,
                        max_fails,
                        (now + cooldown) as u64,
                    );
                    r == blocked && with_members(*old(self), v.update(i, m), *final(self))
                }
            }),
    {
        let i = self.find(address);
        if i >= self.members.len() {
            return false;
        }
        let mut m = self.members[i];
        let mut blocked = false;
        if !failed {
            m.failures = 0;
            m.blocked_until = None;
        } else if max_fails > 0 {
            m.failures = if m.failures == usize::MAX {
                m.failures
            } else {
                m.failures + 1
            };
            if m.failures >= max_fails && m.blocked_until.is_none() {
                m.blocked_until = Some(now + cooldown);
                blocked = true;
            }
        }
        self.members.set(i, m);
        assert(old(self).members@[i as int].id == m.id);
        blocked
    }

    /// Whether a lease is one of this pool that has not been given back: its count can go down.
    pub open spec fn holds(&self, lease: Lease) -> bool {
        self.active > 0 && forall|i: int|
            0 <= i < self.members@.len() && (#[trigger] self.members@[i]).id == lease.id
                ==> self.members@[i].active > 0
    }

    /// Gives a lease back. An endpoint that has left the pool meanwhile is not touched.
    pub fn release(&mut self, lease: Lease)
        requires
            old(self).wf(),
            old(self).holds(lease),
        ensures
            final(self).wf(),
            returned(*old(self), lease, *final(self)),
    {
        let mut i: usize = 0;
        while i < self.members.len() && self.members[i].id != lease.id
            invariant
                i <= self.members.len(),
                forall|j: int| 0 <= j < i ==> (#[trigger] self.members@[j]).id != lease.id,
            decreases self.members.len() - i,
        {
            i += 1;
        }
        let ghost v = self.members@;
        if i < self.members.len() {
            let mut m = self.members[i];
            m.active -= 1;
            self.members.set(i, m);
            assert(self.members@ =~= released(v, lease.id)) by {
                assert forall|j: int| 0 <= j < v.len() implies self.members@[j] == released(
                    v,
                    lease.id,
                )[j] by {
                    if j != i {
                        assert(v[j].id != v[i as int].id);
                    }
                }
            }
            assert(v[i as int].id == m.id);
        } else {
            assert(self.members@ =~= released(v, lease.id));
        }
        self.active -= 1;
    }
}

/// What a pool is after a lease was given back.
pub open spec fn returned(p: Pool, lease: Lease, q: Pool) -> bool {
    &&& q.active == p.active - 1
    &&& q.cursor == p.cursor
    &&& q.next_id == p.next_id
    &&& q.next_dns == p.next_dns
    &&& q.dns_success == p.dns_success
    &&& q.next_health == p.next_health
    &&& q.members@ == released(p.members@, lease.id)
}

/// The members with one request less under way at the one with an identity.
pub open spec fn released(v: Seq<Member>, id: u64) -> Seq<Member> {
    Seq::new(
        v.len(),
        |i: int|
            if v[i].id == id {
                Member { active: (v[i].active - 1) as usize, ..v[i] }
            } else {
                v[i]
            },
    )
}

// ---------------------------------------------------------------------------
// Name resolution and health checks
// ---------------------------------------------------------------------------

pub open spec fn ip_before(a: Ip, b: Ip) -> bool {
    match (a, b) {
        (Ip::V4(x), Ip::V4(y)) => x < y,
        (Ip::V6(x), Ip::V6(y)) => x < y,
        (Ip::V4(_), Ip::V6(_)) => true,
        _ => false,
    }
}

/// The order of addresses: by family, address, port and scope.
pub open spec fn before(a: Socket, b: Socket) -> bool {
    ip_before(a.ip, b.ip) || (a.ip == b.ip && (a.port < b.port || (a.port == b.port && a.scope
        < b.scope)))
}

pub fn is_before(a: Socket, b: Socket) -> (r: bool)
    ensures
        r == before(a, b),
{
    let ip = match (a.ip, b.ip) {
        (Ip::V4(x), Ip::V4(y)) => x < y,
        (Ip::V6(x), Ip::V6(y)) => x < y,
        (Ip::V4(_), Ip::V6(_)) => true,
        _ => false,
    };
    ip || (a.ip == b.ip && (a.port < b.port || (a.port == b.port && a.scope < b.scope)))
}

/// Endpoints in the order of their addresses, no address twice.
pub open spec fn ordered(v: Seq<Endpoint>) -> bool {
    forall|i: int, j: int|
        0 <= i < j < v.len() ==> before((#[trigger] v[i]).address, (#[trigger] v[j]).address)
}

/// The weight of an address in a list, the last one where it occurs more than once.
pub open spec fn weight_at(v: Seq<Endpoint>, address: Socket) -> Option<u32>
    decreases v.len(),
{
    if v.len() == 0 {
        None
    } else if v.last().address == address {
        Some(v.last().weight)
    } else {
        weight_at(v.drop_last(), address)
    }
}

proof fn lemma_weight_at(v: Seq<Endpoint>, address: Socket, i: int)
    requires
        0 <= i < v.len(),
        v[i].address == address,
        forall|j: int| i < j < v.len() ==> (#[trigger] v[j]).address != address,
    ensures
        weight_at(v, address) == Some(v[i].weight),
    decreases v.len(),
{
    if i < v.len() - 1 {
        assert(v[v.len() - 1].address != address);
        assert(v.drop_last()[i] == v[i]);
        lemma_weight_at(v.drop_last(), address, i);
    }
}

proof fn lemma_weight_absent(v: Seq<Endpoint>, address: Socket)
    ensures
        weight_at(v, address) is None <==> forall|j: int|
            0 <= j < v.len() ==> (#[trigger] v[j]).address != address,
    decreases v.len(),
{
    if v.len() > 0 {
        lemma_weight_absent(v.drop_last(), address);
        assert(v[v.len() - 1] == v.last());
        if weight_at(v, address) is None {
            assert forall|j: int| 0 <= j < v.len() implies (#[trigger] v[j]).address != address by {
                if j < v.len() - 1 {
                    assert(v.drop_last()[j] == v[j]);
                }
            }
        }
        if forall|j: int| 0 <= j < v.len() ==> (#[trigger] v[j]).address != address {
            assert forall|j: int| 0 <= j < v.drop_last().len() implies (
            #[trigger] v.drop_last()[j]).address != address by {
                assert(v.drop_last()[j] == v[j]);
            }
        }
    }
}

/// Puts an endpoint in its place; one with the same address is replaced.
fn put(v: &mut Vec<Endpoint>, e: Endpoint)
    requires
        ordered(old(v)@),
    ensures
        ordered(final(v)@),
        forall|a: Socket|
            weight_at(final(v)@, a) == if a == e.address {
                Some(e.weight)
            } else {
                #[trigger] weight_at(old(v)@, a)
            },
        final(v)@.len() <= old(v)@.len() + 1,
{
    let ghost start = v@;
    let mut i: usize = 0;
    while i < v.len() && is_before(v[i].address, e.address)
        invariant
            i <= v.len(),
            v@ == start,
            ordered(start),
            forall|j: int| 0 <= j < i ==> before((#[trigger] v@[j]).address, e.address),
        decreases v.len() - i,
    {
        i += 1;
    }
    if i < v.len() && v[i].address == e.address {
        v.set(i, e);
        proof {
            let now = v@;
            assert(now =~= start.update(i as int, e));
            assert forall|j: int, k: int| 0 <= j < k < now.len() implies before(
                (#[trigger] now[j]).address,
                (#[trigger] now[k]).address,
            ) by {
                assert(before(start[j].address, start[k].address));
            }
            assert forall|a: Socket|
                weight_at(now, a) == if a == e.address {
                    Some(e.weight)
                } else {
                    #[trigger] weight_at(start, a)
                } by {
                lemma_replaced(start, now, i as int, e, a);
            }
        }
    } else {
        v.insert(i, e);
        proof {
            let now = v@;
            assert(now =~= start.insert(i as int, e));
            assert(ordered(now)) by {
                assert forall|j: int, k: int| 0 <= j < k < now.len() implies before(
                    (#[trigger] now[j]).address,
                    (#[trigger] now[k]).address,
                ) by {
                    if j < i && k > i {
                        assert(before(start[j].address, start[k - 1].address));
                    } else if j < i && k < i {
                        assert(before(start[j].address, start[k].address));
                    } else if j > i {
                        assert(before(start[j - 1].address, start[k - 1].address));
                    } else if j == i {
                        lemma_next(start, i as int, e);
                        if k - 1 > i {
                            assert(before(start[i as int].address, start[k - 1].address));
                        }
                    } else {
                        assert(before(start[j].address, e.address));
                    }
                }
            }
            assert forall|a: Socket|
                weight_at(now, a) == if a == e.address {
                    Some(e.weight)
                } else {
                    #[trigger] weight_at(start, a)
                } by {
                lemma_inserted(start, now, i as int, e, a);
            }
        }
    }
}

proof fn lemma_next(v: Seq<Endpoint>, i: int, e: Endpoint)
    requires
        0 <= i < v.len(),
        !before(v[i].address, e.address),
        v[i].address != e.address,
    ensures
        before(e.address, v[i].address),
{
}

proof fn lemma_distinct(v: Seq<Endpoint>, i: int)
    requires
        ordered(v),
        0 <= i < v.len(),
    ensures
        weight_at(v, v[i].address) == Some(v[i].weight),
{
    assert forall|j: int| i < j < v.len() implies (#[trigger] v[j]).address != v[i].address by {
        assert(before(v[i].address, v[j].address));
    }
    lemma_weight_at(v, v[i].address, i);
}

proof fn lemma_replaced(
    start: Seq<Endpoint>,
    now: Seq<Endpoint>,
    i: int,
    e: Endpoint,
    a: Socket,
)
    requires
        ordered(start),
        ordered(now),
        0 <= i < start.len(),
        start[i].address == e.address,
        now == start.update(i, e),
    ensures
        weight_at(now, a) == if a == e.address {
            Some(e.weight)
        } else {
            weight_at(start, a)
        },
{
    lemma_weight_absent(start, a);
    lemma_weight_absent(now, a);
    if a == e.address {
        lemma_distinct(now, i);
    } else if weight_at(start, a) is Some {
        let j = choose|j: int| 0 <= j < start.len() && (#[trigger] start[j]).address == a;
        lemma_distinct(start, j);
        assert(now[j] == start[j]);
        lemma_distinct(now, j);
    } else {
        assert forall|j: int| 0 <= j < now.len() implies (#[trigger] now[j]).address != a by {
            assert(start[j].address != a);
        }
    }
}

proof fn lemma_inserted(
    start: Seq<Endpoint>,
    now: Seq<Endpoint>,
    i: int,
    e: Endpoint,
    a: Socket,
)
    requires
        ordered(start),
        ordered(now),
        0 <= i <= start.len(),
        now == start.insert(i, e),
    ensures
        weight_at(now, a) == if a == e.address {
            Some(e.weight)
        } else {
            weight_at(start, a)
        },
{
    lemma_weight_absent(start, a);
    lemma_weight_absent(now, a);
    if a == e.address {
        lemma_distinct(now, i);
    } else if weight_at(start, a) is Some {
        let j = choose|j: int| 0 <= j < start.len() && (#[trigger] start[j]).address == a;
        lemma_distinct(start, j);
        if j < i {
            assert(now[j] == start[j]);
            lemma_distinct(now, j);
        } else {
            assert(now[j + 1] == start[j]);
            lemma_distinct(now, j + 1);
        }
    } else {
        assert forall|j: int| 0 <= j < now.len() implies (#[trigger] now[j]).address != a by {
            if j < i {
                assert(start[j].address != a);
            } else if j > i {
                assert(start[j - 1].address != a);
            }
        }
    }
}

/// Whether `out` is the set of endpoints that names were resolved to, in order.
pub open spec fn settled(found: Seq<Endpoint>, out: Seq<Endpoint>) -> bool {
    ordered(out) && forall|a: Socket| #[trigger] weight_at(out, a) == weight_at(found, a)
}

/// The endpoints in the order of their addresses; of two with one address the later one counts.
pub fn settle(found: &Vec<Endpoint>) -> (out: Vec<Endpoint>)
    ensures
        settled(found@, out@),
        out@.len() <= found@.len(),
{
    let mut out: Vec<Endpoint> = Vec::new();
    let mut i: usize = 0;
    while i < found.len()
        invariant
            i <= found.len(),
            settled(found@.take(i as int), out@),
            out@.len() <= i,
        decreases found.len() - i,
    {
        let ghost last = out@;
        put(&mut out, found[i]);
        proof {
            let now = found@.take(i + 1);
            assert(now.drop_last() =~= found@.take(i as int));
            assert forall|a: Socket| #[trigger] weight_at(out@, a) == weight_at(now, a) by {
                assert(weight_at(last, a) == weight_at(found@.take(i as int), a));
            }
        }
        i += 1;
    }
    assert(found@.take(i as int) =~= found@);
    out
}

/// What has to be done for a pool at a moment.
#[derive(Clone, Copy, Debug, PartialEq, Eq, Structural)]
pub struct Due {
    pub resolve: bool,
    pub check: bool,
}

/// The last member at an address.
pub open spec fn last_at(v: Seq<Member>, address: Socket) -> Option<Member>
    decreases v.len(),
{
    if v.len() == 0 {
        None
    } else if v.last().endpoint.address == address {
        Some(v.last())
    } else {
        last_at(v.drop_last(), address)
    }
}

/// The member for an endpoint in a refreshed pool: it keeps its counts where it was in the pool.
pub open spec fn renewed(v: Seq<Member>, e: Endpoint, id: u64) -> Member {
    match last_at(v, e.address) {
        Some(m) => Member { endpoint: e, ..m },
        None => fresh(e, id),
    }
}

/// What a pool is after names were resolved to the endpoints that were found.
pub open spec fn renewal(p: Pool, found: Seq<Endpoint>, until: u64, now: u64, q: Pool) -> bool {
    &&& exists|out: Seq<Endpoint>, ids: Seq<u64>|
        #![trigger settled(found, out), ids.len()]
        settled(found, out) && ids.len() == out.len() && q.members@.len() == out.len() && (forall|i: int|
            0 <= i < out.len() ==> #[trigger] q.members@[i] == renewed(p.members@, out[i], ids[i])
                && p.next_id <= ids[i] < q.next_id)
    &&& q.next_id >= p.next_id
    &&& q.next_dns == if until > now + 1000 {
        until
    } else {
        (now + 1000) as u64
    }
    &&& q.dns_success == now
    &&& q.active == p.active
    &&& q.cursor == p.cursor
    &&& q.next_health == p.next_health
}

/// Whether an origin is named by a host name and not by an address.
pub open spec fn named_origin(origins: Seq<Origin>) -> bool {
    exists|i: int| 0 <= i < origins.len() && net::parsed_ip((#[trigger] origins[i]).host@) is None
}

fn any_named(origins: &Vec<Origin>) -> (r: bool)
    ensures
        r == named_origin(origins@),
{
    let mut i: usize = 0;
    while i < origins.len()
        invariant
            i <= origins.len(),
            forall|j: int|
                0 <= j < i ==> net::parsed_ip((#[trigger] origins@[j]).host@) is Some,
        decreases origins.len() - i,
    {
        if net::parse_ip(origins[i].host.as_str()).is_none() {
            return true;
        }
        i += 1;
    }
    false
}

impl Pool {
    /// What is due now where names are to be resolved (`named`): a resolution every five seconds, or as
    /// told by the last one, and a check every interval of it.
    pub fn due_for(&mut self, named: bool, options: &Options, now: u64) -> (r: Due)
        requires
            now + 5000 <= u64::MAX,
            options.health is Some ==> now + options.health->0.interval <= u64::MAX,
        ensures
            r.resolve == (named && now >= old(self).next_dns),
            r.check == (options.health is Some && now >= old(self).next_health),
            final(self).next_dns == if r.resolve {
                (now + 5000) as u64
            } else {
                old(self).next_dns
            },
            final(self).next_health == if r.check {
                (now + options.health->0.interval) as u64
            } else {
                old(self).next_health
            },
            final(self).members == old(self).members,
            final(self).active == old(self).active,
            final(self).cursor == old(self).cursor,
            final(self).next_id == old(self).next_id,
            final(self).dns_success == old(self).dns_success,
    {
        let resolve = named && now >= self.next_dns;
        if resolve {
            self.next_dns = now + 5000;
        }
        let mut check = false;
        match &options.health {
            Some(h) => {
                if now >= self.next_health {
                    check = true;
                    self.next_health = now + h.interval;
                }
            },
            None => {},
        }
        Due { resolve, check }
    }

    /// What is due now for these origins.
    pub fn due(&mut self, origins: &Vec<Origin>, options: &Options, now: u64) -> (r: Due)
        requires
            now + 5000 <= u64::MAX,
            options.health is Some ==> now + options.health->0.interval <= u64::MAX,
        ensures
            r.resolve == (named_origin(origins@) && now >= old(self).next_dns),
            r.check == (options.health is Some && now >= old(self).next_health),
            final(self).next_dns == if r.resolve {
                (now + 5000) as u64
            } else {
                old(self).next_dns
            },
            final(self).next_health == if r.check {
                (now + options.health->0.interval) as u64
            } else {
                old(self).next_health
            },
            final(self).members == old(self).members,
            final(self).active == old(self).active,
            final(self).cursor == old(self).cursor,
            final(self).next_id == old(self).next_id,
            final(self).dns_success == old(self).dns_success,
    {
        let named = any_named(origins);
        self.due_for(named, options, now)
    }

    fn find_last(&self, address: Socket) -> (r: Option<Member>)
        ensures
            r == last_at(self.members@, address),
    {
        let mut n: usize = self.members.len();
        assert(self.members@.take(n as int) =~= self.members@);
        while n > 0
            invariant
                n <= self.members.len(),
                last_at(self.members@.take(n as int), address) == last_at(self.members@, address),
            decreases n,
        {
            assert(self.members@.take(n as int).drop_last() =~= self.members@.take(n - 1));
            if self.members[n - 1].endpoint.address == address {
                return Some(self.members[n - 1]);
            }
            n -= 1;
        }
        None
    }

    /// Takes over the endpoints that names were resolved to, valid up to `until`. Endpoints that stay
    /// keep their counts and health, and requests that are under way stay so.
    pub fn refreshed(&mut self, found: &Vec<Endpoint>, until: u64, now: u64)
        requires
            old(self).wf(),
            found@.len() <= 0xFFFF_FFFF,
            old(self).next_id + 0xFFFF_FFFF <= u64::MAX,
            now + 1000 <= u64::MAX,
        ensures
            final(self).wf(),
            renewal(*old(self), found@, until, now, *final(self)),
    {
        let out = settle(found);
        let ghost v = self.members@;
        let ghost first = self.next_id;
        let mut members: Vec<Member> = Vec::new();
        let ghost mut ids: Seq<u64> = Seq::empty();
        let mut id: u64 = self.next_id;
        let mut i: usize = 0;
        while i < out.len()
            invariant
                i <= out.len() <= 0xFFFF_FFFF,
                members@.len() == i,
                ids.len() == i,
                v == self.members@,
                *self == *old(self),
                first == self.next_id,
                self.wf(),
                id == first + i,
                first + 0xFFFF_FFFF <= u64::MAX,
                forall|j: int| 0 <= j < i ==> #[trigger] ids[j] == first + j,
                forall|j: int|
                    0 <= j < i ==> #[trigger] members@[j] == renewed(v, out@[j], ids[j]),
            decreases out.len() - i,
        {
            let e = out[i];
            let m = match self.find_last(e.address) {
                Some(mut m) => {
                    m.endpoint = e;
                    m
                },
                None => Member {
                    endpoint: e,
                    id,
                    active: 0,
                    failures: 0,
                    blocked_until: None,
                    active_ok: None,
                },
            };
            members.push(m);
            proof {
                ids = ids.push(id);
            }
            id += 1;
            i += 1;
        }
        self.members = members;
        self.next_id = id;
        self.next_dns = if until > now + 1000 {
            until
        } else {
            now + 1000
        };
        self.dns_success = now;
        proof {
            assert(settled(found@, out@));
            assert forall|j: int| 0 <= j < self.members@.len() implies (
            #[trigger] self.members@[j]).id < self.next_id by {
                lemma_last(v, out@[j].address);
            }
            assert forall|j: int, k: int| 0 <= j < k < self.members@.len() implies (
            #[trigger] self.members@[j]).id != (#[trigger] self.members@[k]).id by {
                lemma_last(v, out@[j].address);
                lemma_last(v, out@[k].address);
                assert(before(out@[j].address, out@[k].address));
                assert(self.members@[j] == renewed(v, out@[j], ids[j]));
                assert(self.members@[k] == renewed(v, out@[k], ids[k]));
                if last_at(v, out@[j].address) is Some && last_at(v, out@[k].address) is Some {
                    let a = choose|a: int|
                        0 <= a < v.len() && #[trigger] v[a] == last_at(v, out@[j].address)->0;
                    let b = choose|b: int|
                        0 <= b < v.len() && #[trigger] v[b] == last_at(v, out@[k].address)->0;
                    assert(v[a].endpoint.address != v[b].endpoint.address);
                    assert(a != b);
                    if a < b {
                        assert(v[a].id != v[b].id);
                    } else {
                        assert(v[b].id != v[a].id);
                    }
                }
            }
            assert(ids.len() == out@.len());
        }
    }

    /// Notes that names could not be resolved; a minute after the last success the endpoints are given
    /// up.
    pub fn resolution_failed(&mut self, now: u64)
        requires
            old(self).wf(),
            old(self).dns_success <= now,
        ensures
            final(self).wf(),
            final(self).members@ == if now - old(self).dns_success > 60000 {
                Seq::empty()
            } else {
                old(self).members@
            },
            with_members(*old(self), final(self).members@, *final(self)),
    {
        if now - self.dns_success > 60000 {
            self.members = Vec::new();
            assert(self.members@ =~= Seq::empty());
        }
    }

    /// Notes how the check of an endpoint went.
    pub fn probed(&mut self, id: u64, ok: bool)
        requires
            old(self).wf(),
        ensures
            final(self).wf(),
            with_members(*old(self), marked(old(self).members@, id, ok), *final(self)),
    {
        let ghost v = self.members@;
        let mut i: usize = 0;
        while i < self.members.len()
            invariant
                i <= self.members.len(),
                v.len() == self.members@.len(),
                forall|j: int|
                    0 <= j < i ==> #[trigger] self.members@[j] == marked(v, id, ok)[j],
                forall|j: int| i <= j < v.len() ==> #[trigger] self.members@[j] == v[j],
                with_members(*old(self), self.members@, *self),
            decreases self.members.len() - i,
        {
            if self.members[i].id == id {
                let mut m = self.members[i];
                m.active_ok = Some(ok);
                self.members.set(i, m);
            }
            i += 1;
        }
        assert(self.members@ =~= marked(v, id, ok));
        proof {
            assert forall|j: int| 0 <= j < v.len() implies (#[trigger] self.members@[j]).id
                == v[j].id by {}
        }
    }
}

pub open spec fn marked(v: Seq<Member>, id: u64, ok: bool) -> Seq<Member> {
    Seq::new(
        v.len(),
        |i: int|
            if v[i].id == id {
                Member { active_ok: Some(ok), ..v[i] }
            } else {
                v[i]
            },
    )
}

proof fn lemma_last(v: Seq<Member>, address: Socket)
    ensures
        last_at(v, address) is Some ==> last_at(v, address)->0.endpoint.address == address
            && exists|i: int| 0 <= i < v.len() && #[trigger] v[i] == last_at(v, address)->0,
    decreases v.len(),
{
    if v.len() > 0 {
        if v.last().endpoint.address == address {
            assert(v[v.len() - 1] == v.last());
        } else {
            lemma_last(v.drop_last(), address);
            if last_at(v.drop_last(), address) is Some {
                let i = choose|i: int|
                    0 <= i < v.drop_last().len() && #[trigger] v.drop_last()[i] == last_at(
                        v.drop_last(),
                        address,
                    )->0;
                assert(v[i] == v.drop_last()[i]);
            }
        }
    }
}

// ---------------------------------------------------------------------------
// Hashes
// ---------------------------------------------------------------------------

/// The number that bytes are, the first one being the highest.
pub open spec fn big_endian(v: Seq<u8>) -> nat
    decreases v.len(),
{
    if v.len() == 0 {
        0
    } else {
        big_endian(v.drop_last()) * 256 + v.last() as nat
    }
}

/// What decides, for a key, among endpoints: the first bytes of a digest of the key and the address.
pub open spec fn hash_of(key: Seq<char>, address: Socket) -> nat {
    big_endian(
        crate::digest::sha256(
            vstd::utf8::encode_utf8(key + seq!['\0'] + net::socket_text(address)),
        ).take(8),
    )
}

proof fn lemma_big_endian(v: Seq<u8>, k: nat)
    requires
        v.len() == k,
        k <= 8,
    ensures
        big_endian(v) < vstd::arithmetic::power2::pow2(8 * k),
    decreases k,
{
    if k == 0 {
        vstd::arithmetic::power2::lemma2_to64();
    } else {
        lemma_big_endian(v.drop_last(), (k - 1) as nat);
        let a = big_endian(v.drop_last());
        let p = vstd::arithmetic::power2::pow2(8 * (k - 1) as nat);
        vstd::arithmetic::power2::lemma_pow2_adds(8 * (k - 1) as nat, 8);
        vstd::arithmetic::power2::lemma2_to64();
        assert(8 * (k - 1) + 8 == 8 * k);
        assert(a * 256 + 255 < p * 256) by (nonlinear_arith)
            requires
                a < p,
        ;
    }
}

/// What decides, for a key, among endpoints; the weight of an endpoint is not in it.
pub fn hash_value(key: &str, address: Socket) -> (r: u64)
    ensures
        r == hash_of(key@, address),
{
    let input = text::concat3(key, "\0", net::socket_string(address).as_str());
    proof {
        reveal_strlit("\0");
        assert("\0"@ =~= seq!['\0']);
    }
    let d = crate::digest::digest(&text::bytes(input.as_str()));
    let ghost v = d@.take(8);
    let mut r: u64 = 0;
    let mut i: usize = 0;
    while i < 8
        invariant
            i <= 8,
            d@.len() == 32,
            v == d@.take(8),
            r == big_endian(v.take(i as int)),
        decreases 8 - i,
    {
        proof {
            assert(v.take(i + 1).drop_last() =~= v.take(i as int));
            assert(v.take(i + 1).last() == d@[i as int]);
            lemma_big_endian(v.take(i + 1), (i + 1) as nat);
            if i < 7 {
                vstd::arithmetic::power2::lemma_pow2_strictly_increases(8 * (i + 1) as nat, 64);
            }
            vstd::arithmetic::power2::lemma2_to64();
        }
        r = r * 256 + d[i] as u64;
        i += 1;
    }
    assert(v.take(8) =~= v);
    r
}

// ---------------------------------------------------------------------------
// Backends
// ---------------------------------------------------------------------------

/// How a backend is spoken to.
#[derive(Debug)]
pub struct Profile {
    /// Whether it is spoken to over HTTP/2 only.
    pub http2: bool,
    /// The certificate that the proxy shows, with its private key.
    pub identity: Option<(String, String)>,
    /// The name that its certificate has to cover.
    pub server_name: Option<String>,
    /// The authorities that may vouch for it; those of the system where none are named.
    pub ca_pem: Option<String>,
}

/// What a `Profile` holds.
#[verifier::ext_equal]
pub ghost struct Manner {
    pub http2: bool,
    pub identity: Option<(Seq<char>, Seq<char>)>,
    pub server_name: Option<Seq<char>>,
    pub ca_pem: Option<Seq<char>>,
}

pub open spec fn key_pair(v: Option<(String, String)>) -> Option<(Seq<char>, Seq<char>)> {
    match v {
        Some(p) => Some((p.0@, p.1@)),
        None => None,
    }
}

impl View for Profile {
    type V = Manner;

    open spec fn view(&self) -> Manner {
        Manner {
            http2: self.http2,
            identity: key_pair(self.identity),
            server_name: text::opt(self.server_name),
            ca_pem: text::opt(self.ca_pem),
        }
    }
}

/// A backend as it is configured.
#[derive(Debug)]
pub struct Setup {
    pub endpoints: Vec<Endpoint>,
    pub tls: bool,
    pub hostname: String,
    pub host_header: String,
    pub options: Options,
    pub origins: Vec<Origin>,
    pub ca_pem: Option<String>,
    pub profile: Profile,
}

/// What a `Setup` holds.
#[verifier::ext_equal]
pub ghost struct Shape {
    pub endpoints: Seq<Endpoint>,
    pub tls: bool,
    pub hostname: Seq<char>,
    pub host_header: Seq<char>,
    pub options: Rules,
    pub origins: Seq<Server>,
    pub ca_pem: Option<Seq<char>>,
    pub profile: Manner,
}

impl View for Setup {
    type V = Shape;

    open spec fn view(&self) -> Shape {
        Shape {
            endpoints: self.endpoints@,
            tls: self.tls,
            hostname: self.hostname@,
            host_header: self.host_header@,
            options: self.options@,
            origins: servers(self.origins@),
            ca_pem: text::opt(self.ca_pem),
            profile: self.profile@,
        }
    }
}

fn same_endpoints(a: &Vec<Endpoint>, b: &Vec<Endpoint>) -> (r: bool)
    ensures
        r == (a@ == b@),
{
    if a.len() != b.len() {
        return false;
    }
    let mut i: usize = 0;
    while i < a.len()
        invariant
            i <= a.len() == b.len(),
            forall|j: int| 0 <= j < i ==> a@[j] == b@[j],
        decreases a.len() - i,
    {
        if a[i] != b[i] {
            return false;
        }
        i += 1;
    }
    assert(a@ =~= b@);
    true
}

fn same_origins(a: &Vec<Origin>, b: &Vec<Origin>) -> (r: bool)
    ensures
        r == (servers(a@) == servers(b@)),
{
    let ghost x = servers(a@);
    let ghost y = servers(b@);
    if a.len() != b.len() {
        assert(x.len() != y.len());
        return false;
    }
    let mut i: usize = 0;
    while i < a.len()
        invariant
            i <= a.len() == b.len(),
            x == servers(a@),
            y == servers(b@),
            forall|j: int| 0 <= j < i ==> x[j] == y[j],
        decreases a.len() - i,
    {
        if !text::same(a[i].host.as_str(), b[i].host.as_str()) || a[i].port != b[i].port
            || a[i].weight != b[i].weight {
            assert(x[i as int] != y[i as int]);
            return false;
        }
        assert(x[i as int] =~= y[i as int]);
        i += 1;
    }
    assert(x =~= y);
    true
}

fn same_options(a: &Options, b: &Options) -> (r: bool)
    ensures
        r == (a@ == b@),
{
    let balance = match (&a.balance, &b.balance) {
        (Balance::RoundRobin, Balance::RoundRobin) => true,
        (Balance::LeastConnections, Balance::LeastConnections) => true,
        (Balance::Hash(s), Balance::Hash(t)) => text::same(s.as_str(), t.as_str()),
        (Balance::Sticky(s), Balance::Sticky(t)) => text::same(s.as_str(), t.as_str()),
        _ => false,
    };
    let health = match (&a.health, &b.health) {
        (None, None) => true,
        (Some(h), Some(k)) => text::same(h.path.as_str(), k.path.as_str()) && h.interval
            == k.interval && h.timeout == k.timeout && h.status == k.status,
        _ => false,
    };
    balance && a.max_inflight == b.max_inflight && health
}

impl Setup {
    /// Whether a backend is configured as before, so that what is known of its endpoints stays. What the
    /// connections of a profile are told apart by is known elsewhere: `pool` is that of this backend, and
    /// `previous_pool` that of the one before.
    pub fn same_config(&self, previous: &Setup, pool: &str, previous_pool: &str) -> (r: bool)
        ensures
            r == ((Shape { profile: previous@.profile, ..self@ }) == previous@ && pool@
                == previous_pool@),
    {
        same_endpoints(&self.endpoints, &previous.endpoints) && self.tls == previous.tls
            && text::same(self.hostname.as_str(), previous.hostname.as_str()) && text::same(
            self.host_header.as_str(),
            previous.host_header.as_str(),
        ) && same_options(&self.options, &previous.options) && same_origins(
            &self.origins,
            &previous.origins,
        ) && crate::ingress::spec::same_opt(&self.ca_pem, &previous.ca_pem) && text::same(
            pool,
            previous_pool,
        )
    }
}

impl Profile {
    pub fn copy(&self) -> (r: Profile)
        ensures
            r@ == self@,
    {
        Profile {
            http2: self.http2,
            identity: match &self.identity {
                Some(p) => Some((p.0.clone(), p.1.clone())),
                None => None,
            },
            server_name: crate::model::copy_opt(&self.server_name),
            ca_pem: crate::model::copy_opt(&self.ca_pem),
        }
    }
}

/// How the policy of a route has its backends reached.
#[derive(Debug)]
pub struct Access {
    pub tls: bool,
    pub options: Options,
    pub profile: Profile,
}

/// What an `Access` holds.
#[verifier::ext_equal]
pub ghost struct Approach {
    pub tls: bool,
    pub options: Rules,
    pub profile: Manner,
}

impl View for Access {
    type V = Approach;

    open spec fn view(&self) -> Approach {
        Approach { tls: self.tls, options: self.options@, profile: self.profile@ }
    }
}

/// A backend that is reached as the policy of a route says: with TLS or without, with its options, and in
/// its manner. A name in the manner takes the place of the host name.
pub open spec fn dressed(s: Shape, tls: bool, options: Rules, m: Manner) -> Shape {
    Shape {
        tls,
        options,
        profile: m,
        ca_pem: m.ca_pem,
        hostname: match m.server_name {
            Some(n) => n,
            None => s.hostname,
        },
        ..s
    }
}

/// A backend that is reached with TLS, by a name that its certificate has to cover, and by the authorities
/// that may vouch for it. How it is spoken to otherwise, and the certificate that the proxy shows, stay.
pub open spec fn trusted(s: Shape, server_name: Seq<char>, ca_pem: Option<Seq<char>>) -> Shape {
    Shape {
        tls: true,
        hostname: server_name,
        ca_pem,
        profile: Manner { server_name: Some(server_name), ca_pem, ..s.profile },
        ..s
    }
}

impl Setup {
    /// Lets the backend be reached as the policy of a route says.
    pub fn dress(&mut self, tls: bool, options: Options, profile: Profile)
        ensures
            final(self)@ == dressed(old(self)@, tls, options@, profile@),
    {
        self.tls = tls;
        self.options = options;
        self.ca_pem = crate::model::copy_opt(&profile.ca_pem);
        if let Some(name) = &profile.server_name {
            self.hostname = name.clone();
        }
        self.profile = profile;
    }

    /// Lets the backend be reached with TLS, by a name that its certificate has to cover.
    pub fn trust(&mut self, server_name: &str, ca_pem: &Option<String>)
        ensures
            final(self)@ == trusted(old(self)@, server_name@, text::opt(*ca_pem)),
    {
        self.tls = true;
        self.hostname = server_name.to_owned();
        self.ca_pem = crate::model::copy_opt(ca_pem);
        self.profile.server_name = Some(server_name.to_owned());
        self.profile.ca_pem = crate::model::copy_opt(ca_pem);
    }
}

/// Where the health of an endpoint is asked for.
pub open spec fn probe_url(tls: bool, name: Seq<char>, port: u16, path: Seq<char>) -> Seq<char> {
    (if tls {
        "https://"@
    } else {
        "http://"@
    }) + bracketed(name, net::parsed_ip(name)) + ":"@ + text::decimal(port as nat) + path
}

/// A name as it stands in a URL; `ip` is what it reads as.
pub open spec fn bracketed(name: Seq<char>, ip: Option<Ip>) -> Seq<char> {
    match ip {
        Some(Ip::V6(_)) => "["@ + name + "]"@,
        _ => name,
    }
}

/// A name as it stands in a URL; `ip` is what it reads as.
pub fn in_brackets(name: &str, ip: Option<Ip>) -> (out: String)
    ensures
        out@ == bracketed(name@, ip),
{
    match ip {
        Some(Ip::V6(_)) => text::concat3("[", name, "]"),
        _ => name.to_owned(),
    }
}

/// Where the health of an endpoint is asked for; `name` is what the endpoint goes by.
pub fn probe(tls: bool, name: &str, port: u16, check: &HealthCheck) -> (out: String)
    ensures
        out@ == probe_url(tls, name@, port, check.path@),
{
    let scheme: &str = if tls {
        "https://"
    } else {
        "http://"
    };
    let host = in_brackets(name, net::parse_ip(name));
    let origin = text::concat3(scheme, host.as_str(), ":");
    text::concat3(
        origin.as_str(),
        text::decimal_string(port as u64).as_str(),
        check.path.as_str(),
    )
}

// ---------------------------------------------------------------------------
// Laws
// ---------------------------------------------------------------------------

/// A pool is as it was when a lease is taken and given back, but for blocks that ran out and the cursor.
pub proof fn law_leases_are_balanced(v: Seq<Member>, i: int)
    requires
        0 <= i < v.len(),
        v[i].active < usize::MAX,
        forall|j: int, k: int| 0 <= j < k < v.len() ==> (#[trigger] v[j]).id != (#[trigger] v[k]).id,
    ensures
        released(v.update(i, Member { active: (v[i].active + 1) as usize, ..v[i] }), v[i].id) == v,
{
    let w = v.update(i, Member { active: (v[i].active + 1) as usize, ..v[i] });
    assert forall|j: int| 0 <= j < v.len() implies released(w, v[i].id)[j] == v[j] by {
        if j < i {
            assert(v[j].id != v[i].id);
        } else if j > i {
            assert(v[i].id != v[j].id);
        }
    }
    assert(released(w, v[i].id) =~= v);
}

/// How many of some leases are for one stay of an endpoint.
pub open spec fn leased(live: Seq<Lease>, id: u64) -> nat
    decreases live.len(),
{
    if live.len() == 0 {
        0
    } else {
        leased(live.drop_last(), id) + if live.last().id == id {
            1nat
        } else {
            0nat
        }
    }
}

/// Whether the counts of a pool are those of the leases that are under way: in all, and at each member.
/// A lease may be for an endpoint that has left the pool.
pub open spec fn counts(p: Pool, live: Seq<Lease>) -> bool {
    &&& p.active == live.len()
    &&& forall|i: int|
        0 <= i < p.members@.len() ==> (#[trigger] p.members@[i]).active == leased(live, p.members@[i].id)
    &&& forall|j: int| 0 <= j < live.len() ==> (#[trigger] live[j]).id < p.next_id
}

proof fn lemma_leased_remove(live: Seq<Lease>, k: int, id: u64)
    requires
        0 <= k < live.len(),
    ensures
        leased(live, id) == leased(live.remove(k), id) + if live[k].id == id {
            1nat
        } else {
            0nat
        },
    decreases live.len(),
{
    if k == live.len() - 1 {
        assert(live.remove(k) =~= live.drop_last());
    } else {
        lemma_leased_remove(live.drop_last(), k, id);
        assert(live.remove(k).drop_last() =~= live.drop_last().remove(k));
        assert(live.remove(k).last() == live.last());
    }
}

proof fn lemma_unleased(live: Seq<Lease>, id: u64)
    requires
        forall|j: int| 0 <= j < live.len() ==> (#[trigger] live[j]).id < id,
    ensures
        leased(live, id) == 0,
    decreases live.len(),
{
    if live.len() > 0 {
        assert(live.last().id < id);
        assert forall|j: int| 0 <= j < live.drop_last().len() implies (#[trigger] live.drop_last()[j]).id
            < id by {
            assert(live[j].id < id);
        }
        lemma_unleased(live.drop_last(), id);
    }
}

proof fn lemma_last_at(v: Seq<Member>, address: Socket)
    ensures
        last_at(v, address) matches Some(m) ==> v.contains(m),
    decreases v.len(),
{
    if v.len() > 0 {
        lemma_last_at(v.drop_last(), address);
        if v.last().endpoint.address == address {
            assert(v[v.len() - 1] == v.last());
        } else if last_at(v, address) is Some {
            let i = choose|i: int|
                0 <= i < v.drop_last().len() && v.drop_last()[i] == last_at(v, address)->0;
            assert(v[i] == v.drop_last()[i]);
        }
    }
}

/// A pool that is new counts no lease.
pub proof fn law_new_pools_count_nothing(p: Pool, endpoints: Seq<Endpoint>)
    requires
        p.active == 0,
        p.members@.len() == endpoints.len(),
        forall|i: int|
            0 <= i < endpoints.len() ==> #[trigger] p.members@[i] == fresh(endpoints[i], i as u64),
    ensures
        counts(p, Seq::empty()),
{
}

/// A lease that is taken is counted, once in all and once at its endpoint; where none is taken, nothing more
/// is counted.
pub proof fn law_leases_are_counted(
    p: Pool,
    live: Seq<Lease>,
    options: Options,
    now: u64,
    scores: Seq<u64>,
    r: Option<Lease>,
    q: Pool,
)
    requires
        p.wf(),
        p.active < usize::MAX,
        counts(p, live),
        taken(p, options, now, scores, r, q),
    ensures
        match r {
            Some(l) => counts(q, live.push(l)),
            None => counts(q, live),
        },
{
    let v = all_woken(p.members@, now);
    assert forall|i: int| 0 <= i < v.len() implies (#[trigger] v[i]).id == p.members@[i].id
        && v[i].active == p.members@[i].active by {
    }
    if r is Some {
        let l = r->0;
        let i = choose|i: int|
            #![trigger v[i]]
            0 <= i < v.len() && usable(v[i], options.health is Some) && picked(
                v,
                options,
                p.cursor,
                scores,
                i,
            ) && l == (Lease { address: v[i].endpoint.address, id: v[i].id }) && q.members@ == v.update(
                i,
                Member { active: (v[i].active + 1) as usize, ..v[i] },
            );
        let next = live.push(l);
        assert(next.drop_last() =~= live);
        lemma_leased_bound(live, v[i].id);
        assert forall|j: int| 0 <= j < q.members@.len() implies (#[trigger] q.members@[j]).active == leased(
            next,
            q.members@[j].id,
        ) by {
            assert(p.members@[j].active == leased(live, p.members@[j].id));
            assert(p.members@[i].id < p.next_id);
            if j < i {
                assert(p.members@[j].id != p.members@[i].id);
            } else if j > i {
                assert(p.members@[i].id != p.members@[j].id);
            }
        }
        assert(p.members@[i].id < p.next_id);
    } else if !saturated(p.active, options) {
        assert forall|j: int| 0 <= j < q.members@.len() implies (#[trigger] q.members@[j]).active == leased(
            live,
            q.members@[j].id,
        ) by {
            assert(p.members@[j].active == leased(live, p.members@[j].id));
        }
    }
}

proof fn lemma_leased_bound(live: Seq<Lease>, id: u64)
    ensures
        leased(live, id) <= live.len(),
    decreases live.len(),
{
    if live.len() > 0 {
        lemma_leased_bound(live.drop_last(), id);
    }
}

/// A lease that is under way can be given back, whatever became of its endpoint meanwhile; the pool then
/// counts the others.
pub proof fn law_leases_can_be_returned(p: Pool, live: Seq<Lease>, k: int)
    requires
        counts(p, live),
        0 <= k < live.len(),
    ensures
        p.holds(live[k]),
        forall|q: Pool| #[trigger] returned(p, live[k], q) ==> counts(q, live.remove(k)),
{
    let l = live[k];
    lemma_leased_remove(live, k, l.id);
    assert forall|i: int|
        0 <= i < p.members@.len() && (#[trigger] p.members@[i]).id == l.id implies p.members@[i].active
        > 0 by {
    }
    assert forall|q: Pool| #[trigger] returned(p, l, q) implies counts(q, live.remove(k)) by {
        let rest = live.remove(k);
        assert forall|i: int| 0 <= i < q.members@.len() implies (#[trigger] q.members@[i]).active == leased(
            rest,
            q.members@[i].id,
        ) by {
            assert(p.members@[i].active == leased(live, p.members@[i].id));
            lemma_leased_remove(live, k, p.members@[i].id);
        }
        assert forall|j: int| 0 <= j < rest.len() implies (#[trigger] rest[j]).id < q.next_id by {
            assert(rest[j] == if j < k {
                live[j]
            } else {
                live[j + 1]
            });
        }
    }
}

/// Endpoints that come and go leave the leases counted: those of endpoints that stay at these, the others in
/// all.
pub proof fn law_refreshes_keep_leases(
    p: Pool,
    live: Seq<Lease>,
    found: Seq<Endpoint>,
    until: u64,
    now: u64,
    q: Pool,
)
    requires
        counts(p, live),
        renewal(p, found, until, now, q),
    ensures
        counts(q, live),
{
    let (out, ids) = choose|out: Seq<Endpoint>, ids: Seq<u64>|
        #![trigger settled(found, out), ids.len()]
        settled(found, out) && ids.len() == out.len() && q.members@.len() == out.len() && (forall|i: int|
            0 <= i < out.len() ==> #[trigger] q.members@[i] == renewed(p.members@, out[i], ids[i])
                && p.next_id <= ids[i] < q.next_id);
    assert forall|i: int| 0 <= i < q.members@.len() implies (#[trigger] q.members@[i]).active == leased(
        live,
        q.members@[i].id,
    ) by {
        lemma_last_at(p.members@, out[i].address);
        match last_at(p.members@, out[i].address) {
            Some(m) => {
                let j = choose|j: int| 0 <= j < p.members@.len() && p.members@[j] == m;
                assert(p.members@[j].active == leased(live, m.id));
            },
            None => {
                assert forall|j: int| 0 <= j < live.len() implies (#[trigger] live[j]).id < ids[i] by {
                    assert(live[j].id < p.next_id);
                }
                lemma_unleased(live, ids[i]);
            },
        }
    }
}

proof fn lemma_same_counts(p: Pool, live: Seq<Lease>, v: Seq<Member>, q: Pool)
    requires
        counts(p, live),
        with_members(p, v, q),
        forall|i: int|
            0 <= i < v.len() ==> i < p.members@.len() && (#[trigger] v[i]).id == p.members@[i].id
                && v[i].active == p.members@[i].active,
    ensures
        counts(q, live),
{
    assert forall|i: int| 0 <= i < q.members@.len() implies (#[trigger] q.members@[i]).active == leased(
        live,
        q.members@[i].id,
    ) by {
        assert(v[i].id == p.members@[i].id);
    }
}

/// Results of requests, checks of health, names that cannot be resolved and times that pass leave the leases
/// counted.
pub proof fn law_results_keep_leases(
    p: Pool,
    live: Seq<Lease>,
    address: Socket,
    failed: bool,
    max_fails: usize,
    until: u64,
    id: u64,
    ok: bool,
    q: Pool,
)
    requires
        counts(p, live),
    ensures
        ({
            let v = p.members@;
            let i = place_of(v, address);
            i < v.len() && with_members(p, v.update(i, after_result(v[i], failed, max_fails, until).0), q)
        }) ==> counts(q, live),
        with_members(p, marked(p.members@, id, ok), q) ==> counts(q, live),
        with_members(p, Seq::empty(), q) ==> counts(q, live),
        q.members == p.members && q.active == p.active && q.next_id == p.next_id ==> counts(q, live),
{
    let v = p.members@;
    let i = place_of(v, address);
    lemma_place_bound(v, address);
    let w = v.update(i, after_result(v[i], failed, max_fails, until).0);
    if i < v.len() && with_members(p, w, q) {
        lemma_same_counts(p, live, w, q);
    }
    if with_members(p, marked(v, id, ok), q) {
        lemma_same_counts(p, live, marked(v, id, ok), q);
    }
    if with_members(p, Seq::empty(), q) {
        lemma_same_counts(p, live, Seq::empty(), q);
    }
}

proof fn lemma_place_bound(v: Seq<Member>, address: Socket)
    ensures
        0 <= place_of(v, address) <= v.len(),
    decreases v.len(),
{
    if v.len() > 0 && v[0].endpoint.address != address {
        lemma_place_bound(v.drop_first(), address);
    }
}

/// Once every lease was given back, nothing is counted.
pub proof fn law_idle_pools_count_nothing(p: Pool)
    requires
        counts(p, Seq::empty()),
    ensures
        p.active == 0,
        forall|i: int| 0 <= i < p.members@.len() ==> (#[trigger] p.members@[i]).active == 0,
{
}

/// Taking turns, a member takes as many consecutive numbers as its weight, and no two members take the
/// same number.
pub proof fn law_turns_follow_weights(v: Seq<Member>, at: Seq<int>, n: int, k: int, l: int)
    requires
        0 <= k < at.len(),
        0 <= l < at.len(),
    ensures
        falls_on(v, at, n, k) <==> weight_of(v, at.take(k)) <= n < weight_of(v, at.take(k))
            + v[at[k]].endpoint.weight,
        falls_on(v, at, n, k) && falls_on(v, at, n, l) ==> k == l,
{
    assert(at.take(k + 1).drop_last() =~= at.take(k));
    assert(at.take(k + 1).last() == at[k]);
    if k < l {
        lemma_weight_monotone(v, at.take(l), k + 1);
        assert(at.take(l).take(k + 1) =~= at.take(k + 1));
    } else if l < k {
        lemma_weight_monotone(v, at.take(k), l + 1);
        assert(at.take(k).take(l + 1) =~= at.take(l + 1));
    }
}

/// With positive weights no member of `order` has less under way, by weight, than the one that is taken.
pub proof fn law_least_loaded_is_taken(v: Seq<Member>, order: Seq<int>, k: int)
    requires
        order.len() > 0,
        0 <= k < order.len(),
        forall|j: int|
            0 <= j < order.len() ==> v[#[trigger] order[j]].endpoint.weight > 0,
    ensures
        !lighter(v[order[k]], v[lightest(v, order)]),
    decreases order.len(),
{
    lemma_lightest_in(v, order);
    if order.len() > 1 {
        let rest = order.drop_last();
        let best = lightest(v, rest);
        assert forall|j: int| 0 <= j < rest.len() implies v[#[trigger] rest[j]].endpoint.weight
            > 0 by {
            assert(order[j] == rest[j]);
        }
        lemma_lightest_in(v, rest);
        if k < rest.len() {
            law_least_loaded_is_taken(v, rest, k);
            assert(rest[k] == order[k]);
            if lighter(v[order.last()], v[best]) {
                assert(order[order.len() - 1] == order.last());
                let a = v[order[k]];
                let b = v[best];
                let c = v[order.last()];
                lemma_lighter_transitive(a, b, c);
            }
        }
    }
}

proof fn lemma_lighter_transitive(a: Member, b: Member, c: Member)
    requires
        a.endpoint.weight > 0,
        b.endpoint.weight > 0,
        c.endpoint.weight > 0,
        !lighter(a, b),
        lighter(c, b),
    ensures
        !lighter(a, c),
{
    let (x, y, z) = (a.active as int, b.active as int, c.active as int);
    let (p, q, r) = (
        a.endpoint.weight as int,
        b.endpoint.weight as int,
        c.endpoint.weight as int,
    );
    assert(x * r >= z * p) by (nonlinear_arith)
        requires
            x * q >= y * p,
            z * q < y * r,
            p > 0,
            q > 0,
            r > 0,
            x >= 0,
            y >= 0,
            z >= 0,
    {
        assert(x * q * r >= y * p * r);
        assert(y * r * p >= z * q * p);
        assert(x * r * q >= z * p * q);
    }
}

proof fn lemma_lightest_in(v: Seq<Member>, order: Seq<int>)
    requires
        order.len() > 0,
    ensures
        exists|j: int| 0 <= j < order.len() && #[trigger] order[j] == lightest(v, order),
    decreases order.len(),
{
    if order.len() == 1 {
        assert(order[0] == lightest(v, order));
    } else {
        lemma_lightest_in(v, order.drop_last());
        let j = choose|j: int|
            0 <= j < order.drop_last().len() && #[trigger] order.drop_last()[j] == lightest(
                v,
                order.drop_last(),
            );
        assert(order[j] == order.drop_last()[j]);
        assert(order[order.len() - 1] == order.last());
    }
}

/// A refreshed endpoint keeps its requests under way and its identity where it was in the pool.
pub proof fn law_refresh_keeps_known_endpoints(v: Seq<Member>, e: Endpoint, id: u64)
    requires
        last_at(v, e.address) is Some,
    ensures
        renewed(v, e, id).id == last_at(v, e.address)->0.id,
        renewed(v, e, id).active == last_at(v, e.address)->0.active,
        renewed(v, e, id).failures == last_at(v, e.address)->0.failures,
{
}

// ---------------------------------------------------------------------------
// Laws of choosing and of health
// ---------------------------------------------------------------------------

proof fn lemma_chosen_from(v: Seq<Member>, checks: bool)
    ensures
        forall|k: int|
            0 <= k < eligible(v, checks).len() ==> 0 <= #[trigger] eligible(v, checks)[k] < v.len() && usable(
                v[eligible(v, checks)[k]],
                checks,
            ),
        forall|i: int|
            0 <= i < v.len() && usable(#[trigger] v[i], checks) ==> eligible(v, checks).contains(i),
    decreases v.len(),
{
    if v.len() > 0 {
        let l = v.drop_last();
        lemma_chosen_from(l, checks);
        let a = eligible(l, checks);
        let b = eligible(v, checks);
        assert forall|k: int| 0 <= k < b.len() implies 0 <= #[trigger] b[k] < v.len() && usable(
            v[b[k]],
            checks,
        ) by {
            if k < a.len() {
                assert(b[k] == a[k]);
                assert(v[a[k]] == l[a[k]]);
            }
        }
        assert forall|i: int| 0 <= i < v.len() && usable(#[trigger] v[i], checks) implies b.contains(i) by {
            if i < l.len() {
                assert(l[i] == v[i]);
                assert(a.contains(i));
                let k = choose|k: int| 0 <= k < a.len() && a[k] == i;
                assert(b[k] == i);
            } else {
                assert(b.last() == i);
            }
        }
    }
}

/// An endpoint can be chosen where it is not blocked and, where health is checked, was found to be well.
pub proof fn law_well_endpoints_can_be_chosen(m: Member, v: Seq<Member>, checks: bool, i: int)
    requires
        0 <= i < v.len(),
    ensures
        m.blocked_until is Some ==> !usable(m, checks),
        m.blocked_until is None ==> usable(m, false),
        m.blocked_until is None && m.active_ok == Some(true) ==> usable(m, true),
        m.active_ok != Some(true) ==> !usable(m, true),
        eligible(v, checks).contains(i) <==> usable(v[i], checks),
{
    lemma_chosen_from(v, checks);
    let b = eligible(v, checks);
    if b.contains(i) {
        let k = choose|k: int| 0 <= k < b.len() && b[k] == i;
        assert(usable(v[b[k]], checks));
    }
}

/// What is lent is an endpoint of the pool that is not blocked any more and, where health is checked, is well;
/// the request counts with it and with the pool.
pub proof fn law_well_endpoints_are_lent(
    p: Pool,
    options: Options,
    now: u64,
    scores: Seq<u64>,
    r: Option<Lease>,
    q: Pool,
)
    requires
        taken(p, options, now, scores, r, q),
        r is Some,
    ensures
        options.max_inflight > 0 ==> p.active < options.max_inflight,
        q.active == p.active + 1,
        exists|i: int|
            #![trigger p.members@[i]]
            0 <= i < p.members@.len() && p.members@[i].id == r->0.id && p.members@[i].endpoint.address
                == r->0.address && (p.members@[i].blocked_until matches Some(until) ==> until <= now) && (
            options.health is Some ==> p.members@[i].active_ok == Some(true)),
{
    let v = all_woken(p.members@, now);
    let i = choose|i: int|
        #![trigger v[i]]
        0 <= i < v.len() && usable(v[i], options.health is Some) && picked(
            v,
            options,
            p.cursor,
            scores,
            i,
        ) && r->0 == (Lease { address: v[i].endpoint.address, id: v[i].id }) && q.members@ == v.update(
            i,
            Member { active: (v[i].active + 1) as usize, ..v[i] },
        );
    assert(v[i] == woken(p.members@[i], now));
}

/// A pool with as many requests under way as it may have lends nothing and stays as it is.
pub proof fn law_full_pools_lend_nothing(
    p: Pool,
    options: Options,
    now: u64,
    scores: Seq<u64>,
    r: Option<Lease>,
    q: Pool,
)
    requires
        taken(p, options, now, scores, r, q),
        options.max_inflight > 0,
        p.active >= options.max_inflight,
    ensures
        r is None,
        q == p,
{
}

/// A pool with room lends where one of its endpoints is well and has a weight.
pub proof fn law_pools_with_room_lend(
    p: Pool,
    options: Options,
    now: u64,
    scores: Seq<u64>,
    r: Option<Lease>,
    q: Pool,
    i: int,
)
    requires
        taken(p, options, now, scores, r, q),
        options.max_inflight == 0 || p.active < options.max_inflight,
        0 <= i < p.members@.len(),
        p.members@[i].blocked_until is None,
        options.health is Some ==> p.members@[i].active_ok == Some(true),
        p.members@[i].endpoint.weight > 0,
    ensures
        r is Some,
{
    let v = all_woken(p.members@, now);
    let at = eligible(v, options.health is Some);
    lemma_chosen_from(v, options.health is Some);
    assert(v[i] == p.members@[i]);
    let k = choose|k: int| 0 <= k < at.len() && at[k] == i;
    lemma_weight_of_one(v, at, k);
}

proof fn lemma_weight_of_one(v: Seq<Member>, at: Seq<int>, k: int)
    requires
        0 <= k < at.len(),
    ensures
        weight_of(v, at) >= v[at[k]].endpoint.weight,
    decreases at.len(),
{
    if k < at.len() - 1 {
        assert(at.drop_last()[k] == at[k]);
        lemma_weight_of_one(v, at.drop_last(), k);
    }
}

/// By a hash or a cookie, the endpoint with the least score is taken, the first of them where several have it.
pub proof fn law_least_scores_are_taken(at: Seq<int>, scores: Seq<u64>, k: int)
    requires
        0 <= k < at.len(),
    ensures
        at.contains(least_score(at, scores)),
        scores[least_score(at, scores)] <= scores[at[k]],
    decreases at.len(),
{
    if at.len() > 1 {
        let l = at.drop_last();
        law_least_scores_are_taken(l, scores, if k < l.len() {
            k
        } else {
            0
        });
        let b = least_score(l, scores);
        let j = choose|j: int| 0 <= j < l.len() && l[j] == b;
        assert(at[j] == b);
        assert(at[at.len() - 1] == at.last());
        if k < l.len() {
            assert(l[k] == at[k]);
        }
    } else {
        assert(at[0] == least_score(at, scores));
    }
}

/// A success forgives earlier failures. A failure counts, and the one that makes up the number blocks the
/// endpoint until the time given; without a number none does.
pub proof fn law_failures_block(m: Member, max_fails: usize, until: u64)
    requires
        m.failures < usize::MAX,
    ensures
        after_result(m, false, max_fails, until) == (
            Member { failures: 0, blocked_until: None, ..m },
            false,
        ),
        after_result(m, true, 0, until) == (m, false),
        max_fails > 0 && m.failures + 1 < max_fails ==> after_result(m, true, max_fails, until) == (
            Member { failures: (m.failures + 1) as usize, ..m },
            false,
        ),
        max_fails > 0 && m.failures + 1 >= max_fails && m.blocked_until is None ==> after_result(
            m,
            true,
            max_fails,
            until,
        ) == (Member { failures: (m.failures + 1) as usize, blocked_until: Some(until), ..m }, true),
        m.blocked_until is Some ==> after_result(m, true, max_fails, until).0.blocked_until
            == m.blocked_until,
{
}

/// A block ends at its time, and the endpoint starts with no failures; before that it stays.
pub proof fn law_blocks_end_at_their_time(m: Member, until: u64, now: u64)
    requires
        m.blocked_until == Some(until),
    ensures
        until <= now ==> woken(m, now).blocked_until is None && woken(m, now).failures == 0,
        until > now ==> woken(m, now) == m,
        woken(m, now).endpoint == m.endpoint,
        woken(m, now).active == m.active,
{
}

/// The result is that of the first member with the address.
pub proof fn law_results_are_of_the_address(v: Seq<Member>, address: Socket, i: int)
    requires
        0 <= i < v.len(),
        v[i].endpoint.address == address,
        forall|j: int| 0 <= j < i ==> (#[trigger] v[j]).endpoint.address != address,
    ensures
        place_of(v, address) == i,
    decreases v.len(),
{
    if i > 0 {
        let t = v.drop_first();
        assert(v[0].endpoint.address != address);
        assert(t[i - 1] == v[i]);
        assert(forall|j: int| 0 <= j < i - 1 ==> t[j] == v[j + 1]);
        law_results_are_of_the_address(t, address, i - 1);
    }
}

/// A check of health tells on the member that was checked, and on no other.
pub proof fn law_checks_tell_on_their_member(v: Seq<Member>, id: u64, ok: bool, i: int)
    requires
        0 <= i < v.len(),
    ensures
        marked(v, id, ok).len() == v.len(),
        v[i].id == id ==> marked(v, id, ok)[i] == (Member { active_ok: Some(ok), ..v[i] }),
        v[i].id != id ==> marked(v, id, ok)[i] == v[i],
{
}

/// Rules are refused with more than a million requests at a time, and with a check whose path is none, that is
/// made more often than every second or less than every hour, that takes no time or more than half a minute, or
/// that expects a status that is no success.
pub proof fn law_rules_have_bounds(r: Rules, c: Check)
    ensures
        r.max_inflight > 1000000 ==> rules_checked(r) == Err::<(), OptionsError>(OptionsError::Concurrency),
        r.max_inflight <= 1000000 && r.health is None ==> rules_checked(r) == Ok::<(), OptionsError>(()),
        r.max_inflight <= 1000000 && r.health == Some(c) ==> {
            &&& (c.path.len() == 0 || c.path[0] != '/' || c.path.contains('#') || text::byte_len(c.path) > 1024)
                ==> rules_checked(r) == Err::<(), OptionsError>(OptionsError::HealthPath)
            &&& health_path(c.path) && (c.interval < 1000 || c.interval >= 3601000 || c.timeout == 0
                || c.timeout > 30000) ==> rules_checked(r) == Err::<(), OptionsError>(
                OptionsError::HealthTimes,
            )
            &&& health_path(c.path) && 1000 <= c.interval <= 3600000 && 0 < c.timeout <= 30000 ==> (
            rules_checked(r) is Ok <==> 200 <= c.status <= 399)
        },
{
}

/// Addresses are ordered: those of the old kind first, by their numbers, then by port.
pub proof fn law_addresses_are_ordered(a: Socket, b: Socket, c: Socket)
    ensures
        !before(a, a),
        before(a, b) && before(b, c) ==> before(a, c),
        a != b ==> before(a, b) || before(b, a),
        a.ip is V4 && b.ip is V6 ==> before(a, b),
        a.ip == b.ip && a.port < b.port ==> before(a, b),
{
}

/// Where one address was found several times, the last counts, and each is there once.
pub proof fn law_found_addresses_count_once(found: Seq<Endpoint>, out: Seq<Endpoint>, e: Endpoint)
    requires
        settled(found.push(e), out),
    ensures
        weight_at(out, e.address) == Some(e.weight),
        forall|i: int, j: int|
            0 <= i < j < out.len() ==> (#[trigger] out[i]).address != (#[trigger] out[j]).address,
{
    assert(found.push(e).drop_last() =~= found);
    assert forall|i: int, j: int| 0 <= i < j < out.len() implies (#[trigger] out[i]).address != (
    #[trigger] out[j]).address by {
        law_addresses_are_ordered(out[i].address, out[i].address, out[i].address);
        assert(before(out[i].address, out[j].address));
    }
}

/// An endpoint that is new to the pool starts with nothing against it, and is not checked yet.
pub proof fn law_new_endpoints_start_afresh(v: Seq<Member>, e: Endpoint, id: u64)
    requires
        last_at(v, e.address) is None,
    ensures
        renewed(v, e, id) == (Member {
            endpoint: e,
            id,
            active: 0,
            failures: 0,
            blocked_until: None,
            active_ok: None,
        }),
{
}

/// The first byte counts most.
pub proof fn law_first_bytes_count_most(v: Seq<u8>, b: u8)
    ensures
        big_endian(v.push(b)) == 256 * big_endian(v) + b,
        big_endian(Seq::empty()) == 0,
{
    assert(v.push(b).drop_last() =~= v);
}

/// A backend with a profile is spoken to as the profile says; its name stays where the profile has none.
pub proof fn law_profiles_are_put_on(s: Shape, tls: bool, options: Rules, m: Manner)
    ensures
        ({
            let t = dressed(s, tls, options, m);
            &&& t.tls == tls && t.options == options && t.profile == m && t.ca_pem == m.ca_pem
            &&& m.server_name matches Some(n) ==> t.hostname == n
            &&& m.server_name is None ==> t.hostname == s.hostname
            &&& t.endpoints == s.endpoints && t.origins == s.origins && t.host_header == s.host_header
        }),
{
}

/// A backend that is trusted by a name is spoken to over a secure connection to that name, by those authorities.
pub proof fn law_trust_is_by_name(s: Shape, name: Seq<char>, ca: Option<Seq<char>>)
    ensures
        ({
            let t = trusted(s, name, ca);
            &&& t.tls && t.hostname == name && t.ca_pem == ca
            &&& t.profile.server_name == Some(name) && t.profile.ca_pem == ca
            &&& t.profile.identity == s.profile.identity && t.profile.http2 == s.profile.http2
            &&& t.endpoints == s.endpoints && t.options == s.options
        }),
{
}

/// A check asks for its path at the name and the port, with the scheme of the backend.
pub proof fn law_checks_ask_for_their_path(name: Seq<char>, port: u16, path: Seq<char>)
    ensures
        net::parsed_ip(name) is None ==> {
            &&& probe_url(true, name, port, path) == "https://"@ + name + ":"@ + text::decimal(port as nat)
                + path
            &&& probe_url(false, name, port, path) == "http://"@ + name + ":"@ + text::decimal(port as nat)
                + path
        },
        net::parsed_ip(name) matches Some(Ip::V6(_)) ==> probe_url(false, name, port, path) == "http://"@ + (
        "["@ + name + "]"@) + ":"@ + text::decimal(port as nat) + path,
{
}

} // verus!
