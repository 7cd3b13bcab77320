//! One round over all Ingresses, the oldest first: each is counted for its namespace, decided on, and
//! settled, and what is served comes of all of them together.
use crate::body::BodyPolicy;
use crate::config::load::Listener;
use crate::config::settings::{copy_networks, Settings, Values};
use crate::identity::IdentityPolicy;
use crate::ingress::history::{ruled, routing_of, settle_routes, Entry, Past, Ruling, Verdict};
use crate::ingress::routes::{
    assemble, assembled, exceeds, joined, larger, settled, Assembly, Demand, Prepared, Quota, Settled,
    Usage,
};
use crate::ingress::serving::{
    effective, effective_of, enter, forbids_copies, outcome_of, propose, restrict, wish_of, Answers,
    Asked, Notice, Tenancy,
};
use crate::ingress::spec::copy_tls;
use crate::text;
use crate::text::{pairs, texts};
use vstd::prelude::*;

verus! {

// ---------------------------------------------------------------------------
// Values by name
// ---------------------------------------------------------------------------

/// The first value of a name.
pub open spec fn at<V>(v: Seq<(Seq<char>, V)>, name: Seq<char>) -> Option<V>
    decreases v.len(),
{
    if v.len() == 0 {
        None
    } else if v[0].0 == name {
        Some(v[0].1)
    } else {
        at(v.drop_first(), name)
    }
}

/// Whether a place is the first one of a name.
pub open spec fn first_of<V>(v: Seq<(Seq<char>, V)>, i: int, name: Seq<char>) -> bool {
    0 <= i < v.len() && v[i].0 == name && forall|j: int| 0 <= j < i ==> (#[trigger] v[j]).0 != name
}

pub proof fn lemma_first<V>(v: Seq<(Seq<char>, V)>, i: int, name: Seq<char>)
    requires
        first_of(v, i, name),
    ensures
        at(v, name) == Some(v[i].1),
    decreases i,
{
    if i > 0 {
        assert(v[0].0 != name);
        assert forall|j: int| 0 <= j < i - 1 implies (#[trigger] v.drop_first()[j]).0 != name by {
            assert(v[j + 1].0 != name);
        }
        lemma_first(v.drop_first(), i - 1, name);
    }
}

pub proof fn lemma_absent<V>(v: Seq<(Seq<char>, V)>, name: Seq<char>)
    requires
        forall|j: int| 0 <= j < v.len() ==> (#[trigger] v[j]).0 != name,
    ensures
        at(v, name) is None,
    decreases v.len(),
{
    if v.len() > 0 {
        assert(v[0].0 != name);
        assert forall|j: int| 0 <= j < v.len() - 1 implies (#[trigger] v.drop_first()[j]).0 != name by {
            assert(v[j + 1].0 != name);
        }
        lemma_absent(v.drop_first(), name);
    }
}

pub proof fn lemma_update<V>(v: Seq<(Seq<char>, V)>, i: int, name: Seq<char>, x: V, other: Seq<char>)
    requires
        first_of(v, i, name),
    ensures
        at(v.update(i, (name, x)), other) == if other == name {
            Some(x)
        } else {
            at(v, other)
        },
    decreases i,
{
    let w = v.update(i, (name, x));
    if i == 0 {
        assert(w.drop_first() =~= v.drop_first());
    } else {
        assert(v[0].0 != name);
        assert forall|j: int| 0 <= j < i - 1 implies (#[trigger] v.drop_first()[j]).0 != name by {
            assert(v[j + 1].0 != name);
        }
        lemma_update(v.drop_first(), i - 1, name, x, other);
        assert(w.drop_first() =~= v.drop_first().update(i - 1, (name, x)));
    }
}

pub proof fn lemma_push<V>(v: Seq<(Seq<char>, V)>, name: Seq<char>, x: V, other: Seq<char>)
    ensures
        at(v.push((name, x)), other) == match at(v, other) {
            Some(y) => Some(y),
            None => if other == name {
                Some(x)
            } else {
                None
            },
        },
    decreases v.len(),
{
    let w = v.push((name, x));
    if v.len() == 0 {
        assert(w.drop_first() =~= Seq::empty());
    } else {
        assert(w.drop_first() =~= v.drop_first().push((name, x)));
        lemma_push(v.drop_first(), name, x, other);
    }
}

// ---------------------------------------------------------------------------
// What is known so far
// ---------------------------------------------------------------------------

/// How much a namespace asks for already.
#[verifier::ext_equal]
pub ghost struct Spent {
    pub ingresses: nat,
    pub routes: nat,
    pub backends: Seq<Seq<char>>,
}

pub open spec fn spent(u: Usage) -> Spent {
    Spent {
        ingresses: u.ingresses as nat,
        routes: u.routes as nat,
        backends: texts(u.backends@),
    }
}

pub open spec fn nothing_spent() -> Spent {
    Spent { ingresses: 0, routes: 0, backends: Seq::empty() }
}

pub open spec fn accounts(v: Seq<(String, Usage)>) -> Seq<(Seq<char>, Spent)> {
    Seq::new(v.len(), |i: int| (v[i].0@, spent(v[i].1)))
}

/// How much a namespace asks for already.
pub open spec fn account_of(v: Seq<(Seq<char>, Spent)>, ns: Seq<char>) -> Spent {
    match at(v, ns) {
        Some(s) => s,
        None => nothing_spent(),
    }
}

/// Whether an Ingress exceeds what its namespace may ask for.
pub open spec fn over(s: Spent, d: Demand, q: Quota) -> bool {
    ||| s.ingresses >= q.max_ingresses
    ||| s.routes + larger(d.routes, d.retained_routes) > q.max_routes
    ||| joined(s.backends, texts(d.backends@)).len() > q.max_backends
    ||| (d.scripted && !q.allow_scripts)
    ||| (d.script is Some && d.script->0 > q.max_script_bytes)
}

/// What a namespace asks for with one more Ingress.
pub open spec fn charged(s: Spent, d: Demand) -> Spent {
    Spent {
        ingresses: s.ingresses + 1,
        routes: s.routes + larger(d.routes, d.retained_routes) as nat,
        backends: joined(s.backends, texts(d.backends@)),
    }
}

/// Why a namespace may not have an Ingress.
pub open spec fn refusal(t: Tenancy, s: Spent, d: Demand) -> Option<Notice> {
    match t {
        Tenancy::Free => None,
        Tenancy::Denied => Some(Notice::NamespaceDenied),
        Tenancy::Limited(q) => if over(s, d, q) {
            Some(Notice::NamespaceQuota)
        } else {
            None
        },
    }
}

pub open spec fn nothing_known() -> Past {
    Past { script: None, routes: None, accepted: None, proposal: None, revoked: false }
}

pub open spec fn pasts(v: Seq<(String, Entry)>) -> Seq<(Seq<char>, Past)> {
    Seq::new(v.len(), |i: int| (v[i].0@, v[i].1@))
}

/// What is known of an Ingress from before.
pub open spec fn past_of(v: Seq<(Seq<char>, Past)>, uid: Seq<char>) -> Past {
    match at(v, uid) {
        Some(p) => p,
        None => nothing_known(),
    }
}

/// A round over all Ingresses.
#[derive(Debug)]
pub struct Round {
    /// Whether there is a class for the round.
    pub class: bool,
    /// What the namespaces with rules ask for so far.
    pub usages: Vec<(String, Usage)>,
    /// What is known from before, by the identifiers of Ingresses.
    pub past: Vec<(String, Entry)>,
    /// The identifiers of the Ingresses that were decided on.
    pub seen: Vec<String>,
    /// The Ingresses that are settled, and their places among all.
    pub prepared: Vec<Prepared>,
    pub owners: Vec<usize>,
    /// What is told of Ingresses, by their places among all.
    pub notices: Vec<(usize, Notice)>,
}

/// What a `Round` holds.
#[verifier::ext_equal]
pub ghost struct Standing {
    pub class: bool,
    pub accounts: Seq<(Seq<char>, Spent)>,
    pub past: Seq<(Seq<char>, Past)>,
    pub seen: Seq<Seq<char>>,
    pub settled: Seq<Settled>,
    pub owners: Seq<usize>,
    pub notices: Seq<(usize, Notice)>,
}

impl View for Round {
    type V = Standing;

    open spec fn view(&self) -> Standing {
        Standing {
            class: self.class,
            accounts: accounts(self.usages@),
            past: pasts(self.past@),
            seen: texts(self.seen@),
            settled: settled(self.prepared@),
            owners: self.owners@,
            notices: self.notices@,
        }
    }
}

pub open spec fn told(owner: usize, v: Seq<Notice>) -> Seq<(usize, Notice)> {
    Seq::new(v.len(), |i: int| (owner, v[i]))
}

/// Adds what is told of an Ingress.
fn tell(out: &mut Vec<(usize, Notice)>, owner: usize, v: &Vec<Notice>)
    ensures
        final(out)@ == old(out)@ + told(owner, v@),
{
    let ghost start = out@;
    let mut i: usize = 0;
    assert(start + told(owner, v@.take(0)) =~= start);
    while i < v.len()
        invariant
            i <= v.len(),
            out@ == start + told(owner, v@.take(i as int)),
        decreases v.len() - i,
    {
        out.push((owner, v[i]));
        i += 1;
        assert(out@ =~= start + told(owner, v@.take(i as int)));
    }
    assert(v@.take(i as int) =~= v@);
}

/// What stays known of an Ingress without a class: whether its script was withdrawn.
pub open spec fn classless(p: Past) -> Past {
    Past { revoked: p.revoked, ..nothing_known() }
}

pub open spec fn all_classless(v: Seq<(Seq<char>, Past)>) -> Seq<(Seq<char>, Past)> {
    Seq::new(v.len(), |i: int| (v[i].0, classless(v[i].1)))
}

fn forget(v: Vec<(String, Entry)>) -> (out: Vec<(String, Entry)>)
    ensures
        pasts(out@) == all_classless(pasts(v@)),
{
    let mut out: Vec<(String, Entry)> = Vec::new();
    let mut i: usize = 0;
    while i < v.len()
        invariant
            i <= v.len(),
            out@.len() == i,
            forall|k: int|
                0 <= k < i ==> (#[trigger] out@[k]).0@ == v@[k].0@ && out@[k].1@ == classless(v@[k].1@),
        decreases v.len() - i,
    {
        let e = Entry {
            script: None,
            routes: None,
            accepted: None,
            proposal: None,
            revoked: v[i].1.revoked,
        };
        assert(e@ =~= classless(v@[i as int].1@));
        out.push((v[i].0.clone(), e));
        i += 1;
    }
    assert(pasts(out@) =~= all_classless(pasts(v@)));
    out
}

/// What a round knows once an Ingress was counted for its namespace; `r` tells whether the namespace may
/// have it.
pub open spec fn counts(
    was: Standing,
    new: Standing,
    owner: usize,
    ns: Seq<char>,
    tenancy: Tenancy,
    d: Demand,
    r: bool,
) -> bool {
    let why = refusal(tenancy, account_of(was.accounts, ns), d);
    &&& r == (why is None)
    &&& new == (Standing {
        accounts: new.accounts,
        notices: match why {
            Some(n) => was.notices.push((owner, n)),
            None => was.notices,
        },
        ..was
    })
    &&& forall|other: Seq<char>|
        #![trigger account_of(new.accounts, other)]
        account_of(new.accounts, other) == if other == ns && r
            && tenancy is Limited {
            charged(account_of(was.accounts, other), d)
        } else {
            account_of(was.accounts, other)
        }
    &&& forall|other: Seq<char>|
        #![trigger at(new.accounts, other)]
        at(new.accounts, other) is Some <==> at(
            was.accounts,
            other,
        ) is Some || (other == ns && tenancy is Limited)
}

/// What a round knows once it decided on an Ingress.
pub open spec fn decides(
    was: Standing,
    new: Standing,
    a: Asked,
    k: Answers,
    r: Ruling,
) -> bool {
    let (p, ruling) = ruled(past_of(was.past, a.uid@), wish_of(a, k));
    &&& r == ruling
    &&& new == (Standing {
        past: new.past,
        seen: was.seen.push(a.uid@),
        ..was
    })
    &&& forall|other: Seq<char>|
        #![trigger past_of(new.past, other)]
        past_of(new.past, other) == if other == a.uid@ {
            p
        } else {
            past_of(was.past, other)
        }
}

/// What a round knows once an Ingress was settled.
pub open spec fn settles(
    was: Standing,
    new: Standing,
    owner: usize,
    a: Asked,
    v: Ruling,
    tenancy: Tenancy,
    ready: bool,
    domains: bool,
    copies: bool,
) -> bool {
    let p = past_of(was.past, a.uid@);
    let (invalid, notices) = outcome_of(p, v, ready, tenancy);
    let forbidden = copies && tenancy is Limited && !tenancy->Limited_0.allow_mirroring;
    let routing = routing_of(p, v.reuse, a.spec@);
    &&& new == (Standing {
        past: new.past,
        settled: if domains {
            was.settled.push(
                Settled {
                    namespace: a.namespace@,
                    name: a.name@,
                    routing,
                    tls: a.spec@.tls,
                    own: effective_of(p, pairs(a.values@)).len() > 0,
                    invalid: invalid || forbidden,
                },
            )
        } else {
            was.settled
        },
        owners: if domains {
            was.owners.push(owner)
        } else {
            was.owners
        },
        notices: was.notices + told(
            owner,
            if !domains {
                notices.push(Notice::DomainDenied)
            } else if forbidden {
                notices.push(Notice::ForbiddenCopies)
            } else {
                notices
            },
        ),
        ..was
    })
    &&& forall|other: Seq<char>|
        #![trigger past_of(new.past, other)]
        past_of(new.past, other) == if other == a.uid@ && domains {
            Past {
                routes: if invalid {
                    None
                } else {
                    Some(routing)
                },
                ..p
            }
        } else {
            past_of(was.past, other)
        }
}

impl Round {
    /// Begins a round. Where there is no class for it, nothing stays known from before but which scripts
    /// were withdrawn.
    pub fn start(past: Vec<(String, Entry)>, class: bool) -> (r: Round)
        ensures
            r@ == (Standing {
                class,
                accounts: Seq::empty(),
                past: if class {
                    pasts(past@)
                } else {
                    all_classless(pasts(past@))
                },
                seen: Seq::empty(),
                settled: Seq::empty(),
                owners: Seq::empty(),
                notices: Seq::empty(),
            }),
    {
        let past = if class {
            past
        } else {
            forget(past)
        };
        let r = Round {
            class,
            usages: Vec::new(),
            past,
            seen: Vec::new(),
            prepared: Vec::new(),
            owners: Vec::new(),
            notices: Vec::new(),
        };
        assert(r@.accounts =~= Seq::empty());
        assert(r@.seen =~= Seq::empty());
        assert(r@.settled =~= Seq::empty());
        r
    }

    /// Counts an Ingress for its namespace; `false` where the namespace may not have it.
    pub fn count(&mut self, owner: usize, ns: &str, tenancy: Tenancy, d: &Demand) -> (r: bool)
        ensures
            counts(old(self)@, final(self)@, owner, ns@, tenancy, *d, r),
    {
        let ghost before = self@.accounts;
        match tenancy {
            Tenancy::Free => return true,
            Tenancy::Denied => {
                self.notices.push((owner, Notice::NamespaceDenied));
                return false;
            },
            Tenancy::Limited(_) => {},
        }
        let mut i: usize = 0;
        while i < self.usages.len() && !text::same(self.usages[i].0.as_str(), ns)
            invariant
                i <= self.usages.len(),
                before == accounts(self.usages@),
                forall|j: int| 0 <= j < i ==> (#[trigger] before[j]).0 != ns@,
            decreases self.usages.len() - i,
        {
            assert(before[i as int].0 == self.usages@[i as int].0@);
            i += 1;
        }
        if i == self.usages.len() {
            let empty: Vec<String> = Vec::new();
            assert(texts(empty@) =~= Seq::empty());
            let u = Usage { ingresses: 0, routes: 0, backends: empty };
            self.usages.push((ns.to_owned(), u));
            proof {
                lemma_absent(before, ns@);
                assert(accounts(self.usages@) =~= before.push((ns@, nothing_spent())));
                assert forall|other: Seq<char>|
                    at(#[trigger] before.push((ns@, nothing_spent())), other) == if other == ns@ {
                        Some(nothing_spent())
                    } else {
                        at(before, other)
                    } by {
                    lemma_push(before, ns@, nothing_spent(), other);
                }
            }
        }
        let ghost ready = accounts(self.usages@);
        let ghost s = account_of(before, ns@);
        proof {
            assert(ready[i as int] == (self.usages@[i as int].0@, spent(self.usages@[i as int].1)));
            assert forall|j: int| 0 <= j < i implies (#[trigger] ready[j]).0 != ns@ by {
                assert(before[j].0 != ns@);
            }
            assert(first_of(ready, i as int, ns@));
            lemma_first(ready, i as int, ns@);
            assert forall|other: Seq<char>|
                #![trigger account_of(ready, other)]
                account_of(ready, other) == account_of(before, other) by {
                lemma_push(before, ns@, nothing_spent(), other);
            }
            assert(account_of(ready, ns@) == s);
        }
        let (key, mut u) = self.usages.remove(i);
        let ghost old_u = u;
        let why = enter(tenancy, &mut u, d);
        let ghost x = spent(u);
        self.usages.insert(i, (key, u));
        proof {
            let q = tenancy->Limited_0;
            assert(exceeds(old_u, *d, q) == over(s, *d, q));
            assert(accounts(self.usages@) =~= ready.update(i as int, (ns@, x)));
            if why is None {
                assert(x =~= charged(s, *d));
            } else {
                assert(x =~= s);
            }
            assert forall|other: Seq<char>|
                #![trigger account_of(accounts(self.usages@), other)]
                account_of(accounts(self.usages@), other) == if other == ns@ && why is None {
                    charged(account_of(before, other), *d)
                } else {
                    account_of(before, other)
                } by {
                lemma_update(ready, i as int, ns@, x, other);
                lemma_push(before, ns@, nothing_spent(), other);
                assert(account_of(ready, other) == account_of(before, other));
            }
            assert forall|other: Seq<char>|
                #![trigger at(accounts(self.usages@), other)]
                at(accounts(self.usages@), other) is Some <==> at(before, other) is Some || other
                    == ns@ by {
                lemma_update(ready, i as int, ns@, x, other);
                lemma_push(before, ns@, nothing_spent(), other);
            }
        }
        match why {
            None => true,
            Some(n) => {
                self.notices.push((owner, n));
                false
            },
        }
    }

    /// The place of what is known of an Ingress; it is noted where nothing is known yet.
    fn place(&mut self, uid: &str) -> (i: usize)
        ensures
            first_of(final(self)@.past, i as int, uid@),
            final(self)@ == (Standing { past: final(self)@.past, ..old(self)@ }),
            final(self).past@[i as int].1@ == past_of(old(self)@.past, uid@),
            forall|other: Seq<char>|
                #![trigger past_of(final(self)@.past, other)]
                past_of(final(self)@.past, other) == past_of(old(self)@.past, other),
    {
        let ghost before = self@.past;
        let mut i: usize = 0;
        while i < self.past.len() && !text::same(self.past[i].0.as_str(), uid)
            invariant
                i <= self.past.len(),
                before == pasts(self.past@),
                forall|j: int| 0 <= j < i ==> (#[trigger] before[j]).0 != uid@,
            decreases self.past.len() - i,
        {
            assert(before[i as int].0 == self.past@[i as int].0@);
            i += 1;
        }
        if i == self.past.len() {
            let e = Entry {
                script: None,
                routes: None,
                accepted: None,
                proposal: None,
                revoked: false,
            };
            assert(e@ =~= nothing_known());
            self.past.push((uid.to_owned(), e));
            proof {
                lemma_absent(before, uid@);
                assert(pasts(self.past@) =~= before.push((uid@, nothing_known())));
                assert forall|other: Seq<char>|
                    #![trigger past_of(pasts(self.past@), other)]
                    past_of(pasts(self.past@), other) == past_of(before, other) by {
                    lemma_push(before, uid@, nothing_known(), other);
                }
            }
        }
        proof {
            let v = pasts(self.past@);
            assert(v[i as int] == (self.past@[i as int].0@, self.past@[i as int].1@));
            assert forall|j: int| 0 <= j < i implies (#[trigger] v[j]).0 != uid@ by {
                assert(before[j].0 != uid@);
            }
            lemma_first(v, i as int, uid@);
            assert(past_of(v, uid@) == past_of(before, uid@));
        }
        i
    }

    /// Decides on an Ingress that its namespace may have, and notes what came of it.
    pub fn decide(&mut self, a: &Asked, k: &Answers) -> (r: Verdict)
        ensures
            decides(old(self)@, final(self)@, *a, *k, r@),
    {
        let ghost start = self@;
        let i = self.place(a.uid.as_str());
        let ghost ready = self@.past;
        let (key, mut e) = self.past.remove(i);
        let r = propose(&mut e, a, k);
        let ghost x = e@;
        self.past.insert(i, (key, e));
        proof {
            assert(pasts(self.past@) =~= ready.update(i as int, (a.uid@, x)));
            assert forall|other: Seq<char>|
                #![trigger past_of(pasts(self.past@), other)]
                past_of(pasts(self.past@), other) == if other == a.uid@ {
                    x
                } else {
                    past_of(start.past, other)
                } by {
                lemma_update(ready, i as int, a.uid@, x, other);
                assert(past_of(ready, other) == past_of(start.past, other));
            }
        }
        let ghost seen = texts(self.seen@);
        self.seen.push(a.uid.clone());
        assert(texts(self.seen@) =~= seen.push(a.uid@));
        r
    }

    /// The policy in effect for an Ingress that was decided on.
    pub fn policy<'a>(&'a self, a: &'a Asked) -> (r: &'a Vec<(String, String)>)
        ensures
            pairs(r@) == effective_of(past_of(self@.past, a.uid@), pairs(a.values@)),
    {
        let ghost v = self@.past;
        let mut i: usize = 0;
        while i < self.past.len()
            invariant
                i <= self.past.len(),
                v == pasts(self.past@),
                forall|j: int| 0 <= j < i ==> (#[trigger] v[j]).0 != a.uid@,
            decreases self.past.len() - i,
        {
            assert(v[i as int] == (self.past@[i as int].0@, self.past@[i as int].1@));
            if text::same(self.past[i].0.as_str(), a.uid.as_str()) {
                proof {
                    lemma_first(v, i as int, a.uid@);
                }
                return effective(&self.past[i].1, &a.values);
            }
            i += 1;
        }
        proof {
            lemma_absent(v, a.uid@);
        }
        &a.values
    }

    /// The policy on bodies that was accepted of an Ingress, where something was.
    pub fn body(&self, uid: &str) -> (r: Option<BodyPolicy>)
        ensures
            r == match past_of(self@.past, uid@).accepted {
                Some(g) => Some(g.body_policy),
                None => None,
            },
    {
        let ghost v = self@.past;
        let mut i: usize = 0;
        while i < self.past.len()
            invariant
                i <= self.past.len(),
                v == pasts(self.past@),
                forall|j: int| 0 <= j < i ==> (#[trigger] v[j]).0 != uid@,
            decreases self.past.len() - i,
        {
            assert(v[i as int] == (self.past@[i as int].0@, self.past@[i as int].1@));
            if text::same(self.past[i].0.as_str(), uid) {
                proof {
                    lemma_first(v, i as int, uid@);
                }
                return match &self.past[i].1.accepted {
                    Some(a) => Some(a.body_policy),
                    None => None,
                };
            }
            i += 1;
        }
        proof {
            lemma_absent(v, uid@);
        }
        None
    }

    /// Settles what is served of an Ingress that was decided on. `ready` tells whether all that the policy
    /// in effect refers to is there, `domains` whether its namespace may have the names that it claims, and
    /// `copies` whether the policy in effect asks for copies of requests.
    pub fn settle(
        &mut self,
        owner: usize,
        a: &Asked,
        v: &Verdict,
        tenancy: Tenancy,
        ready: bool,
        domains: bool,
        copies: bool,
    )
        ensures
            settles(old(self)@, final(self)@, owner, *a, v@, tenancy, ready, domains, copies),
    {
        let ghost start = self@;
        let ghost p = past_of(self@.past, a.uid@);
        let i = self.place(a.uid.as_str());
        let ghost ready_past = self@.past;
        let outcome = restrict(&self.past[i].1, v, ready, tenancy);
        let mut notices = outcome.notices;
        if !domains {
            notices.push(Notice::DomainDenied);
            tell(&mut self.notices, owner, &notices);
            return;
        }
        let policy = effective(&self.past[i].1, &a.values);
        let ghost shown = pairs(policy@);
        let own = policy.len() > 0;
        assert(shown.len() == policy@.len());
        let (key, mut e) = self.past.remove(i);
        let routing = settle_routes(&mut e, v.reuse, outcome.invalid, &a.spec);
        let ghost x = e@;
        self.past.insert(i, (key, e));
        proof {
            assert(pasts(self.past@) =~= ready_past.update(i as int, (a.uid@, x)));
            assert forall|other: Seq<char>|
                #![trigger past_of(pasts(self.past@), other)]
                past_of(pasts(self.past@), other) == if other == a.uid@ {
                    x
                } else {
                    past_of(start.past, other)
                } by {
                lemma_update(ready_past, i as int, a.uid@, x, other);
                assert(past_of(ready_past, other) == past_of(start.past, other));
            }
        }
        let forbidden = forbids_copies(copies, tenancy);
        if forbidden {
            notices.push(Notice::ForbiddenCopies);
        }
        tell(&mut self.notices, owner, &notices);
        let ghost before = settled(self.prepared@);
        let prepared = Prepared {
            namespace: a.namespace.clone(),
            name: a.name.clone(),
            routing,
            tls: copy_tls(&a.spec.tls),
            own,
            invalid: outcome.invalid || forbidden,
        };
        let ghost y = prepared@;
        self.prepared.push(prepared);
        self.owners.push(owner);
        assert(settled(self.prepared@) =~= before.push(y));
    }
}

// ---------------------------------------------------------------------------
// The end of a round
// ---------------------------------------------------------------------------

/// What comes of a round.
#[derive(Debug)]
pub struct Served {
    pub assembly: Assembly,
    /// The places among all Ingresses of those that the assembly numbers.
    pub owners: Vec<usize>,
    /// What is known for the next round.
    pub past: Vec<(String, Entry)>,
    /// The namespaces with rules that have Ingresses.
    pub namespaces: Vec<String>,
    pub notices: Vec<(usize, Notice)>,
}

/// What stays known: that of Ingresses that were decided on.
pub open spec fn remembered(v: Seq<(Seq<char>, Past)>, seen: Seq<Seq<char>>) -> Seq<
    (Seq<char>, Past),
>
    decreases v.len(),
{
    if v.len() == 0 {
        Seq::empty()
    } else if seen.contains(v.last().0) {
        remembered(v.drop_last(), seen).push(v.last())
    } else {
        remembered(v.drop_last(), seen)
    }
}

proof fn lemma_remembered(v: Seq<(Seq<char>, Past)>, seen: Seq<Seq<char>>, uid: Seq<char>)
    ensures
        at(remembered(v, seen), uid) == if seen.contains(uid) {
            at(v, uid)
        } else {
            None
        },
    decreases v.len(),
{
    if v.len() > 0 {
        let w = v.drop_last();
        lemma_remembered(w, seen, uid);
        assert(w.push(v.last()) =~= v);
        lemma_push(w, v.last().0, v.last().1, uid);
        lemma_push(remembered(w, seen), v.last().0, v.last().1, uid);
    }
}

/// What stays known.
fn remember(v: Vec<(String, Entry)>, seen: &Vec<String>) -> (out: Vec<(String, Entry)>)
    ensures
        pasts(out@) == remembered(pasts(v@), texts(seen@)),
{
    let ghost all = pasts(v@);
    let ghost names = texts(seen@);
    let mut rest = v;
    let mut turned: Vec<(String, Entry)> = Vec::new();
    proof {
        assert(all.take(all.len() as int) =~= all);
        assert(remembered(all, names) + turn(pasts(turned@)) =~= remembered(all, names));
    }
    while rest.len() > 0
        invariant
            names == texts(seen@),
            remembered(pasts(rest@), names) + turn(pasts(turned@)) == remembered(all, names),
        decreases rest.len(),
    {
        let ghost before = pasts(rest@);
        let ghost done = pasts(turned@);
        let x = rest.pop().unwrap();
        let ghost y = (x.0@, x.1@);
        proof {
            assert(before.last() == y);
            assert(pasts(rest@) =~= before.drop_last());
        }
        if text::contains(seen, x.0.as_str()) {
            turned.push(x);
            proof {
                assert(pasts(turned@) =~= done.push(y));
                assert(turn(done.push(y)) =~= seq![y] + turn(done));
                assert(remembered(pasts(rest@), names).push(y) + turn(done) =~= remembered(
                    pasts(rest@),
                    names,
                ) + turn(done.push(y)));
            }
        }
    }
    assert(pasts(rest@) =~= Seq::empty());
    let ghost goal = pasts(turned@);
    assert(turn(goal) =~= remembered(all, names));
    let mut out: Vec<(String, Entry)> = Vec::new();
    assert(pasts(out@) + turn(pasts(turned@)) =~= turn(goal));
    while turned.len() > 0
        invariant
            pasts(out@) + turn(pasts(turned@)) == turn(goal),
        decreases turned.len(),
    {
        let ghost before = pasts(turned@);
        let ghost done = pasts(out@);
        let x = turned.pop().unwrap();
        let ghost y = (x.0@, x.1@);
        out.push(x);
        proof {
            assert(before.last() == y);
            assert(pasts(turned@) =~= before.drop_last());
            assert(pasts(out@) =~= done.push(y));
            assert(turn(before) =~= seq![y] + turn(before.drop_last()));
            assert(done + (seq![y] + turn(before.drop_last())) =~= done.push(y) + turn(
                before.drop_last(),
            ));
        }
    }
    assert(turn(pasts(turned@)) =~= Seq::empty());
    assert(pasts(out@) =~= turn(goal));
    out
}

/// The other way round.
pub open spec fn turn<V>(v: Seq<V>) -> Seq<V> {
    Seq::new(v.len(), |i: int| v[v.len() - 1 - i])
}

pub open spec fn namespaces_of(v: Seq<(Seq<char>, Spent)>) -> Seq<Seq<char>> {
    Seq::new(v.len(), |i: int| v[i].0)
}

fn names(v: &Vec<(String, Usage)>) -> (out: Vec<String>)
    ensures
        texts(out@) == namespaces_of(accounts(v@)),
{
    let ghost all = namespaces_of(accounts(v@));
    let mut out: Vec<String> = Vec::new();
    let mut i: usize = 0;
    assert(texts(out@) =~= all.take(0));
    while i < v.len()
        invariant
            i <= v.len(),
            all == namespaces_of(accounts(v@)),
            texts(out@) == all.take(i as int),
        decreases v.len() - i,
    {
        let ghost before = texts(out@);
        out.push(v[i].0.clone());
        i += 1;
        assert(texts(out@) =~= before.push(v@[i - 1].0@));
        assert(texts(out@) =~= all.take(i as int));
    }
    assert(all.take(i as int) =~= all);
    out
}

impl Round {
    /// Ends a round: the routes and the names of all Ingresses that were settled, and what stays known. Where
    /// there is no class for the round, what was withdrawn stays so.
    pub fn finish(self, listeners: &Vec<Listener>) -> (r: Served)
        ensures
            r.assembly@ == assembled(self@.settled, listeners@),
            r.owners@ == self@.owners,
            r.notices@ == self@.notices,
            pasts(r.past@) == if self@.class {
                remembered(self@.past, self@.seen)
            } else {
                self@.past
            },
            texts(r.namespaces@) == namespaces_of(self@.accounts),
    {
        let assembly = assemble(&self.prepared, listeners);
        let namespaces = names(&self.usages);
        let past = if self.class {
            remember(self.past, &self.seen)
        } else {
            self.past
        };
        Served { assembly, owners: self.owners, past, namespaces, notices: self.notices }
    }
}

/// Whether routes are those of requests that no other host takes.
pub fn is_default(host: &str) -> (r: bool)
    ensures
        r == (host@.len() == 0),
{
    host.is_empty()
}

// ---------------------------------------------------------------------------
// Settings
// ---------------------------------------------------------------------------

/// The fields that requests to the backends of Ingresses have.
pub open spec fn usual_fields() -> Seq<(Seq<char>, Seq<char>)> {
    seq![
        ("Host"@, "$host"@),
        ("X-Forwarded-For"@, "$remote_addr"@),
        ("X-Forwarded-Proto"@, "$scheme"@),
        ("X-Real-IP"@, "$remote_addr"@),
    ]
}

/// Gives settings what is the same for all Ingresses: whose word on the address of a client is taken, and
/// the fields that backends get.
pub fn complete(s: &mut Settings, identity: &IdentityPolicy)
    ensures
        final(s)@ == (Values {
            trusted: identity.trusted@,
            real_ip_header: identity.header@,
            real_ip_recursive: identity.recursive,
            request_headers: usual_fields(),
            ..old(s)@
        }),
{
    s.identity.trusted = copy_networks(&identity.trusted);
    s.identity.header = identity.header.clone();
    s.identity.recursive = identity.recursive;
    let mut fields: Vec<(String, String)> = Vec::new();
    fields.push(("Host".to_owned(), "$host".to_owned()));
    fields.push(("X-Forwarded-For".to_owned(), "$remote_addr".to_owned()));
    fields.push(("X-Forwarded-Proto".to_owned(), "$scheme".to_owned()));
    fields.push(("X-Real-IP".to_owned(), "$remote_addr".to_owned()));
    assert(pairs(fields@) =~= usual_fields());
    s.request_headers = fields;
}

// ---------------------------------------------------------------------------
// Laws
// ---------------------------------------------------------------------------

/// A script that was withdrawn stays so while there is no class: a checkpoint does not bring it back, and
/// nothing else is known.
pub proof fn law_withdrawn_scripts_stay_so(v: Seq<(Seq<char>, Past)>, uid: Seq<char>)
    ensures
        past_of(all_classless(v), uid) == classless(past_of(v, uid)),
    decreases v.len(),
{
    if v.len() > 0 {
        assert(all_classless(v).drop_first() =~= all_classless(v.drop_first()));
        if v[0].0 != uid {
            law_withdrawn_scripts_stay_so(v.drop_first(), uid);
        }
    }
}

/// What is known of an Ingress that is gone is forgotten, and nothing else is.
pub proof fn law_gone_ingresses_are_forgotten(
    v: Seq<(Seq<char>, Past)>,
    seen: Seq<Seq<char>>,
    uid: Seq<char>,
)
    ensures
        past_of(remembered(v, seen), uid) == if seen.contains(uid) {
            past_of(v, uid)
        } else {
            nothing_known()
        },
{
    lemma_remembered(v, seen, uid);
}

/// A namespace that stays within its limits stays so with each Ingress that is counted for it.
pub proof fn law_namespaces_stay_within_their_limits(s: Spent, d: Demand, q: Quota)
    requires
        refusal(Tenancy::Limited(q), s, d) is None,
    ensures
        charged(s, d).ingresses <= q.max_ingresses,
        charged(s, d).routes <= q.max_routes,
        charged(s, d).backends.len() <= q.max_backends,
{
}

/// A namespace that is denied is refused, one without limits is not, and one with limits is refused where a
/// limit would be passed.
pub proof fn law_namespaces_are_refused_beyond_their_limits(s: Spent, d: Demand, q: Quota)
    ensures
        refusal(Tenancy::Free, s, d) is None,
        refusal(Tenancy::Denied, s, d) == Some(Notice::NamespaceDenied),
        s.ingresses >= q.max_ingresses ==> refusal(Tenancy::Limited(q), s, d) == Some(Notice::NamespaceQuota),
        s.routes + d.routes > q.max_routes ==> refusal(Tenancy::Limited(q), s, d) == Some(Notice::NamespaceQuota),
        s.routes + d.retained_routes > q.max_routes ==> refusal(Tenancy::Limited(q), s, d) == Some(
            Notice::NamespaceQuota,
        ),
        joined(s.backends, texts(d.backends@)).len() > q.max_backends ==> refusal(Tenancy::Limited(q), s, d) == Some(
            Notice::NamespaceQuota,
        ),
        d.scripted && !q.allow_scripts ==> refusal(Tenancy::Limited(q), s, d) == Some(Notice::NamespaceQuota),
        d.script is Some && d.script->0 > q.max_script_bytes ==> refusal(Tenancy::Limited(q), s, d) == Some(
            Notice::NamespaceQuota,
        ),
        s.ingresses < q.max_ingresses && s.routes + d.routes <= q.max_routes && s.routes + d.retained_routes
            <= q.max_routes && joined(s.backends, texts(d.backends@)).len() <= q.max_backends && (d.scripted
            ==> q.allow_scripts) && (d.script is Some ==> d.script->0 <= q.max_script_bytes) ==> refusal(
            Tenancy::Limited(q),
            s,
            d,
        ) is None,
        charged(s, d).ingresses == s.ingresses + 1,
        charged(s, d).routes >= s.routes + d.routes,
        charged(s, d).routes >= s.routes + d.retained_routes,
{
}

/// An Ingress that claims names which its namespace may not have is not settled, and one that asks for copies
/// which its namespace may not make is invalid.
pub proof fn law_claims_beyond_a_namespace_are_told(
    was: Standing,
    new: Standing,
    owner: usize,
    a: Asked,
    v: Ruling,
    q: Quota,
    ready: bool,
    domains: bool,
    copies: bool,
)
    requires
        settles(was, new, owner, a, v, Tenancy::Limited(q), ready, domains, copies),
    ensures
        !domains ==> new.settled == was.settled && new.owners == was.owners && new.notices.last() == (
            owner,
            Notice::DomainDenied,
        ),
        domains ==> new.settled.len() == was.settled.len() + 1 && new.owners.last() == owner
            && new.settled.last().namespace == a.namespace@ && new.settled.last().name == a.name@,
        domains && copies && !q.allow_mirroring ==> new.settled.last().invalid && new.notices.last() == (
            owner,
            Notice::ForbiddenCopies,
        ),
{
}

/// A backend is asked with the host of the request, and is told the client and the scheme.
pub proof fn law_backends_are_told_of_clients()
    ensures
        text::lookup(usual_fields(), "Host"@) == Some("$host"@),
        text::lookup(usual_fields(), "X-Forwarded-For"@) == Some("$remote_addr"@),
        text::lookup(usual_fields(), "X-Forwarded-Proto"@) == Some("$scheme"@),
        text::lookup(usual_fields(), "X-Real-IP"@) == Some("$remote_addr"@),
        usual_fields().len() == 4,
{
    reveal_with_fuel(text::lookup, 5);
    reveal_strlit("X-Forwarded-For");
    reveal_strlit("Host");
    assert("X-Forwarded-For"@.len() != "Host"@.len());
    reveal_strlit("X-Forwarded-Proto");
    reveal_strlit("Host");
    assert("X-Forwarded-Proto"@.len() != "Host"@.len());
    reveal_strlit("X-Forwarded-For");
    assert("X-Forwarded-Proto"@.len() != "X-Forwarded-For"@.len());
    reveal_strlit("X-Real-IP");
    reveal_strlit("Host");
    assert("X-Real-IP"@.len() != "Host"@.len());
    reveal_strlit("X-Forwarded-For");
    assert("X-Real-IP"@.len() != "X-Forwarded-For"@.len());
    reveal_strlit("X-Forwarded-Proto");
    assert("X-Real-IP"@.len() != "X-Forwarded-Proto"@.len());
}

} // verus!
