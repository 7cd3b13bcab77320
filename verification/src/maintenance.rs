//! What is looked after from time to time: certificates and backends.
use vstd::prelude::*;

verus! {

/// The most certificates of which something is measured.
pub const MAX_CERTIFICATES: usize = 2048;

/// A name with its certificate: whether it is valid now and covers the name, and when it expires.
#[derive(Debug)]
pub struct Held {
    pub listener: String,
    pub name: String,
    /// Nothing where the name has no certificate.
    pub certificate: Option<Health>,
}

#[derive(Clone, Copy, Debug, PartialEq, Eq, Structural)]
pub struct Health {
    pub valid_time: bool,
    pub covers: bool,
    pub expires: Option<i64>,
}

/// What is measured of a name.
#[derive(Debug)]
pub struct Gauge {
    pub listener: String,
    pub name: String,
    pub valid: bool,
    pub expires: Option<i64>,
}

/// What a `Gauge` holds.
#[verifier::ext_equal]
pub ghost struct Measure {
    pub listener: Seq<char>,
    pub name: Seq<char>,
    pub valid: bool,
    pub expires: Option<i64>,
}

impl View for Gauge {
    type V = Measure;

    open spec fn view(&self) -> Measure {
        Measure {
            listener: self.listener@,
            name: self.name@,
            valid: self.valid,
            expires: self.expires,
        }
    }
}

pub open spec fn gauges(v: Seq<Gauge>) -> Seq<Measure> {
    Seq::new(v.len(), |i: int| v[i]@)
}

/// What is measured of a name.
pub open spec fn measured(h: Held) -> Measure {
    Measure {
        listener: h.listener@,
        name: h.name@,
        valid: h.certificate is Some && h.certificate->0.valid_time && h.certificate->0.covers,
        expires: match h.certificate {
            Some(c) => c.expires,
            None => None,
        },
    }
}

/// What is measured: the first names, as many as are measured.
pub open spec fn all_measured(v: Seq<Held>) -> Seq<Measure> {
    Seq::new(
        if v.len() < MAX_CERTIFICATES {
            v.len()
        } else {
            MAX_CERTIFICATES as nat
        },
        |i: int| measured(v[i]),
    )
}

/// Of each thing one number: those that were not met before, in their order.
pub open spec fn firsts(v: Seq<u64>) -> Seq<int>
    decreases v.len(),
{
    if v.len() == 0 {
        Seq::empty()
    } else if v.drop_last().contains(v.last()) {
        firsts(v.drop_last())
    } else {
        firsts(v.drop_last()).push(v.len() - 1)
    }
}

/// Looks after certificates and backends.
#[derive(Clone, Copy, Debug, PartialEq, Eq, Structural)]
pub struct Maintenance {
    /// How many backends are looked after at once.
    pub width: usize,
}

impl Maintenance {
    pub fn new() -> (r: Maintenance)
        ensures
            r.width == 8,
    {
        Maintenance { width: 8 }
    }

    /// What is measured of the names.
    pub fn measure(&self, v: &Vec<Held>) -> (out: Vec<Gauge>)
        ensures
            gauges(out@) == all_measured(v@),
    {
        let n: usize = if v.len() < MAX_CERTIFICATES {
            v.len()
        } else {
            MAX_CERTIFICATES
        };
        let ghost goal = all_measured(v@);
        let mut out: Vec<Gauge> = Vec::new();
        let mut i: usize = 0;
        assert(gauges(out@) =~= goal.take(0));
        while i < n
            invariant
                i <= n <= v.len(),
                goal == all_measured(v@),
                goal.len() == n,
                gauges(out@) == goal.take(i as int),
            decreases n - i,
        {
            let h = &v[i];
            let (valid, expires) = match h.certificate {
                Some(c) => (c.valid_time && c.covers, c.expires),
                None => (false, None),
            };
            let ghost before = gauges(out@);
            let g = Gauge {
                listener: h.listener.clone(),
                name: h.name.clone(),
                valid,
                expires,
            };
            let ghost m = g@;
            out.push(g);
            proof {
                assert(gauges(out@) =~= before.push(m));
                assert(m =~= measured(v@[i as int]));
                assert(goal.take(i + 1) =~= goal.take(i as int).push(m));
            }
            i += 1;
        }
        assert(goal.take(i as int) =~= goal);
        out
    }

    /// The places of the backends to look after, each of which may be there more than once; equal numbers
    /// stand for the same backend.
    pub fn distinct(&self, v: &Vec<u64>) -> (out: Vec<usize>)
        ensures
            Seq::new(out@.len(), |i: int| out@[i] as int) == firsts(v@),
    {
        let mut out: Vec<usize> = Vec::new();
        let mut i: usize = 0;
        assert(Seq::new(out@.len(), |i: int| out@[i] as int) =~= firsts(v@.take(0)));
        while i < v.len()
            invariant
                i <= v.len(),
                Seq::new(out@.len(), |i: int| out@[i] as int) == firsts(v@.take(i as int)),
            decreases v.len() - i,
        {
            let ghost before = Seq::new(out@.len(), |i: int| out@[i] as int);
            proof {
                assert(v@.take(i + 1).drop_last() =~= v@.take(i as int));
                assert(v@.take(i + 1).last() == v@[i as int]);
            }
            if !seen(v, i) {
                out.push(i);
                assert(Seq::new(out@.len(), |i: int| out@[i] as int) =~= before.push(i as int));
            }
            i += 1;
        }
        assert(v@.take(i as int) =~= v@);
        out
    }
}

fn seen(v: &Vec<u64>, at: usize) -> (r: bool)
    requires
        at < v@.len(),
    ensures
        r == v@.take(at as int).contains(v@[at as int]),
{
    let ghost w = v@.take(at as int);
    let mut i: usize = 0;
    while i < at
        invariant
            i <= at < v@.len(),
            w == v@.take(at as int),
            forall|j: int| 0 <= j < i ==> w[j] != v@[at as int],
        decreases at - i,
    {
        assert(w[i as int] == v@[i as int]);
        if v[i] == v[at] {
            return true;
        }
        i += 1;
    }
    false
}

// ---------------------------------------------------------------------------
// Laws
// ---------------------------------------------------------------------------

/// Everything is looked after once: each number is found at one of the places, and at one only.
pub proof fn law_backends_are_looked_after_once(v: Seq<u64>, i: int)
    requires
        0 <= i < v.len(),
    ensures
        exists|k: int|
            0 <= k < firsts(v).len() && 0 <= #[trigger] firsts(v)[k] < v.len() && v[firsts(v)[k]]
                == v[i],
        forall|k: int, l: int|
            0 <= k < l < firsts(v).len() ==> v[#[trigger] firsts(v)[k]] != v[#[trigger] firsts(
                v,
            )[l]],
{
    lemma_firsts(v);
    let j = lemma_covered(v, i);
    assert(0 <= firsts(v)[j] < v.len());
}

proof fn lemma_firsts(v: Seq<u64>)
    ensures
        forall|k: int| 0 <= k < firsts(v).len() ==> 0 <= #[trigger] firsts(v)[k] < v.len(),
        forall|k: int, l: int|
            0 <= k < l < firsts(v).len() ==> v[#[trigger] firsts(v)[k]] != v[#[trigger] firsts(
                v,
            )[l]],
    decreases v.len(),
{
    if v.len() > 0 {
        let w = v.drop_last();
        lemma_firsts(w);
        assert forall|k: int, l: int| 0 <= k < l < firsts(v).len() implies v[#[trigger] firsts(
            v,
        )[k]] != v[#[trigger] firsts(v)[l]] by {
            assert(firsts(v)[k] == firsts(w)[k]);
            assert(v[firsts(v)[k]] == w[firsts(w)[k]]);
            if l < firsts(w).len() {
                assert(firsts(v)[l] == firsts(w)[l]);
                assert(v[firsts(v)[l]] == w[firsts(w)[l]]);
            } else {
                assert(!w.contains(v.last()));
            }
        }
    }
}

proof fn lemma_covered(v: Seq<u64>, i: int) -> (k: int)
    requires
        0 <= i < v.len(),
    ensures
        0 <= k < firsts(v).len(),
        v[firsts(v)[k]] == v[i],
    decreases v.len(),
{
    let w = v.drop_last();
    lemma_firsts(w);
    if i < w.len() {
        let k = lemma_covered(w, i);
        assert(firsts(v)[k] == firsts(w)[k]);
        assert(v[firsts(v)[k]] == w[firsts(w)[k]]);
        k
    } else if w.contains(v.last()) {
        let j = choose|j: int| 0 <= j < w.len() && w[j] == v.last();
        let k = lemma_covered(w, j);
        assert(v[firsts(v)[k]] == w[firsts(w)[k]]);
        k
    } else {
        firsts(v).len() - 1
    }
}

/// A name is well served where its certificate is valid now and covers it.
pub proof fn law_names_are_well_served(h: Held, c: Health)
    ensures
        h.certificate is None ==> !measured(h).valid && measured(h).expires is None,
        h.certificate == Some(c) ==> (measured(h).valid <==> c.valid_time && c.covers) && measured(h).expires
            == c.expires,
        measured(h).name == h.name@,
        measured(h).listener == h.listener@,
{
}

/// Every name is looked at, up to 2048 of them.
pub proof fn law_names_are_looked_at(v: Seq<Held>, i: int)
    requires
        0 <= i < v.len(),
    ensures
        v.len() <= 2048 ==> all_measured(v).len() == v.len(),
        v.len() > 2048 ==> all_measured(v).len() == 2048,
        i < 2048 ==> all_measured(v)[i] == measured(v[i]),
{
}

} // verus!
