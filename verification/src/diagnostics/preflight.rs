//! How two configurations differ.
use crate::text;
use vstd::prelude::*;

verus! {

/// A route of a configuration: what it is known by, and the digest of all that it does.
#[derive(Debug)]
pub struct RouteEntry {
    pub id: String,
    pub digest: String,
}

/// A backend of a configuration: its name, and the digest of its settings.
#[derive(Debug)]
pub struct BackendEntry {
    pub name: String,
    pub digest: String,
}

pub open spec fn entries(v: Seq<RouteEntry>) -> Seq<(Seq<char>, Seq<char>)> {
    Seq::new(v.len(), |i: int| (v[i].id@, v[i].digest@))
}

pub open spec fn groups(v: Seq<BackendEntry>) -> Seq<(Seq<char>, Seq<char>)> {
    Seq::new(v.len(), |i: int| (v[i].name@, v[i].digest@))
}

/// What a route is known by: the listener, the names of its host, and its identifier.
pub open spec fn entry_key(listener: Seq<char>, names: Seq<Seq<char>>, id: Seq<char>) -> Seq<char> {
    listener + "|"@ + text::join_spec(names, ","@) + "|"@ + id
}

pub fn route_key(listener: &str, names: &Vec<String>, id: &str) -> (out: String)
    ensures
        out@ == entry_key(listener@, text::texts(names@), id@),
{
    let head = text::concat3(listener, "|", text::join(names, ",").as_str());
    text::concat3(head.as_str(), "|", id)
}

/// The digest of the entry of an identifier; of several the last counts.
pub open spec fn digest_of(v: Seq<(Seq<char>, Seq<char>)>, id: Seq<char>) -> Option<Seq<char>>
    decreases v.len(),
{
    if v.len() == 0 {
        None
    } else if v.last().0 == id {
        Some(v.last().1)
    } else {
        digest_of(v.drop_last(), id)
    }
}

/// The identifiers of entries in order, each once.
pub open spec fn inserted(v: Seq<Seq<char>>, id: Seq<char>) -> Seq<Seq<char>>
    decreases v.len(),
{
    if v.len() == 0 {
        seq![id]
    } else if v[0] == id {
        v
    } else if text::before(id, v[0]) {
        seq![id] + v
    } else {
        seq![v[0]] + inserted(v.drop_first(), id)
    }
}

pub open spec fn identifiers(v: Seq<(Seq<char>, Seq<char>)>) -> Seq<Seq<char>>
    decreases v.len(),
{
    if v.len() == 0 {
        Seq::empty()
    } else {
        inserted(identifiers(v.drop_last()), v.last().0)
    }
}

/// Those of some identifiers that an entry has here and none has there.
pub open spec fn only_in(ids: Seq<Seq<char>>, there: Seq<(Seq<char>, Seq<char>)>) -> Seq<Seq<char>>
    decreases ids.len(),
{
    if ids.len() == 0 {
        Seq::empty()
    } else if digest_of(there, ids.last()) is None {
        only_in(ids.drop_last(), there).push(ids.last())
    } else {
        only_in(ids.drop_last(), there)
    }
}

/// Those of some identifiers that both have, with different digests.
pub open spec fn differing(
    ids: Seq<Seq<char>>,
    here: Seq<(Seq<char>, Seq<char>)>,
    there: Seq<(Seq<char>, Seq<char>)>,
) -> Seq<Seq<char>>
    decreases ids.len(),
{
    if ids.len() == 0 {
        Seq::empty()
    } else if digest_of(there, ids.last()) is Some && digest_of(there, ids.last()) != digest_of(
        here,
        ids.last(),
    ) {
        differing(ids.drop_last(), here, there).push(ids.last())
    } else {
        differing(ids.drop_last(), here, there)
    }
}

/// Those of some identifiers whose digests differ, or that one of the two does not have.
pub open spec fn altered(
    ids: Seq<Seq<char>>,
    here: Seq<(Seq<char>, Seq<char>)>,
    there: Seq<(Seq<char>, Seq<char>)>,
) -> Seq<Seq<char>>
    decreases ids.len(),
{
    if ids.len() == 0 {
        Seq::empty()
    } else if digest_of(here, ids.last()) is None || digest_of(here, ids.last()) != digest_of(
        there,
        ids.last(),
    ) {
        altered(ids.drop_last(), here, there).push(ids.last())
    } else {
        altered(ids.drop_last(), here, there)
    }
}

/// How two configurations differ, by what their routes and backends are known by.
#[derive(Debug)]
pub struct Differences {
    pub added: Vec<String>,
    pub removed: Vec<String>,
    pub changed: Vec<String>,
    pub backends: Vec<String>,
    pub restart_required: bool,
    pub certificate_changes: bool,
}

/// What a `Differences` holds.
#[verifier::ext_equal]
pub ghost struct Delta {
    pub added: Seq<Seq<char>>,
    pub removed: Seq<Seq<char>>,
    pub changed: Seq<Seq<char>>,
    pub backends: Seq<Seq<char>>,
    pub restart_required: bool,
    pub certificate_changes: bool,
}

impl View for Differences {
    type V = Delta;

    open spec fn view(&self) -> Delta {
        Delta {
            added: text::texts(self.added@),
            removed: text::texts(self.removed@),
            changed: text::texts(self.changed@),
            backends: text::texts(self.backends@),
            restart_required: self.restart_required,
            certificate_changes: self.certificate_changes,
        }
    }
}

/// A configuration as far as differences go. A certificate is known by its listener and name, and by the
/// digest of what it is.
#[derive(Debug)]
pub struct Outline {
    pub routes: Vec<RouteEntry>,
    pub backends: Vec<BackendEntry>,
    pub listeners: Vec<crate::config::load::Listener>,
    pub certificates: Vec<(String, String)>,
}

/// What an `Outline` holds.
#[verifier::ext_equal]
pub ghost struct Sketch {
    pub routes: Seq<(Seq<char>, Seq<char>)>,
    pub backends: Seq<(Seq<char>, Seq<char>)>,
    pub listeners: Seq<crate::config::load::Listener>,
    pub certificates: Seq<(Seq<char>, Seq<char>)>,
}

impl View for Outline {
    type V = Sketch;

    open spec fn view(&self) -> Sketch {
        Sketch {
            routes: entries(self.routes@),
            backends: groups(self.backends@),
            listeners: self.listeners@,
            certificates: text::pairs(self.certificates@),
        }
    }
}

/// How two configurations differ.
pub open spec fn delta(a: Sketch, b: Sketch) -> Delta {
    Delta {
        added: only_in(identifiers(b.routes), a.routes),
        removed: only_in(identifiers(a.routes), b.routes),
        changed: differing(identifiers(b.routes), b.routes, a.routes),
        backends: altered(identifiers(a.backends + b.backends), a.backends, b.backends),
        restart_required: a.listeners != b.listeners,
        certificate_changes: a.certificates != b.certificates,
    }
}

/// A list of pairs, as far as differences go.
fn route_pairs(v: &Vec<RouteEntry>) -> (out: Vec<(String, String)>)
    ensures
        text::pairs(out@) == entries(v@),
{
    let mut out: Vec<(String, String)> = Vec::new();
    let mut i: usize = 0;
    while i < v.len()
        invariant
            i <= v.len(),
            text::pairs(out@) == entries(v@).take(i as int),
        decreases v.len() - i,
    {
        let ghost before = text::pairs(out@);
        out.push((v[i].id.clone(), v[i].digest.clone()));
        proof {
            let x = (v@[i as int].id@, v@[i as int].digest@);
            assert(text::pairs(out@) =~= before.push(x));
            assert(entries(v@).take(i + 1) =~= entries(v@).take(i as int).push(x));
        }
        i += 1;
    }
    assert(entries(v@).take(i as int) =~= entries(v@));
    out
}

fn backend_pairs(v: &Vec<BackendEntry>) -> (out: Vec<(String, String)>)
    ensures
        text::pairs(out@) == groups(v@),
{
    let mut out: Vec<(String, String)> = Vec::new();
    let mut i: usize = 0;
    while i < v.len()
        invariant
            i <= v.len(),
            text::pairs(out@) == groups(v@).take(i as int),
        decreases v.len() - i,
    {
        let ghost before = text::pairs(out@);
        out.push((v[i].name.clone(), v[i].digest.clone()));
        proof {
            let x = (v@[i as int].name@, v@[i as int].digest@);
            assert(text::pairs(out@) =~= before.push(x));
            assert(groups(v@).take(i + 1) =~= groups(v@).take(i as int).push(x));
        }
        i += 1;
    }
    assert(groups(v@).take(i as int) =~= groups(v@));
    out
}

fn find_digest<'a>(v: &'a Vec<(String, String)>, id: &str) -> (r: Option<&'a str>)
    ensures
        match r {
            Some(s) => digest_of(text::pairs(v@), id@) == Some(s@),
            None => digest_of(text::pairs(v@), id@) is None,
        },
{
    let ghost all = text::pairs(v@);
    let mut i: usize = v.len();
    assert(all.take(i as int) =~= all);
    while i > 0
        invariant
            i <= v.len(),
            all == text::pairs(v@),
            digest_of(all.take(i as int), id@) == digest_of(all, id@),
        decreases i,
    {
        assert(all.take(i as int).drop_last() =~= all.take(i - 1));
        assert(all.take(i as int).last() == (v@[i - 1].0@, v@[i - 1].1@));
        if text::same(v[i - 1].0.as_str(), id) {
            return Some(v[i - 1].1.as_str());
        }
        i -= 1;
    }
    None
}

/// Puts an identifier in its place, unless it is there.
pub fn insert_id(v: &mut Vec<String>, id: &str)
    ensures
        text::texts(final(v)@) == inserted(text::texts(old(v)@), id@),
{
    let ghost all = text::texts(v@);
    let mut i: usize = 0;
    proof {
        assert(all.skip(0) =~= all);
        assert(all.take(0) + inserted(all.skip(0), id@) =~= inserted(all, id@));
    }
    while i < v.len() && !text::same(v[i].as_str(), id) && !text::is_before(id, v[i].as_str())
        invariant
            i <= v.len(),
            all == text::texts(v@),
            all.take(i as int) + inserted(all.skip(i as int), id@) == inserted(all, id@),
        decreases v.len() - i,
    {
        proof {
            let rest = all.skip(i as int);
            assert(rest.drop_first() =~= all.skip(i + 1));
            assert(all.take(i + 1) + inserted(all.skip(i + 1), id@) =~= all.take(i as int)
                + inserted(rest, id@));
        }
        i += 1;
    }
    if i < v.len() && text::same(v[i].as_str(), id) {
        proof {
            assert(all.take(i as int) + all.skip(i as int) =~= all);
        }
        return;
    }
    proof {
        if i == v.len() {
            assert(all.skip(i as int) =~= Seq::empty());
            assert(all.take(i as int) + seq![id@] =~= all.insert(i as int, id@));
        } else {
            assert(all.take(i as int) + (seq![id@] + all.skip(i as int)) =~= all.insert(
                i as int,
                id@,
            ));
        }
    }
    v.insert(i, id.to_owned());
    assert(text::texts(v@) =~= all.insert(i as int, id@));
}

fn collect_ids(v: &Vec<(String, String)>) -> (out: Vec<String>)
    ensures
        text::texts(out@) == identifiers(text::pairs(v@)),
{
    let ghost all = text::pairs(v@);
    let mut out: Vec<String> = Vec::new();
    let mut i: usize = 0;
    assert(text::texts(out@) =~= Seq::empty());
    while i < v.len()
        invariant
            i <= v.len(),
            all == text::pairs(v@),
            text::texts(out@) == identifiers(all.take(i as int)),
        decreases v.len() - i,
    {
        assert(all.take(i + 1).drop_last() =~= all.take(i as int));
        assert(all.take(i + 1).last() == (v@[i as int].0@, v@[i as int].1@));
        insert_id(&mut out, v[i].0.as_str());
        i += 1;
    }
    assert(all.take(i as int) =~= all);
    out
}

fn pick_only(ids: &Vec<String>, there: &Vec<(String, String)>) -> (out: Vec<String>)
    ensures
        text::texts(out@) == only_in(text::texts(ids@), text::pairs(there@)),
{
    let ghost all = text::texts(ids@);
    let mut out: Vec<String> = Vec::new();
    let mut i: usize = 0;
    assert(text::texts(out@) =~= Seq::empty());
    while i < ids.len()
        invariant
            i <= ids.len(),
            all == text::texts(ids@),
            text::texts(out@) == only_in(all.take(i as int), text::pairs(there@)),
        decreases ids.len() - i,
    {
        let ghost before = text::texts(out@);
        assert(all.take(i + 1).drop_last() =~= all.take(i as int));
        if find_digest(there, ids[i].as_str()).is_none() {
            out.push(ids[i].clone());
            assert(text::texts(out@) =~= before.push(ids@[i as int]@));
        }
        i += 1;
    }
    assert(all.take(i as int) =~= all);
    out
}

fn pick_differing(
    ids: &Vec<String>,
    here: &Vec<(String, String)>,
    there: &Vec<(String, String)>,
) -> (out: Vec<String>)
    ensures
        text::texts(out@) == differing(
            text::texts(ids@),
            text::pairs(here@),
            text::pairs(there@),
        ),
{
    let ghost all = text::texts(ids@);
    let mut out: Vec<String> = Vec::new();
    let mut i: usize = 0;
    assert(text::texts(out@) =~= Seq::empty());
    while i < ids.len()
        invariant
            i <= ids.len(),
            all == text::texts(ids@),
            text::texts(out@) == differing(
                all.take(i as int),
                text::pairs(here@),
                text::pairs(there@),
            ),
        decreases ids.len() - i,
    {
        let ghost before = text::texts(out@);
        assert(all.take(i + 1).drop_last() =~= all.take(i as int));
        let differs = match (
            find_digest(there, ids[i].as_str()),
            find_digest(here, ids[i].as_str()),
        ) {
            (Some(a), Some(b)) => !text::same(a, b),
            (Some(_), None) => true,
            _ => false,
        };
        if differs {
            out.push(ids[i].clone());
            assert(text::texts(out@) =~= before.push(ids@[i as int]@));
        }
        i += 1;
    }
    assert(all.take(i as int) =~= all);
    out
}

fn pick_altered(
    ids: &Vec<String>,
    here: &Vec<(String, String)>,
    there: &Vec<(String, String)>,
) -> (out: Vec<String>)
    ensures
        text::texts(out@) == altered(text::texts(ids@), text::pairs(here@), text::pairs(there@)),
{
    let ghost all = text::texts(ids@);
    let mut out: Vec<String> = Vec::new();
    let mut i: usize = 0;
    assert(text::texts(out@) =~= Seq::empty());
    while i < ids.len()
        invariant
            i <= ids.len(),
            all == text::texts(ids@),
            text::texts(out@) == altered(
                all.take(i as int),
                text::pairs(here@),
                text::pairs(there@),
            ),
        decreases ids.len() - i,
    {
        let ghost before = text::texts(out@);
        assert(all.take(i + 1).drop_last() =~= all.take(i as int));
        let same = match (
            find_digest(here, ids[i].as_str()),
            find_digest(there, ids[i].as_str()),
        ) {
            (Some(a), Some(b)) => text::same(a, b),
            _ => false,
        };
        if !same {
            out.push(ids[i].clone());
            assert(text::texts(out@) =~= before.push(ids@[i as int]@));
        }
        i += 1;
    }
    assert(all.take(i as int) =~= all);
    out
}

fn same_listeners(
    a: &Vec<crate::config::load::Listener>,
    b: &Vec<crate::config::load::Listener>,
) -> (r: bool)
    ensures
        r == (a@ == b@),
{
    if a.len() != b.len() {
        return false;
    }
    let mut i: usize = 0;
    while i < a.len()
        invariant
            i <= a.len() == b.len(),
            forall|j: int| 0 <= j < i ==> a@[j] == b@[j],
        decreases a.len() - i,
    {
        if a[i] != b[i] {
            return false;
        }
        i += 1;
    }
    assert(a@ =~= b@);
    true
}

fn same_pairs(a: &Vec<(String, String)>, b: &Vec<(String, String)>) -> (r: bool)
    ensures
        r == (text::pairs(a@) == text::pairs(b@)),
{
    let ghost x = text::pairs(a@);
    let ghost y = text::pairs(b@);
    if a.len() != b.len() {
        assert(x.len() != y.len());
        return false;
    }
    let mut i: usize = 0;
    while i < a.len()
        invariant
            i <= a.len() == b.len(),
            x == text::pairs(a@),
            y == text::pairs(b@),
            forall|j: int| 0 <= j < i ==> x[j] == y[j],
        decreases a.len() - i,
    {
        if !text::same(a[i].0.as_str(), b[i].0.as_str()) || !text::same(
            a[i].1.as_str(),
            b[i].1.as_str(),
        ) {
            assert(x[i as int] != y[i as int]);
            return false;
        }
        i += 1;
    }
    assert(x =~= y);
    true
}

fn both(a: &Vec<(String, String)>, b: &Vec<(String, String)>) -> (out: Vec<(String, String)>)
    ensures
        text::pairs(out@) == text::pairs(a@) + text::pairs(b@),
{
    let mut out: Vec<(String, String)> = Vec::new();
    let mut i: usize = 0;
    let ghost x = text::pairs(a@);
    let ghost y = text::pairs(b@);
    while i < a.len()
        invariant
            i <= a.len(),
            x == text::pairs(a@),
            text::pairs(out@) == x.take(i as int),
        decreases a.len() - i,
    {
        let ghost before = text::pairs(out@);
        out.push((a[i].0.clone(), a[i].1.clone()));
        proof {
            assert(text::pairs(out@) =~= before.push(x[i as int]));
            assert(x.take(i + 1) =~= x.take(i as int).push(x[i as int]));
        }
        i += 1;
    }
    let mut k: usize = 0;
    assert(x.take(i as int) + y.take(0) =~= x);
    assert(x.take(i as int) =~= x);
    while k < b.len()
        invariant
            k <= b.len(),
            y == text::pairs(b@),
            text::pairs(out@) == x + y.take(k as int),
        decreases b.len() - k,
    {
        let ghost before = text::pairs(out@);
        out.push((b[k].0.clone(), b[k].1.clone()));
        proof {
            assert(text::pairs(out@) =~= before.push(y[k as int]));
            assert(before.push(y[k as int]) =~= x + y.take(k + 1));
        }
        k += 1;
    }
    assert(y.take(k as int) =~= y);
    out
}

/// How two configurations differ.
pub fn diff(a: &Outline, b: &Outline) -> (d: Differences)
    ensures
        d@ == delta(a@, b@),
{
    let previous = route_pairs(&a.routes);
    let next = route_pairs(&b.routes);
    let old_ids = collect_ids(&previous);
    let new_ids = collect_ids(&next);
    let here = backend_pairs(&a.backends);
    let there = backend_pairs(&b.backends);
    let all = collect_ids(&both(&here, &there));
    Differences {
        added: pick_only(&new_ids, &previous),
        removed: pick_only(&old_ids, &next),
        changed: pick_differing(&new_ids, &next, &previous),
        backends: pick_altered(&all, &here, &there),
        restart_required: !same_listeners(&a.listeners, &b.listeners),
        certificate_changes: !same_pairs(&a.certificates, &b.certificates),
    }
}

/// What a certificate is known by.
pub fn certificate_key(listener: &str, name: &str) -> (out: String)
    ensures
        out@ == listener@ + "|"@ + name@,
{
    text::concat3(listener, "|", name)
}

// ---------------------------------------------------------------------------
// Laws
// ---------------------------------------------------------------------------

proof fn lemma_identifiers(v: Seq<(Seq<char>, Seq<char>)>, id: Seq<char>)
    ensures
        identifiers(v).contains(id) <==> digest_of(v, id) is Some,
    decreases v.len(),
{
    if v.len() > 0 {
        lemma_identifiers(v.drop_last(), id);
        lemma_inserted(identifiers(v.drop_last()), v.last().0, id);
    }
}

proof fn lemma_inserted(v: Seq<Seq<char>>, id: Seq<char>, other: Seq<char>)
    ensures
        inserted(v, id).contains(other) <==> v.contains(other) || other == id,
    decreases v.len(),
{
    let n = inserted(v, id);
    if v.len() == 0 {
        assert(n[0] == id);
    } else if v[0] == id {
    } else if text::before(id, v[0]) {
        assert(n[0] == id);
        if v.contains(other) {
            let i = choose|i: int| 0 <= i < v.len() && v[i] == other;
            assert(n[i + 1] == other);
        }
        if n.contains(other) && other != id {
            let i = choose|i: int| 0 <= i < n.len() && n[i] == other;
            assert(v[i - 1] == other);
        }
    } else {
        let w = v.drop_first();
        lemma_inserted(w, id, other);
        let m = inserted(w, id);
        assert(n[0] == v[0]);
        if n.contains(other) && other != v[0] {
            let i = choose|i: int| 0 <= i < n.len() && n[i] == other;
            assert(m[i - 1] == other);
            if w.contains(other) {
                let k = choose|k: int| 0 <= k < w.len() && w[k] == other;
                assert(v[k + 1] == other);
            }
        }
        if v.contains(other) && other != v[0] {
            let i = choose|i: int| 0 <= i < v.len() && v[i] == other;
            assert(w[i - 1] == other);
        }
        if m.contains(other) {
            let i = choose|i: int| 0 <= i < m.len() && m[i] == other;
            assert(n[i + 1] == other);
        }
    }
}

proof fn lemma_only_in(ids: Seq<Seq<char>>, there: Seq<(Seq<char>, Seq<char>)>, id: Seq<char>)
    ensures
        only_in(ids, there).contains(id) <==> ids.contains(id) && digest_of(there, id) is None,
    decreases ids.len(),
{
    if ids.len() > 0 {
        let w = ids.drop_last();
        let o = only_in(w, there);
        let n = only_in(ids, there);
        lemma_only_in(w, there, id);
        assert(ids[ids.len() - 1] == ids.last());
        if ids.contains(id) && id != ids.last() {
            let i = choose|i: int| 0 <= i < ids.len() && ids[i] == id;
            assert(w[i] == id);
        }
        if w.contains(id) {
            let i = choose|i: int| 0 <= i < w.len() && w[i] == id;
            assert(ids[i] == id);
        }
        if digest_of(there, ids.last()) is None {
            assert(n[n.len() - 1] == ids.last());
            if o.contains(id) {
                let i = choose|i: int| 0 <= i < o.len() && o[i] == id;
                assert(n[i] == id);
            }
            if n.contains(id) && id != ids.last() {
                let i = choose|i: int| 0 <= i < n.len() && n[i] == id;
                assert(o[i] == id);
            }
        }
    }
}

/// A route is added where only the later configuration has it, and removed where only the earlier one.
pub proof fn law_additions_and_removals_mirror(a: Sketch, b: Sketch, id: Seq<char>)
    ensures
        delta(a, b).added.contains(id) <==> digest_of(b.routes, id) is Some && digest_of(
            a.routes,
            id,
        ) is None,
        delta(a, b).removed.contains(id) <==> delta(b, a).added.contains(id),
{
    lemma_identifiers(b.routes, id);
    lemma_identifiers(a.routes, id);
    lemma_only_in(identifiers(b.routes), a.routes, id);
    lemma_only_in(identifiers(a.routes), b.routes, id);
}

/// A configuration does not differ from itself.
pub proof fn law_nothing_differs_from_itself(a: Sketch)
    ensures
        delta(a, a) == (Delta {
            added: Seq::empty(),
            removed: Seq::empty(),
            changed: Seq::empty(),
            backends: Seq::empty(),
            restart_required: false,
            certificate_changes: false,
        }),
{
    lemma_none_only(a.routes, identifiers(a.routes));
    lemma_none_differing(a.routes, identifiers(a.routes));
    lemma_none_altered(a.backends, identifiers(a.backends + a.backends));
}

proof fn lemma_none_only(v: Seq<(Seq<char>, Seq<char>)>, ids: Seq<Seq<char>>)
    requires
        forall|i: int| 0 <= i < ids.len() ==> identifiers(v).contains(#[trigger] ids[i]),
    ensures
        only_in(ids, v) == Seq::<Seq<char>>::empty(),
    decreases ids.len(),
{
    if ids.len() > 0 {
        let w = ids.drop_last();
        assert forall|i: int| 0 <= i < w.len() implies identifiers(v).contains(#[trigger] w[i]) by {
            assert(w[i] == ids[i]);
        }
        lemma_none_only(v, w);
        lemma_identifiers(v, ids.last());
        assert(identifiers(v).contains(ids[ids.len() - 1]));
    }
}

proof fn lemma_none_differing(v: Seq<(Seq<char>, Seq<char>)>, ids: Seq<Seq<char>>)
    ensures
        differing(ids, v, v) == Seq::<Seq<char>>::empty(),
    decreases ids.len(),
{
    if ids.len() > 0 {
        lemma_none_differing(v, ids.drop_last());
    }
}

proof fn lemma_digest_in_sum(
    v: Seq<(Seq<char>, Seq<char>)>,
    w: Seq<(Seq<char>, Seq<char>)>,
    id: Seq<char>,
)
    ensures
        digest_of(v + w, id) is Some <==> digest_of(v, id) is Some || digest_of(w, id) is Some,
    decreases w.len(),
{
    if w.len() == 0 {
        assert(v + w =~= v);
    } else {
        assert((v + w).drop_last() =~= v + w.drop_last());
        lemma_digest_in_sum(v, w.drop_last(), id);
    }
}

proof fn lemma_none_altered(v: Seq<(Seq<char>, Seq<char>)>, ids: Seq<Seq<char>>)
    requires
        forall|i: int| 0 <= i < ids.len() ==> identifiers(v + v).contains(#[trigger] ids[i]),
    ensures
        altered(ids, v, v) == Seq::<Seq<char>>::empty(),
    decreases ids.len(),
{
    if ids.len() > 0 {
        let w = ids.drop_last();
        assert forall|i: int| 0 <= i < w.len() implies identifiers(v + v).contains(
            #[trigger] w[i],
        ) by {
            assert(w[i] == ids[i]);
        }
        lemma_none_altered(v, w);
        assert(identifiers(v + v).contains(ids[ids.len() - 1]));
        lemma_identifiers(v + v, ids.last());
        lemma_digest_in_sum(v, v, ids.last());
    }
}

/// An identifier that is added stands among the others, and each of them stays.
pub proof fn law_identifiers_are_inserted(v: Seq<Seq<char>>, id: Seq<char>, x: Seq<char>)
    ensures
        inserted(v, id).contains(x) <==> x == id || v.contains(x),
    decreases v.len(),
{
    let w = inserted(v, id);
    if v.len() == 0 {
        assert(w[0] == id);
    } else if v[0] == id {
    } else if text::before(id, v[0]) {
        assert(w[0] == id);
        if v.contains(x) {
            let k = choose|k: int| 0 <= k < v.len() && v[k] == x;
            assert(w[k + 1] == x);
        }
        if w.contains(x) && x != id {
            let k = choose|k: int| 0 <= k < w.len() && w[k] == x;
            assert(v[k - 1] == x);
        }
    } else {
        let t = inserted(v.drop_first(), id);
        law_identifiers_are_inserted(v.drop_first(), id, x);
        assert(w[0] == v[0]);
        if v.contains(x) && x != v[0] {
            let k = choose|k: int| 0 <= k < v.len() && v[k] == x;
            assert(v.drop_first()[k - 1] == x);
        }
        if t.contains(x) {
            let k = choose|k: int| 0 <= k < t.len() && t[k] == x;
            assert(w[k + 1] == x);
        }
        if w.contains(x) && x != v[0] {
            let k = choose|k: int| 0 <= k < w.len() && w[k] == x;
            assert(t[k - 1] == x);
        }
        if v.drop_first().contains(x) {
            let k = choose|k: int| 0 <= k < v.drop_first().len() && v.drop_first()[k] == x;
            assert(v[k + 1] == x);
        }
    }
}

/// Identifiers that stand in order stay in order, each once.
pub proof fn law_identifiers_stay_in_order(v: Seq<Seq<char>>, id: Seq<char>)
    requires
        forall|i: int, j: int| 0 <= i < j < v.len() ==> text::before(#[trigger] v[i], #[trigger] v[j]),
    ensures
        forall|i: int, j: int|
            0 <= i < j < inserted(v, id).len() ==> text::before(
                #[trigger] inserted(v, id)[i],
                #[trigger] inserted(v, id)[j],
            ),
    decreases v.len(),
{
    let w = inserted(v, id);
    if v.len() == 0 || v[0] == id {
    } else if text::before(id, v[0]) {
        assert forall|i: int, j: int| 0 <= i < j < w.len() implies text::before(
            #[trigger] w[i],
            #[trigger] w[j],
        ) by {
            if i == 0 {
                assert(w[j] == v[j - 1]);
                if j > 1 {
                    assert(text::before(v[0], v[j - 1]));
                    text::lemma_before_transitive(id, v[0], v[j - 1]);
                }
            } else {
                assert(text::before(v[i - 1], v[j - 1]));
            }
        }
    } else {
        let r = v.drop_first();
        assert forall|i: int, j: int| 0 <= i < j < r.len() implies text::before(
            #[trigger] r[i],
            #[trigger] r[j],
        ) by {
            assert(text::before(v[i + 1], v[j + 1]));
        }
        law_identifiers_stay_in_order(r, id);
        text::lemma_before_total(id, v[0]);
        let t = inserted(r, id);
        assert forall|i: int, j: int| 0 <= i < j < w.len() implies text::before(
            #[trigger] w[i],
            #[trigger] w[j],
        ) by {
            assert(w[j] == t[j - 1]);
            if i == 0 {
                assert(t.contains(w[j]));
                law_identifiers_are_inserted(r, id, w[j]);
                if w[j] != id {
                    let k = choose|k: int| 0 <= k < r.len() && r[k] == w[j];
                    assert(text::before(v[0], v[k + 1]));
                }
            } else {
                assert(text::before(t[i - 1], t[j - 1]));
            }
        }
    }
}

} // verus!
