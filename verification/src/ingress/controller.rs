//! What the controller of Ingresses does from one look at the resources to the next.
use crate::ingress::backends::is_named;
use crate::text;
use vstd::prelude::*;

verus! {

/// The namespaces that are watched for objects of the controller itself too; where none is named, all are
/// watched.
pub open spec fn with_publisher(v: Seq<Seq<char>>, publish: Seq<char>) -> Seq<Seq<char>> {
    if v.len() > 0 && !v.contains(publish) {
        v.push(publish)
    } else {
        v
    }
}

/// The namespaces that are watched for objects of the controller itself too.
pub fn watched_namespaces(v: &Vec<String>, publish: &str) -> (out: Vec<String>)
    ensures
        text::texts(out@) == with_publisher(text::texts(v@), publish@),
{
    let mut out = text::copy_all(v);
    let ghost before = text::texts(out@);
    assert(before.len() == v@.len());
    if v.len() > 0 && !text::contains(v, publish) {
        let s = publish.to_owned();
        let ghost x = s@;
        out.push(s);
        assert(text::texts(out@) =~= before.push(x));
    }
    out
}

/// What the resources and the controls are told apart by.
#[derive(Debug)]
pub struct Input {
    pub resources: String,
    pub controls: String,
}

/// What is known from the last look.
#[derive(Debug)]
pub struct Progress {
    pub previous: Option<Input>,
    /// Whether there was something that can be served.
    pub bootstrapped: bool,
}

pub open spec fn input(i: Option<Input>) -> Option<(Seq<char>, Seq<char>)> {
    match i {
        Some(i) => Some((i.resources@, i.controls@)),
        None => None,
    }
}

impl Progress {
    pub fn new() -> (r: Progress)
        ensures
            r.previous is None,
            !r.bootstrapped,
    {
        Progress { previous: None, bootstrapped: false }
    }

    /// Whether there is something to do: the resources or the controls are other ones.
    pub fn observe(&mut self, next: Input) -> (r: bool)
        ensures
            r == (input(old(self).previous) != Some((next.resources@, next.controls@))),
            input(final(self).previous) == Some((next.resources@, next.controls@)),
            final(self).bootstrapped == old(self).bootstrapped,
    {
        let same = match &self.previous {
            Some(p) => text::same(p.resources.as_str(), next.resources.as_str()) && text::same(
                p.controls.as_str(),
                next.controls.as_str(),
            ),
            None => false,
        };
        if same {
            return false;
        }
        self.previous = Some(next);
        true
    }

    /// Whether the configuration that was built is ready: it is, from the first one on that has no script
    /// that cannot be had, or that has a route that leads somewhere.
    pub fn settle(&mut self, unrecoverable: bool, serves: bool) -> (ready: bool)
        ensures
            ready == (old(self).bootstrapped || !unrecoverable || serves),
            final(self).bootstrapped == ready,
            input(final(self).previous) == input(old(self).previous),
    {
        if !unrecoverable || serves {
            self.bootstrapped = true;
        }
        self.bootstrapped
    }
}

/// Whether something is wrong that keeps the first configuration from being ready.
pub open spec fn any_unrecoverable(v: Seq<Seq<char>>) -> bool {
    v.contains("UnrecoverablePlugin"@)
}

pub fn is_unrecoverable(v: &Vec<String>) -> (r: bool)
    ensures
        r == any_unrecoverable(text::texts(v@)),
{
    text::contains(v, "UnrecoverablePlugin")
}

/// Whether it is put on record that a revision was rolled back: the Ingress is still the one that was
/// rolled out, still asks for the revision, and does not say so yet.
pub open spec fn notes_rollback(
    found: bool,
    recorded: Option<Seq<char>>,
    asked: Option<Seq<char>>,
    revision: Seq<char>,
) -> bool {
    found && recorded != Some(revision) && asked == Some(revision)
}

/// Whether it is put on record that a revision was rolled back.
pub fn must_note_rollback(
    found: bool,
    recorded: &Option<String>,
    asked: &Option<String>,
    revision: &str,
) -> (r: bool)
    ensures
        r == notes_rollback(found, text::opt(*recorded), text::opt(*asked), revision@),
{
    found && !is_named(recorded, revision) && is_named(asked, revision)
}

/// The checkpoints that are wanted: those of what is accepted, and in their place those of what is
/// proposed. Each is known by an identifier and told apart by a digest.
pub open spec fn wanted(
    accepted: Seq<(Seq<char>, Seq<char>)>,
    proposals: Seq<(Seq<char>, Seq<char>)>,
) -> Seq<(Seq<char>, Seq<char>)>
    decreases proposals.len(),
{
    if proposals.len() == 0 {
        accepted
    } else {
        text::put(
            wanted(accepted, proposals.drop_last()),
            proposals.last().0,
            proposals.last().1,
        )
    }
}

fn copy_pairs(v: &Vec<(String, String)>) -> (out: Vec<(String, String)>)
    ensures
        text::pairs(out@) == text::pairs(v@),
{
    let mut out: Vec<(String, String)> = Vec::new();
    let mut i: usize = 0;
    while i < v.len()
        invariant
            i <= v.len(),
            text::pairs(out@) =~= text::pairs(v@).take(i as int),
        decreases v.len() - i,
    {
        let ghost before = text::pairs(out@);
        out.push((v[i].0.clone(), v[i].1.clone()));
        assert(text::pairs(out@) =~= before.push((v@[i as int].0@, v@[i as int].1@)));
        i += 1;
    }
    out
}

/// The checkpoints that are wanted.
pub fn wanted_checkpoints(accepted: &Vec<(String, String)>, proposals: &Vec<(String, String)>) -> (out: Vec<
    (String, String),
>)
    ensures
        text::pairs(out@) == wanted(text::pairs(accepted@), text::pairs(proposals@)),
{
    let ghost all = text::pairs(proposals@);
    let mut out = copy_pairs(accepted);
    let mut i: usize = 0;
    assert(wanted(text::pairs(accepted@), all.take(0)) =~= text::pairs(accepted@));
    while i < proposals.len()
        invariant
            i <= proposals.len(),
            all == text::pairs(proposals@),
            text::pairs(out@) == wanted(text::pairs(accepted@), all.take(i as int)),
        decreases proposals.len() - i,
    {
        proof {
            assert(all.take(i + 1).drop_last() =~= all.take(i as int));
            assert(all.take(i + 1).last() == (proposals@[i as int].0@, proposals@[i as int].1@));
        }
        text::put_pair(&mut out, proposals[i].0.clone(), proposals[i].1.clone());
        i += 1;
    }
    assert(all.take(i as int) =~= all);
    out
}

/// Whether the checkpoints that are wanted are told: the first time, and where they changed.
pub fn must_tell(told: bool, current: &Vec<(String, String)>, next: &Vec<(String, String)>) -> (r: bool)
    ensures
        r == !(told && text::pairs(current@) == text::pairs(next@)),
{
    !(told && crate::ingress::spec::same_pairs(current, next))
}

// ---------------------------------------------------------------------------
// Laws
// ---------------------------------------------------------------------------

/// What was proposed last is what is wanted.
pub proof fn law_proposals_are_wanted(
    accepted: Seq<(Seq<char>, Seq<char>)>,
    proposals: Seq<(Seq<char>, Seq<char>)>,
    uid: Seq<char>,
    digest: Seq<char>,
)
    ensures
        text::lookup(wanted(accepted, proposals.push((uid, digest))), uid) == Some(digest),
{
    assert(proposals.push((uid, digest)).drop_last() =~= proposals);
    lemma_put(wanted(accepted, proposals), uid, digest);
}

proof fn lemma_put(v: Seq<(Seq<char>, Seq<char>)>, key: Seq<char>, value: Seq<char>)
    ensures
        text::lookup(text::put(v, key, value), key) == Some(value),
    decreases v.len(),
{
    let w = text::put(v, key, value);
    if v.len() > 0 && v[0].0 != key && !text::before(key, v[0].0) {
        lemma_put(v.drop_first(), key, value);
        assert(w.drop_first() =~= text::put(v.drop_first(), key, value));
    }
}

/// The namespace of the controller is watched along with those that are named; where none is named, all are.
pub proof fn law_own_namespaces_are_watched(v: Seq<Seq<char>>, publish: Seq<char>, ns: Seq<char>)
    ensures
        v.len() == 0 ==> with_publisher(v, publish).len() == 0,
        v.len() > 0 ==> (with_publisher(v, publish).contains(ns) <==> v.contains(ns) || ns == publish),
        v.contains(publish) ==> with_publisher(v, publish) == v,
{
    let w = with_publisher(v, publish);
    if v.len() > 0 && !v.contains(publish) {
        assert(w[w.len() - 1] == publish);
        if v.contains(ns) {
            let k = choose|k: int| 0 <= k < v.len() && v[k] == ns;
            assert(w[k] == ns);
        }
        if w.contains(ns) && ns != publish {
            let k = choose|k: int| 0 <= k < w.len() && w[k] == ns;
            assert(v[k] == ns);
        }
    }
}

/// A script that cannot be restored is one such among all reasons.
pub proof fn law_lost_scripts_are_noticed(v: Seq<Seq<char>>, i: int)
    ensures
        0 <= i < v.len() && v[i] == "UnrecoverablePlugin"@ ==> any_unrecoverable(v),
        (forall|k: int| 0 <= k < v.len() ==> #[trigger] v[k] != "UnrecoverablePlugin"@) ==> !any_unrecoverable(v),
{
}

/// A rollback is noted once, and only where it is the one that is asked for.
pub proof fn law_rollbacks_are_noted_once(recorded: Option<Seq<char>>, asked: Option<Seq<char>>, revision: Seq<char>)
    ensures
        !notes_rollback(false, recorded, asked, revision),
        !notes_rollback(true, Some(revision), asked, revision),
        asked != Some(revision) ==> !notes_rollback(true, recorded, asked, revision),
        recorded != Some(revision) ==> notes_rollback(true, recorded, Some(revision), revision),
{
}

/// What was accepted is wanted unless there is a proposal for the same Ingress.
pub proof fn law_accepted_checkpoints_stay_wanted(
    accepted: Seq<(Seq<char>, Seq<char>)>,
    proposals: Seq<(Seq<char>, Seq<char>)>,
    uid: Seq<char>,
)
    requires
        forall|i: int| 0 <= i < proposals.len() ==> (#[trigger] proposals[i]).0 != uid,
    ensures
        text::lookup(wanted(accepted, proposals), uid) == text::lookup(accepted, uid),
    decreases proposals.len(),
{
    if proposals.len() > 0 {
        let u = proposals.drop_last();
        assert forall|i: int| 0 <= i < u.len() implies (#[trigger] u[i]).0 != uid by {
            assert(u[i] == proposals[i]);
        }
        law_accepted_checkpoints_stay_wanted(accepted, u, uid);
        assert(proposals[proposals.len() - 1].0 != uid);
        text::law_values_are_put(wanted(accepted, u), proposals.last().0, proposals.last().1, uid);
    }
}

} // verus!
