//! The files that decide who may manage the proxy and what namespaces may use.
use crate::digest::{digest, hex, hex_text, lemma_hex_len, sha256};
use crate::text;
use vstd::prelude::*;

verus! {

/// The longest file that is read.
pub const MAX_FILE: usize = 1048576;

#[derive(Clone, Copy, Debug, PartialEq, Eq, Structural)]
pub enum ControlError {
    FileTooLong,
    Quota,
    Changed,
}

/// Whether what was read of a file, at most one byte more than `limit`, is all of it.
pub fn check_bounded(len: usize, limit: usize) -> (r: Result<(), ControlError>)
    ensures
        r == if len <= limit {
            Ok::<(), ControlError>(())
        } else {
            Err(ControlError::FileTooLong)
        },
{
    if len <= limit {
        Ok(())
    } else {
        Err(ControlError::FileTooLong)
    }
}

/// A file: its path and what it holds.
#[derive(Debug)]
pub struct ControlFile {
    pub path: Vec<u8>,
    pub content: Vec<u8>,
}

/// What files are told apart by: their paths and contents, one after the other.
pub open spec fn material(v: Seq<ControlFile>) -> Seq<u8>
    decreases v.len(),
{
    if v.len() == 0 {
        Seq::empty()
    } else {
        material(v.drop_last()) + v.last().path@ + seq![0u8] + v.last().content@
    }
}

fn append(out: &mut Vec<u8>, v: &Vec<u8>)
    ensures
        final(out)@ == old(out)@ + v@,
{
    let ghost start = out@;
    let mut i: usize = 0;
    assert(start + v@.take(0) =~= start);
    while i < v.len()
        invariant
            i <= v.len(),
            out@ == start + v@.take(i as int),
        decreases v.len() - i,
    {
        out.push(v[i]);
        assert(out@ =~= start + v@.take(i + 1));
        i += 1;
    }
    assert(v@.take(i as int) =~= v@);
}

/// The digest of the files.
pub fn fingerprint(v: &Vec<ControlFile>) -> (out: String)
    ensures
        out@ == hex(sha256(material(v@))),
        out@.len() == 64,
{
    let mut all: Vec<u8> = Vec::new();
    let mut i: usize = 0;
    assert(all@ =~= material(v@.take(0)));
    while i < v.len()
        invariant
            i <= v.len(),
            all@ == material(v@.take(i as int)),
        decreases v.len() - i,
    {
        proof {
            assert(v@.take(i + 1).drop_last() =~= v@.take(i as int));
            assert(v@.take(i + 1).last() == v@[i as int]);
        }
        let ghost before = all@;
        append(&mut all, &v[i].path);
        all.push(0u8);
        append(&mut all, &v[i].content);
        assert(all@ =~= before + v@[i as int].path@ + seq![0u8] + v@[i as int].content@);
        i += 1;
    }
    assert(v@.take(i as int) =~= v@);
    let d = digest(&all);
    proof {
        lemma_hex_len(d@);
    }
    hex_text(&d)
}

/// What a namespace may use at once.
#[derive(Clone, Copy, Debug, PartialEq, Eq, Structural)]
pub struct Quota {
    pub max_inflight: usize,
    pub max_plugins: usize,
}

/// What all may use at once.
#[derive(Clone, Copy, Debug, PartialEq, Eq, Structural)]
pub struct Budgets {
    pub max_inflight: usize,
    pub max_plugin_instances: usize,
}

/// Whether what a namespace may use leaves something for the others.
pub open spec fn leaves_room(q: Quota, b: Budgets) -> bool {
    q.max_inflight < b.max_inflight && q.max_plugins < b.max_plugin_instances
}

/// Whether what each namespace may use, and what one may that is not named, leaves something.
pub open spec fn quotas_checked(
    default: Option<Quota>,
    v: Seq<Quota>,
    b: Budgets,
) -> Result<(), ControlError> {
    if (default is Some && !leaves_room(default->0, b)) || exists|i: int|
        0 <= i < v.len() && !leaves_room(#[trigger] v[i], b) {
        Err(ControlError::Quota)
    } else {
        Ok(())
    }
}

pub fn check_quotas(default: Option<Quota>, v: &Vec<Quota>, b: Budgets) -> (r: Result<
    (),
    ControlError,
>)
    ensures
        r == quotas_checked(default, v@, b),
{
    if let Some(q) = default {
        if !(q.max_inflight < b.max_inflight && q.max_plugins < b.max_plugin_instances) {
            return Err(ControlError::Quota);
        }
    }
    let mut i: usize = 0;
    while i < v.len()
        invariant
            i <= v.len(),
            default is Some ==> leaves_room(default->0, b),
            forall|j: int| 0 <= j < i ==> leaves_room(#[trigger] v@[j], b),
        decreases v.len() - i,
    {
        let q = v[i];
        if !(q.max_inflight < b.max_inflight && q.max_plugins < b.max_plugin_instances) {
            assert(!leaves_room(v@[i as int], b));
            return Err(ControlError::Quota);
        }
        i += 1;
    }
    Ok(())
}

/// Whether what was read of the files belongs together: they are the same after they were read as before.
pub fn check_unchanged(before: &str, after: &str) -> (r: Result<(), ControlError>)
    ensures
        r == if before@ == after@ {
            Ok::<(), ControlError>(())
        } else {
            Err(ControlError::Changed)
        },
{
    if text::same(before, after) {
        Ok(())
    } else {
        Err(ControlError::Changed)
    }
}

/// Whether the files are other ones than those that are in force.
pub fn needs_reload(active: &str, found: &str) -> (r: bool)
    ensures
        r == (active@ != found@),
{
    !text::same(active, found)
}

/// What is put on record when files come into force.
pub fn operation(digest: &str) -> (out: String)
    ensures
        out@ == "reload-access-policy/"@ + digest@,
{
    text::concat("reload-access-policy/", digest)
}

/// What became of a look at the files.
#[derive(Debug)]
pub enum Look {
    /// All went well; whether something changed.
    Done(bool),
    Failed(String),
}

/// What is counted of a look.
#[derive(Clone, Copy, Debug, PartialEq, Eq, Structural)]
pub struct Told {
    pub reloaded: bool,
    pub rejected: bool,
}

/// Looks at files again and again; a reason for which it fails is told once.
#[derive(Debug)]
pub struct Watch {
    pub last_error: String,
}

impl Watch {
    pub fn new() -> (r: Watch)
        ensures
            r.last_error@ == Seq::<char>::empty(),
    {
        let s = String::new();
        assert(s@ =~= Seq::<char>::empty());
        Watch { last_error: s }
    }

    pub open spec fn told_of(&self, look: Look) -> Told {
        match look {
            Look::Done(changed) => Told { reloaded: changed, rejected: false },
            Look::Failed(e) => Told { reloaded: false, rejected: e@ != self.last_error@ },
        }
    }

    /// What is counted of a look.
    pub fn note(&mut self, look: Look) -> (r: Told)
        ensures
            r == old(self).told_of(look),
            final(self).last_error@ == match look {
                Look::Done(_) => Seq::<char>::empty(),
                Look::Failed(e) => e@,
            },
    {
        match look {
            Look::Done(changed) => {
                self.last_error = String::new();
                assert(self.last_error@ =~= Seq::<char>::empty());
                Told { reloaded: changed, rejected: false }
            },
            Look::Failed(e) => {
                let rejected = !text::same(e.as_str(), self.last_error.as_str());
                self.last_error = e;
                Told { reloaded: false, rejected }
            },
        }
    }
}

// ---------------------------------------------------------------------------
// Laws
// ---------------------------------------------------------------------------

/// A reason for which looks fail is told once: a second look that fails for it is not counted.
pub proof fn law_failures_are_told_once(before: Watch, after: Watch, e: String, again: String)
    requires
        after.last_error@ == e@,
        again@ == e@,
    ensures
        !after.told_of(Look::Failed(again)).rejected,
        before.last_error@ != e@ ==> before.told_of(Look::Failed(e)).rejected,
{
}

/// Files of equal paths with other contents are other files: what they are told apart by differs.
pub proof fn law_contents_are_told_apart(v: Seq<ControlFile>, a: ControlFile, b: ControlFile)
    requires
        a.path@ == b.path@,
        a.content@ != b.content@,
    ensures
        material(v.push(a)) != material(v.push(b)),
{
    assert(v.push(a).drop_last() =~= v);
    assert(v.push(b).drop_last() =~= v);
    let head = material(v) + a.path@ + seq![0u8];
    assert(material(v.push(a)) == head + a.content@);
    assert(material(v.push(b)) == head + b.content@);
    if head + a.content@ == head + b.content@ {
        assert((head + a.content@).skip(head.len() as int) =~= a.content@);
        assert((head + b.content@).skip(head.len() as int) =~= b.content@);
    }
}

/// A quota that leaves no room for others is refused, also where it is the default one.
pub proof fn law_quotas_leave_room(default: Option<Quota>, v: Seq<Quota>, b: Budgets, i: int)
    ensures
        0 <= i < v.len() && v[i].max_inflight >= b.max_inflight ==> quotas_checked(default, v, b) == Err::<
            (),
            ControlError,
        >(ControlError::Quota),
        0 <= i < v.len() && v[i].max_plugins >= b.max_plugin_instances ==> quotas_checked(default, v, b)
            == Err::<(), ControlError>(ControlError::Quota),
        default is Some && default->0.max_inflight >= b.max_inflight ==> quotas_checked(default, v, b) == Err::<
            (),
            ControlError,
        >(ControlError::Quota),
        default is None && v.len() == 0 ==> quotas_checked(default, v, b) == Ok::<(), ControlError>(()),
        default is None && v.len() == 1 && v[0].max_inflight < b.max_inflight && v[0].max_plugins
            < b.max_plugin_instances ==> quotas_checked(default, v, b) == Ok::<(), ControlError>(()),
{
    if 0 <= i < v.len() {
        assert(leaves_room(v[i], b) == (v[i].max_inflight < b.max_inflight && v[i].max_plugins
            < b.max_plugin_instances));
    }
}

/// Files count with their paths, one behind the other.
pub proof fn law_files_count_with_their_paths(v: Seq<ControlFile>, f: ControlFile)
    ensures
        material(v.push(f)) == material(v) + f.path@ + seq![0u8] + f.content@,
        material(Seq::empty()).len() == 0,
{
    assert(v.push(f).drop_last() =~= v);
}

} // verus!
