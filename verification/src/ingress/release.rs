//! Rollouts: what they are told to do, and what is put on record of their progress.
use crate::text;
use vstd::prelude::*;

verus! {

/// What a rollout is told to do.
#[derive(Clone, Copy, Debug, PartialEq, Eq, Structural)]
pub enum Operation {
    Pause,
    Resume,
    Approve,
    Rollback,
}

/// Tells a rollout what to do.
#[derive(Debug)]
pub struct Command {
    pub owner: String,
    pub kind: Option<String>,
    pub revision: String,
    pub operation: Operation,
    pub stage: Option<usize>,
}

/// A rollout that is under way.
#[derive(Debug)]
pub struct State {
    pub owner: String,
    pub kind: String,
    pub uid: String,
    pub revision: String,
    pub policy_hash: String,
    /// Whether there is something to fall back to.
    pub rollback: bool,
    /// Whether there are stages.
    pub staged: bool,
}

/// How far a rollout is.
#[derive(Debug)]
pub struct Progress {
    pub revision: String,
    pub policy_hash: String,
    pub stage: usize,
    pub started_at: i64,
    pub paused: bool,
    pub approved_stage: Option<usize>,
    pub promoted: bool,
}

/// What a `Progress` holds.
#[verifier::ext_equal]
pub ghost struct Reached {
    pub revision: Seq<char>,
    pub policy_hash: Seq<char>,
    pub stage: usize,
    pub started_at: i64,
    pub paused: bool,
    pub approved_stage: Option<usize>,
    pub promoted: bool,
}

impl View for Progress {
    type V = Reached;

    open spec fn view(&self) -> Reached {
        Reached {
            revision: self.revision@,
            policy_hash: self.policy_hash@,
            stage: self.stage,
            started_at: self.started_at,
            paused: self.paused,
            approved_stage: self.approved_stage,
            promoted: self.promoted,
        }
    }
}

#[derive(Clone, Copy, Debug, PartialEq, Eq, Structural)]
pub enum ReleaseError {
    Ambiguous,
    Owner,
    OwnerChanged,
    PolicyRemoved,
    PolicyChanged,
    NoRollback,
    NoStages,
    Stage,
    Kind,
}

/// Whether a command is one for a rollout.
pub open spec fn meant(c: Command, s: State) -> bool {
    s.owner@ == c.owner@ && s.revision@ == c.revision@ && (c.kind is None || c.kind->0@ == s.kind@)
}

/// The places of the rollouts that a command may be one for.
pub open spec fn meant_all(c: Command, v: Seq<State>) -> Seq<int>
    decreases v.len(),
{
    if v.len() == 0 {
        Seq::empty()
    } else if meant(c, v.last()) {
        meant_all(c, v.drop_last()).push(v.len() - 1)
    } else {
        meant_all(c, v.drop_last())
    }
}

fn is_meant(c: &Command, s: &State) -> (r: bool)
    ensures
        r == meant(*c, *s),
{
    text::same(s.owner.as_str(), c.owner.as_str()) && text::same(
        s.revision.as_str(),
        c.revision.as_str(),
    ) && match &c.kind {
        None => true,
        Some(k) => text::same(k.as_str(), s.kind.as_str()),
    }
}

/// The rollout that a command is one for, which has to be a single one.
pub fn select(c: &Command, v: &Vec<State>) -> (r: Result<usize, ReleaseError>)
    ensures
        match r {
            Ok(i) => i < v@.len() && meant(*c, v@[i as int]) && meant_all(*c, v@) == seq![i as int],
            Err(e) => e == ReleaseError::Ambiguous && meant_all(*c, v@).len() != 1,
        },
{
    let mut found: usize = 0;
    let mut count: usize = 0;
    let mut i: usize = 0;
    while i < v.len()
        invariant
            i <= v.len(),
            count <= i,
            meant_all(*c, v@.take(i as int)).len() == count,
            count > 0 ==> found < i && meant(*c, v@[found as int]),
            count == 1 ==> meant_all(*c, v@.take(i as int)) == seq![found as int],
        decreases v.len() - i,
    {
        let ghost before = meant_all(*c, v@.take(i as int));
        proof {
            assert(v@.take(i + 1).drop_last() =~= v@.take(i as int));
            assert(v@.take(i + 1).last() == v@[i as int]);
        }
        if is_meant(c, &v[i]) {
            found = i;
            count += 1;
            proof {
                if count == 1 {
                    assert(before =~= Seq::empty());
                    assert(before.push(i as int) =~= seq![i as int]);
                }
            }
        }
        i += 1;
    }
    assert(v@.take(i as int) =~= v@);
    if count == 1 {
        Ok(found)
    } else {
        Err(ReleaseError::Ambiguous)
    }
}

/// The namespace and the name of an owner.
pub fn owner_parts(owner: &str) -> (r: Result<(String, String), ReleaseError>)
    ensures
        match r {
            Ok((a, b)) => text::split_once_spec(owner@, '/') == Some((a@, b@)),
            Err(e) => e == ReleaseError::Owner && text::split_once_spec(owner@, '/') is None,
        },
{
    match text::split_once(owner, '/') {
        Some((a, b)) => Ok((a, b)),
        None => Err(ReleaseError::Owner),
    }
}

/// The group of the kinds that can be rolled out.
pub open spec fn group_of(kind: Seq<char>) -> Option<Seq<char>> {
    if kind == "Ingress"@ {
        Some("networking.k8s.io"@)
    } else if kind == "HTTPRoute"@ || kind == "GRPCRoute"@ {
        Some("gateway.networking.k8s.io"@)
    } else {
        None
    }
}

pub fn group(kind: &str) -> (r: Result<&'static str, ReleaseError>)
    ensures
        match r {
            Ok(s) => group_of(kind@) == Some(s@),
            Err(e) => e == ReleaseError::Kind && group_of(kind@) is None,
        },
{
    if text::same(kind, "Ingress") {
        Ok("networking.k8s.io")
    } else if text::same(kind, "HTTPRoute") || text::same(kind, "GRPCRoute") {
        Ok("gateway.networking.k8s.io")
    } else {
        Err(ReleaseError::Kind)
    }
}

/// Whether a rollout is still the one of an owner; `same_policy` says whether the owner asks for the same
/// policy, and is nothing where it asks for none.
pub open spec fn owner_checked(
    s: State,
    uid: Option<Seq<char>>,
    same_policy: Option<bool>,
) -> Result<(), ReleaseError> {
    if uid != Some(s.uid@) {
        Err(ReleaseError::OwnerChanged)
    } else {
        match same_policy {
            None => Err(ReleaseError::PolicyRemoved),
            Some(false) => Err(ReleaseError::PolicyChanged),
            Some(true) => Ok(()),
        }
    }
}

pub fn check_owner(s: &State, uid: &Option<String>, same_policy: Option<bool>) -> (r: Result<
    (),
    ReleaseError,
>)
    ensures
        r == owner_checked(*s, text::opt(*uid), same_policy),
{
    let own = match uid {
        Some(u) => text::same(u.as_str(), s.uid.as_str()),
        None => false,
    };
    if !own {
        return Err(ReleaseError::OwnerChanged);
    }
    match same_policy {
        None => Err(ReleaseError::PolicyRemoved),
        Some(false) => Err(ReleaseError::PolicyChanged),
        Some(true) => Ok(()),
    }
}

/// Where a rollout begins.
pub open spec fn initial_of(s: State, now: i64) -> Reached {
    Reached {
        revision: s.revision@,
        policy_hash: s.policy_hash@,
        stage: 0,
        started_at: now,
        paused: false,
        approved_stage: None,
        promoted: false,
    }
}

/// Where a rollout begins.
pub fn initial(s: &State, now: i64) -> (r: Progress)
    ensures
        r@ == initial_of(*s, now),
{
    Progress {
        revision: s.revision.clone(),
        policy_hash: s.policy_hash.clone(),
        stage: 0,
        started_at: now,
        paused: false,
        approved_stage: None,
        promoted: false,
    }
}

/// How far a rollout is: what is on record, where it is of the same policy.
pub open spec fn reached_of(s: State, record: Option<Progress>, now: i64) -> Reached {
    match record {
        Some(p) => if p@.policy_hash == s.policy_hash@ {
            p@
        } else {
            initial_of(s, now)
        },
        None => initial_of(s, now),
    }
}

/// What is put on record of a rollout.
#[derive(Debug)]
pub enum Change {
    RolledBack(String),
    Progress(Progress),
}

#[verifier::ext_equal]
pub ghost enum Record {
    RolledBack(Seq<char>),
    Progress(Reached),
}

impl View for Change {
    type V = Record;

    open spec fn view(&self) -> Record {
        match self {
            Change::RolledBack(s) => Record::RolledBack(s@),
            Change::Progress(p) => Record::Progress(p@),
        }
    }
}

impl Change {
    /// The annotation that holds it.
    pub open spec fn spec_key(self) -> Seq<char> {
        match self {
            Change::RolledBack(_) => "rgnix.io/rolled-back-revision"@,
            Change::Progress(_) => "rgnix.io/rollout-state"@,
        }
    }

    pub fn key(&self) -> (r: &'static str)
        ensures
            r@ == self.spec_key(),
    {
        match self {
            Change::RolledBack(_) => "rgnix.io/rolled-back-revision",
            Change::Progress(_) => "rgnix.io/rollout-state",
        }
    }
}

/// What is put on record where a rollout is told something.
pub open spec fn commanded(
    operation: Operation,
    stage: Option<usize>,
    s: State,
    p: Reached,
    now: i64,
) -> Result<Record, ReleaseError> {
    if operation == Operation::Rollback {
        if !s.rollback {
            Err(ReleaseError::NoRollback)
        } else {
            Ok(Record::RolledBack(s.revision@))
        }
    } else if !s.staged || p.promoted {
        Err(ReleaseError::NoStages)
    } else {
        match operation {
            Operation::Pause => Ok(Record::Progress(Reached { paused: true, ..p })),
            Operation::Resume => Ok(
                Record::Progress(Reached { paused: false, started_at: now, ..p }),
            ),
            _ => if stage != Some(p.stage) {
                Err(ReleaseError::Stage)
            } else {
                Ok(Record::Progress(Reached { approved_stage: Some(p.stage), ..p }))
            },
        }
    }
}

/// What is put on record where a rollout is told something; `record` is what is on record of its progress.
pub fn command(c: &Command, s: &State, record: Option<Progress>, now: i64) -> (r: Result<
    Change,
    ReleaseError,
>)
    ensures
        match commanded(c.operation, c.stage, *s, reached_of(*s, record, now), now) {
            Ok(x) => r is Ok && r->Ok_0@ == x,
            Err(e) => r is Err && r->Err_0 == e,
        },
{
    let mut p = match record {
        Some(p) => if text::same(p.policy_hash.as_str(), s.policy_hash.as_str()) {
            p
        } else {
            initial(s, now)
        },
        None => initial(s, now),
    };
    if c.operation == Operation::Rollback {
        if !s.rollback {
            return Err(ReleaseError::NoRollback);
        }
        return Ok(Change::RolledBack(s.revision.clone()));
    }
    if !s.staged || p.promoted {
        return Err(ReleaseError::NoStages);
    }
    match c.operation {
        Operation::Pause => {
            p.paused = true;
        },
        Operation::Resume => {
            p.paused = false;
            p.started_at = now;
        },
        _ => {
            let current = match c.stage {
                Some(n) => n == p.stage,
                None => false,
            };
            if !current {
                return Err(ReleaseError::Stage);
            }
            p.approved_stage = Some(p.stage);
        },
    }
    Ok(Change::Progress(p))
}

// ---------------------------------------------------------------------------
// Progress
// ---------------------------------------------------------------------------

/// Whether all measurements that a rollout goes by have passed.
pub open spec fn passed(gates: Seq<Seq<char>>, results: Seq<(Seq<char>, bool)>) -> bool {
    forall|i: int| 0 <= i < gates.len() ==> result_of(results, #[trigger] gates[i]) == Some(true)
}

/// The result of a measurement.
pub open spec fn result_of(v: Seq<(Seq<char>, bool)>, name: Seq<char>) -> Option<bool>
    decreases v.len(),
{
    if v.len() == 0 {
        None
    } else if v[0].0 == name {
        Some(v[0].1)
    } else {
        result_of(v.drop_first(), name)
    }
}

pub open spec fn results_view(v: Seq<(String, bool)>) -> Seq<(Seq<char>, bool)> {
    Seq::new(v.len(), |i: int| (v[i].0@, v[i].1))
}

fn find_result(v: &Vec<(String, bool)>, name: &str) -> (r: Option<bool>)
    ensures
        r == result_of(results_view(v@), name@),
{
    let ghost all = results_view(v@);
    let mut i: usize = 0;
    assert(all.skip(0) =~= all);
    while i < v.len()
        invariant
            i <= v.len(),
            all == results_view(v@),
            result_of(all.skip(i as int), name@) == result_of(all, name@),
        decreases v.len() - i,
    {
        assert(all.skip(i as int).drop_first() =~= all.skip(i + 1));
        assert(all.skip(i as int)[0] == (v@[i as int].0@, v@[i as int].1));
        if text::same(v[i].0.as_str(), name) {
            return Some(v[i].1);
        }
        i += 1;
    }
    None
}

/// Whether all measurements that a rollout goes by have passed.
pub fn gates_pass(gates: &Vec<String>, results: &Vec<(String, bool)>) -> (r: bool)
    ensures
        r == passed(text::texts(gates@), results_view(results@)),
{
    let ghost all = text::texts(gates@);
    let mut i: usize = 0;
    while i < gates.len()
        invariant
            i <= gates.len(),
            all == text::texts(gates@),
            forall|j: int|
                0 <= j < i ==> result_of(results_view(results@), #[trigger] all[j]) == Some(true),
        decreases gates.len() - i,
    {
        assert(all[i as int] == gates@[i as int]@);
        match find_result(results, gates[i].as_str()) {
            Some(true) => {},
            _ => return false,
        }
        i += 1;
    }
    true
}

/// What is known of a rollout when its progress is looked at.
#[derive(Clone, Copy, Debug, PartialEq, Eq, Structural)]
pub enum Turn {
    Nothing,
    /// That it was rolled back is put on record.
    RollBack,
    /// It may go on to a further stage.
    Advance,
}

/// What to do about a rollout: one that was rolled back says so; one with stages may go on, where this
/// controller is the one that reports.
pub open spec fn turn_of(
    rolled_back: bool,
    recorded: Option<Seq<char>>,
    revision: Seq<char>,
    leader: bool,
    staged: bool,
) -> Turn {
    if rolled_back {
        if recorded == Some(revision) {
            Turn::Nothing
        } else {
            Turn::RollBack
        }
    } else if !leader || !staged {
        Turn::Nothing
    } else {
        Turn::Advance
    }
}

/// What to do about a rollout; `recorded` is the revision that was rolled back, as it is on record.
pub fn turn(
    rolled_back: bool,
    recorded: &Option<String>,
    revision: &str,
    leader: bool,
    staged: bool,
) -> (r: Turn)
    ensures
        r == turn_of(rolled_back, text::opt(*recorded), revision@, leader, staged),
{
    if rolled_back {
        return match recorded {
            Some(s) => if text::same(s.as_str(), revision) {
                Turn::Nothing
            } else {
                Turn::RollBack
            },
            None => Turn::RollBack,
        };
    }
    if !leader || !staged {
        Turn::Nothing
    } else {
        Turn::Advance
    }
}

/// What is told of a rollout that went on.
pub fn outcome(promoted: bool) -> (r: &'static str)
    ensures
        r@ == if promoted {
            "promoted"@
        } else {
            "stage-published"@
        },
{
    if promoted {
        "promoted"
    } else {
        "stage-published"
    }
}

// ---------------------------------------------------------------------------
// Laws
// ---------------------------------------------------------------------------

/// A rollout that is resumed after a pause is not paused, and its stage begins again; everything else is
/// as before.
pub proof fn law_resumed_rollouts_go_on(s: State, p: Reached, stage: Option<usize>, a: i64, b: i64)
    requires
        s.staged,
        !p.promoted,
    ensures
        ({
            let q = commanded(Operation::Pause, stage, s, p, a);
            &&& q is Ok && q->Ok_0 is Progress
            &&& commanded(Operation::Resume, stage, s, q->Ok_0->Progress_0, b) == Ok::<
                Record,
                ReleaseError,
            >(Record::Progress(Reached { paused: false, started_at: b, ..p }))
        }),
{
}

/// Only the stage that a rollout is at can be approved.
pub proof fn law_approvals_are_for_the_stage(s: State, p: Reached, stage: Option<usize>, now: i64)
    ensures
        commanded(Operation::Approve, stage, s, p, now) is Ok ==> stage == Some(p.stage),
{
}

/// A command is for the one release of its owner and revision.
pub proof fn law_commands_name_their_release(c: Command, v: Seq<State>, i: int)
    requires
        0 <= i < v.len(),
    ensures
        meant_all(c, v).contains(i) <==> v[i].owner@ == c.owner@ && v[i].revision@ == c.revision@ && (c.kind
            is None || c.kind->0@ == v[i].kind@),
    decreases v.len(),
{
    let l = v.drop_last();
    let a = meant_all(c, l);
    let b = meant_all(c, v);
    lemma_meant_in(c, l);
    if i < l.len() {
        law_commands_name_their_release(c, l, i);
        assert(l[i] == v[i]);
        if a.contains(i) {
            let k = choose|k: int| 0 <= k < a.len() && a[k] == i;
            assert(b[k] == i);
        }
        if b.contains(i) {
            let k = choose|k: int| 0 <= k < b.len() && b[k] == i;
            assert(k < a.len());
            assert(a[k] == i);
        }
    } else {
        if meant(c, v.last()) {
            assert(b.last() == i);
        } else if b.contains(i) {
            let k = choose|k: int| 0 <= k < b.len() && b[k] == i;
            assert(a[k] < l.len());
        }
    }
}

proof fn lemma_meant_in(c: Command, v: Seq<State>)
    ensures
        forall|k: int| 0 <= k < meant_all(c, v).len() ==> 0 <= #[trigger] meant_all(c, v)[k] < v.len(),
    decreases v.len(),
{
    if v.len() > 0 {
        let a = meant_all(c, v.drop_last());
        let b = meant_all(c, v);
        lemma_meant_in(c, v.drop_last());
        assert forall|k: int| 0 <= k < b.len() implies 0 <= #[trigger] b[k] < v.len() by {
            if k < a.len() {
                assert(b[k] == a[k]);
            }
        }
    }
}

/// The kinds of owners are of their groups.
pub proof fn law_kinds_are_of_their_group(kind: Seq<char>)
    ensures
        group_of("Ingress"@) == Some("networking.k8s.io"@),
        group_of("HTTPRoute"@) == Some("gateway.networking.k8s.io"@),
        group_of("GRPCRoute"@) == Some("gateway.networking.k8s.io"@),
        kind != "Ingress"@ && kind != "HTTPRoute"@ && kind != "GRPCRoute"@ ==> group_of(kind) is None,
{
    reveal_strlit("Ingress");
    reveal_strlit("HTTPRoute");
    assert("Ingress"@.len() != "HTTPRoute"@.len());
    reveal_strlit("GRPCRoute");
    assert("Ingress"@.len() != "GRPCRoute"@.len());
}

/// A command is refused where its owner is another now, or its policy is gone or another.
pub proof fn law_commands_are_for_the_same_owner(s: State, uid: Seq<char>)
    ensures
        uid != s.uid@ ==> owner_checked(s, Some(uid), Some(true)) == Err::<(), ReleaseError>(
            ReleaseError::OwnerChanged,
        ),
        owner_checked(s, None, Some(true)) == Err::<(), ReleaseError>(ReleaseError::OwnerChanged),
        owner_checked(s, Some(s.uid@), None) == Err::<(), ReleaseError>(ReleaseError::PolicyRemoved),
        owner_checked(s, Some(s.uid@), Some(false)) == Err::<(), ReleaseError>(ReleaseError::PolicyChanged),
        owner_checked(s, Some(s.uid@), Some(true)) == Ok::<(), ReleaseError>(()),
{
}

/// Each command does what it says, and nothing else; only a rollback can be had without stages.
pub proof fn law_commands_do_what_they_say(s: State, p: Reached, now: i64)
    ensures
        s.rollback ==> commanded(Operation::Rollback, None, s, p, now) == Ok::<Record, ReleaseError>(
            Record::RolledBack(s.revision@),
        ),
        !s.rollback ==> commanded(Operation::Rollback, None, s, p, now) == Err::<Record, ReleaseError>(
            ReleaseError::NoRollback,
        ),
        !s.staged || p.promoted ==> commanded(Operation::Pause, None, s, p, now) == Err::<
            Record,
            ReleaseError,
        >(ReleaseError::NoStages) && commanded(Operation::Approve, Some(p.stage), s, p, now) is Err,
        s.staged && !p.promoted ==> {
            &&& commanded(Operation::Pause, None, s, p, now) == Ok::<Record, ReleaseError>(
                Record::Progress(Reached { paused: true, ..p }),
            )
            &&& commanded(Operation::Approve, Some(p.stage), s, p, now) == Ok::<Record, ReleaseError>(
                Record::Progress(Reached { approved_stage: Some(p.stage), ..p }),
            )
            &&& commanded(Operation::Approve, None, s, p, now) == Err::<Record, ReleaseError>(
                ReleaseError::Stage,
            )
        },
{
}

/// Progress of another policy does not count: a rollout begins at its first stage.
pub proof fn law_rollouts_begin_at_the_start(s: State, p: Progress, now: i64)
    ensures
        p@.policy_hash == s.policy_hash@ ==> reached_of(s, Some(p), now) == p@,
        p@.policy_hash != s.policy_hash@ ==> reached_of(s, Some(p), now) == initial_of(s, now),
        reached_of(s, None, now) == initial_of(s, now),
        initial_of(s, now).stage == 0,
        initial_of(s, now).started_at == now,
        initial_of(s, now).revision == s.revision@,
        initial_of(s, now).policy_hash == s.policy_hash@,
        !initial_of(s, now).paused,
        !initial_of(s, now).promoted,
        initial_of(s, now).approved_stage is None,
{
}

/// Gates are passed where each has a good result.
pub proof fn law_every_gate_has_to_pass(gates: Seq<Seq<char>>, results: Seq<(Seq<char>, bool)>, i: int)
    requires
        0 <= i < gates.len(),
    ensures
        result_of(results, gates[i]) is None ==> !passed(gates, results),
        result_of(results, gates[i]) == Some(false) ==> !passed(gates, results),
        passed(Seq::empty(), results),
{
}

/// A rollback is put on record once; a rollout goes on where this controller leads.
pub proof fn law_rollouts_go_on_with_the_leader(revision: Seq<char>, other: Option<Seq<char>>, leader: bool, staged: bool)
    ensures
        turn_of(true, Some(revision), revision, leader, staged) == Turn::Nothing,
        other != Some(revision) ==> turn_of(true, other, revision, leader, staged) == Turn::RollBack,
        turn_of(false, other, revision, true, true) == Turn::Advance,
        turn_of(false, other, revision, false, staged) == Turn::Nothing,
        turn_of(false, other, revision, leader, false) == Turn::Nothing,
{
}

} // verus!
