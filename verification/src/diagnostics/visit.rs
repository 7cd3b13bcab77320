//! A request of the administrative interface, from its arrival to its answer: what is put on record, what
//! is read and what is done, one after the other.
use crate::diagnostics::admin::{
    handle, holder, open, opened, read_json, rollout_allowed, rollout_in_scope, tasked, Door, Opening,
    Reading, Refusal, Task,
};
use crate::diagnostics::auth::{Holder, Principal};
use crate::ingress::release::{Command, Operation};
use crate::text;
use vstd::prelude::*;

verus! {

/// Where a request has got to.
#[derive(Debug)]
pub enum Stage {
    Arrived,
    /// The attempt has to be put on record.
    Attempting,
    /// Something has to be done.
    Performing(Task),
    /// The command to a rollout has to be read.
    Reading,
    /// The attempt to command a rollout has to be put on record.
    Announcing(Command),
    /// The rollout has to be commanded.
    Commanding,
    Over,
}

/// A request of the interface, and who it is from.
#[derive(Debug)]
pub struct Visit {
    pub path: String,
    pub method: String,
    pub principal: Option<Principal>,
    pub stage: Stage,
}

/// What a `Visit` holds.
#[verifier::ext_equal]
pub ghost struct Call {
    pub path: Seq<char>,
    pub method: Seq<char>,
    pub principal: Option<Holder>,
    pub stage: Stage,
}

impl View for Visit {
    type V = Call;

    open spec fn view(&self) -> Call {
        Call {
            path: self.path@,
            method: self.method@,
            principal: holder(self.principal),
            stage: self.stage,
        }
    }
}

/// What happened.
#[derive(Debug)]
pub enum VisitEvent {
    Begin,
    /// Whether something could be put on record.
    Recorded(bool),
    /// Something was done, with this status.
    Done(u16),
    /// A body was read; the command that it holds, where it is one.
    Read(Reading, Option<Command>),
    /// A rollout was commanded; whether it took the command.
    Commanded(bool),
}

/// How a request is answered.
#[derive(Clone, Copy, Debug, PartialEq, Eq, Structural)]
pub enum Reply {
    Refused(Refusal),
    /// With what came of doing something.
    Done(u16),
    /// The rollout took the command.
    Accepted,
    /// The rollout did not take the command.
    Conflict,
}

impl Reply {
    pub open spec fn spec_status(self) -> u16 {
        match self {
            Reply::Refused(r) => r.spec_status(),
            Reply::Done(n) => n,
            Reply::Accepted => 200,
            Reply::Conflict => 409,
        }
    }

    pub fn status(&self) -> (r: u16)
        ensures
            r == self.spec_status(),
    {
        match self {
            Reply::Refused(r) => r.status(),
            Reply::Done(n) => *n,
            Reply::Accepted => 200,
            Reply::Conflict => 409,
        }
    }

    /// What is put on record of the answer: its status.
    pub fn outcome(&self) -> (r: String)
        ensures
            r@ == text::decimal(self.spec_status() as nat),
    {
        text::decimal_string(self.status() as u64)
    }
}

/// What has to be done next.
#[derive(Debug)]
pub enum VisitAction {
    /// The metrics have to be shown.
    Telemetry,
    /// The attempt at an operation has to be put on record.
    Record(String),
    Perform(Task),
    /// The body has to be read.
    Read,
    /// The rollout has to be told what to do.
    Command(Command),
    Answer(Reply),
    /// What happened does not belong here, and changes nothing.
    Misplaced,
}

/// What a `VisitAction` holds.
#[verifier::ext_equal]
pub ghost enum Deed {
    Telemetry,
    Record(Seq<char>),
    Perform(Task),
    Read,
    Command(Command),
    Answer(Reply),
    Misplaced,
}

impl View for VisitAction {
    type V = Deed;

    open spec fn view(&self) -> Deed {
        match self {
            VisitAction::Telemetry => Deed::Telemetry,
            VisitAction::Record(s) => Deed::Record(s@),
            VisitAction::Perform(t) => Deed::Perform(*t),
            VisitAction::Read => Deed::Read,
            VisitAction::Command(c) => Deed::Command(*c),
            VisitAction::Answer(r) => Deed::Answer(*r),
            VisitAction::Misplaced => Deed::Misplaced,
        }
    }
}

impl Operation {
    pub open spec fn spec_name(self) -> Seq<char> {
        match self {
            Operation::Pause => "Pause"@,
            Operation::Resume => "Resume"@,
            Operation::Approve => "Approve"@,
            Operation::Rollback => "Rollback"@,
        }
    }

    pub fn name(&self) -> (r: &'static str)
        ensures
            r@ == self.spec_name(),
    {
        match self {
            Operation::Pause => "Pause",
            Operation::Resume => "Resume",
            Operation::Approve => "Approve",
            Operation::Rollback => "Rollback",
        }
    }
}

/// How a command to a rollout is put on record.
pub open spec fn rollout_operation(c: Command) -> Seq<char> {
    "rollout/"@ + c.owner@ + "/"@ + (c.revision@ + "/"@ + c.operation.spec_name())
}

fn describe(c: &Command) -> (out: String)
    ensures
        out@ == rollout_operation(*c),
{
    let head = text::concat3("rollout/", c.owner.as_str(), "/");
    let tail = text::concat3(c.revision.as_str(), "/", c.operation.name());
    text::concat(head.as_str(), tail.as_str())
}

// ---------------------------------------------------------------------------
// What a request goes through
// ---------------------------------------------------------------------------

pub open spec fn answered(c: Call, r: Reply) -> (Call, Deed) {
    (Call { stage: Stage::Over, ..c }, Deed::Answer(r))
}

pub open spec fn begun(c: Call) -> (Call, Deed) {
    match opened(c.path, c.principal) {
        Door::Telemetry => (Call { stage: Stage::Over, ..c }, Deed::Telemetry),
        Door::Refused(r) => answered(c, Reply::Refused(r)),
        Door::Attempt(s) => (Call { stage: Stage::Attempting, ..c }, Deed::Record(s)),
    }
}

/// The attempt is on record: what is asked for is done next. The command to a rollout is read first.
pub open spec fn attempted(c: Call, recorded: bool) -> (Call, Deed) {
    if !recorded {
        answered(c, Reply::Refused(Refusal::AuditUnavailable))
    } else {
        match c.principal {
            None => answered(c, Reply::Refused(Refusal::Unauthenticated)),
            Some(h) => match tasked(c.path, c.method, h) {
                Task::Refused(r) => answered(c, Reply::Refused(r)),
                Task::Rollouts => (Call { stage: Stage::Reading, ..c }, Deed::Read),
                t => (Call { stage: Stage::Performing(t), ..c }, Deed::Perform(t)),
            },
        }
    }
}

pub open spec fn body_read(method: Seq<char>, reading: Reading) -> Result<(), Refusal> {
    if method != "POST"@ {
        Err(Refusal::NeedsPost)
    } else if reading == Reading::Failed {
        Err(Refusal::BodyUnavailable)
    } else if reading == Reading::Late {
        Err(Refusal::BodyDeadline)
    } else {
        Ok(())
    }
}

/// A command was read: it is put on record once it is known that it may be given.
pub open spec fn command_read(c: Call, reading: Reading, command: Option<Command>) -> (Call, Deed) {
    match body_read(c.method, reading) {
        Err(r) => answered(c, Reply::Refused(r)),
        Ok(_) => match (command, c.principal) {
            (None, _) => answered(c, Reply::Refused(Refusal::InvalidJson)),
            (_, None) => answered(c, Reply::Refused(Refusal::Unauthenticated)),
            (Some(x), Some(h)) => match rollout_allowed(h, x.owner@) {
                Err(r) => answered(c, Reply::Refused(r)),
                Ok(_) => (
                    Call { stage: Stage::Announcing(x), ..c },
                    Deed::Record(rollout_operation(x)),
                ),
            },
        },
    }
}

/// How a request goes on once something happened.
pub open spec fn visit_step(c: Call, e: VisitEvent) -> (Call, Deed) {
    match (c.stage, e) {
        (Stage::Arrived, VisitEvent::Begin) => begun(c),
        (Stage::Attempting, VisitEvent::Recorded(ok)) => attempted(c, ok),
        (Stage::Performing(_), VisitEvent::Done(status)) => answered(c, Reply::Done(status)),
        (Stage::Reading, VisitEvent::Read(reading, command)) => command_read(c, reading, command),
        (Stage::Announcing(x), VisitEvent::Recorded(ok)) => if ok {
            (Call { stage: Stage::Commanding, ..c }, Deed::Command(x))
        } else {
            answered(c, Reply::Refused(Refusal::AuditUnavailable))
        },
        (Stage::Commanding, VisitEvent::Commanded(taken)) => answered(
            c,
            if taken {
                Reply::Accepted
            } else {
                Reply::Conflict
            },
        ),
        _ => (c, Deed::Misplaced),
    }
}

impl Visit {
    pub fn new(path: String, method: String, principal: Option<Principal>) -> (v: Visit)
        ensures
            v@ == (Call {
                path: path@,
                method: method@,
                principal: holder(principal),
                stage: Stage::Arrived,
            }),
    {
        Visit { path, method, principal, stage: Stage::Arrived }
    }

    fn answer(&mut self, r: Reply) -> (a: VisitAction)
        ensures
            (final(self)@, a@) == answered(old(self)@, r),
    {
        self.stage = Stage::Over;
        VisitAction::Answer(r)
    }

    fn begin(&mut self) -> (a: VisitAction)
        ensures
            (final(self)@, a@) == begun(old(self)@),
    {
        match open(self.path.as_str(), &self.principal) {
            Opening::Telemetry => {
                self.stage = Stage::Over;
                VisitAction::Telemetry
            },
            Opening::Refused(r) => self.answer(Reply::Refused(r)),
            Opening::Attempt(s) => {
                self.stage = Stage::Attempting;
                VisitAction::Record(s)
            },
        }
    }

    fn attempt(&mut self, recorded: bool) -> (a: VisitAction)
        ensures
            (final(self)@, a@) == attempted(old(self)@, recorded),
    {
        if !recorded {
            return self.answer(Reply::Refused(Refusal::AuditUnavailable));
        }
        let task = match &self.principal {
            None => Task::Refused(Refusal::Unauthenticated),
            Some(p) => handle(self.path.as_str(), self.method.as_str(), p),
        };
        match task {
            Task::Refused(r) => self.answer(Reply::Refused(r)),
            Task::Rollouts => {
                self.stage = Stage::Reading;
                VisitAction::Read
            },
            t => {
                self.stage = Stage::Performing(t);
                VisitAction::Perform(t)
            },
        }
    }

    fn read(&mut self, reading: Reading, command: Option<Command>) -> (a: VisitAction)
        ensures
            (final(self)@, a@) == command_read(old(self)@, reading, command),
    {
        if let Err(r) = read_json(self.method.as_str(), reading) {
            return self.answer(Reply::Refused(r));
        }
        let command = match command {
            None => return self.answer(Reply::Refused(Refusal::InvalidJson)),
            Some(c) => c,
        };
        let allowed = match &self.principal {
            None => Err(Refusal::Unauthenticated),
            Some(p) => rollout_in_scope(p, command.owner.as_str()),
        };
        match allowed {
            Err(r) => self.answer(Reply::Refused(r)),
            Ok(_) => {
                let s = describe(&command);
                self.stage = Stage::Announcing(command);
                VisitAction::Record(s)
            },
        }
    }

    /// How the request goes on once something happened.
    pub fn next(&mut self, event: VisitEvent) -> (a: VisitAction)
        ensures
            (final(self)@, a@) == visit_step(old(self)@, event),
    {
        let mut stage = Stage::Over;
        std::mem::swap(&mut stage, &mut self.stage);
        match (stage, event) {
            (Stage::Arrived, VisitEvent::Begin) => self.begin(),
            (Stage::Attempting, VisitEvent::Recorded(ok)) => self.attempt(ok),
            (Stage::Performing(_), VisitEvent::Done(status)) => self.answer(Reply::Done(status)),
            (Stage::Reading, VisitEvent::Read(reading, command)) => self.read(reading, command),
            (Stage::Announcing(x), VisitEvent::Recorded(ok)) => if ok {
                self.stage = Stage::Commanding;
                VisitAction::Command(x)
            } else {
                self.answer(Reply::Refused(Refusal::AuditUnavailable))
            },
            (Stage::Commanding, VisitEvent::Commanded(taken)) => self.answer(
                if taken {
                    Reply::Accepted
                } else {
                    Reply::Conflict
                },
            ),
            (stage, _) => {
                self.stage = stage;
                VisitAction::Misplaced
            },
        }
    }
}

// ---------------------------------------------------------------------------
// Laws
// ---------------------------------------------------------------------------

/// A rollout is commanded only once the attempt is on record, and only what was put on record.
pub proof fn law_commands_are_on_record(c: Call, e: VisitEvent, x: Command)
    requires
        visit_step(c, e).1 == Deed::Command(x),
    ensures
        c.stage == Stage::Announcing(x),
        e == VisitEvent::Recorded(true),
{
}

/// A command is put on record only for somebody who may command the rollouts of its namespace.
pub proof fn law_commands_are_in_scope(c: Call, e: VisitEvent, x: Command)
    requires
        c.stage != Stage::Announcing(x),
        visit_step(c, e).0.stage == Stage::Announcing(x),
    ensures
        c.principal is Some,
        rollout_allowed(c.principal->0, x.owner@) is Ok,
        visit_step(c, e).1 == Deed::Record(rollout_operation(x)),
{
}

/// A command is read only from somebody who may write, and once the attempt is on record.
pub proof fn law_commands_are_from_writers(c: Call, e: VisitEvent)
    requires
        c.stage != Stage::Reading,
        visit_step(c, e).0.stage == Stage::Reading,
    ensures
        e == VisitEvent::Recorded(true),
        c.principal is Some,
        c.principal->0.writer(),
{
}

/// Nothing is done before the attempt is on record.
pub proof fn law_nothing_is_done_off_the_record(c: Call, e: VisitEvent)
    requires
        visit_step(c, e).1 is Perform || visit_step(c, e).1 is Read || visit_step(c, e).1 is Command,
    ensures
        e == VisitEvent::Recorded(true),
{
}

/// An answer is given once: nothing happens afterwards.
pub proof fn law_answers_are_final(c: Call, e: VisitEvent, f: VisitEvent)
    requires
        visit_step(c, e).1 is Answer,
    ensures
        visit_step(visit_step(c, e).0, f) == (visit_step(c, e).0, Deed::Misplaced),
{
}

} // verus!
