//! The runs of a request through a route, one after the other: what is found out next, and what is
//! reported of each run.
use crate::body::Inspection;
use crate::certificates;
use crate::diagnostics::outbound::{
    asked, copies, planned, MirrorRule, Outbound, Plan, Preview, PreviewError, Prospect,
};
use crate::diagnostics::simulation::{
    redirect, AuthFixture, Fixture, Party, Ready, Simulation, SimulationError,
};
use crate::diagnostics::trial::{
    accounts, admissions, begun, count_admitted, decide, lemma_admissions, lot, sees, sight, stepped,
    Account, Answer, Case, Check, Course, Fate, Lot, Outcome, Passage, Passed, Report, Rules, Said, Sight,
    Told, Trial, Verdict,
};
use crate::model::{Action, PathMatch};
use crate::net::parsed_ip;
use crate::proxy::inspect::BodyView;
use crate::proxy::planning::Scene;
use crate::proxy::request::{is_v6, secure_address};
use crate::script::{Changes, Decision, Edits, Request, RequestData};
use crate::table::Table;
use crate::text;
use crate::uri::uri_target;
use vstd::prelude::*;
use vstd::utf8::encode_utf8;

verus! {

// ---------------------------------------------------------------------------
// What is played
// ---------------------------------------------------------------------------

/// What a run reads of a route and of the configuration that it belongs to.
#[derive(Debug)]
pub struct Terms {
    /// The port that clients are sent to which do not ask securely.
    pub secure_port: Option<u16>,
    pub inspection: Inspection,
    /// Whether the route has a script.
    pub scripted: bool,
    /// The backends that the script can choose, by the names that it has for them.
    pub declared: Table,
    /// Whether the route has a rollout.
    pub rollout: bool,
    /// The name of the server that takes requests without a host, at the listener.
    pub server_name: String,
    pub action: Action,
    pub matcher: PathMatch,
    pub root: String,
    pub request_headers: Vec<(String, String)>,
    /// The host that each backend is asked for.
    pub backends: Table,
    pub mirror: Option<MirrorRule>,
}

/// Where a run has got to.
#[derive(Debug)]
pub enum Stage {
    /// The next run can begin.
    Ready,
    /// Something has to be found out.
    Checking(Check),
    /// The script has to decide.
    Scripting,
    /// The rollout has to choose a backend.
    Choosing(Passed),
    /// The backend has to be told of.
    Telling(Passed, Outbound),
    /// Nothing more is played.
    Over,
}

/// What a `Stage` holds.
#[verifier::ext_equal]
pub ghost enum Phase {
    Ready,
    Checking(Course),
    Scripting,
    Choosing(Passage),
    Telling(Passage, Plan),
    Over,
}

pub open spec fn course_of(c: Check) -> Course {
    match c {
        Check::Certificate => Course::Certificate,
        Check::Quota => Course::Quota,
        Check::Early => Course::Early,
        Check::Token(s) => Course::Token(s@),
        Check::Service => Course::Service,
        Check::Late => Course::Late,
    }
}

impl View for Stage {
    type V = Phase;

    open spec fn view(&self) -> Phase {
        match self {
            Stage::Ready => Phase::Ready,
            Stage::Checking(c) => Phase::Checking(course_of(*c)),
            Stage::Scripting => Phase::Scripting,
            Stage::Choosing(p) => Phase::Choosing(p@),
            Stage::Telling(p, o) => Phase::Telling(p@, o@),
            Stage::Over => Phase::Over,
        }
    }
}

/// Requests that are played through a route.
#[derive(Debug)]
pub struct Run {
    pub terms: Terms,
    pub input: Simulation,
    pub party: Party,
    /// The request with which each run begins.
    pub request: RequestData,
    pub trial: Trial,
    /// What is reported of the runs that are over.
    pub reports: Vec<Report>,
    pub stage: Stage,
}

/// What a `Run` holds.
#[verifier::ext_equal]
pub ghost struct Playing {
    pub terms: Terms,
    pub input: Fixture,
    pub scheme: Seq<char>,
    pub allowed: bool,
    pub request: Request,
    pub case: Case,
    pub reports: Seq<Account>,
    pub phase: Phase,
}

impl View for Run {
    type V = Playing;

    open spec fn view(&self) -> Playing {
        Playing {
            terms: self.terms,
            input: self.input@,
            scheme: self.party.scheme@,
            allowed: self.party.allowed,
            request: self.request@,
            case: self.trial@,
            reports: accounts(self.reports@),
            phase: self.stage@,
        }
    }
}

/// What happened.
#[derive(Debug)]
pub enum RunEvent {
    /// The next run begins.
    Go,
    /// Something was found out.
    Found(Answer),
    /// The script decided, or failed.
    Scripted(Result<(Decision, Edits), String>),
    /// The rollout chose a backend.
    Chosen(String),
    /// The backend was told of.
    Told(Told),
}

impl RunEvent {
    pub open spec fn wf(&self) -> bool {
        self matches RunEvent::Found(a) ==> a.wf()
    }
}

#[derive(Clone, Copy, Debug, PartialEq, Eq, Structural)]
pub enum RunError {
    /// The script chose a backend that the route does not declare.
    Undeclared,
    Preview(PreviewError),
}

/// What has to be done next.
#[derive(Debug)]
pub enum RunAction {
    /// This has to be found out.
    Find(Check),
    /// The script has to decide on the request, with what it sees of the body.
    Script(Option<BodyView>),
    /// The rollout has to choose a backend, in place of the one that the script chose.
    Choose(Option<String>),
    /// This backend has to be told of.
    Tell(String),
    /// A run is over; whether the permits that it took are kept.
    Done(bool),
    /// All runs are over.
    Finished,
    Failed(RunError),
    /// What happened does not belong here, and changes nothing.
    Misplaced,
}

/// What a `RunAction` holds.
#[verifier::ext_equal]
pub ghost enum Act {
    Find(Course),
    Script(Option<(Seq<u8>, bool)>),
    Choose(Option<Seq<char>>),
    Tell(Seq<char>),
    Done(bool),
    Finished,
    Failed(RunError),
    Misplaced,
}

impl View for RunAction {
    type V = Act;

    open spec fn view(&self) -> Act {
        match self {
            RunAction::Find(c) => Act::Find(course_of(*c)),
            RunAction::Script(Some(v)) => Act::Script(Some((v.bytes@, v.complete))),
            RunAction::Script(None) => Act::Script(None),
            RunAction::Choose(b) => Act::Choose(text::opt(*b)),
            RunAction::Tell(b) => Act::Tell(b@),
            RunAction::Done(b) => Act::Done(*b),
            RunAction::Finished => Act::Finished,
            RunAction::Failed(e) => Act::Failed(*e),
            RunAction::Misplaced => Act::Misplaced,
        }
    }
}

// ---------------------------------------------------------------------------
// What a run does
// ---------------------------------------------------------------------------

/// A run is over. The permits that it took are kept where they are held and the request went through.
pub open spec fn reported(s: Playing, a: Account) -> (Playing, Act) {
    (
        Playing { reports: s.reports.push(a), phase: Phase::Ready, ..s },
        Act::Done(s.case.hold_permits && a.admitted() && !(a is Redirected)),
    )
}

/// The request that would go on.
pub open spec fn prospect(s: Playing, p: Passage, rollout: Option<Seq<char>>) -> Prospect {
    Prospect {
        scene: Scene {
            request: s.case.run,
            edits: p.edits,
            original_uri: s.input.path,
            original_peer: s.input.client,
            scheme: s.scheme,
            server_name: s.terms.server_name@,
        },
        action: s.terms.action@,
        matcher: s.terms.matcher@,
        root: s.terms.root@,
        request_headers: text::pairs(s.terms.request_headers@),
        chosen: p.chosen,
        rollout,
        backends: s.terms.backends@,
        mirror: copies(s.terms.mirror),
        body_len: s.case.body_len,
        sample: s.reports.len() as u64,
    }
}

/// What would be done is looked at; a backend that would be asked is told of.
pub open spec fn previewed(s: Playing, p: Passage, rollout: Option<Seq<char>>) -> (Playing, Act) {
    match planned(prospect(s, p, rollout)) {
        Err(e) => (Playing { phase: Phase::Over, ..s }, Act::Failed(RunError::Preview(e))),
        Ok(plan) => match plan {
            Plan::Proxy { backend, .. } => (
                Playing { phase: Phase::Telling(p, plan), ..s },
                Act::Tell(backend),
            ),
            _ => reported(s, Account::Forwarded(p, plan, None)),
        },
    }
}

/// The request goes on; a rollout chooses the backend where one is asked.
pub open spec fn forwarded(s: Playing, p: Passage) -> (Playing, Act) {
    if s.terms.rollout && asked(prospect(s, p, None)) is Some {
        (Playing { phase: Phase::Choosing(p), ..s }, Act::Choose(p.chosen))
    } else {
        previewed(s, p, None)
    }
}

/// What a script sees of a body, and nothing where the body is too long.
pub open spec fn seen(i: Inspection, body: Seq<u8>) -> Option<Option<(Seq<u8>, bool)>> {
    match i {
        Inspection::Off => Some(None),
        Inspection::Full(limit) => if body.len() > limit {
            None
        } else {
            Some(Some((body, true)))
        },
        Inspection::Prefix(limit) => if body.len() <= limit {
            Some(Some((body, true)))
        } else {
            Some(Some((body.take(limit as int), false)))
        },
    }
}

pub open spec fn untouched() -> Passage {
    Passage {
        scripted: false,
        named: None,
        chosen: None,
        edits: Changes { path: None, query: None, headers: Seq::empty() },
    }
}

/// The checks admitted the request: the script sees it next, where the route has one.
pub open spec fn admitted(s: Playing) -> (Playing, Act) {
    match seen(s.terms.inspection, encode_utf8(s.input.body)) {
        None => reported(s, Account::BodyTooLong),
        Some(body) => if s.terms.scripted {
            (Playing { phase: Phase::Scripting, ..s }, Act::Script(body))
        } else {
            forwarded(s, untouched())
        },
    }
}

/// A check was gone through.
pub open spec fn checked(s: Playing, course: Course) -> (Playing, Act) {
    match course {
        Course::Refused(status) => reported(s, Account::Refused(status)),
        Course::Admitted => admitted(s),
        _ => (Playing { phase: Phase::Checking(course), ..s }, Act::Find(course)),
    }
}

/// A run begins, unless all are over: with the request as it came, first of all with being sent to the
/// secure port.
pub open spec fn started(s: Playing) -> (Playing, Act) {
    if s.reports.len() >= s.input.repeat {
        (Playing { phase: Phase::Over, ..s }, Act::Finished)
    } else if s.scheme != "https"@ && s.allowed && s.terms.secure_port is Some {
        reported(
            s,
            Account::Redirected(
                secure_address(
                    s.input.host,
                    is_v6(parsed_ip(s.input.host)),
                    uri_target(s.input.path),
                    s.terms.secure_port->0,
                ),
            ),
        )
    } else {
        let case = Case { run: s.request, admitted: admissions(s.reports) as usize, ..s.case };
        checked(Playing { case, ..s }, begun(case))
    }
}

/// Whether what was found out is what was asked for.
pub open spec fn fits(c: Course, a: Said) -> bool {
    match a {
        Said::Certificate(_) => c is Certificate,
        Said::Quota(_) => c is Quota,
        Said::Early(_) => c is Early,
        Said::Token(_) => c is Token,
        Said::Service(_) => c is Service,
        Said::Late(_) => c is Late,
    }
}

/// The script decided.
pub open spec fn scripted(s: Playing, d: Decision, edits: Changes) -> (Playing, Act) {
    match lot(Some(Ok(d)), s.terms.declared@) {
        None => (Playing { phase: Phase::Over, ..s }, Act::Failed(RunError::Undeclared)),
        Some(Lot::Answered(status, body)) => reported(s, Account::Answered(status, body, edits)),
        Some(Lot::Failed(e)) => reported(s, Account::Failed(e)),
        Some(Lot::Forwarded(chosen)) => forwarded(
            s,
            Passage {
                scripted: true,
                named: match d {
                    Decision::Proxy(name) => Some(name@),
                    _ => None,
                },
                chosen,
                edits,
            },
        ),
    }
}

/// How runs go on once something happened.
pub open spec fn run_step(s: Playing, e: RunEvent) -> (Playing, Act) {
    match (s.phase, e) {
        (Phase::Ready, RunEvent::Go) => started(s),
        (Phase::Checking(c), RunEvent::Found(a)) => if fits(c, a@) {
            let (case, course) = stepped(s.case, a@);
            checked(Playing { case, ..s }, course)
        } else {
            (s, Act::Misplaced)
        },
        (Phase::Scripting, RunEvent::Scripted(r)) => match r {
            Ok((d, edits)) => scripted(s, d, edits@),
            Err(e) => reported(s, Account::Failed(e@)),
        },
        (Phase::Choosing(p), RunEvent::Chosen(b)) => previewed(s, p, Some(b@)),
        (Phase::Telling(p, plan), RunEvent::Told(t)) => reported(
            s,
            Account::Forwarded(p, plan, Some(t@)),
        ),
        _ => (s, Act::Misplaced),
    }
}

/// What is played of an input: nothing was reported yet.
pub open spec fn opened(
    terms: Terms,
    rules: Rules,
    input: Simulation,
    request: Request,
    party: Party,
) -> Playing {
    Playing {
        terms,
        input: input@,
        scheme: party.scheme@,
        allowed: party.allowed,
        request,
        case: Case {
            allowed: party.allowed,
            max_body: rules.max_body,
            max_inflight: rules.max_inflight,
            token: rules.token,
            vouched: crate::diagnostics::trial::names_view(rules.vouched),
            live: rules.live,
            run: request,
            body_len: encode_utf8(input.body@).len() as usize,
            fixture: input@.external_auth,
            hold_permits: input.hold_permits,
            admitted: 0,
        },
        reports: Seq::empty(),
        phase: Phase::Ready,
    }
}

/// Whether the certificate of a client can be played, where the input has one.
pub open spec fn presentable(pem: Option<Seq<char>>) -> bool {
    pem matches Some(s) ==> certificates::readable(encode_utf8(s)) && certificates::has_certificates(
        certificates::chain_length(encode_utf8(s)),
    )
}

fn copy_fixture(f: &Option<AuthFixture>) -> (r: Option<AuthFixture>)
    ensures
        crate::diagnostics::simulation::fixture_view(r)
            == crate::diagnostics::simulation::fixture_view(*f),
{
    match f {
        None => None,
        Some(f) => Some(
            AuthFixture {
                status: f.status,
                headers: crate::config::settings::copy_pairs(&f.headers),
            },
        ),
    }
}

impl Run {
    pub open spec fn wf(&self) -> bool {
        &&& self.request.wf()
        &&& self.trial.wf()
        &&& self.terms.declared.wf()
        &&& self.terms.backends.wf()
    }

    /// Requests that are played through a route; an error where the client's certificate cannot be read.
    pub fn open(terms: Terms, rules: Rules, input: Simulation, ready: Ready, party: Party) -> (r: Result<
        Run,
        SimulationError,
    >)
        requires
            terms.declared.wf(),
            terms.backends.wf(),
            ready.request.wf(),
        ensures
            r is Ok <==> presentable(input@.client_certificate),
            match r {
                Ok(run) => run.wf() && run@ == opened(terms, rules, input, ready@.request, party),
                Err(e) => e == SimulationError::InvalidCertificate,
            },
    {
        if let Some(pem) = &input.client_certificate {
            if !certificates::is_chain(&text::bytes(pem.as_str())) {
                return Err(SimulationError::InvalidCertificate);
            }
        }
        let body_len = text::len(input.body.as_str());
        let fixture = copy_fixture(&input.external_auth);
        let rules = Rules {
            allowed: party.allowed,
            max_body: rules.max_body,
            max_inflight: rules.max_inflight,
            token: rules.token,
            vouched: rules.vouched,
            live: rules.live,
        };
        let trial = Trial {
            rules,
            run: ready.request.copy(),
            body_len,
            fixture,
            hold_permits: input.hold_permits,
            admitted: 0,
        };
        let run = Run {
            terms,
            input,
            party,
            request: ready.request,
            trial,
            reports: Vec::new(),
            stage: Stage::Ready,
        };
        assert(run@.reports =~= Seq::empty());
        Ok(run)
    }

    fn report(&mut self, r: Report) -> (a: RunAction)
        requires
            old(self).wf(),
        ensures
            final(self).wf(),
            (final(self)@, a@) == reported(old(self)@, r@),
    {
        let redirected = matches!(r, Report::Redirected(_));
        let kept = self.trial.hold_permits && r.admitted() && !redirected;
        let ghost x = r@;
        let ghost before = accounts(self.reports@);
        self.reports.push(r);
        self.stage = Stage::Ready;
        assert(accounts(self.reports@) =~= before.push(x));
        RunAction::Done(kept)
    }

    fn preview(&mut self, passed: Passed, rollout: Option<String>) -> (a: RunAction)
        requires
            old(self).wf(),
        ensures
            final(self).wf(),
            (final(self)@, a@) == previewed(old(self)@, passed@, text::opt(rollout)),
    {
        let found = self.look(&passed, &rollout);
        match found {
            Err(e) => {
                self.stage = Stage::Over;
                RunAction::Failed(RunError::Preview(e))
            },
            Ok(o) => {
                let name = match &o {
                    Outbound::Proxy { backend, .. } => Some(backend.clone()),
                    _ => None,
                };
                match name {
                    Some(backend) => {
                        self.stage = Stage::Telling(passed, o);
                        RunAction::Tell(backend)
                    },
                    None => self.report(Report::Forwarded(passed, o, None)),
                }
            },
        }
    }

    fn look(&self, passed: &Passed, rollout: &Option<String>) -> (r: Result<Outbound, PreviewError>)
        requires
            self.wf(),
        ensures
            crate::diagnostics::outbound::plan_of(r) == planned(
                prospect(self@, passed@, text::opt(*rollout)),
            ),
    {
        let p = Preview {
            request: &self.trial.run,
            edits: &passed.edits,
            original_uri: self.input.path.as_str(),
            original_peer: self.input.client.as_str(),
            scheme: self.party.scheme,
            server_name: self.terms.server_name.as_str(),
            action: &self.terms.action,
            matcher: &self.terms.matcher,
            root: self.terms.root.as_str(),
            request_headers: &self.terms.request_headers,
            chosen: &passed.chosen,
            rollout,
            backends: &self.terms.backends,
            mirror: &self.terms.mirror,
            body_len: self.trial.body_len,
            sample: self.reports.len() as u64,
        };
        assert(p@ =~= prospect(self@, passed@, text::opt(*rollout)));
        p.finish()
    }

    fn forward(&mut self, passed: Passed) -> (a: RunAction)
        requires
            old(self).wf(),
        ensures
            final(self).wf(),
            (final(self)@, a@) == forwarded(old(self)@, passed@),
    {
        let asks = passed.chosen.is_some() || matches!(self.terms.action, Action::Proxy { .. });
        if self.terms.rollout && asks {
            let chosen = crate::model::copy_opt(&passed.chosen);
            self.stage = Stage::Choosing(passed);
            RunAction::Choose(chosen)
        } else {
            self.preview(passed, None)
        }
    }

    fn let_in(&mut self) -> (a: RunAction)
        requires
            old(self).wf(),
        ensures
            final(self).wf(),
            (final(self)@, a@) == admitted(old(self)@),
    {
        let view = sight(&self.terms.inspection, self.input.body.as_str());
        let ghost body = encode_utf8(self.input.body@);
        proof {
            assert(sees(view, self.terms.inspection, body));
            assert(body.take(body.len() as int) =~= body);
        }
        let view = match view {
            Sight::TooLong => return self.report(Report::BodyTooLong),
            Sight::Off => None,
            Sight::Seen(v) => Some(v),
        };
        if self.terms.scripted {
            self.stage = Stage::Scripting;
            return RunAction::Script(view);
        }
        self.forward(
            Passed { scripted: false, named: None, chosen: None, edits: Edits::default() },
        )
    }

    fn check(&mut self, v: Verdict) -> (a: RunAction)
        requires
            old(self).wf(),
        ensures
            final(self).wf(),
            (final(self)@, a@) == checked(old(self)@, v@),
    {
        match v {
            Verdict::Refused(status) => self.report(Report::Refused(status)),
            Verdict::Admitted => self.let_in(),
            Verdict::Check(c) => {
                let d = copy_check(&c);
                self.stage = Stage::Checking(c);
                RunAction::Find(d)
            },
        }
    }

    fn begin(&mut self) -> (a: RunAction)
        requires
            old(self).wf(),
        ensures
            final(self).wf(),
            (final(self)@, a@) == started(old(self)@),
    {
        if self.reports.len() >= self.input.repeat {
            self.stage = Stage::Over;
            return RunAction::Finished;
        }
        let place = redirect(
            &self.party,
            self.terms.secure_port,
            self.input.host.as_str(),
            self.input.path.as_str(),
        );
        if let Some(place) = place {
            return self.report(Report::Redirected(place));
        }
        proof {
            lemma_admissions(self@.reports);
        }
        self.trial.run = self.request.copy();
        self.trial.admitted = count_admitted(&self.reports);
        let v = self.trial.begin();
        self.check(v)
    }

    fn script(&mut self, d: Decision, edits: Edits) -> (a: RunAction)
        requires
            old(self).wf(),
        ensures
            final(self).wf(),
            (final(self)@, a@) == scripted(old(self)@, d, edits@),
    {
        let outcome: Outcome = Some(Ok(d));
        let fate = decide(&outcome, &self.terms.declared);
        let named = match &outcome {
            Some(Ok(Decision::Proxy(name))) => Some(name.clone()),
            _ => None,
        };
        match fate {
            None => {
                self.stage = Stage::Over;
                RunAction::Failed(RunError::Undeclared)
            },
            Some(Fate::Answered(status, body)) => self.report(Report::Answered(status, body, edits)),
            Some(Fate::Failed(e)) => self.report(Report::Failed(e)),
            Some(Fate::Forwarded(chosen)) => self.forward(
                Passed { scripted: true, named, chosen, edits },
            ),
        }
    }

    /// How the runs go on once something happened.
    pub fn next(&mut self, event: RunEvent) -> (a: RunAction)
        requires
            old(self).wf(),
            event.wf(),
        ensures
            final(self).wf(),
            (final(self)@, a@) == run_step(old(self)@, event),
    {
        let mut stage = Stage::Over;
        std::mem::swap(&mut stage, &mut self.stage);
        match (stage, event) {
            (Stage::Ready, RunEvent::Go) => self.begin(),
            (Stage::Checking(c), RunEvent::Found(a)) => {
                if !is_fit(&c, &a) {
                    self.stage = Stage::Checking(c);
                    return RunAction::Misplaced;
                }
                let v = self.trial.step(a);
                self.check(v)
            },
            (Stage::Scripting, RunEvent::Scripted(r)) => match r {
                Ok((d, edits)) => self.script(d, edits),
                Err(e) => self.report(Report::Failed(e)),
            },
            (Stage::Choosing(p), RunEvent::Chosen(b)) => self.preview(p, Some(b)),
            (Stage::Telling(p, o), RunEvent::Told(t)) => self.report(
                Report::Forwarded(p, o, Some(t)),
            ),
            (stage, _) => {
                self.stage = stage;
                RunAction::Misplaced
            },
        }
    }
}

fn copy_check(c: &Check) -> (r: Check)
    ensures
        course_of(r) == course_of(*c),
{
    match c {
        Check::Certificate => Check::Certificate,
        Check::Quota => Check::Quota,
        Check::Early => Check::Early,
        Check::Token(s) => Check::Token(s.clone()),
        Check::Service => Check::Service,
        Check::Late => Check::Late,
    }
}

fn is_fit(c: &Check, a: &Answer) -> (r: bool)
    ensures
        r == fits(course_of(*c), a@),
{
    match (c, a) {
        (Check::Certificate, Answer::Certificate(_)) => true,
        (Check::Quota, Answer::Quota(_)) => true,
        (Check::Early, Answer::Early(_)) => true,
        (Check::Token(_), Answer::Token(_)) => true,
        (Check::Service, Answer::Service(_)) => true,
        (Check::Late, Answer::Late(_)) => true,
        _ => false,
    }
}

// ---------------------------------------------------------------------------
// Laws
// ---------------------------------------------------------------------------

/// Whether no more is reported than was asked for: a run that is under way has its place.
pub open spec fn in_bounds(s: Playing) -> bool {
    if s.phase is Ready || s.phase is Over {
        s.reports.len() <= s.input.repeat
    } else {
        s.reports.len() < s.input.repeat
    }
}

/// Each run is reported once, when it is over, and nothing that was reported is changed. All runs are over
/// once there are as many reports as were asked for, and not before.
pub proof fn law_runs_are_reported_once(s: Playing, e: RunEvent)
    requires
        in_bounds(s),
    ensures
        in_bounds(run_step(s, e).0),
        run_step(s, e).0.input == s.input,
        run_step(s, e).1 is Done ==> run_step(s, e).0.reports.len() == s.reports.len() + 1
            && run_step(s, e).0.reports.drop_last() == s.reports,
        !(run_step(s, e).1 is Done) ==> run_step(s, e).0.reports == s.reports,
        run_step(s, e).1 is Finished ==> s.reports.len() == s.input.repeat,
        s.phase is Ready && e is Go && s.reports.len() == s.input.repeat ==> run_step(s, e).1 is Finished,
{
    let (t, a) = run_step(s, e);
    if a is Done {
        assert(t.reports.drop_last() =~= s.reports);
    }
}

/// What is played after several events.
pub open spec fn played(s: Playing, events: Seq<RunEvent>) -> Playing
    decreases events.len(),
{
    if events.len() == 0 {
        s
    } else {
        run_step(played(s, events.drop_last()), events.last()).0
    }
}

proof fn lemma_played(s: Playing, events: Seq<RunEvent>)
    requires
        in_bounds(s),
    ensures
        in_bounds(played(s, events)),
        played(s, events).input == s.input,
    decreases events.len(),
{
    if events.len() > 0 {
        lemma_played(s, events.drop_last());
        law_runs_are_reported_once(played(s, events.drop_last()), events.last());
    }
}

/// However an input is played, all runs are over exactly when as many are reported as it asks for.
pub proof fn law_runs_are_as_many_as_asked(
    terms: Terms,
    rules: Rules,
    input: Simulation,
    request: Request,
    party: Party,
    events: Seq<RunEvent>,
    last: RunEvent,
)
    ensures
        ({
            let s = played(opened(terms, rules, input, request, party), events);
            &&& s.reports.len() <= input.repeat
            &&& run_step(s, last).1 is Finished ==> s.reports.len() == input.repeat
        }),
{
    let s = opened(terms, rules, input, request, party);
    lemma_played(s, events);
    law_runs_are_reported_once(played(s, events), last);
}

/// How far a run is from its end.
pub open spec fn rank(p: Phase) -> nat {
    match p {
        Phase::Ready => 9,
        Phase::Checking(Course::Certificate) => 8,
        Phase::Checking(Course::Quota) => 7,
        Phase::Checking(Course::Early) => 6,
        Phase::Checking(Course::Token(_)) => 5,
        Phase::Checking(Course::Service) => 4,
        Phase::Checking(_) => 3,
        Phase::Scripting => 2,
        Phase::Choosing(_) => 1,
        _ => 0,
    }
}

/// How many events can still happen at most.
pub open spec fn remaining(s: Playing) -> int {
    if s.phase is Over {
        0
    } else {
        (s.input.repeat - s.reports.len()) * 10 + rank(s.phase) + 1
    }
}

/// The runs come to an end: every event that belongs where it happens brings them closer to it.
pub proof fn law_runs_end(s: Playing, e: RunEvent)
    requires
        in_bounds(s),
        !(run_step(s, e).1 is Misplaced),
    ensures
        0 <= remaining(run_step(s, e).0) < remaining(s),
{
    law_runs_are_reported_once(s, e);
}

/// A request that is refused goes nowhere: neither a script nor a backend is asked after that in the run.
pub proof fn law_refused_runs_are_over(s: Playing, a: Answer)
    requires
        s.phase is Checking && fits(s.phase->Checking_0, a@),
        stepped(s.case, a@).1 is Refused,
    ensures
        run_step(s, RunEvent::Found(a)).1 == Act::Done(false),
        run_step(s, RunEvent::Found(a)).0.reports.last() == Account::Refused(
            stepped(s.case, a@).1->Refused_0,
        ),
{
}

/// A client that does not ask securely is sent to the secure port before anything is checked.
pub proof fn law_insecure_clients_are_redirected(s: Playing)
    requires
        s.phase is Ready,
        s.reports.len() < s.input.repeat,
    ensures
        s.scheme != "https"@ && s.allowed && s.terms.secure_port is Some ==> run_step(s, RunEvent::Go).0.reports.last() is Redirected
            && run_step(s, RunEvent::Go).1 == Act::Done(false),
        s.scheme == "https"@ && s.case.allowed ==> run_step(s, RunEvent::Go).1 == Act::Find(Course::Certificate),
        (s.scheme == "https"@ || s.terms.secure_port is None) && !s.case.allowed ==> run_step(
            s,
            RunEvent::Go,
        ).0.reports.last() == Account::Refused(403),
{
}

/// Every run begins with the request as it was given, whatever the runs before made of theirs.
pub proof fn law_runs_begin_anew(s: Playing)
    requires
        s.phase is Ready,
        s.reports.len() < s.input.repeat,
        s.scheme == "https"@,
        s.case.allowed,
    ensures
        run_step(s, RunEvent::Go).0.case.run == s.request,
        run_step(s, RunEvent::Go).0.case.admitted == admissions(s.reports) as usize,
{
}

/// An admitted request goes to the script where the route has one; a reply of the script is the answer, and
/// a failure of the script fails the run.
pub proof fn law_scripts_have_the_last_word(s: Playing, status: u16, body: String, edits: Edits, e: String)
    requires
        s.phase is Scripting,
    ensures
        run_step(s, RunEvent::Scripted(Ok((Decision::Reply(status, body), edits)))).0.reports.last() == Account::Answered(
            status,
            body@,
            edits@,
        ),
        run_step(s, RunEvent::Scripted(Err(e))).0.reports.last() == Account::Failed(e@),
        s.terms.scripted && s.terms.inspection is Off ==> admitted(s).1 == Act::Script(None),
        !s.terms.scripted ==> !(admitted(s).1 is Script),
{
}

/// What the script chose is what the rollout is asked about, and what the rollout chose is what is told of.
pub proof fn law_rollouts_choose(s: Playing, p: Passage, b: String)
    requires
        s.phase == Phase::Choosing(p),
    ensures
        run_step(s, RunEvent::Chosen(b)).1 is Tell ==> run_step(s, RunEvent::Chosen(b)).1 == Act::Tell(b@),
        s.terms.rollout && p.chosen is Some ==> forwarded(s, p).1 == Act::Choose(p.chosen),
{
}

/// The script sees as much of the body as the route lets it.
pub proof fn law_bodies_are_seen_up_to_the_limit(body: Seq<u8>, limit: usize)
    ensures
        seen(Inspection::Off, body) == Some(None::<(Seq<u8>, bool)>),
        body.len() > limit ==> seen(Inspection::Full(limit), body) is None,
        body.len() <= limit ==> seen(Inspection::Full(limit), body) == Some(Some((body, true))),
        body.len() <= limit ==> seen(Inspection::Prefix(limit), body) == Some(Some((body, true))),
        body.len() > limit ==> seen(Inspection::Prefix(limit), body) is Some && seen(Inspection::Prefix(limit), body)->0
            == Some((body.take(limit as int), false)),
{
}

} // verus!
