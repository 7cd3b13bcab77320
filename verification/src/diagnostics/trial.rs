//! One run of a request through the checks of a route, and what comes of it.
use crate::body::Inspection;
use crate::diagnostics::outbound::{Outbound, Plan};
use crate::diagnostics::simulation::{fixture_view, AuthFixture};
use crate::proxy::inspect;
use crate::proxy::inspect::BodyView;
use crate::json::{tree_or_null, Json, Tree};
use crate::script::{Changes, Decision, Edits, Request, RequestData};
use crate::table::Table;
use crate::text;
use vstd::prelude::*;
use vstd::utf8::encode_utf8;

verus! {

// ---------------------------------------------------------------------------
// Admission
// ---------------------------------------------------------------------------

/// What a route asks of a request before it takes it.
#[derive(Debug)]
pub struct Rules {
    /// Whether the client's address is allowed.
    pub allowed: bool,
    /// The longest body in bytes; none is too long where this is 0.
    pub max_body: u64,
    /// How many requests of the route's namespace may be on their way, where it has a quota.
    pub max_inflight: Option<usize>,
    /// Whether a token is verified.
    pub token: bool,
    /// The fields that an authentication service vouches for, where one is asked.
    pub vouched: Option<Vec<String>>,
    /// Whether the service is asked in fact.
    pub live: bool,
}

/// A request on its way through the checks.
#[derive(Debug)]
pub struct Trial {
    pub rules: Rules,
    pub run: RequestData,
    pub body_len: usize,
    pub fixture: Option<AuthFixture>,
    pub hold_permits: bool,
    /// How many of the runs before were admitted.
    pub admitted: usize,
}

/// What a `Trial` holds.
#[verifier::ext_equal]
pub ghost struct Case {
    pub allowed: bool,
    pub max_body: u64,
    pub max_inflight: Option<usize>,
    pub token: bool,
    pub vouched: Option<Seq<Seq<char>>>,
    pub live: bool,
    pub run: Request,
    pub body_len: usize,
    pub fixture: Option<(u16, Seq<(Seq<char>, Seq<char>)>)>,
    pub hold_permits: bool,
    pub admitted: usize,
}

pub open spec fn names_view(v: Option<Vec<String>>) -> Option<Seq<Seq<char>>> {
    match v {
        Some(v) => Some(text::texts(v@)),
        None => None,
    }
}

impl View for Trial {
    type V = Case;

    open spec fn view(&self) -> Case {
        Case {
            allowed: self.rules.allowed,
            max_body: self.rules.max_body,
            max_inflight: self.rules.max_inflight,
            token: self.rules.token,
            vouched: names_view(self.rules.vouched),
            live: self.rules.live,
            run: self.run@,
            body_len: self.body_len,
            fixture: fixture_view(self.fixture),
            hold_permits: self.hold_permits,
            admitted: self.admitted,
        }
    }
}

/// What has to be found out next.
#[derive(Debug)]
pub enum Check {
    /// Whether the client's certificate is accepted.
    Certificate,
    /// Whether the namespace's rate has room.
    Quota,
    /// Whether the limits have room that apply before the client is known.
    Early,
    /// What a token claims.
    Token(String),
    /// What the authentication service answers.
    Service,
    /// Whether the limits have room that apply once the client is known.
    Late,
}

/// What was found out; a status is the one that refuses the request.
#[derive(Debug)]
pub enum Answer {
    Certificate(bool),
    Quota(Result<(), u16>),
    Early(Result<(), u16>),
    Token(Option<Table>),
    Service(Result<Vec<(String, String)>, u16>),
    Late(Result<(), u16>),
}

/// What an `Answer` holds.
#[verifier::ext_equal]
pub ghost enum Said {
    Certificate(bool),
    Quota(Result<(), u16>),
    Early(Result<(), u16>),
    Token(Option<Map<Seq<char>, Seq<char>>>),
    Service(Result<Seq<(Seq<char>, Seq<char>)>, u16>),
    Late(Result<(), u16>),
}

impl Answer {
    pub open spec fn wf(&self) -> bool {
        match self {
            Answer::Token(Some(t)) => t.wf(),
            _ => true,
        }
    }
}

impl View for Answer {
    type V = Said;

    open spec fn view(&self) -> Said {
        match self {
            Answer::Certificate(b) => Said::Certificate(*b),
            Answer::Quota(r) => Said::Quota(*r),
            Answer::Early(r) => Said::Early(*r),
            Answer::Token(Some(t)) => Said::Token(Some(t@)),
            Answer::Token(None) => Said::Token(None),
            Answer::Service(Ok(v)) => Said::Service(Ok(text::pairs(v@))),
            Answer::Service(Err(e)) => Said::Service(Err(*e)),
            Answer::Late(r) => Said::Late(*r),
        }
    }
}

/// How a request goes on.
#[derive(Debug)]
pub enum Verdict {
    Check(Check),
    Admitted,
    Refused(u16),
}

/// What a `Verdict` holds.
#[verifier::ext_equal]
pub ghost enum Course {
    Certificate,
    Quota,
    Early,
    Token(Seq<char>),
    Service,
    Late,
    Admitted,
    Refused(u16),
}

impl View for Verdict {
    type V = Course;

    open spec fn view(&self) -> Course {
        match self {
            Verdict::Check(Check::Certificate) => Course::Certificate,
            Verdict::Check(Check::Quota) => Course::Quota,
            Verdict::Check(Check::Early) => Course::Early,
            Verdict::Check(Check::Token(s)) => Course::Token(s@),
            Verdict::Check(Check::Service) => Course::Service,
            Verdict::Check(Check::Late) => Course::Late,
            Verdict::Admitted => Course::Admitted,
            Verdict::Refused(s) => Course::Refused(*s),
        }
    }
}

/// The fields without those of some names.
pub open spec fn cleared(m: Map<Seq<char>, Seq<char>>, names: Seq<Seq<char>>) -> Map<
    Seq<char>,
    Seq<char>,
>
    decreases names.len(),
{
    if names.len() == 0 {
        m
    } else {
        cleared(m, names.drop_last()).remove(names.last())
    }
}

/// The fields with others set.
pub open spec fn extended(m: Map<Seq<char>, Seq<char>>, v: Seq<(Seq<char>, Seq<char>)>) -> Map<
    Seq<char>,
    Seq<char>,
>
    decreases v.len(),
{
    if v.len() == 0 {
        m
    } else {
        extended(m, v.drop_last()).insert(v.last().0, v.last().1)
    }
}

/// The fields of an answer that the service vouches for.
pub open spec fn vouched_fields(v: Seq<(Seq<char>, Seq<char>)>, names: Seq<Seq<char>>) -> Seq<
    (Seq<char>, Seq<char>),
>
    decreases v.len(),
{
    if v.len() == 0 {
        Seq::empty()
    } else {
        let before = vouched_fields(v.drop_last(), names);
        let name = text::lowercase(v.last().0);
        if names.contains(name) {
            before.push((name, v.last().1))
        } else {
            before
        }
    }
}

/// Whether a service admits a request, by the status of its answer.
pub open spec fn service_status(status: u16) -> Result<(), u16> {
    if 200 <= status <= 299 {
        Ok(())
    } else if status == 401 || status == 403 {
        Err(status)
    } else {
        Err(503)
    }
}

/// The way on once the token is dealt with: the service, or the answer that it is taken to give.
pub open spec fn at_service(c: Case) -> (Case, Course) {
    match c.vouched {
        None => (c, Course::Late),
        Some(names) => {
            let d = Case {
                run: Request { headers: cleared(c.run.headers, names), ..c.run },
                ..c
            };
            if c.live {
                (d, Course::Service)
            } else {
                match c.fixture {
                    None => (d, Course::Refused(424)),
                    Some((status, fields)) => match service_status(status) {
                        Err(s) => (d, Course::Refused(s)),
                        Ok(_) => (
                            Case {
                                run: Request {
                                    headers: extended(
                                        d.run.headers,
                                        vouched_fields(fields, names),
                                    ),
                                    ..d.run
                                },
                                ..d
                            },
                            Course::Late,
                        ),
                    },
                }
            }
        },
    }
}

/// The token that a request brings.
pub open spec fn bearer(r: Request) -> Option<Seq<char>> {
    match r.header("authorization"@) {
        None => None,
        Some(s) => if text::starts(s, "Bearer "@) {
            Some(s.skip("Bearer "@.len() as int))
        } else {
            None
        },
    }
}

pub open spec fn begun(c: Case) -> Course {
    if c.allowed {
        Course::Certificate
    } else {
        Course::Refused(403)
    }
}

/// How a request goes on once something was found out.
pub open spec fn stepped(c: Case, a: Said) -> (Case, Course) {
    match a {
        Said::Certificate(accepted) => (
            c,
            if !accepted {
                Course::Refused(403)
            } else if c.max_body > 0 && c.body_len > c.max_body {
                Course::Refused(413)
            } else {
                match c.max_inflight {
                    None => Course::Early,
                    Some(n) => if c.hold_permits && c.admitted >= n {
                        Course::Refused(503)
                    } else {
                        Course::Quota
                    },
                }
            },
        ),
        Said::Quota(Err(s)) => (c, Course::Refused(s)),
        Said::Quota(Ok(_)) => (c, Course::Early),
        Said::Early(Err(s)) => (c, Course::Refused(s)),
        Said::Early(Ok(_)) => if c.token {
            match bearer(c.run) {
                None => (c, Course::Refused(401)),
                Some(t) => (c, Course::Token(t)),
            }
        } else {
            at_service(c)
        },
        Said::Token(None) => (c, Course::Refused(401)),
        Said::Token(Some(claims)) => at_service(
            Case { run: Request { claims, ..c.run }, ..c },
        ),
        Said::Service(Err(s)) => (c, Course::Refused(s)),
        Said::Service(Ok(fields)) => (
            Case { run: Request { headers: extended(c.run.headers, fields), ..c.run }, ..c },
            Course::Late,
        ),
        Said::Late(Err(s)) => (c, Course::Refused(s)),
        Said::Late(Ok(_)) => (c, Course::Admitted),
    }
}

fn clear(t: &mut Table, names: &Vec<String>)
    requires
        old(t).wf(),
    ensures
        final(t).wf(),
        final(t)@ == cleared(old(t)@, text::texts(names@)),
{
    let ghost all = text::texts(names@);
    let mut i: usize = 0;
    while i < names.len()
        invariant
            i <= names.len(),
            t.wf(),
            all == text::texts(names@),
            t@ == cleared(old(t)@, all.take(i as int)),
        decreases names.len() - i,
    {
        assert(all.take(i + 1).drop_last() =~= all.take(i as int));
        t.remove(names[i].as_str());
        i += 1;
    }
    assert(all.take(i as int) =~= all);
}

fn extend(t: &mut Table, v: &Vec<(String, String)>)
    requires
        old(t).wf(),
    ensures
        final(t).wf(),
        final(t)@ == extended(old(t)@, text::pairs(v@)),
{
    let ghost all = text::pairs(v@);
    let mut i: usize = 0;
    while i < v.len()
        invariant
            i <= v.len(),
            t.wf(),
            all == text::pairs(v@),
            t@ == extended(old(t)@, all.take(i as int)),
        decreases v.len() - i,
    {
        assert(all.take(i + 1).drop_last() =~= all.take(i as int));
        t.insert(v[i].0.clone(), v[i].1.clone());
        i += 1;
    }
    assert(all.take(i as int) =~= all);
}

/// The fields of an answer that the service vouches for, their names in lower case.
pub fn vouch(v: &Vec<(String, String)>, names: &Vec<String>) -> (out: Vec<(String, String)>)
    ensures
        text::pairs(out@) == vouched_fields(text::pairs(v@), text::texts(names@)),
{
    let ghost all = text::pairs(v@);
    let mut out: Vec<(String, String)> = Vec::new();
    let mut i: usize = 0;
    assert(text::pairs(out@) =~= Seq::empty());
    while i < v.len()
        invariant
            i <= v.len(),
            all == text::pairs(v@),
            text::pairs(out@) == vouched_fields(all.take(i as int), text::texts(names@)),
        decreases v.len() - i,
    {
        let ghost before = text::pairs(out@);
        assert(all.take(i + 1).drop_last() =~= all.take(i as int));
        let name = text::to_lowercase(v[i].0.as_str());
        if text::contains(names, name.as_str()) {
            let ghost x = (name@, v@[i as int].1@);
            out.push((name, v[i].1.clone()));
            assert(text::pairs(out@) =~= before.push(x));
        }
        i += 1;
    }
    assert(all.take(i as int) =~= all);
    out
}

impl Trial {
    pub open spec fn wf(&self) -> bool {
        self.run.wf()
    }

    /// The first check of a request.
    pub fn begin(&self) -> (v: Verdict)
        ensures
            v@ == begun(self@),
    {
        if self.rules.allowed {
            Verdict::Check(Check::Certificate)
        } else {
            Verdict::Refused(403)
        }
    }

    fn ask_service(&mut self) -> (v: Verdict)
        requires
            old(self).wf(),
        ensures
            final(self).wf(),
            (final(self)@, v@) == at_service(old(self)@),
    {
        match &self.rules.vouched {
            None => Verdict::Check(Check::Late),
            Some(names) => {
                clear(&mut self.run.headers, names);
                if self.rules.live {
                    return Verdict::Check(Check::Service);
                }
                match &self.fixture {
                    None => Verdict::Refused(424),
                    Some(f) => {
                        if f.status >= 200 && f.status <= 299 {
                            let fields = vouch(&f.headers, names);
                            extend(&mut self.run.headers, &fields);
                            Verdict::Check(Check::Late)
                        } else if f.status == 401 || f.status == 403 {
                            Verdict::Refused(f.status)
                        } else {
                            Verdict::Refused(503)
                        }
                    },
                }
            },
        }
    }

    fn certified(&self, accepted: bool) -> (v: Verdict)
        ensures
            (self@, v@) == stepped(self@, Said::Certificate(accepted)),
    {
        if !accepted {
            return Verdict::Refused(403);
        }
        if self.rules.max_body > 0 && self.body_len as u64 > self.rules.max_body {
            return Verdict::Refused(413);
        }
        match self.rules.max_inflight {
            None => Verdict::Check(Check::Early),
            Some(n) => if self.hold_permits && self.admitted >= n {
                Verdict::Refused(503)
            } else {
                Verdict::Check(Check::Quota)
            },
        }
    }

    fn read_token(&self) -> (r: Option<String>)
        requires
            self.wf(),
        ensures
            text::opt(r) == bearer(self@.run),
    {
        match self.run.header("authorization") {
            None => None,
            Some(s) => match text::strip_prefix(s, "Bearer ") {
                Some(t) => Some(t.to_owned()),
                None => None,
            },
        }
    }

    /// How the request goes on once something was found out.
    pub fn step(&mut self, answer: Answer) -> (v: Verdict)
        requires
            old(self).wf(),
            answer.wf(),
        ensures
            final(self).wf(),
            (final(self)@, v@) == stepped(old(self)@, answer@),
    {
        match answer {
            Answer::Certificate(accepted) => self.certified(accepted),
            Answer::Quota(Err(s)) => Verdict::Refused(s),
            Answer::Quota(Ok(_)) => Verdict::Check(Check::Early),
            Answer::Early(Err(s)) => Verdict::Refused(s),
            Answer::Early(Ok(_)) => if self.rules.token {
                match self.read_token() {
                    None => Verdict::Refused(401),
                    Some(t) => Verdict::Check(Check::Token(t)),
                }
            } else {
                self.ask_service()
            },
            Answer::Token(None) => Verdict::Refused(401),
            Answer::Token(Some(claims)) => {
                self.run.claims = claims;
                self.ask_service()
            },
            Answer::Service(Err(s)) => Verdict::Refused(s),
            Answer::Service(Ok(fields)) => {
                extend(&mut self.run.headers, &fields);
                Verdict::Check(Check::Late)
            },
            Answer::Late(Err(s)) => Verdict::Refused(s),
            Answer::Late(Ok(_)) => Verdict::Admitted,
        }
    }
}

// ---------------------------------------------------------------------------
// What a script sees and decides
// ---------------------------------------------------------------------------

/// What a script sees of a body.
#[derive(Debug)]
pub enum Sight {
    /// The body is not looked at.
    Off,
    /// The body is too long.
    TooLong,
    Seen(BodyView),
}

pub open spec fn least(a: nat, b: nat) -> nat {
    if a < b {
        a
    } else {
        b
    }
}

pub open spec fn sees(s: Sight, i: Inspection, body: Seq<u8>) -> bool {
    match i {
        Inspection::Off => s is Off,
        Inspection::Full(limit) => if body.len() > limit {
            s is TooLong
        } else {
            s matches Sight::Seen(v) && v.bytes@ == body && v.complete
        },
        Inspection::Prefix(limit) => s matches Sight::Seen(v) && v.bytes@ == body.take(
            least(body.len(), limit as nat) as int,
        ) && v.complete == (body.len() <= limit),
    }
}

/// What a script sees of a body.
pub fn sight(i: &Inspection, body: &str) -> (s: Sight)
    ensures
        sees(s, *i, encode_utf8(body@)),
{
    let bytes = text::bytes(body);
    match i {
        Inspection::Off => Sight::Off,
        Inspection::Full(limit) => if bytes.len() > *limit {
            Sight::TooLong
        } else {
            assert(bytes@.take(bytes@.len() as int) =~= bytes@);
            Sight::Seen(inspect::view(&bytes, *limit, bytes.len(), true))
        },
        Inspection::Prefix(limit) => Sight::Seen(
            inspect::view(&bytes, *limit, bytes.len(), true),
        ),
    }
}

/// What becomes of a request that a script has seen.
#[derive(Debug)]
pub enum Fate {
    /// The request goes on, to this backend where the script chose one.
    Forwarded(Option<String>),
    /// The script answers.
    Answered(u16, String),
    /// The script failed.
    Failed(String),
}

/// What a `Fate` holds.
#[verifier::ext_equal]
pub ghost enum Lot {
    Forwarded(Option<Seq<char>>),
    Answered(u16, Seq<char>),
    Failed(Seq<char>),
}

impl View for Fate {
    type V = Lot;

    open spec fn view(&self) -> Lot {
        match self {
            Fate::Forwarded(b) => Lot::Forwarded(text::opt(*b)),
            Fate::Answered(s, t) => Lot::Answered(*s, t@),
            Fate::Failed(e) => Lot::Failed(e@),
        }
    }
}

/// What a script says, or why it failed; nothing where the route has none.
pub type Outcome = Option<Result<Decision, String>>;

/// What becomes of a request; nothing where the script chose a backend that the route does not declare.
pub open spec fn lot(o: Outcome, declared: Map<Seq<char>, Seq<char>>) -> Option<Lot> {
    match o {
        None => Some(Lot::Forwarded(None)),
        Some(Ok(Decision::Pass)) => Some(Lot::Forwarded(None)),
        Some(Ok(Decision::Proxy(name))) => if declared.dom().contains(name@) {
            Some(Lot::Forwarded(Some(declared[name@])))
        } else {
            None
        },
        Some(Ok(Decision::Reply(status, body))) => Some(Lot::Answered(status, body@)),
        Some(Err(e)) => Some(Lot::Failed(e@)),
    }
}

/// What becomes of a request; nothing where the script chose a backend that the route does not declare.
pub fn decide(outcome: &Outcome, declared: &Table) -> (r: Option<Fate>)
    requires
        declared.wf(),
    ensures
        match r {
            Some(f) => lot(*outcome, declared@) == Some(f@),
            None => lot(*outcome, declared@) is None,
        },
{
    match outcome {
        None => Some(Fate::Forwarded(None)),
        Some(Ok(Decision::Pass)) => Some(Fate::Forwarded(None)),
        Some(Ok(Decision::Proxy(name))) => match declared.get(name.as_str()) {
            Some(b) => Some(Fate::Forwarded(Some(b.to_owned()))),
            None => None,
        },
        Some(Ok(Decision::Reply(status, body))) => Some(Fate::Answered(*status, body.clone())),
        Some(Err(e)) => Some(Fate::Failed(e.clone())),
    }
}

// ---------------------------------------------------------------------------
// The report
// ---------------------------------------------------------------------------

/// A request that goes on, and what the script of its route made of it, where it has one.
#[derive(Debug)]
pub struct Passed {
    pub scripted: bool,
    /// The name by which the script chose a backend.
    pub named: Option<String>,
    /// The backend of that name.
    pub chosen: Option<String>,
    pub edits: Edits,
}

/// What a `Passed` holds.
#[verifier::ext_equal]
pub ghost struct Passage {
    pub scripted: bool,
    pub named: Option<Seq<char>>,
    pub chosen: Option<Seq<char>>,
    pub edits: Changes,
}

impl View for Passed {
    type V = Passage;

    open spec fn view(&self) -> Passage {
        Passage {
            scripted: self.scripted,
            named: text::opt(self.named),
            chosen: text::opt(self.chosen),
            edits: self.edits@,
        }
    }
}

/// What is told of the backend that would be asked, and of the rollout of the route.
#[derive(Debug)]
pub struct Told {
    pub backend: Json,
    pub traffic: Option<Json>,
}

/// What a `Told` holds.
#[verifier::ext_equal]
pub ghost struct Tale {
    pub backend: Tree,
    pub traffic: Tree,
}

impl View for Told {
    type V = Tale;

    open spec fn view(&self) -> Tale {
        Tale { backend: self.backend.tree(), traffic: tree_or_null(self.traffic) }
    }
}

/// What is reported of one run.
#[derive(Debug)]
pub enum Report {
    /// The client is sent to the secure port.
    Redirected(String),
    /// A check refused the request.
    Refused(u16),
    /// The body is too long for the script.
    BodyTooLong,
    /// The script answers.
    Answered(u16, String, Edits),
    /// The script failed.
    Failed(String),
    /// The request goes on; where it goes to a backend, with what is told of that.
    Forwarded(Passed, Outbound, Option<Told>),
}

/// What a `Report` holds.
#[verifier::ext_equal]
pub ghost enum Account {
    Redirected(Seq<char>),
    Refused(u16),
    BodyTooLong,
    Answered(u16, Seq<char>, Changes),
    Failed(Seq<char>),
    Forwarded(Passage, Plan, Option<Tale>),
}

impl View for Report {
    type V = Account;

    open spec fn view(&self) -> Account {
        match self {
            Report::Redirected(s) => Account::Redirected(s@),
            Report::Refused(s) => Account::Refused(*s),
            Report::BodyTooLong => Account::BodyTooLong,
            Report::Answered(s, t, e) => Account::Answered(*s, t@, e@),
            Report::Failed(e) => Account::Failed(e@),
            Report::Forwarded(p, o, t) => Account::Forwarded(
                p@,
                o@,
                match t {
                    Some(t) => Some(t@),
                    None => None,
                },
            ),
        }
    }
}

impl Account {
    pub open spec fn admitted(self) -> bool {
        !(self is Refused || self is BodyTooLong)
    }
}

pub open spec fn accounts(v: Seq<Report>) -> Seq<Account> {
    Seq::new(v.len(), |i: int| v[i]@)
}

impl Report {
    /// Whether the request was admitted.
    pub fn admitted(&self) -> (r: bool)
        ensures
            r == self@.admitted(),
    {
        match self {
            Report::Refused(_) | Report::BodyTooLong => false,
            _ => true,
        }
    }

    pub open spec fn spec_status(self) -> Option<u16> {
        match self {
            Report::Redirected(_) => Some(308),
            Report::Refused(s) => Some(s),
            Report::BodyTooLong => Some(413),
            Report::Failed(_) => Some(500),
            Report::Answered(..) => None,
            Report::Forwarded(..) => None,
        }
    }

    /// The status of the run itself, where it has one.
    pub fn status(&self) -> (r: Option<u16>)
        ensures
            r == self.spec_status(),
    {
        match self {
            Report::Redirected(_) => Some(308),
            Report::Refused(s) => Some(*s),
            Report::BodyTooLong => Some(413),
            Report::Failed(_) => Some(500),
            Report::Answered(..) => None,
            Report::Forwarded(..) => None,
        }
    }

    /// Whether the answer of the authentication service is missing from the input.
    pub fn needs_fixture(&self) -> (r: bool)
        ensures
            r == (*self == Report::Refused(424)),
    {
        match self {
            Report::Refused(s) => *s == 424,
            _ => false,
        }
    }
}

/// How many of some runs were admitted.
pub open spec fn admissions(v: Seq<Account>) -> nat
    decreases v.len(),
{
    if v.len() == 0 {
        0
    } else {
        admissions(v.drop_last()) + if v.last().admitted() {
            1nat
        } else {
            0nat
        }
    }
}

pub proof fn lemma_admissions(v: Seq<Account>)
    ensures
        admissions(v) <= v.len(),
    decreases v.len(),
{
    if v.len() > 0 {
        lemma_admissions(v.drop_last());
    }
}

/// How many of some runs were admitted.
pub fn count_admitted(v: &Vec<Report>) -> (n: usize)
    ensures
        n == admissions(accounts(v@)),
{
    let ghost all = accounts(v@);
    let mut n: usize = 0;
    let mut i: usize = 0;
    while i < v.len()
        invariant
            i <= v.len(),
            all == accounts(v@),
            n == admissions(all.take(i as int)),
        decreases v.len() - i,
    {
        proof {
            lemma_admissions(all.take(i as int));
            assert(all.take(i + 1).drop_last() =~= all.take(i as int));
        }
        if v[i].admitted() {
            n += 1;
        }
        i += 1;
    }
    assert(all.take(i as int) =~= all);
    n
}

// ---------------------------------------------------------------------------
// Laws
// ---------------------------------------------------------------------------

proof fn lemma_cleared(m: Map<Seq<char>, Seq<char>>, names: Seq<Seq<char>>, name: Seq<char>)
    requires
        names.contains(name),
    ensures
        !cleared(m, names).dom().contains(name),
    decreases names.len(),
{
    if names.last() != name {
        let i = choose|i: int| 0 <= i < names.len() && names[i] == name;
        assert(names.drop_last()[i] == name);
        lemma_cleared(m, names.drop_last(), name);
    }
}

/// What the authentication service vouches for is never what the client wrote: a field of such a name is
/// gone before the service is asked.
pub proof fn law_clients_do_not_vouch_for_themselves(c: Case, a: Said, name: Seq<char>)
    requires
        c.vouched is Some && c.vouched->0.contains(name),
        stepped(c, a).1 is Service,
    ensures
        !stepped(c, a).0.run.headers.dom().contains(name),
{
    lemma_cleared(c.run.headers, c.vouched->0, name);
}

/// A request is admitted by the last check alone.
pub proof fn law_only_the_last_check_admits(c: Case, a: Said)
    ensures
        stepped(c, a).1 is Admitted <==> a is Late && a->Late_0 is Ok,
        !(begun(c) is Admitted),
{
}

/// With permits held, no more requests are admitted than the namespace may have on their way.
pub proof fn law_held_permits_are_bounded(c: Case)
    requires
        c.hold_permits,
        c.max_inflight is Some && c.admitted >= c.max_inflight->0,
    ensures
        stepped(c, Said::Certificate(true)).1 is Refused,
{
}

/// A request goes through the checks in order, and each that fails refuses it with its own status.
pub proof fn law_checks_refuse_with_their_status(c: Case, s: u16, t: Seq<char>)
    ensures
        begun(c) == if c.allowed {
            Course::Certificate
        } else {
            Course::Refused(403)
        },
        stepped(c, Said::Certificate(false)).1 == Course::Refused(403),
        c.max_body > 0 && c.body_len > c.max_body ==> stepped(c, Said::Certificate(true)).1 == Course::Refused(413),
        (c.max_body == 0 || c.body_len <= c.max_body) && c.max_inflight is None ==> stepped(
            c,
            Said::Certificate(true),
        ).1 == Course::Early,
        (c.max_body == 0 || c.body_len <= c.max_body) && c.max_inflight is Some && (!c.hold_permits || c.admitted
            < c.max_inflight->0) ==> stepped(c, Said::Certificate(true)).1 == Course::Quota,
        (c.max_body == 0 || c.body_len <= c.max_body) && c.max_inflight is Some && c.hold_permits && c.admitted
            >= c.max_inflight->0 ==> stepped(c, Said::Certificate(true)).1 == Course::Refused(503),
        stepped(c, Said::Quota(Err(s))).1 == Course::Refused(s),
        stepped(c, Said::Quota(Ok(()))).1 == Course::Early,
        stepped(c, Said::Early(Err(s))).1 == Course::Refused(s),
        c.token && c.run.header("authorization"@) is None ==> stepped(c, Said::Early(Ok(()))).1 == Course::Refused(401),
        c.token && c.run.header("authorization"@) == Some("Bearer "@ + t) ==> stepped(c, Said::Early(Ok(()))).1
            == Course::Token(t),
        stepped(c, Said::Token(None)).1 == Course::Refused(401),
        !c.token && c.vouched is None ==> stepped(c, Said::Early(Ok(()))).1 == Course::Late,
        !c.token && c.vouched is Some && c.live ==> stepped(c, Said::Early(Ok(()))).1 == Course::Service,
        !c.token && c.vouched is Some && !c.live && c.fixture is None ==> stepped(c, Said::Early(Ok(()))).1
            == Course::Refused(424),
        stepped(c, Said::Service(Err(s))).1 == Course::Refused(s),
        stepped(c, Said::Late(Err(s))).1 == Course::Refused(s),
        stepped(c, Said::Late(Ok(()))).1 == Course::Admitted,
{
    text::lemma_prefixed("Bearer "@, t);
}

/// An authentication service admits with a status of success; 401 and 403 are passed on, and anything else is
/// a service that does not work.
pub proof fn law_services_admit_with_success(status: u16)
    ensures
        service_status(status) is Ok <==> 200 <= status <= 299,
        status == 401 || status == 403 ==> service_status(status) == Err::<(), u16>(status),
        !(200 <= status <= 299) && status != 401 && status != 403 ==> service_status(status) == Err::<(), u16>(503),
{
}

/// Of the fields of an answer, those are passed on that are vouched for, under their names in lower case.
pub proof fn law_only_vouched_fields_are_passed_on(
    v: Seq<(Seq<char>, Seq<char>)>,
    names: Seq<Seq<char>>,
    name: Seq<char>,
    value: Seq<char>,
)
    ensures
        vouched_fields(v, names).contains((name, value)) <==> names.contains(name) && exists|i: int|
            0 <= i < v.len() && text::lowercase((#[trigger] v[i]).0) == name && v[i].1 == value,
    decreases v.len(),
{
    let w = vouched_fields(v, names);
    if v.len() > 0 {
        let u = v.drop_last();
        let b = vouched_fields(u, names);
        law_only_vouched_fields_are_passed_on(u, names, name, value);
        if b.contains((name, value)) {
            let k = choose|k: int| 0 <= k < b.len() && b[k] == (name, value);
            assert(w[k] == (name, value));
            let i = choose|i: int|
                0 <= i < u.len() && text::lowercase((#[trigger] u[i]).0) == name && u[i].1 == value;
            assert(v[i] == u[i]);
        }
        if w.contains((name, value)) && !b.contains((name, value)) {
            let k = choose|k: int| 0 <= k < w.len() && w[k] == (name, value);
            if k < b.len() {
                assert(b[k] == (name, value));
            }
            assert(v[v.len() - 1] == v.last());
        }
        if names.contains(name) && exists|i: int|
            0 <= i < v.len() && text::lowercase((#[trigger] v[i]).0) == name && v[i].1 == value {
            let i = choose|i: int|
                0 <= i < v.len() && text::lowercase((#[trigger] v[i]).0) == name && v[i].1 == value;
            if i < u.len() {
                assert(u[i] == v[i]);
            } else {
                assert(w[w.len() - 1] == (name, value));
            }
        }
    }
}

/// A script sees the whole body or as much of the front as it asks for; a body that it has to see whole and
/// that is too long is refused.
pub proof fn law_scripts_see_bodies(body: Seq<u8>, limit: usize, v: BodyView)
    requires
        limit > 0,
    ensures
        sees(Sight::Off, Inspection::Off, body),
        !sees(Sight::Seen(v), Inspection::Off, body),
        body.len() > limit ==> sees(Sight::TooLong, Inspection::Full(limit), body) && !sees(
            Sight::Seen(v),
            Inspection::Full(limit),
            body,
        ),
        body.len() <= limit && sees(Sight::Seen(v), Inspection::Full(limit), body) ==> v.bytes@ == body && v.complete,
        sees(Sight::Seen(v), Inspection::Prefix(limit), body) ==> v.bytes@.is_prefix_of(body) && v.bytes@.len() <= limit
            && (v.complete <==> v.bytes@ == body),
{
    if sees(Sight::Seen(v), Inspection::Prefix(limit), body) && body.len() <= limit {
        assert(body.take(body.len() as int) =~= body);
    }
}

/// A script that passes lets the request go on, one that names a backend sends it there where the route
/// declares it, one that replies answers, and one that fails fails the run.
pub proof fn law_scripts_decide(declared: Map<Seq<char>, Seq<char>>, name: String, status: u16, body: String, e: String)
    ensures
        lot(None, declared) == Some(Lot::Forwarded(None)),
        lot(Some(Ok(Decision::Pass)), declared) == Some(Lot::Forwarded(None)),
        declared.dom().contains(name@) ==> lot(Some(Ok(Decision::Proxy(name))), declared) == Some(
            Lot::Forwarded(Some(declared[name@])),
        ),
        !declared.dom().contains(name@) ==> lot(Some(Ok(Decision::Proxy(name))), declared) is None,
        lot(Some(Ok(Decision::Reply(status, body))), declared) == Some(Lot::Answered(status, body@)),
        lot(Some(Err(e)), declared) == Some(Lot::Failed(e@)),
{
}

/// A request that is refused or whose body is too long was not admitted; every other was.
pub proof fn law_reports_have_their_status(r: Report, v: Seq<Account>, a: Account)
    ensures
        r is Redirected ==> r.spec_status() == Some(308u16) && r@.admitted(),
        r is Refused ==> r.spec_status() == Some(r->Refused_0) && !r@.admitted(),
        r is BodyTooLong ==> r.spec_status() == Some(413u16) && !r@.admitted(),
        r is Failed ==> r.spec_status() == Some(500u16) && r@.admitted(),
        r is Answered || r is Forwarded ==> r.spec_status() is None && r@.admitted(),
        admissions(v.push(a)) == admissions(v) + if a is Refused || a is BodyTooLong {
            0nat
        } else {
            1nat
        },
{
    assert(v.push(a).drop_last() =~= v);
}

} // verus!
