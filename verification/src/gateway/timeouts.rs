//! The time limits of a rule.
use crate::text;
use vstd::prelude::*;

verus! {

/// The limits as they are written.
#[derive(Debug)]
pub struct Timeouts {
    pub request: Option<String>,
    pub backend_request: Option<String>,
}

/// The limits in milliseconds; a limit of zero is none.
#[derive(Clone, Copy, Debug, PartialEq, Eq, Structural)]
pub struct Budgets {
    pub request: Option<u64>,
    pub backend_request: Option<u64>,
}

#[derive(Clone, Copy, Debug, PartialEq, Eq, Structural)]
pub enum TimeoutError {
    Number,
    Unit,
    Empty,
    BackendExceedsRequest,
}

impl Default for Budgets {
    fn default() -> (r: Self)
        ensures
            r == (Budgets { request: None, backend_request: None }),
    {
        Budgets { request: None, backend_request: None }
    }
}

/// The number of digits that stand at `i`.
pub open spec fn digits_at(s: Seq<char>, i: int) -> nat
    decreases s.len() - i,
{
    if 0 <= i < s.len() && text::spec_digit(s[i]) {
        1 + digits_at(s, i + 1)
    } else {
        0
    }
}

/// The unit that stands at `i`: its length and its milliseconds.
pub open spec fn unit_at(s: Seq<char>, i: int) -> Option<(int, nat)> {
    if i + 1 < s.len() && s[i] == 'm' && s[i + 1] == 's' {
        Some((2, 1))
    } else if i < s.len() && s[i] == 'h' {
        Some((1, 3600000))
    } else if i < s.len() && s[i] == 'm' {
        Some((1, 60000))
    } else if i < s.len() && s[i] == 's' {
        Some((1, 1000))
    } else {
        None
    }
}

/// The milliseconds of the components from `i` on: at most four with those before, of up to five digits
/// and a unit each.
pub open spec fn components(s: Seq<char>, i: int, seen: nat) -> Result<nat, TimeoutError>
    decreases s.len() - i,
{
    if i < 0 || i >= s.len() {
        Ok(0)
    } else {
        let n = digits_at(s, i);
        if !(1 <= n <= 5) || seen >= 4 {
            Err(TimeoutError::Number)
        } else {
            match unit_at(s, i + n) {
                None => Err(TimeoutError::Unit),
                Some((len, millis)) => match components(s, i + n + len, seen + 1) {
                    Err(e) => Err(e),
                    Ok(rest) => Ok(text::digits_value(s.subrange(i, i + n)) * millis + rest),
                },
            }
        }
    }
}

/// A duration such as `1h30m` or `250ms`.
pub open spec fn duration_of(s: Seq<char>) -> Result<nat, TimeoutError> {
    if s.len() == 0 {
        Err(TimeoutError::Empty)
    } else {
        components(s, 0, 0)
    }
}

proof fn lemma_digits_at(s: Seq<char>, i: int)
    requires
        0 <= i <= s.len(),
    ensures
        i + digits_at(s, i) <= s.len(),
        forall|j: int| i <= j < i + digits_at(s, i) ==> text::spec_digit(#[trigger] s[j]),
        i + digits_at(s, i) < s.len() ==> !text::spec_digit(s[i + digits_at(s, i)]),
    decreases s.len() - i,
{
    if i < s.len() && text::spec_digit(s[i]) {
        lemma_digits_at(s, i + 1);
    }
}

/// The milliseconds of a duration such as `1h30m` or `250ms`.
pub fn duration(s: &str) -> (r: Result<u64, TimeoutError>)
    ensures
        match r {
            Ok(n) => duration_of(s@) == Ok::<nat, TimeoutError>(n as nat),
            Err(e) => duration_of(s@) == Err::<nat, TimeoutError>(e),
        },
{
    let v = text::chars(s);
    if v.len() == 0 {
        return Err(TimeoutError::Empty);
    }
    let mut millis: u64 = 0;
    let mut seen: usize = 0;
    let mut i: usize = 0;
    while i < v.len()
        invariant
            i <= v.len(),
            v@ == s@,
            seen <= 4,
            millis <= seen * 360000000000,
            components(s@, 0, 0) == match components(s@, i as int, seen as nat) {
                Ok(rest) => Ok::<nat, TimeoutError>(millis as nat + rest),
                Err(e) => Err(e),
            },
        decreases v.len() - i,
    {
        let mut n: usize = 0;
        let mut value: u64 = 0;
        assert(v@.subrange(i as int, i as int) =~= Seq::<char>::empty());
        while i + n < v.len() && n < 6 && text::digit(v[i + n])
            invariant
                i < v.len(),
                i + n <= v.len(),
                n <= 6,
                v@ == s@,
                digits_at(s@, i as int) == n + digits_at(s@, i + n),
                text::all_digits(s@.subrange(i as int, i + n)),
                value == text::digits_value(s@.subrange(i as int, i + n)),
                n <= 1 ==> value < 10,
                n <= 2 ==> value < 100,
                n <= 3 ==> value < 1000,
                n <= 4 ==> value < 10000,
                n <= 5 ==> value < 100000,
                value < 1000000,
            decreases 6 - n,
        {
            let d = v[i + n];
            proof {
                let now = s@.subrange(i as int, i + n + 1);
                assert(now.drop_last() =~= s@.subrange(i as int, i + n));
                assert(now.last() == d);
            }
            value = value * 10 + (d as u64 - 48);
            n += 1;
        }
        proof {
            lemma_digits_at(s@, i as int);
        }
        if !(1 <= n && n <= 5) || seen >= 4 {
            return Err(TimeoutError::Number);
        }
        let at = i + n;
        let (len, unit): (usize, u64) = if v.len() - at > 1 && v[at] == 'm' && v[at + 1] == 's' {
            (2, 1)
        } else if at < v.len() && v[at] == 'h' {
            (1, 3600000)
        } else if at < v.len() && v[at] == 'm' {
            (1, 60000)
        } else if at < v.len() && v[at] == 's' {
            (1, 1000)
        } else {
            return Err(TimeoutError::Unit);
        };
        assert(value * unit <= 360000000000) by (nonlinear_arith)
            requires
                value < 100000,
                unit <= 3600000,
        ;
        millis += value * unit;
        seen += 1;
        i = at + len;
    }
    Ok(millis)
}

pub open spec fn duration_opt(s: Option<Seq<char>>) -> Result<Option<nat>, TimeoutError> {
    match s {
        None => Ok(None),
        Some(s) => match duration_of(s) {
            Ok(n) => Ok(Some(n)),
            Err(e) => Err(e),
        },
    }
}

pub open spec fn nonzero(n: Option<nat>) -> Option<nat> {
    if n == Some(0nat) {
        None
    } else {
        n
    }
}

/// The limits of a rule; that of a try may not exceed that of the whole request.
pub open spec fn budgeted(
    request: Option<Seq<char>>,
    backend: Option<Seq<char>>,
) -> Result<(Option<nat>, Option<nat>), TimeoutError> {
    match (duration_opt(request), duration_opt(backend)) {
        (Err(e), _) => Err(e),
        (_, Err(e)) => Err(e),
        (Ok(r), Ok(b)) => if r is Some && b is Some && r->0 != 0 && (b->0 == 0 || b->0 > r->0) {
            Err(TimeoutError::BackendExceedsRequest)
        } else {
            Ok((nonzero(r), nonzero(b)))
        },
    }
}

pub open spec fn wide(n: Option<u64>) -> Option<nat> {
    match n {
        Some(n) => Some(n as nat),
        None => None,
    }
}

fn optional(s: &Option<String>) -> (r: Result<Option<u64>, TimeoutError>)
    ensures
        match r {
            Ok(n) => duration_opt(text::opt(*s)) == Ok::<Option<nat>, TimeoutError>(wide(n)),
            Err(e) => duration_opt(text::opt(*s)) == Err::<Option<nat>, TimeoutError>(e),
        },
{
    match s {
        None => Ok(None),
        Some(s) => match duration(s.as_str()) {
            Ok(n) => Ok(Some(n)),
            Err(e) => Err(e),
        },
    }
}

impl Timeouts {
    /// The limits of a rule; that of a try may not exceed that of the whole request.
    pub fn budgets(&self) -> (r: Result<Budgets, TimeoutError>)
        ensures
            match r {
                Ok(b) => budgeted(text::opt(self.request), text::opt(self.backend_request)) == Ok::<
                    (Option<nat>, Option<nat>),
                    TimeoutError,
                >((wide(b.request), wide(b.backend_request))),
                Err(e) => budgeted(text::opt(self.request), text::opt(self.backend_request))
                    == Err::<(Option<nat>, Option<nat>), TimeoutError>(e),
            },
    {
        let request = match optional(&self.request) {
            Ok(n) => n,
            Err(e) => return Err(e),
        };
        let backend = match optional(&self.backend_request) {
            Ok(n) => n,
            Err(e) => return Err(e),
        };
        if let (Some(r), Some(b)) = (request, backend) {
            if r != 0 && (b == 0 || b > r) {
                return Err(TimeoutError::BackendExceedsRequest);
            }
        }
        Ok(
            Budgets {
                request: match request {
                    Some(0) => None,
                    _ => request,
                },
                backend_request: match backend {
                    Some(0) => None,
                    _ => backend,
                },
            },
        )
    }
}

/// Where both limits are given, a single try never has more time than the request.
pub proof fn law_tries_fit_in_requests(request: Option<Seq<char>>, backend: Option<Seq<char>>)
    requires
        budgeted(request, backend) is Ok,
    ensures
        ({
            let (r, b) = budgeted(request, backend)->Ok_0;
            r is Some && backend is Some ==> b is Some && b->0 <= r->0
        }),
{
}

proof fn lemma_digits_are(s: Seq<char>, i: int, n: int)
    requires
        0 <= i <= i + n <= s.len(),
        forall|j: int| i <= j < i + n ==> text::spec_digit(#[trigger] s[j]),
        i + n < s.len() ==> !text::spec_digit(s[i + n]),
    ensures
        digits_at(s, i) == n,
    decreases n,
{
    if n > 0 {
        assert(text::spec_digit(s[i]));
        lemma_digits_are(s, i + 1, n - 1);
    }
}

proof fn lemma_one_component(n: nat, unit: Seq<char>, len: int, millis: nat)
    requires
        text::decimal(n).len() <= 5,
        unit.len() == len,
        len > 0,
        !text::spec_digit(unit[0]),
        unit_at(text::decimal(n) + unit, text::decimal(n).len() as int) == Some((len, millis)),
    ensures
        duration_of(text::decimal(n) + unit) == Ok::<nat, TimeoutError>(n * millis),
{
    let d = text::decimal(n);
    let s = d + unit;
    text::lemma_decimal_reads_back(n);
    assert(forall|j: int| 0 <= j < d.len() ==> s[j] == d[j]);
    assert forall|j: int| 0 <= j < d.len() implies text::spec_digit(#[trigger] s[j]) by {
        assert(text::spec_digit(d[j]));
    }
    assert(s[d.len() as int] == unit[0]);
    lemma_digits_are(s, 0, d.len() as int);
    assert(s.subrange(0, d.len() as int) =~= d);
    reveal_with_fuel(components, 2);
}

/// A time is its number in the unit that follows it: hours, minutes, seconds or thousandths of seconds.
pub proof fn law_times_are_in_their_unit(n: nat)
    requires
        text::decimal(n).len() <= 5,
    ensures
        duration_of(text::decimal(n) + "h"@) == Ok::<nat, TimeoutError>(n * 3600000),
        duration_of(text::decimal(n) + "m"@) == Ok::<nat, TimeoutError>(n * 60000),
        duration_of(text::decimal(n) + "s"@) == Ok::<nat, TimeoutError>(n * 1000),
        duration_of(text::decimal(n) + "ms"@) == Ok::<nat, TimeoutError>(n * 1),
{
    reveal_strlit("h");
    reveal_strlit("m");
    reveal_strlit("s");
    reveal_strlit("ms");
    lemma_one_component(n, "h"@, 1, 3600000);
    lemma_one_component(n, "m"@, 1, 60000);
    lemma_one_component(n, "s"@, 1, 1000);
    lemma_one_component(n, "ms"@, 2, 1);
}

/// A time of nothing is no limit, and a try may not take longer than its request.
pub proof fn law_tries_are_within_requests(request: Seq<char>, backend: Seq<char>, r: nat, b: nat)
    requires
        duration_of(request) == Ok::<nat, TimeoutError>(r),
        duration_of(backend) == Ok::<nat, TimeoutError>(b),
    ensures
        budgeted(None, None) == Ok::<(Option<nat>, Option<nat>), TimeoutError>((None, None)),
        r > 0 ==> budgeted(Some(request), None) == Ok::<(Option<nat>, Option<nat>), TimeoutError>(
            (Some(r), None),
        ),
        r == 0 ==> budgeted(Some(request), None) == Ok::<(Option<nat>, Option<nat>), TimeoutError>(
            (None, None),
        ),
        b > 0 ==> budgeted(None, Some(backend)) == Ok::<(Option<nat>, Option<nat>), TimeoutError>(
            (None, Some(b)),
        ),
        0 < b <= r ==> budgeted(Some(request), Some(backend)) == Ok::<
            (Option<nat>, Option<nat>),
            TimeoutError,
        >((Some(r), Some(b))),
        r > 0 && b > r ==> budgeted(Some(request), Some(backend)) == Err::<
            (Option<nat>, Option<nat>),
            TimeoutError,
        >(TimeoutError::BackendExceedsRequest),
        r > 0 && b == 0 ==> budgeted(Some(request), Some(backend)) == Err::<
            (Option<nat>, Option<nat>),
            TimeoutError,
        >(TimeoutError::BackendExceedsRequest),
{
}

/// A time without a number, without a unit, or that is empty is refused.
pub proof fn law_bad_times_are_refused(s: Seq<char>)
    ensures
        s.len() == 0 ==> duration_of(s) == Err::<nat, TimeoutError>(TimeoutError::Empty),
        s.len() > 0 && !text::spec_digit(s[0]) ==> duration_of(s) == Err::<nat, TimeoutError>(
            TimeoutError::Number,
        ),
{
    reveal_with_fuel(components, 2);
    reveal_with_fuel(digits_at, 2);
}

} // verus!
