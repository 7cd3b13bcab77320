//! When log files make room for new ones, and what becomes of the old.
use crate::config::value;
use crate::config::value::ValueError;
use crate::text;
use vstd::prelude::*;

verus! {

/// The largest file, in bytes.
pub const MAX_SIZE: u64 = 1099511627776;

/// The longest time that a file is written, in seconds.
pub const MAX_INTERVAL: u64 = 31536000;

/// The most files that are kept.
pub const MAX_KEEP: usize = 1000;

/// How many files are kept where nothing is said about it.
pub const USUAL_KEEP: usize = 7;

/// When a file makes room: by its size and by its age, as far as they are not 0.
#[derive(Clone, Copy, Debug, PartialEq, Eq, Structural)]
pub struct Rotation {
    pub max_bytes: u64,
    pub interval_seconds: u64,
    pub keep: usize,
    pub gzip: bool,
}

impl Default for Rotation {
    fn default() -> (r: Self)
        ensures
            r == (Rotation { max_bytes: 0, interval_seconds: 0, keep: 0, gzip: false }),
    {
        Rotation { max_bytes: 0, interval_seconds: 0, keep: 0, gzip: false }
    }
}

#[derive(Clone, Copy, Debug, PartialEq, Eq, Structural)]
pub enum RotationError {
    Missing,
    NotAPair,
    Duplicate,
    Size(ValueError),
    SizeRange,
    Interval,
    IntervalOverflow,
    IntervalRange,
    Keep,
    KeepRange,
    Gzip,
    Unknown,
    NeverDue,
}

// ---------------------------------------------------------------------------
// Parsing
// ---------------------------------------------------------------------------

/// The seconds of a unit, by the letter at the end.
pub open spec fn unit_of(s: Seq<char>) -> Option<nat> {
    if s.len() == 0 {
        None
    } else if s.last() == 's' {
        Some(1)
    } else if s.last() == 'm' {
        Some(60)
    } else if s.last() == 'h' {
        Some(3600)
    } else if s.last() == 'd' {
        Some(86400)
    } else {
        None
    }
}

/// The seconds that a text stands for: a number and a unit.
pub open spec fn interval_of(s: Seq<char>) -> Result<u64, RotationError> {
    let (digits, unit) = match unit_of(s) {
        Some(u) => (s.drop_last(), u),
        None => (s, 1nat),
    };
    match text::decimal_upto(digits, u64::MAX as nat) {
        None => Err(RotationError::Interval),
        Some(n) => if n * unit > u64::MAX {
            Err(RotationError::IntervalOverflow)
        } else if 1 <= n * unit <= MAX_INTERVAL {
            Ok((n * unit) as u64)
        } else {
            Err(RotationError::IntervalRange)
        },
    }
}

fn interval(s: &str) -> (r: Result<u64, RotationError>)
    ensures
        r == interval_of(s@),
{
    let v = text::chars(s);
    let n = v.len();
    let unit: u64 = if n == 0 {
        0
    } else if v[n - 1] == 's' {
        1
    } else if v[n - 1] == 'm' {
        60
    } else if v[n - 1] == 'h' {
        3600
    } else if v[n - 1] == 'd' {
        86400
    } else {
        0
    };
    let digits = if unit == 0 {
        s.to_owned()
    } else {
        let d = text::slice(&v, 0, n - 1);
        assert(d@ =~= s@.drop_last());
        d
    };
    let factor: u64 = if unit == 0 {
        1
    } else {
        unit
    };
    match text::parse_u64(digits.as_str()) {
        None => Err(RotationError::Interval),
        Some(k) => match k.checked_mul(factor) {
            None => Err(RotationError::IntervalOverflow),
            Some(t) => if 1 <= t && t <= MAX_INTERVAL {
                Ok(t)
            } else {
                Err(RotationError::IntervalRange)
            },
        },
    }
}

/// The policy with one option set.
pub open spec fn with_option(p: Rotation, key: Seq<char>, value: Seq<char>) -> Result<
    Rotation,
    RotationError,
> {
    if key == "size"@ {
        match value::size_of(value) {
            Err(e) => Err(RotationError::Size(e)),
            Ok(n) => if 1 <= n <= MAX_SIZE {
                Ok(Rotation { max_bytes: n, ..p })
            } else {
                Err(RotationError::SizeRange)
            },
        }
    } else if key == "interval"@ {
        match interval_of(value) {
            Err(e) => Err(e),
            Ok(n) => Ok(Rotation { interval_seconds: n, ..p }),
        }
    } else if key == "keep"@ {
        match text::decimal_upto(value, usize::MAX as nat) {
            None => Err(RotationError::Keep),
            Some(n) => if 1 <= n <= MAX_KEEP {
                Ok(Rotation { keep: n as usize, ..p })
            } else {
                Err(RotationError::KeepRange)
            },
        }
    } else if key == "gzip"@ {
        if value == "on"@ {
            Ok(Rotation { gzip: true, ..p })
        } else if value == "off"@ {
            Ok(Rotation { gzip: false, ..p })
        } else {
            Err(RotationError::Gzip)
        }
    } else {
        Err(RotationError::Unknown)
    }
}

fn set_option(p: Rotation, key: &str, value: &str) -> (r: Result<Rotation, RotationError>)
    ensures
        r == with_option(p, key@, value@),
{
    if text::same(key, "size") {
        match value::size(value) {
            Err(e) => Err(RotationError::Size(e)),
            Ok(n) => if 1 <= n && n <= MAX_SIZE {
                Ok(Rotation { max_bytes: n, ..p })
            } else {
                Err(RotationError::SizeRange)
            },
        }
    } else if text::same(key, "interval") {
        match interval(value) {
            Err(e) => Err(e),
            Ok(n) => Ok(Rotation { interval_seconds: n, ..p }),
        }
    } else if text::same(key, "keep") {
        match text::parse_usize(value) {
            None => Err(RotationError::Keep),
            Some(n) => if 1 <= n && n <= MAX_KEEP {
                Ok(Rotation { keep: n, ..p })
            } else {
                Err(RotationError::KeepRange)
            },
        }
    } else if text::same(key, "gzip") {
        if text::same(value, "on") {
            Ok(Rotation { gzip: true, ..p })
        } else if text::same(value, "off") {
            Ok(Rotation { gzip: false, ..p })
        } else {
            Err(RotationError::Gzip)
        }
    } else {
        Err(RotationError::Unknown)
    }
}

/// The policy of some options, and the options that were set.
pub open spec fn with_options(args: Seq<Seq<char>>) -> Result<
    (Rotation, Seq<Seq<char>>),
    RotationError,
>
    decreases args.len(),
{
    if args.len() == 0 {
        Ok(
            (
                Rotation { max_bytes: 0, interval_seconds: 0, keep: USUAL_KEEP, gzip: false },
                Seq::empty(),
            ),
        )
    } else {
        match with_options(args.drop_last()) {
            Err(e) => Err(e),
            Ok((p, seen)) => match text::split_once_spec(args.last(), '=') {
                None => Err(RotationError::NotAPair),
                Some((key, value)) => if seen.contains(key) {
                    Err(RotationError::Duplicate)
                } else {
                    match with_option(p, key, value) {
                        Err(e) => Err(e),
                        Ok(q) => Ok((q, seen.push(key))),
                    }
                },
            },
        }
    }
}

proof fn lemma_options_error(args: Seq<Seq<char>>, i: int)
    requires
        0 <= i <= args.len(),
        with_options(args.take(i)) is Err,
    ensures
        with_options(args) == with_options(args.take(i)),
    decreases args.len(),
{
    if i < args.len() {
        assert(args.drop_last().take(i) =~= args.take(i));
        lemma_options_error(args.drop_last(), i);
    } else {
        assert(args.take(i) =~= args);
    }
}

impl Rotation {
    /// The policy that the arguments of the directive stand for.
    pub open spec fn parsed(args: Seq<Seq<char>>) -> Result<Rotation, RotationError> {
        if args == seq!["off"@] {
            Ok(Rotation { max_bytes: 0, interval_seconds: 0, keep: 0, gzip: false })
        } else if args.len() == 0 {
            Err(RotationError::Missing)
        } else {
            match with_options(args) {
                Err(e) => Err(e),
                Ok((p, _)) => if p.max_bytes > 0 || p.interval_seconds > 0 {
                    Ok(p)
                } else {
                    Err(RotationError::NeverDue)
                },
            }
        }
    }

    /// The policy that the arguments of the directive stand for.
    pub fn parse(args: &Vec<String>) -> (r: Result<Rotation, RotationError>)
        ensures
            r == Rotation::parsed(text::texts(args@)),
    {
        let ghost all = text::texts(args@);
        if args.len() == 1 && text::same(args[0].as_str(), "off") {
            assert(all =~= seq!["off"@]);
            return Ok(Rotation::default());
        }
        proof {
            if all == seq!["off"@] {
                assert(all[0] == "off"@);
            }
        }
        if args.len() == 0 {
            return Err(RotationError::Missing);
        }
        let mut p = Rotation { max_bytes: 0, interval_seconds: 0, keep: USUAL_KEEP, gzip: false };
        let mut seen: Vec<String> = Vec::new();
        let mut i: usize = 0;
        assert(text::texts(seen@) =~= Seq::empty());
        while i < args.len()
            invariant
                i <= args.len(),
                all == text::texts(args@),
                all != seq!["off"@],
                all.len() > 0,
                with_options(all.take(i as int)) == Ok::<
                    (Rotation, Seq<Seq<char>>),
                    RotationError,
                >((p, text::texts(seen@))),
            decreases args.len() - i,
        {
            let ghost before = text::texts(seen@);
            assert(all.take(i + 1).drop_last() =~= all.take(i as int));
            match text::split_once(args[i].as_str(), '=') {
                None => {
                    proof {
                        lemma_options_error(all, i + 1);
                    }
                    return Err(RotationError::NotAPair);
                },
                Some((key, value)) => {
                    if text::contains(&seen, key.as_str()) {
                        proof {
                            lemma_options_error(all, i + 1);
                        }
                        return Err(RotationError::Duplicate);
                    }
                    match set_option(p, key.as_str(), value.as_str()) {
                        Err(e) => {
                            proof {
                                lemma_options_error(all, i + 1);
                            }
                            return Err(e);
                        },
                        Ok(q) => {
                            p = q;
                        },
                    }
                    let ghost k = key@;
                    seen.push(key);
                    assert(text::texts(seen@) =~= before.push(k));
                },
            }
            i += 1;
        }
        assert(all.take(i as int) =~= all);
        if p.max_bytes > 0 || p.interval_seconds > 0 {
            Ok(p)
        } else {
            Err(RotationError::NeverDue)
        }
    }

    pub open spec fn spec_enabled(self) -> bool {
        self.max_bytes > 0 || self.interval_seconds > 0
    }

    /// Whether files make room at all.
    pub fn enabled(&self) -> (r: bool)
        ensures
            r == self.spec_enabled(),
    {
        self.max_bytes > 0 || self.interval_seconds > 0
    }

    /// The number of the interval that a time, in seconds since 1970, is in.
    pub open spec fn period_of(self, seconds: u64) -> u64 {
        if self.interval_seconds == 0 {
            seconds
        } else {
            (seconds as int / self.interval_seconds as int) as u64
        }
    }

    pub fn period(&self, seconds: u64) -> (r: u64)
        ensures
            r == self.period_of(seconds),
    {
        if self.interval_seconds == 0 {
            seconds
        } else {
            proof {
                assert(0 <= seconds as int / self.interval_seconds as int <= seconds)
                    by (nonlinear_arith)
                    requires
                        self.interval_seconds > 0,
                ;
            }
            seconds / self.interval_seconds
        }
    }
}

// ---------------------------------------------------------------------------
// When it is time
// ---------------------------------------------------------------------------

/// A file that is written: the interval that it was begun in, and the policy.
#[derive(Clone, Copy, Debug, PartialEq, Eq, Structural)]
pub struct FileSink {
    pub period: u64,
    pub policy: Rotation,
}

/// Whether a file makes room.
#[derive(Clone, Copy, Debug, PartialEq, Eq, Structural)]
pub enum Due {
    No,
    /// The file is empty: its interval is the one that it is.
    Begun,
    Yes,
}

/// What a path leads to, compared with the file that is written.
#[derive(Clone, Copy, Debug, PartialEq, Eq, Structural)]
pub enum Found {
    /// Something that is no ordinary file; it is never renamed.
    Special,
    /// A file that somebody else put there.
    Other,
    Same,
}

/// What is done with a file that makes room.
#[derive(Clone, Copy, Debug, PartialEq, Eq, Structural)]
pub enum Act {
    Nothing,
    Reopen,
    Archive,
}

pub open spec fn saturated(n: int) -> int {
    if n > u64::MAX {
        u64::MAX as int
    } else {
        n
    }
}

impl FileSink {
    pub open spec fn due_of(self, regular: bool, len: u64, incoming: u64, now: u64) -> Due {
        let p = self.policy;
        if !p.spec_enabled() || !regular {
            Due::No
        } else if len == 0 {
            Due::Begun
        } else if (p.max_bytes > 0 && saturated(len + incoming) > p.max_bytes) || (p.interval_seconds > 0
            && p.period_of(now) > self.period) {
            Due::Yes
        } else {
            Due::No
        }
    }

    /// Whether the file makes room before `incoming` bytes are added; `len` is its length, and `now` the
    /// time in seconds since 1970.
    pub fn due(&self, regular: bool, len: u64, incoming: u64, now: u64) -> (r: Due)
        ensures
            r == self.due_of(regular, len, incoming, now),
    {
        if !self.policy.enabled() || !regular {
            return Due::No;
        }
        if len == 0 {
            return Due::Begun;
        }
        let total = len.saturating_add(incoming);
        if (self.policy.max_bytes > 0 && total > self.policy.max_bytes) || (
        self.policy.interval_seconds > 0 && self.policy.period(now) > self.period) {
            Due::Yes
        } else {
            Due::No
        }
    }

    /// Notes that the file was begun at a time.
    pub fn begin(&mut self, now: u64)
        ensures
            *final(self) == (FileSink { period: old(self).policy.period_of(now), ..*old(self) }),
    {
        self.period = self.policy.period(now);
    }

    /// Takes another policy; `modified` is when the file was last written.
    pub fn set_policy(&mut self, policy: Rotation, modified: u64)
        ensures
            *final(self) == if policy == old(self).policy {
                *old(self)
            } else {
                FileSink { period: policy.period_of(modified), policy }
            },
    {
        if policy != self.policy {
            self.period = policy.period(modified);
            self.policy = policy;
        }
    }
}

/// What is done with a file that makes room.
pub fn act(found: Found) -> (r: Act)
    ensures
        r == match found {
            Found::Special => Act::Nothing,
            Found::Other => Act::Reopen,
            Found::Same => Act::Archive,
        },
{
    match found {
        Found::Special => Act::Nothing,
        Found::Other => Act::Reopen,
        Found::Same => Act::Archive,
    }
}

// ---------------------------------------------------------------------------
// Archives
// ---------------------------------------------------------------------------

/// A number in `k` decimal digits.
pub open spec fn padded(n: nat, k: nat) -> Seq<char>
    decreases k,
{
    if k == 0 {
        Seq::empty()
    } else {
        padded(n / 10, (k - 1) as nat).push(text::digit_char(n % 10))
    }
}

fn pad(n: u64, k: usize) -> (out: String)
    ensures
        out@ == padded(n as nat, k as nat),
    decreases k,
{
    if k == 0 {
        let out = String::new();
        assert(out@ =~= Seq::<char>::empty());
        out
    } else {
        let mut out = pad(n / 10, k - 1);
        out.push(((n % 10) as u8 + 48) as char);
        out
    }
}

/// The name of an archive of a file.
pub open spec fn archive_name(path: Seq<char>, sequence: nat) -> Seq<char> {
    path + ".rgnix."@ + padded(sequence, 20)
}

/// The name of an archive of a file.
pub fn archive_path(path: &str, sequence: u64) -> (out: String)
    ensures
        out@ == archive_name(path@, sequence as nat),
{
    text::concat3(path, ".rgnix.", pad(sequence, 20).as_str())
}

/// The number after the last one; nothing where there is none.
pub fn next_sequence(last: Option<u64>) -> (r: Option<u64>)
    ensures
        match r {
            Some(n) => n == 1 + match last {
                Some(k) => k as int,
                None => 0,
            },
            None => last == Some(u64::MAX),
        },
{
    match last {
        None => Some(1),
        Some(n) => n.checked_add(1),
    }
}

/// The number of an archive, by its name; `base` is the name of the file.
pub open spec fn sequence_of(base: Seq<char>, name: Seq<char>) -> Option<nat> {
    let prefix = base + ".rgnix."@;
    if !text::starts(name, prefix) {
        None
    } else {
        let rest = name.skip(prefix.len() as int);
        let number = if text::ends(rest, ".gz"@) {
            rest.take(rest.len() - ".gz"@.len())
        } else {
            rest
        };
        if number.len() == 20 && text::all_digits(number) {
            text::decimal_upto(number, u64::MAX as nat)
        } else {
            None
        }
    }
}

fn all_digits(v: &Vec<char>) -> (r: bool)
    ensures
        r == text::all_digits(v@),
{
    let mut i: usize = 0;
    while i < v.len()
        invariant
            i <= v.len(),
            forall|j: int| 0 <= j < i ==> text::spec_digit(#[trigger] v@[j]),
        decreases v.len() - i,
    {
        if !text::digit(v[i]) {
            assert(!text::spec_digit(v@[i as int]));
            return false;
        }
        i += 1;
    }
    true
}

/// The number of an archive, by its name; `base` is the name of the file.
pub fn sequence(base: &str, name: &str) -> (r: Option<u64>)
    ensures
        match r {
            Some(n) => sequence_of(base@, name@) == Some(n as nat),
            None => sequence_of(base@, name@) is None,
        },
{
    let prefix = text::concat(base, ".rgnix.");
    let rest = match text::strip_prefix(name, prefix.as_str()) {
        None => return None,
        Some(s) => s,
    };
    let number = match text::strip_suffix(rest, ".gz") {
        Some(s) => s,
        None => rest,
    };
    let v = text::chars(number);
    if v.len() != 20 || !all_digits(&v) {
        return None;
    }
    text::parse_u64(number)
}

/// The numbers in order, each once.
pub open spec fn with_number(v: Seq<u64>, n: u64) -> Seq<u64>
    decreases v.len(),
{
    if v.len() == 0 {
        seq![n]
    } else if v[0] == n {
        v
    } else if n < v[0] {
        seq![n] + v
    } else {
        seq![v[0]] + with_number(v.drop_first(), n)
    }
}

pub open spec fn numbers_of(v: Seq<(u64, Seq<char>)>) -> Seq<u64>
    decreases v.len(),
{
    if v.len() == 0 {
        Seq::empty()
    } else {
        with_number(numbers_of(v.drop_last()), v.last().0)
    }
}

/// The files of a number.
pub open spec fn of_number(v: Seq<(u64, Seq<char>)>, n: u64) -> Seq<Seq<char>>
    decreases v.len(),
{
    if v.len() == 0 {
        Seq::empty()
    } else if v.last().0 == n {
        of_number(v.drop_last(), n).push(v.last().1)
    } else {
        of_number(v.drop_last(), n)
    }
}

/// The files of some numbers.
pub open spec fn of_numbers(v: Seq<(u64, Seq<char>)>, numbers: Seq<u64>) -> Seq<Seq<char>>
    decreases numbers.len(),
{
    if numbers.len() == 0 {
        Seq::empty()
    } else {
        of_numbers(v, numbers.drop_last()) + of_number(v, numbers.last())
    }
}

/// The files that are removed: all but those of the `keep` greatest numbers.
pub open spec fn surplus(v: Seq<(u64, Seq<char>)>, keep: nat) -> Seq<Seq<char>> {
    let numbers = numbers_of(v);
    if numbers.len() > keep {
        of_numbers(v, numbers.take(numbers.len() - keep))
    } else {
        Seq::empty()
    }
}

pub open spec fn archives_view(v: Seq<(u64, String)>) -> Seq<(u64, Seq<char>)> {
    Seq::new(v.len(), |i: int| (v[i].0, v[i].1@))
}

fn add_number(v: &mut Vec<u64>, n: u64)
    ensures
        final(v)@ == with_number(old(v)@, n),
{
    let ghost all = v@;
    let mut i: usize = 0;
    proof {
        assert(all.skip(0) =~= all);
        assert(all.take(0) + with_number(all.skip(0), n) =~= with_number(all, n));
    }
    while i < v.len() && v[i] != n && v[i] < n
        invariant
            i <= v.len(),
            all == v@,
            all.take(i as int) + with_number(all.skip(i as int), n) == with_number(all, n),
        decreases v.len() - i,
    {
        proof {
            let rest = all.skip(i as int);
            assert(rest.drop_first() =~= all.skip(i + 1));
            assert(all.take(i + 1) + with_number(all.skip(i + 1), n) =~= all.take(i as int)
                + with_number(rest, n));
        }
        i += 1;
    }
    if i < v.len() && v[i] == n {
        assert(all.take(i as int) + all.skip(i as int) =~= all);
        return;
    }
    proof {
        let rest = all.skip(i as int);
        if i == v.len() {
            assert(rest =~= Seq::empty());
            assert(all.take(i as int) + seq![n] =~= all.insert(i as int, n));
        } else {
            assert(all.take(i as int) + (seq![n] + rest) =~= all.insert(i as int, n));
        }
    }
    v.insert(i, n);
}

fn collect(v: &Vec<(u64, String)>, n: u64, out: &mut Vec<String>)
    ensures
        text::texts(final(out)@) == text::texts(old(out)@) + of_number(archives_view(v@), n),
{
    let ghost all = archives_view(v@);
    let ghost start = text::texts(out@);
    let mut i: usize = 0;
    assert(start + of_number(all.take(0), n) =~= start);
    while i < v.len()
        invariant
            i <= v.len(),
            all == archives_view(v@),
            text::texts(out@) == start + of_number(all.take(i as int), n),
        decreases v.len() - i,
    {
        let ghost before = text::texts(out@);
        proof {
            assert(all.take(i + 1).drop_last() =~= all.take(i as int));
            assert(all.take(i + 1).last() == (v@[i as int].0, v@[i as int].1@));
        }
        if v[i].0 == n {
            out.push(v[i].1.clone());
            proof {
                assert(text::texts(out@) =~= before.push(v@[i as int].1@));
                assert(before.push(v@[i as int].1@) =~= start + of_number(
                    all.take(i as int),
                    n,
                ).push(v@[i as int].1@));
            }
        }
        i += 1;
    }
    assert(all.take(i as int) =~= all);
}

/// The files that are removed: all but those of the `keep` greatest numbers.
pub fn prune(v: &Vec<(u64, String)>, keep: usize) -> (out: Vec<String>)
    ensures
        text::texts(out@) == surplus(archives_view(v@), keep as nat),
{
    let ghost all = archives_view(v@);
    let mut numbers: Vec<u64> = Vec::new();
    let mut i: usize = 0;
    while i < v.len()
        invariant
            i <= v.len(),
            all == archives_view(v@),
            numbers@ == numbers_of(all.take(i as int)),
        decreases v.len() - i,
    {
        proof {
            assert(all.take(i + 1).drop_last() =~= all.take(i as int));
            assert(all.take(i + 1).last() == (v@[i as int].0, v@[i as int].1@));
        }
        add_number(&mut numbers, v[i].0);
        i += 1;
    }
    assert(all.take(i as int) =~= all);
    let mut out: Vec<String> = Vec::new();
    assert(text::texts(out@) =~= Seq::empty());
    if numbers.len() <= keep {
        return out;
    }
    let n = numbers.len() - keep;
    let mut k: usize = 0;
    while k < n
        invariant
            k <= n <= numbers.len(),
            all == archives_view(v@),
            text::texts(out@) == of_numbers(all, numbers@.take(k as int)),
        decreases n - k,
    {
        assert(numbers@.take(k + 1).drop_last() =~= numbers@.take(k as int));
        collect(v, numbers[k], &mut out);
        k += 1;
    }
    out
}

// ---------------------------------------------------------------------------
// Laws
// ---------------------------------------------------------------------------

spec fn tens(k: nat) -> nat
    decreases k,
{
    if k == 0 {
        1
    } else {
        10 * tens((k - 1) as nat)
    }
}

proof fn lemma_padded(n: nat, k: nat)
    requires
        n < tens(k),
    ensures
        padded(n, k).len() == k,
        text::all_digits(padded(n, k)),
        text::digits_value(padded(n, k)) == n,
    decreases k,
{
    reveal_with_fuel(text::digits_value, 2);
    if k > 0 {
        lemma_padded(n / 10, (k - 1) as nat);
        let p = padded(n, k);
        assert(p.drop_last() =~= padded(n / 10, (k - 1) as nat));
        assert forall|i: int| 0 <= i < p.len() implies text::spec_digit(#[trigger] p[i]) by {
            if i < k - 1 {
                assert(p[i] == padded(n / 10, (k - 1) as nat)[i]);
            }
        }
    }
}

/// The number of an archive is the one in its name, whether it is compressed or not.
pub proof fn law_archives_keep_their_numbers(base: Seq<char>, sequence: u64)
    ensures
        sequence_of(base, archive_name(base, sequence as nat)) == Some(sequence as nat),
        sequence_of(base, archive_name(base, sequence as nat) + ".gz"@) == Some(sequence as nat),
{
    reveal_strlit(".gz");
    reveal_with_fuel(tens, 21);
    let n = sequence as nat;
    lemma_padded(n, 20);
    let p = padded(n, 20);
    let prefix = base + ".rgnix."@;
    let name = archive_name(base, n);
    assert(name.take(prefix.len() as int) =~= prefix);
    assert(name.skip(prefix.len() as int) =~= p);
    assert(p[0] != '+') by {
        assert(text::spec_digit(p[0]));
    }
    assert(!text::ends(p, ".gz"@)) by {
        assert(text::spec_digit(p[19]));
        if text::ends(p, ".gz"@) {
            assert(p.skip(p.len() - 3)[2] == 'z');
        }
    }
    let packed = name + ".gz"@;
    assert(packed.take(prefix.len() as int) =~= prefix);
    assert(packed.skip(prefix.len() as int) =~= p + ".gz"@);
    assert((p + ".gz"@).skip(20) =~= ".gz"@);
    assert((p + ".gz"@).take(20) =~= p);
}

/// A policy that is read has its bounds, and makes files make room unless it is switched off.
pub proof fn law_policies_are_bounded(args: Seq<Seq<char>>)
    requires
        Rotation::parsed(args) is Ok,
        args != seq!["off"@],
    ensures
        ({
            let p = Rotation::parsed(args)->Ok_0;
            p.spec_enabled() && p.max_bytes <= MAX_SIZE && p.interval_seconds <= MAX_INTERVAL && 1
                <= p.keep <= MAX_KEEP
        }),
{
    lemma_options_bounded(args);
}

proof fn lemma_options_bounded(args: Seq<Seq<char>>)
    requires
        with_options(args) is Ok,
    ensures
        ({
            let (p, _) = with_options(args)->Ok_0;
            p.max_bytes <= MAX_SIZE && p.interval_seconds <= MAX_INTERVAL && 1 <= p.keep
                <= MAX_KEEP
        }),
    decreases args.len(),
{
    if args.len() > 0 {
        lemma_options_bounded(args.drop_last());
    }
}

/// An interval is its number in the unit that follows, seconds where none does, of at most a year.
pub proof fn law_intervals_are_in_their_unit(n: u64, unit: char)
    requires
        unit == 's' || unit == 'm' || unit == 'h' || unit == 'd',
    ensures
        ({
            let k: int = if unit == 's' {
                1
            } else if unit == 'm' {
                60
            } else if unit == 'h' {
                3600
            } else {
                86400
            };
            &&& 1 <= n * k <= 31536000 ==> interval_of(text::decimal(n as nat).push(unit)) == Ok::<
                u64,
                RotationError,
            >((n * k) as u64)
            &&& n == 0 || 31536000 < n * k <= u64::MAX ==> interval_of(text::decimal(n as nat).push(unit)) == Err::<
                u64,
                RotationError,
            >(RotationError::IntervalRange)
        }),
        1 <= n <= 31536000 ==> interval_of(text::decimal(n as nat)) == Ok::<u64, RotationError>(n),
{
    text::lemma_decimal_reads_back(n as nat);
    let d = text::decimal(n as nat);
    assert(d.push(unit).drop_last() =~= d);
    assert(text::spec_digit(d[d.len() - 1]));
    assert(n * 1 == n);
}

/// Each option sets what it names.
pub proof fn law_options_set_what_they_name(p: Rotation, s: Seq<char>, n: u64, k: usize)
    ensures
        value::size_of(s) == Ok::<u64, ValueError>(n) && 1 <= n <= 1099511627776 ==> with_option(p, "size"@, s)
            == Ok::<Rotation, RotationError>(Rotation { max_bytes: n, ..p }),
        value::size_of(s) == Ok::<u64, ValueError>(n) && (n == 0 || n > 1099511627776) ==> with_option(
            p,
            "size"@,
            s,
        ) == Err::<Rotation, RotationError>(RotationError::SizeRange),
        interval_of(s) == Ok::<u64, RotationError>(n) ==> with_option(p, "interval"@, s) == Ok::<
            Rotation,
            RotationError,
        >(Rotation { interval_seconds: n, ..p }),
        1 <= k <= 1000 ==> with_option(p, "keep"@, text::decimal(k as nat)) == Ok::<Rotation, RotationError>(
            Rotation { keep: k, ..p },
        ),
        k == 0 || k > 1000 ==> with_option(p, "keep"@, text::decimal(k as nat)) == Err::<
            Rotation,
            RotationError,
        >(RotationError::KeepRange),
        with_option(p, "gzip"@, "on"@) == Ok::<Rotation, RotationError>(Rotation { gzip: true, ..p }),
        with_option(p, "gzip"@, "off"@) == Ok::<Rotation, RotationError>(Rotation { gzip: false, ..p }),
{
    reveal_strlit("size");
    reveal_strlit("interval");
    assert("size"@.len() != "interval"@.len());
    reveal_strlit("keep");
    assert("size"@[0] != "keep"@[0]);
    reveal_strlit("gzip");
    assert("size"@[0] != "gzip"@[0]);
    reveal_strlit("interval");
    reveal_strlit("keep");
    assert("interval"@.len() != "keep"@.len());
    reveal_strlit("gzip");
    assert("interval"@.len() != "gzip"@.len());
    reveal_strlit("keep");
    reveal_strlit("gzip");
    assert("keep"@[0] != "gzip"@[0]);
    reveal_strlit("on");
    reveal_strlit("off");
    assert("on"@.len() != "off"@.len());
    text::lemma_decimal_reads_back(k as nat);
}

/// A log that is never due is refused, one that is off is never due, and without a number seven are kept.
pub proof fn law_rotations_are_due_some_time(args: Seq<Seq<char>>)
    ensures
        Rotation::parsed(seq!["off"@]) matches Ok(p) && !p.spec_enabled(),
        Rotation::parsed(Seq::empty()) == Err::<Rotation, RotationError>(RotationError::Missing),
        with_options(Seq::empty()) matches Ok(x) && x.0.keep == 7 && !x.0.gzip && x.0.max_bytes == 0
            && x.0.interval_seconds == 0,
{
    assert(Seq::<Seq<char>>::empty().len() != seq!["off"@].len());
}

/// A file is due where it would grow over its size, or where its interval is over; an empty one is not.
pub proof fn law_files_are_due(f: FileSink, len: u64, incoming: u64, now: u64)
    requires
        f.policy.spec_enabled(),
        len + incoming <= u64::MAX,
    ensures
        f.due_of(true, 0, incoming, now) == Due::Begun,
        f.due_of(false, len, incoming, now) == Due::No,
        len > 0 && f.policy.max_bytes > 0 && len + incoming > f.policy.max_bytes ==> f.due_of(
            true,
            len,
            incoming,
            now,
        ) == Due::Yes,
        len > 0 && f.policy.interval_seconds > 0 && now / f.policy.interval_seconds > f.period ==> f.due_of(
            true,
            len,
            incoming,
            now,
        ) == Due::Yes,
        len > 0 && len + incoming <= f.policy.max_bytes && f.policy.interval_seconds == 0 ==> f.due_of(
            true,
            len,
            incoming,
            now,
        ) == Due::No,
        len > 0 && f.policy.max_bytes == 0 && f.policy.interval_seconds > 0 && now / f.policy.interval_seconds
            <= f.period ==> f.due_of(true, len, incoming, now) == Due::No,
{
    if f.policy.interval_seconds > 0 {
        let k = f.policy.interval_seconds as int;
        assert(0 <= now as int / k <= now) by (nonlinear_arith)
            requires
                k > 0,
                now >= 0,
        ;
    }
}

/// The newest archives are kept, and what goes are all the others.
pub proof fn law_the_newest_archives_are_kept(v: Seq<(u64, Seq<char>)>, keep: nat)
    ensures
        numbers_of(v).len() <= keep ==> surplus(v, keep).len() == 0,
        numbers_of(v).len() > keep ==> surplus(v, keep) == of_numbers(
            v,
            numbers_of(v).take(numbers_of(v).len() - keep),
        ),
        forall|i: int, j: int|
            0 <= i < j < numbers_of(v).len() ==> #[trigger] numbers_of(v)[i] < #[trigger] numbers_of(v)[j],
    decreases v.len(),
{
    lemma_numbers_ordered(v);
}

proof fn lemma_numbers_ordered(v: Seq<(u64, Seq<char>)>)
    ensures
        forall|i: int, j: int|
            0 <= i < j < numbers_of(v).len() ==> #[trigger] numbers_of(v)[i] < #[trigger] numbers_of(v)[j],
    decreases v.len(),
{
    if v.len() > 0 {
        lemma_numbers_ordered(v.drop_last());
        lemma_number_put(numbers_of(v.drop_last()), v.last().0);
    }
}

proof fn lemma_number_put(v: Seq<u64>, n: u64)
    requires
        forall|i: int, j: int| 0 <= i < j < v.len() ==> #[trigger] v[i] < #[trigger] v[j],
    ensures
        forall|i: int, j: int|
            0 <= i < j < with_number(v, n).len() ==> #[trigger] with_number(v, n)[i] < #[trigger] with_number(
                v,
                n,
            )[j],
        with_number(v, n).len() > 0,
        v.len() > 0 && v[0] <= n ==> with_number(v, n)[0] == v[0],
        v.len() == 0 || n < v[0] ==> with_number(v, n)[0] == n,
    decreases v.len(),
{
    if v.len() > 0 && v[0] < n {
        let t = v.drop_first();
        assert(forall|i: int| 0 <= i < t.len() ==> t[i] == v[i + 1]);
        lemma_number_put(t, n);
        let x = with_number(t, n);
        let w = with_number(v, n);
        assert(w =~= seq![v[0]] + x);
        assert forall|i: int, j: int| 0 <= i < j < w.len() implies #[trigger] w[i] < #[trigger] w[j] by {
            assert(w[j] == x[j - 1]);
            if i > 0 {
                assert(w[i] == x[i - 1]);
            } else {
                assert(x[0] > v[0]) by {
                    if t.len() > 0 {
                        assert(v[0] < v[1]);
                    }
                }
                if j > 1 {
                    assert(x[0] < x[j - 1]);
                }
            }
        }
    }
}

} // verus!
