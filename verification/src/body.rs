//! How much of a request body is read before the request goes on.
use crate::config::value;
use crate::config::value::ValueError;
use crate::text;
use vstd::prelude::*;

verus! {

pub const MAX_INSPECT_BYTES: usize = 262144;

pub const MAX_TIMEOUT: u64 = 60000;

pub const DEFAULT_TIMEOUT: u64 = 5000;

#[derive(Clone, Copy, Debug, PartialEq, Eq, Structural)]
pub enum Inspection {
    Off,
    Full(usize),
    Prefix(usize),
}

/// The inspection, and the time in milliseconds within which it has to be done.
#[derive(Clone, Copy, Debug, PartialEq, Eq, Structural)]
pub struct BodyPolicy {
    pub inspection: Inspection,
    pub timeout: u64,
}

#[derive(Clone, Copy, Debug, PartialEq, Eq, Structural)]
pub enum BodyError {
    UnknownMode,
    Size(ValueError),
    SizeOutOfRange,
    Timeout(ValueError),
    TimeoutOutOfRange,
}

impl Inspection {
    pub open spec fn parsed(value: Seq<char>) -> Result<Inspection, BodyError> {
        let args = text::words_of(value);
        if args == seq!["off"@] {
            Ok(Inspection::Off)
        } else if args.len() != 2 {
            Err(BodyError::UnknownMode)
        } else {
            match value::size_of(args[1]) {
                Err(e) => Err(BodyError::Size(e)),
                Ok(n) => if !(1 <= n <= MAX_INSPECT_BYTES) {
                    Err(BodyError::SizeOutOfRange)
                } else if args[0] == "full"@ {
                    Ok(Inspection::Full(n as usize))
                } else if args[0] == "prefix"@ {
                    Ok(Inspection::Prefix(n as usize))
                } else {
                    Err(BodyError::UnknownMode)
                },
            }
        }
    }

    /// `off`, `full SIZE` or `prefix SIZE`.
    pub fn parse(value: &str) -> (r: Result<Inspection, BodyError>)
        ensures
            r == Inspection::parsed(value@),
    {
        let args = text::split_whitespace(value);
        assert(text::texts(args@).len() == args.len());
        if args.len() == 1 && text::same(args[0].as_str(), "off") {
            assert(text::texts(args@) =~= seq!["off"@]);
            return Ok(Inspection::Off);
        }
        assert(text::texts(args@) == seq!["off"@] ==> text::texts(args@)[0] == args@[0]@);
        if args.len() != 2 {
            return Err(BodyError::UnknownMode);
        }
        assert(text::texts(args@)[0] == args@[0]@ && text::texts(args@)[1] == args@[1]@);
        match value::size(args[1].as_str()) {
            Err(e) => Err(BodyError::Size(e)),
            Ok(n) => {
                if !(1 <= n && n <= MAX_INSPECT_BYTES as u64) {
                    Err(BodyError::SizeOutOfRange)
                } else if text::same(args[0].as_str(), "full") {
                    Ok(Inspection::Full(n as usize))
                } else if text::same(args[0].as_str(), "prefix") {
                    Ok(Inspection::Prefix(n as usize))
                } else {
                    Err(BodyError::UnknownMode)
                }
            },
        }
    }
}

impl Default for BodyPolicy {
    fn default() -> (r: Self)
        ensures
            r == (BodyPolicy { inspection: Inspection::Off, timeout: DEFAULT_TIMEOUT }),
    {
        BodyPolicy { inspection: Inspection::Off, timeout: DEFAULT_TIMEOUT }
    }
}

impl BodyPolicy {
    pub open spec fn timeout_of(value: Seq<char>) -> Result<u64, BodyError> {
        match value::duration_of(value) {
            Err(e) => Err(BodyError::Timeout(e)),
            Ok(n) => if 0 < n <= MAX_TIMEOUT {
                Ok(n)
            } else {
                Err(BodyError::TimeoutOutOfRange)
            },
        }
    }

    /// What annotations say of the body: a part that is not mentioned has its default.
    pub open spec fn annotated(v: Seq<(Seq<char>, Seq<char>)>) -> Result<BodyPolicy, BodyError> {
        let inspection = match text::lookup(v, "rgnix.io/request-body"@) {
            None => Ok(Inspection::Off),
            Some(s) => Inspection::parsed(s),
        };
        let timeout = match text::lookup(v, "rgnix.io/request-body-timeout"@) {
            None => Ok(DEFAULT_TIMEOUT),
            Some(s) => BodyPolicy::timeout_of(s),
        };
        match (inspection, timeout) {
            (Err(e), _) => Err(e),
            (_, Err(e)) => Err(e),
            (Ok(inspection), Ok(timeout)) => Ok(BodyPolicy { inspection, timeout }),
        }
    }

    pub fn from_annotations(annotations: &Vec<(String, String)>) -> (r: Result<
        BodyPolicy,
        BodyError,
    >)
        ensures
            r == BodyPolicy::annotated(text::pairs(annotations@)),
    {
        let mut policy = BodyPolicy { inspection: Inspection::Off, timeout: DEFAULT_TIMEOUT };
        match text::find(annotations, "rgnix.io/request-body") {
            Some(s) => match Inspection::parse(s) {
                Ok(i) => {
                    policy.inspection = i;
                },
                Err(e) => return Err(e),
            },
            None => {},
        }
        match text::find(annotations, "rgnix.io/request-body-timeout") {
            Some(s) => match BodyPolicy::parse_timeout(s) {
                Ok(t) => {
                    policy.timeout = t;
                },
                Err(e) => return Err(e),
            },
            None => {},
        }
        Ok(policy)
    }

    pub fn parse_timeout(value: &str) -> (r: Result<u64, BodyError>)
        ensures
            r == BodyPolicy::timeout_of(value@),
    {
        match value::duration(value) {
            Err(e) => Err(BodyError::Timeout(e)),
            Ok(n) => if 0 < n && n <= MAX_TIMEOUT {
                Ok(n)
            } else {
                Err(BodyError::TimeoutOutOfRange)
            },
        }
    }

    pub open spec fn valid(self) -> bool {
        &&& match self.inspection {
            Inspection::Off => true,
            Inspection::Full(n) => 1 <= n <= MAX_INSPECT_BYTES,
            Inspection::Prefix(n) => 1 <= n <= MAX_INSPECT_BYTES,
        }
        &&& 0 < self.timeout <= MAX_TIMEOUT
    }

    pub fn validate(&self) -> (r: bool)
        ensures
            r == self.valid(),
    {
        let limit_valid = match self.inspection {
            Inspection::Off => true,
            Inspection::Full(n) => 1 <= n && n <= MAX_INSPECT_BYTES,
            Inspection::Prefix(n) => 1 <= n && n <= MAX_INSPECT_BYTES,
        };
        limit_valid && 0 < self.timeout && self.timeout <= MAX_TIMEOUT
    }

    /// Without annotations bodies are not looked at, and scripts have five seconds for them; a time is at most a
    /// minute and not none.
    pub proof fn law_bodies_are_off_by_default(v: Seq<(Seq<char>, Seq<char>)>, s: Seq<char>, ms: u64)
        ensures
            BodyPolicy::annotated(Seq::empty()) == Ok::<BodyPolicy, BodyError>(
                BodyPolicy { inspection: Inspection::Off, timeout: 5000 },
            ),
            value::duration_of(s) == Ok::<u64, ValueError>(ms) ==> {
                &&& 0 < ms <= 60000 ==> BodyPolicy::timeout_of(s) == Ok::<u64, BodyError>(ms)
                &&& ms == 0 || ms > 60000 ==> BodyPolicy::timeout_of(s) == Err::<u64, BodyError>(
                    BodyError::TimeoutOutOfRange,
                )
            },
    {
    }

    /// A body is looked at whole or in part, as the first word says, up to the size of the second, of at most 256
    /// kilobytes.
    pub proof fn law_inspections_are_as_configured(value: Seq<char>, size: Seq<char>, n: u64)
        requires
            value::size_of(size) == Ok::<u64, ValueError>(n),
        ensures
            text::words_of(value) == seq!["off"@] ==> Inspection::parsed(value) == Ok::<
                Inspection,
                BodyError,
            >(Inspection::Off),
            text::words_of(value) == seq!["full"@, size] && 1 <= n <= 262144 ==> Inspection::parsed(value)
                == Ok::<Inspection, BodyError>(Inspection::Full(n as usize)),
            text::words_of(value) == seq!["prefix"@, size] && 1 <= n <= 262144 ==> Inspection::parsed(value)
                == Ok::<Inspection, BodyError>(Inspection::Prefix(n as usize)),
            text::words_of(value) == seq!["full"@, size] && (n == 0 || n > 262144) ==> Inspection::parsed(value)
                == Err::<Inspection, BodyError>(BodyError::SizeOutOfRange),
    {
        reveal_strlit("full");
        reveal_strlit("prefix");
        assert("full"@.len() != "prefix"@.len());
        assert(seq!["full"@, size].len() == 2);
        assert(seq!["full"@, size][1] == size);
        assert(seq!["prefix"@, size].len() == 2);
        assert(seq!["prefix"@, size][1] == size);
        assert(seq!["prefix"@, size][0] == "prefix"@);
        assert(seq!["off"@].len() == 1);
    }

    /// Whatever annotations give is a policy within the limits.
    pub proof fn law_annotated_policies_are_valid(v: Seq<(Seq<char>, Seq<char>)>)
        ensures
            BodyPolicy::annotated(v) is Ok ==> BodyPolicy::annotated(v)->Ok_0.valid(),
    {
    }
}

} // verus!
