//! Directives that limit requests. The keys by which requests are told apart are read elsewhere: `keys` are
//! those among the named ones that can be read.
use crate::config::syntax::Directive;
use crate::ingress::policy::{cap, Cap, Limit};
use crate::text;
use vstd::prelude::*;

verus! {

#[derive(Clone, Copy, Debug, PartialEq, Eq, Structural)]
pub enum LimitError {
    RateArguments,
    ConnArguments,
    Number,
    RateOption,
    ConnOption,
    Key,
}

pub open spec fn turned_off(args: Seq<Seq<char>>) -> bool {
    args.len() == 1 && args[0] == "off"@
}

/// The options behind the number of a rate.
pub open spec fn rate_options(v: Seq<Seq<char>>, start: Cap, keys: Seq<Seq<char>>) -> Result<Cap, LimitError>
    decreases v.len(),
{
    if v.len() == 0 {
        Ok(start)
    } else {
        match rate_options(v.drop_last(), start, keys) {
            Err(e) => Err(e),
            Ok(c) => {
                let w = v.last();
                if text::starts(w, "burst="@) {
                    match text::decimal_upto(w.skip("burst="@.len() as int), u32::MAX as nat) {
                        None => Err(LimitError::Number),
                        Some(n) => Ok(Cap { burst: n as u32, ..c }),
                    }
                } else if text::starts(w, "key="@) {
                    let k = w.skip("key="@.len() as int);
                    if keys.contains(k) {
                        Ok(Cap { key: k, ..c })
                    } else {
                        Err(LimitError::Key)
                    }
                } else {
                    Err(LimitError::RateOption)
                }
            },
        }
    }
}

/// How many requests are let through in a second, as in `10 burst=20 key=ip`; nothing for `off`.
pub open spec fn rate_of(args: Seq<Seq<char>>, keys: Seq<Seq<char>>) -> Result<Option<Cap>, LimitError> {
    if turned_off(args) {
        Ok(None)
    } else if !(1 <= args.len() <= 3) {
        Err(LimitError::RateArguments)
    } else {
        match text::decimal_upto(args[0], u32::MAX as nat) {
            None => Err(LimitError::Number),
            Some(n) => match rate_options(
                args.skip(1),
                Cap { limit: n as u32, burst: n as u32, key: "ip"@ },
                keys,
            ) {
                Err(e) => Err(e),
                Ok(c) => Ok(Some(c)),
            },
        }
    }
}

/// How many requests are let through at once, as in `10 key=ip`; nothing for `off`.
pub open spec fn concurrency_of(args: Seq<Seq<char>>, keys: Seq<Seq<char>>) -> Result<Option<Cap>, LimitError> {
    if turned_off(args) {
        Ok(None)
    } else if !(1 <= args.len() <= 2) {
        Err(LimitError::ConnArguments)
    } else if args.len() == 2 && !text::starts(args[1], "key="@) {
        Err(LimitError::ConnOption)
    } else if args.len() == 2 && !keys.contains(args[1].skip("key="@.len() as int)) {
        Err(LimitError::Key)
    } else {
        match text::decimal_upto(args[0], u32::MAX as nat) {
            None => Err(LimitError::Number),
            Some(n) => Ok(
                Some(
                    Cap {
                        limit: n as u32,
                        burst: n as u32,
                        key: if args.len() == 2 {
                            args[1].skip("key="@.len() as int)
                        } else {
                            "ip"@
                        },
                    },
                ),
            ),
        }
    }
}

pub open spec fn limited(r: Result<Option<Limit>, LimitError>) -> Result<Option<Cap>, LimitError> {
    match r {
        Ok(l) => Ok(cap(l)),
        Err(e) => Err(e),
    }
}

proof fn lemma_rate_error(v: Seq<Seq<char>>, start: Cap, keys: Seq<Seq<char>>, i: int)
    requires
        0 <= i <= v.len(),
        rate_options(v.take(i), start, keys) is Err,
    ensures
        rate_options(v, start, keys) == rate_options(v.take(i), start, keys),
    decreases v.len(),
{
    if i < v.len() {
        assert(v.drop_last().take(i) =~= v.take(i));
        lemma_rate_error(v.drop_last(), start, keys, i);
    } else {
        assert(v.take(i) =~= v);
    }
}

fn is_off(args: &Vec<String>) -> (r: bool)
    ensures
        r == turned_off(text::texts(args@)),
{
    assert(text::texts(args@).len() == args@.len());
    if args.len() != 1 {
        return false;
    }
    assert(text::texts(args@)[0] == args@[0]@);
    text::same(args[0].as_str(), "off")
}

/// How many requests are let through in a second.
pub fn rate(n: &Directive, keys: &Vec<String>) -> (r: Result<Option<Limit>, LimitError>)
    ensures
        limited(r) == rate_of(n.node().args, text::texts(keys@)),
{
    let args = &n.args;
    let ghost all = text::texts(args@);
    assert(n.node().args =~= all);
    if is_off(args) {
        return Ok(None);
    }
    if args.len() < 1 || args.len() > 3 {
        return Err(LimitError::RateArguments);
    }
    assert(all[0] == args@[0]@);
    let count = match text::parse_u32(args[0].as_str()) {
        None => return Err(LimitError::Number),
        Some(n) => n,
    };
    let mut l = Limit { limit: count, burst: count, key: "ip".to_owned() };
    let ghost start = l@;
    let ghost rest = all.skip(1);
    let mut i: usize = 1;
    assert(rest.take(0) =~= Seq::empty());
    while i < args.len()
        invariant
            1 <= i <= args.len(),
            *args == n.args,
            all == text::texts(args@),
            rest == all.skip(1),
            rate_options(rest.take(i - 1), start, text::texts(keys@)) == Ok::<Cap, LimitError>(l@),
            rate_of(n.node().args, text::texts(keys@)) == match rate_options(rest, start, text::texts(keys@)) {
                Err(e) => Err(e),
                Ok(c) => Ok::<Option<Cap>, LimitError>(Some(c)),
            },
        decreases args.len() - i,
    {
        let w = args[i].as_str();
        proof {
            assert(rest.take(i as int).drop_last() =~= rest.take(i - 1));
            assert(rest.take(i as int).last() == w@);
        }
        if let Some(b) = text::strip_prefix(w, "burst=") {
            match text::parse_u32(b) {
                Some(n) => {
                    l.burst = n;
                },
                None => {
                    proof {
                        lemma_rate_error(rest, start, text::texts(keys@), i as int);
                    }
                    return Err(LimitError::Number);
                },
            }
        } else if let Some(k) = text::strip_prefix(w, "key=") {
            if !text::contains(keys, k) {
                proof {
                    lemma_rate_error(rest, start, text::texts(keys@), i as int);
                }
                return Err(LimitError::Key);
            }
            l.key = k.to_owned();
        } else {
            proof {
                lemma_rate_error(rest, start, text::texts(keys@), i as int);
            }
            return Err(LimitError::RateOption);
        }
        i += 1;
    }
    assert(rest.take(i - 1) =~= rest);
    Ok(Some(l))
}

/// How many requests are let through at once.
pub fn concurrency(n: &Directive, keys: &Vec<String>) -> (r: Result<Option<Limit>, LimitError>)
    ensures
        limited(r) == concurrency_of(n.node().args, text::texts(keys@)),
{
    let args = &n.args;
    let ghost all = text::texts(args@);
    assert(n.node().args =~= all);
    if is_off(args) {
        return Ok(None);
    }
    if args.len() < 1 || args.len() > 2 {
        return Err(LimitError::ConnArguments);
    }
    assert(all[0] == args@[0]@);
    let mut key = "ip".to_owned();
    if args.len() == 2 {
        assert(all[1] == args@[1]@);
        match text::strip_prefix(args[1].as_str(), "key=") {
            None => return Err(LimitError::ConnOption),
            Some(k) => {
                if !text::contains(keys, k) {
                    return Err(LimitError::Key);
                }
                key = k.to_owned();
            },
        }
    }
    match text::parse_u32(args[0].as_str()) {
        None => Err(LimitError::Number),
        Some(count) => Ok(Some(Limit { limit: count, burst: count, key })),
    }
}

/// A rate is its number, with bursts of that size and by the address of the client, unless its options say
/// otherwise.
pub proof fn law_rates_are_as_configured(n: u32, b: u32, k: Seq<char>, keys: Seq<Seq<char>>)
    ensures
        rate_of(seq![text::decimal(n as nat)], keys) == Ok::<Option<Cap>, LimitError>(
            Some(Cap { limit: n, burst: n, key: "ip"@ }),
        ),
        rate_of(seq![text::decimal(n as nat), "burst="@ + text::decimal(b as nat)], keys) == Ok::<
            Option<Cap>,
            LimitError,
        >(Some(Cap { limit: n, burst: b, key: "ip"@ })),
        keys.contains(k) ==> rate_of(seq![text::decimal(n as nat), "key="@ + k], keys) == Ok::<
            Option<Cap>,
            LimitError,
        >(Some(Cap { limit: n, burst: n, key: k })),
        !keys.contains(k) ==> rate_of(seq![text::decimal(n as nat), "key="@ + k], keys) == Err::<
            Option<Cap>,
            LimitError,
        >(LimitError::Key),
{
    lemma_options(n, b, k);
    let base = Cap { limit: n, burst: n, key: "ip"@ };
    reveal_with_fuel(rate_options, 3);
    let one = seq![text::decimal(n as nat)];
    let two = seq![text::decimal(n as nat), "burst="@ + text::decimal(b as nat)];
    let three = seq![text::decimal(n as nat), "key="@ + k];
    assert(one.skip(1) =~= Seq::empty());
    assert(two.skip(1) =~= seq!["burst="@ + text::decimal(b as nat)]);
    assert(three.skip(1) =~= seq!["key="@ + k]);
    assert(two.skip(1).drop_last() =~= Seq::empty());
    assert(three.skip(1).drop_last() =~= Seq::empty());
    assert(one[0] == text::decimal(n as nat));
    assert(two[0] == text::decimal(n as nat));
    assert(three[0] == text::decimal(n as nat));
    assert(!turned_off(one));
}

proof fn lemma_options(n: u32, b: u32, k: Seq<char>)
    ensures
        text::decimal_upto(text::decimal(n as nat), u32::MAX as nat) == Some(n as nat),
        text::decimal(n as nat) != "off"@,
        text::starts("burst="@ + text::decimal(b as nat), "burst="@),
        text::decimal_upto(
            ("burst="@ + text::decimal(b as nat)).skip("burst="@.len() as int),
            u32::MAX as nat,
        ) == Some(b as nat),
        text::starts("key="@ + k, "key="@),
        !text::starts("key="@ + k, "burst="@),
        ("key="@ + k).skip("key="@.len() as int) == k,
{
    text::lemma_decimal_reads_back(n as nat);
    text::lemma_decimal_reads_back(b as nat);
    reveal_strlit("off");
    reveal_strlit("burst=");
    reveal_strlit("key=");
    assert(text::spec_digit(text::decimal(n as nat)[0]));
    assert("off"@[0] == 'o');
    text::lemma_prefixed("burst="@, text::decimal(b as nat));
    text::lemma_prefixed("key="@, k);
    assert("burst="@[0] == 'b');
}

/// So is a limit of requests at a time.
pub proof fn law_concurrency_is_as_configured(n: u32, k: Seq<char>, keys: Seq<Seq<char>>)
    ensures
        concurrency_of(seq![text::decimal(n as nat)], keys) == Ok::<Option<Cap>, LimitError>(
            Some(Cap { limit: n, burst: n, key: "ip"@ }),
        ),
        keys.contains(k) ==> concurrency_of(seq![text::decimal(n as nat), "key="@ + k], keys) == Ok::<
            Option<Cap>,
            LimitError,
        >(Some(Cap { limit: n, burst: n, key: k })),
        !keys.contains(k) ==> concurrency_of(seq![text::decimal(n as nat), "key="@ + k], keys) == Err::<
            Option<Cap>,
            LimitError,
        >(LimitError::Key),
{
    lemma_options(n, n, k);
    let one = seq![text::decimal(n as nat)];
    let two = seq![text::decimal(n as nat), "key="@ + k];
    assert(one[0] == text::decimal(n as nat));
    assert(two[0] == text::decimal(n as nat));
    assert(two[1] == "key="@ + k);
}

/// A limit that is off is none, and one with too few or too many words is refused.
pub proof fn law_limits_are_turned_off(keys: Seq<Seq<char>>, args: Seq<Seq<char>>)
    ensures
        rate_of(seq!["off"@], keys) == Ok::<Option<Cap>, LimitError>(None),
        concurrency_of(seq!["off"@], keys) == Ok::<Option<Cap>, LimitError>(None),
        args.len() == 0 || args.len() > 3 ==> rate_of(args, keys) == Err::<Option<Cap>, LimitError>(
            LimitError::RateArguments,
        ),
        args.len() == 0 || args.len() > 2 ==> concurrency_of(args, keys) == Err::<Option<Cap>, LimitError>(
            LimitError::ConnArguments,
        ),
{
    assert(seq!["off"@][0] == "off"@);
}

} // verus!
