//! Values that directives and annotations are given: sizes, durations, host names, variables.
use crate::text;
use vstd::prelude::*;

verus! {

/// Why a value was refused.
#[derive(Clone, Copy, Debug, PartialEq, Eq, Structural)]
pub enum ValueError {
    /// Not a decimal number that fits.
    NotANumber,
    /// The number times its unit does not fit.
    Overflow,
    ExpectedSwitch,
    UnsupportedHost,
    UnsupportedVariable,
}

pub open spec fn scaled(n: Option<nat>, unit: nat) -> Result<u64, ValueError> {
    match n {
        None => Err(ValueError::NotANumber),
        Some(n) => if n * unit <= u64::MAX {
            Ok((n * unit) as u64)
        } else {
            Err(ValueError::Overflow)
        },
    }
}

fn scale(n: Option<u64>, unit: u64) -> (r: Result<u64, ValueError>)
    ensures
        r == scaled(
            match n {
                Some(n) => Some(n as nat),
                None => None,
            },
            unit as nat,
        ),
{
    match n {
        None => Err(ValueError::NotANumber),
        Some(n) => match n.checked_mul(unit) {
            Some(x) => Ok(x),
            None => Err(ValueError::Overflow),
        },
    }
}

pub open spec fn ends_in(s: Seq<char>, a: char, b: char) -> bool {
    s.len() > 0 && (s.last() == a || s.last() == b)
}

/// A number of bytes, with `k`, `m` or `g` for powers of 1024.
pub open spec fn size_of(s: Seq<char>) -> Result<u64, ValueError> {
    let max = u64::MAX as nat;
    if ends_in(s, 'k', 'K') {
        scaled(text::decimal_upto(s.drop_last(), max), 1024)
    } else if ends_in(s, 'm', 'M') {
        scaled(text::decimal_upto(s.drop_last(), max), 1048576)
    } else if ends_in(s, 'g', 'G') {
        scaled(text::decimal_upto(s.drop_last(), max), 1073741824)
    } else {
        scaled(text::decimal_upto(s, max), 1)
    }
}

/// A number of bytes, with `k`, `m` or `g` for powers of 1024.
pub fn size(s: &str) -> (r: Result<u64, ValueError>)
    ensures
        r == size_of(s@),
{
    let n = s.unicode_len();
    let unit: u64 = if n == 0 {
        1
    } else {
        let c = s.get_char(n - 1);
        if c == 'k' || c == 'K' {
            1024
        } else if c == 'm' || c == 'M' {
            1048576
        } else if c == 'g' || c == 'G' {
            1073741824
        } else {
            1
        }
    };
    if unit == 1 {
        scale(text::parse_u64(s), 1)
    } else {
        let head = s.substring_char(0, n - 1);
        assert(head@ =~= s@.drop_last());
        scale(text::parse_u64(head), unit)
    }
}

/// A number of milliseconds: `ms`, `s` and `m` are units, and seconds are meant without one.
pub open spec fn duration_of(s: Seq<char>) -> Result<u64, ValueError> {
    let max = u64::MAX as nat;
    if s.len() >= 2 && s[s.len() - 2] == 'm' && s.last() == 's' {
        scaled(text::decimal_upto(s.take(s.len() - 2), max), 1)
    } else if s.len() >= 1 && s.last() == 's' {
        scaled(text::decimal_upto(s.drop_last(), max), 1000)
    } else if s.len() >= 1 && s.last() == 'm' {
        scaled(text::decimal_upto(s.drop_last(), max), 60000)
    } else {
        scaled(text::decimal_upto(s, max), 1000)
    }
}

/// A duration in milliseconds: `ms`, `s` and `m` are units, and seconds are meant without one.
pub fn duration(s: &str) -> (r: Result<u64, ValueError>)
    ensures
        r == duration_of(s@),
{
    let n = s.unicode_len();
    if n >= 2 && s.get_char(n - 2) == 'm' && s.get_char(n - 1) == 's' {
        let head = s.substring_char(0, n - 2);
        assert(head@ =~= s@.take(s@.len() - 2));
        scale(text::parse_u64(head), 1)
    } else if n >= 1 && s.get_char(n - 1) == 's' {
        let head = s.substring_char(0, n - 1);
        assert(head@ =~= s@.drop_last());
        scale(text::parse_u64(head), 1000)
    } else if n >= 1 && s.get_char(n - 1) == 'm' {
        let head = s.substring_char(0, n - 1);
        assert(head@ =~= s@.drop_last());
        scale(text::parse_u64(head), 60000)
    } else {
        scale(text::parse_u64(s), 1000)
    }
}

pub open spec fn switch_of(s: Seq<char>) -> Result<bool, ValueError> {
    if s == "on"@ {
        Ok(true)
    } else if s == "off"@ {
        Ok(false)
    } else {
        Err(ValueError::ExpectedSwitch)
    }
}

/// `on` or `off`.
pub fn switch(value: &str) -> (r: Result<bool, ValueError>)
    ensures
        r == switch_of(value@),
{
    if text::same(value, "on") {
        Ok(true)
    } else if text::same(value, "off") {
        Ok(false)
    } else {
        Err(ValueError::ExpectedSwitch)
    }
}

pub open spec fn host_char(c: char) -> bool {
    text::spec_alphanumeric(c) || c == '-' || c == '.' || c == '_'
}

/// What is left of a host name without a leading `*.`.
pub open spec fn without_wildcard(s: Seq<char>) -> Seq<char> {
    if s.len() >= 2 && s[0] == '*' && s[1] == '.' {
        s.skip(2)
    } else {
        s
    }
}

/// A name, perhaps after `*.`, of letters, digits and `-`, `.`, `_`.
pub open spec fn host_accepted(s: Seq<char>) -> bool {
    let plain = without_wildcard(s);
    plain.len() > 0 && forall|i: int| 0 <= i < plain.len() ==> host_char(#[trigger] plain[i])
}

pub fn validate_host(host: &str) -> (r: Result<(), ValueError>)
    ensures
        r == if host_accepted(host@) {
            Ok::<(), ValueError>(())
        } else {
            Err::<(), ValueError>(ValueError::UnsupportedHost)
        },
{
    let v = text::chars(host);
    let from: usize = if v.len() >= 2 && v[0] == '*' && v[1] == '.' {
        2
    } else {
        0
    };
    let ghost plain = without_wildcard(v@);
    assert(plain =~= v@.skip(from as int));
    if from == v.len() {
        return Err(ValueError::UnsupportedHost);
    }
    let mut i: usize = from;
    while i < v.len()
        invariant
            from <= i <= v.len(),
            plain == v@.skip(from as int),
            v@ == host@,
            plain == without_wildcard(host@),
            forall|j: int| 0 <= j < i - from ==> host_char(#[trigger] plain[j]),
        decreases v.len() - i,
    {
        let c = v[i];
        if !(text::alphanumeric(c) || c == '-' || c == '.' || c == '_') {
            assert(!host_char(plain[i - from]));
            return Err(ValueError::UnsupportedHost);
        }
        i += 1;
    }
    Ok(())
}

pub open spec fn variable_char(c: char) -> bool {
    text::spec_alphanumeric(c) || c == '_'
}

/// The index of the first character from `i` on that is not part of a variable's name.
pub open spec fn variable_end(s: Seq<char>, i: int) -> int
    decreases s.len() - i,
{
    if 0 <= i < s.len() && variable_char(s[i]) {
        variable_end(s, i + 1)
    } else {
        i
    }
}

pub open spec fn known_variable(name: Seq<char>) -> bool {
    name == "host"@ || name == "http_host"@ || name == "scheme"@ || name == "request_uri"@ || name
        == "uri"@ || name == "args"@ || name == "request_method"@ || name == "remote_addr"@ || name
        == "proxy_host"@ || name == "proxy_add_x_forwarded_for"@ || (text::starts(name, "http_"@)
        && name.len() > 5)
}

/// Whether every `$` from `i` on is followed by the name of a known variable.
pub open spec fn variables_known(s: Seq<char>, i: int) -> bool
    decreases s.len() - i,
{
    if i < 0 || i >= s.len() {
        true
    } else if s[i] == '$' {
        let end = variable_end(s, i + 1);
        i < end <= s.len() && known_variable(s.subrange(i + 1, end)) && variables_known(s, end)
    } else {
        variables_known(s, i + 1)
    }
}

pub proof fn lemma_variable_end(s: Seq<char>, i: int)
    requires
        0 <= i <= s.len(),
    ensures
        i <= variable_end(s, i) <= s.len(),
    decreases s.len() - i,
{
    if i < s.len() && variable_char(s[i]) {
        lemma_variable_end(s, i + 1);
    }
}

/// The end of the variable's name that starts at `i`.
pub fn find_variable_end(v: &Vec<char>, from: usize) -> (end: usize)
    requires
        from <= v.len(),
    ensures
        from <= end <= v.len(),
        end == variable_end(v@, from as int),
{
    let mut i: usize = from;
    while i < v.len() && (text::alphanumeric(v[i]) || v[i] == '_')
        invariant
            from <= i <= v.len(),
            variable_end(v@, i as int) == variable_end(v@, from as int),
        decreases v.len() - i,
    {
        i += 1;
    }
    i
}

fn is_known(name: &str) -> (r: bool)
    ensures
        r == known_variable(name@),
{
    text::same(name, "host") || text::same(name, "http_host") || text::same(name, "scheme")
        || text::same(name, "request_uri") || text::same(name, "uri") || text::same(name, "args")
        || text::same(name, "request_method") || text::same(name, "remote_addr") || text::same(
        name,
        "proxy_host",
    ) || text::same(name, "proxy_add_x_forwarded_for") || (text::starts_with(name, "http_")
        && name.unicode_len() > 5)
}

pub open spec fn variables_checked(s: Seq<char>) -> Result<(), ValueError> {
    if variables_known(s, 0) {
        Ok(())
    } else {
        Err(ValueError::UnsupportedVariable)
    }
}

/// Refuses a text in which a `$` is not followed by the name of a known variable.
pub fn validate_variables(value: &str) -> (r: Result<(), ValueError>)
    ensures
        r == variables_checked(value@),
{
    let v = text::chars(value);
    let mut i: usize = 0;
    while i < v.len()
        invariant
            i <= v.len(),
            v@ == value@,
            variables_known(v@, i as int) == variables_known(v@, 0),
        decreases v.len() - i,
    {
        if v[i] == '$' {
            let end = find_variable_end(&v, i + 1);
            let name = text::slice(&v, i + 1, end);
            if !is_known(name.as_str()) {
                return Err(ValueError::UnsupportedVariable);
            }
            i = end;
        } else {
            i += 1;
        }
    }
    Ok(())
}

// ---------------------------------------------------------------------------
// Laws
// ---------------------------------------------------------------------------

proof fn lemma_plain_digits(d: Seq<char>)
    requires
        d.len() > 0,
        text::all_digits(d),
    ensures
        text::decimal_value(d) == Some(text::digits_value(d)),
{
    assert(text::spec_digit(d[0]));
}

/// A number without a unit, or with `s`, is of seconds; `ms` is of milliseconds and `m` of minutes. A
/// duration is in milliseconds.
pub proof fn law_durations_are_in_their_unit(d: Seq<char>)
    requires
        d.len() > 0,
        text::all_digits(d),
        text::digits_value(d) * 60000 <= u64::MAX,
    ensures
        duration_of(d) == Ok::<u64, ValueError>((text::digits_value(d) * 1000) as u64),
        duration_of(d + seq!['s']) == Ok::<u64, ValueError>((text::digits_value(d) * 1000) as u64),
        duration_of(d + seq!['m', 's']) == Ok::<u64, ValueError>(text::digits_value(d) as u64),
        duration_of(d + seq!['m']) == Ok::<u64, ValueError>((text::digits_value(d) * 60000) as u64),
{
    lemma_plain_digits(d);
    assert(text::spec_digit(d[d.len() - 1]));
    let a = d + seq!['s'];
    assert(a.drop_last() =~= d);
    assert(a[a.len() - 2] == d[d.len() - 1]);
    let b = d + seq!['m', 's'];
    assert(b.take(b.len() - 2) =~= d);
    let c = d + seq!['m'];
    assert(c.drop_last() =~= d);
    if d.len() >= 2 {
        assert(text::spec_digit(d[d.len() - 2]));
    }
}

/// A size is in bytes, with `k`, `m` and `g` for two to the tenth, twentieth and thirtieth of them.
pub proof fn law_sizes_are_in_their_unit(d: Seq<char>)
    requires
        d.len() > 0,
        text::all_digits(d),
        text::digits_value(d) * 1073741824 <= u64::MAX,
    ensures
        size_of(d) == Ok::<u64, ValueError>(text::digits_value(d) as u64),
        size_of(d + seq!['k']) == Ok::<u64, ValueError>((text::digits_value(d) * 1024) as u64),
        size_of(d + seq!['K']) == size_of(d + seq!['k']),
        size_of(d + seq!['m']) == Ok::<u64, ValueError>((text::digits_value(d) * 1048576) as u64),
        size_of(d + seq!['M']) == size_of(d + seq!['m']),
        size_of(d + seq!['g']) == Ok::<u64, ValueError>((text::digits_value(d) * 1073741824) as u64),
        size_of(d + seq!['G']) == size_of(d + seq!['g']),
{
    lemma_plain_digits(d);
    assert(text::spec_digit(d[d.len() - 1]));
    assert((d + seq!['k']).drop_last() =~= d);
    assert((d + seq!['K']).drop_last() =~= d);
    assert((d + seq!['m']).drop_last() =~= d);
    assert((d + seq!['M']).drop_last() =~= d);
    assert((d + seq!['g']).drop_last() =~= d);
    assert((d + seq!['G']).drop_last() =~= d);
}

/// A number that does not fit once its unit counts is refused, and so is one that is no number.
pub proof fn law_values_that_do_not_fit_are_refused(d: Seq<char>)
    requires
        d.len() > 0,
        text::all_digits(d),
        text::digits_value(d) <= u64::MAX,
    ensures
        text::digits_value(d) * 60000 > u64::MAX ==> duration_of(d + seq!['m']) is Err,
        text::digits_value(d) * 1000 > u64::MAX ==> duration_of(d) is Err,
        text::digits_value(d) * 1073741824 > u64::MAX ==> size_of(d + seq!['g']) is Err,
        duration_of(Seq::empty()) is Err,
        size_of(Seq::empty()) is Err,
{
    lemma_plain_digits(d);
    assert(text::spec_digit(d[d.len() - 1]));
    if d.len() >= 2 {
        assert(text::spec_digit(d[d.len() - 2]));
    }
    assert((d + seq!['m']).drop_last() =~= d);
    assert((d + seq!['g']).drop_last() =~= d);
}

/// A switch is on by `on`, off by `off`, and nothing else is a switch.
pub proof fn law_switches_are_on_or_off(s: Seq<char>)
    ensures
        switch_of("on"@) == Ok::<bool, ValueError>(true),
        switch_of("off"@) == Ok::<bool, ValueError>(false),
        switch_of(s) is Ok ==> s == "on"@ || s == "off"@,
{
    reveal_strlit("off");
    reveal_strlit("on");
    assert("off"@.len() != "on"@.len());
}

/// A host is of letters, digits, `-`, `.` and `_`, at most with `*.` before them.
pub proof fn law_hosts_hold_no_other_characters(s: Seq<char>, i: int)
    requires
        host_accepted(s),
        0 <= i < s.len(),
    ensures
        s[i] != '/' && s[i] != ':' && s[i] != ' ' && s[i] != '$',
        s[i] == '*' ==> i == 0 && s.len() > 2 && s[1] == '.',
{
    let plain = without_wildcard(s);
    if plain == s {
        assert(host_char(plain[i]));
    } else if i >= 2 {
        assert(plain[i - 2] == s[i]);
        assert(host_char(plain[i - 2]));
    }
}

/// A text without `$` refers to no variable.
pub proof fn law_plain_texts_are_accepted(s: Seq<char>, i: int)
    requires
        0 <= i,
        !s.contains('$'),
    ensures
        variables_known(s, i),
    decreases s.len() - i,
{
    if i < s.len() {
        assert(s.contains(s[i]));
        law_plain_texts_are_accepted(s, i + 1);
    }
}

} // verus!
