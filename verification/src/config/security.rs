//! Directives on who may send requests.
use crate::config::apply::Context;
use crate::config::syntax::{Directive, Node};
use crate::config::value::{duration, duration_of};
use crate::path;
use crate::text;
use vstd::prelude::*;

verus! {

#[derive(Clone, Copy, Debug, PartialEq, Eq, Structural)]
pub enum SecurityError {
    OneArgument,
    InLocation,
    VerifyMode,
    TokenArgument,
    TokenOption,
    DeciderArguments,
    DeciderTimeout,
    DeciderOption,
}

/// Whether clients have to show a certificate.
#[derive(Clone, Copy, Debug, PartialEq, Eq, Structural)]
pub enum Mode {
    Off,
    Optional,
    Required,
}

/// Where the keys of tokens come from, and what tokens have to say.
#[derive(Debug)]
pub struct TokenSpec {
    pub source: String,
    pub issuer: String,
    pub audience: String,
    pub algorithm: String,
}

/// What a `TokenSpec` holds.
#[verifier::ext_equal]
pub ghost struct Terms {
    pub source: Seq<char>,
    pub issuer: Seq<char>,
    pub audience: Seq<char>,
    pub algorithm: Seq<char>,
}

impl View for TokenSpec {
    type V = Terms;

    open spec fn view(&self) -> Terms {
        Terms {
            source: self.source@,
            issuer: self.issuer@,
            audience: self.audience@,
            algorithm: self.algorithm@,
        }
    }
}

/// The service that decides on requests; the time is in milliseconds.
#[derive(Debug)]
pub struct DeciderSpec {
    pub url: String,
    pub timeout: u64,
    pub response_headers: Vec<String>,
}

/// What a `DeciderSpec` holds.
#[verifier::ext_equal]
pub ghost struct Arbiter {
    pub url: Seq<char>,
    pub timeout: u64,
    pub response_headers: Seq<Seq<char>>,
}

impl View for DeciderSpec {
    type V = Arbiter;

    open spec fn view(&self) -> Arbiter {
        Arbiter {
            url: self.url@,
            timeout: self.timeout,
            response_headers: text::texts(self.response_headers@),
        }
    }
}

/// What a directive changes.
#[derive(Debug)]
pub enum Change {
    /// The file with the authorities that vouch for clients.
    ClientAuthority(String),
    Verify(Mode),
    Tokens(Option<TokenSpec>),
    Decider(Option<DeciderSpec>),
    /// The directive is another one.
    Other,
}

#[verifier::ext_equal]
pub ghost enum Shift {
    ClientAuthority(Seq<char>),
    Verify(Mode),
    Tokens(Option<Terms>),
    Decider(Option<Arbiter>),
    Other,
}

impl View for Change {
    type V = Shift;

    open spec fn view(&self) -> Shift {
        match self {
            Change::ClientAuthority(s) => Shift::ClientAuthority(s@),
            Change::Verify(m) => Shift::Verify(*m),
            Change::Tokens(t) => Shift::Tokens(
                match t {
                    Some(t) => Some(t@),
                    None => None,
                },
            ),
            Change::Decider(d) => Shift::Decider(
                match d {
                    Some(d) => Some(d@),
                    None => None,
                },
            ),
            Change::Other => Shift::Other,
        }
    }
}

pub open spec fn turned_off(args: Seq<Seq<char>>) -> bool {
    args.len() == 1 && args[0] == "off"@
}

/// What one argument adds to what tokens have to say.
pub open spec fn with_term(t: Terms, arg: Seq<char>, base: Seq<char>) -> Result<Terms, SecurityError> {
    match text::split_once_spec(arg, '=') {
        None => Err(SecurityError::TokenArgument),
        Some((key, value)) => if key == "jwks"@ {
            Ok(
                Terms {
                    source: if text::starts(value, "https://"@) {
                        value
                    } else {
                        path::joined(base, value)
                    },
                    ..t
                },
            )
        } else if key == "issuer"@ {
            Ok(Terms { issuer: value, ..t })
        } else if key == "audience"@ {
            Ok(Terms { audience: value, ..t })
        } else if key == "algorithm"@ {
            Ok(Terms { algorithm: value, ..t })
        } else {
            Err(SecurityError::TokenOption)
        },
    }
}

pub open spec fn terms_of(args: Seq<Seq<char>>, base: Seq<char>) -> Result<Terms, SecurityError>
    decreases args.len(),
{
    if args.len() == 0 {
        Ok(
            Terms {
                source: Seq::empty(),
                issuer: Seq::empty(),
                audience: Seq::empty(),
                algorithm: "RS256"@,
            },
        )
    } else {
        match terms_of(args.drop_last(), base) {
            Err(e) => Err(e),
            Ok(t) => with_term(t, args.last(), base),
        }
    }
}

pub open spec fn lower_all(v: Seq<Seq<char>>) -> Seq<Seq<char>> {
    Seq::new(v.len(), |i: int| text::lowercase(v[i]))
}

/// What one argument adds to the service that decides.
pub open spec fn with_part(a: Arbiter, arg: Seq<char>) -> Result<Arbiter, SecurityError> {
    if text::starts(arg, "timeout="@) {
        match duration_of(arg.skip("timeout="@.len() as int)) {
            Ok(n) => Ok(Arbiter { timeout: n, ..a }),
            Err(_) => Err(SecurityError::DeciderTimeout),
        }
    } else if text::starts(arg, "headers="@) {
        Ok(
            Arbiter {
                response_headers: lower_all(
                    text::split_spec(arg.skip("headers="@.len() as int), ','),
                ),
                ..a
            },
        )
    } else {
        Err(SecurityError::DeciderOption)
    }
}

pub open spec fn arbiter_of(url: Seq<char>, args: Seq<Seq<char>>) -> Result<Arbiter, SecurityError>
    decreases args.len(),
{
    if args.len() == 0 {
        Ok(Arbiter { url, timeout: 3000, response_headers: Seq::empty() })
    } else {
        match arbiter_of(url, args.drop_last()) {
            Err(e) => Err(e),
            Ok(a) => with_part(a, args.last()),
        }
    }
}

/// What a directive changes.
pub open spec fn change_of(n: Node, base: Seq<char>, context: Context) -> Result<Shift, SecurityError> {
    if n.name == "ssl_client_certificate"@ {
        if n.args.len() != 1 {
            Err(SecurityError::OneArgument)
        } else if context == Context::Location {
            Err(SecurityError::InLocation)
        } else {
            Ok(Shift::ClientAuthority(path::joined(base, n.args[0])))
        }
    } else if n.name == "ssl_verify_client"@ {
        if n.args.len() != 1 {
            Err(SecurityError::OneArgument)
        } else if context == Context::Location {
            Err(SecurityError::InLocation)
        } else if n.args[0] == "off"@ {
            Ok(Shift::Verify(Mode::Off))
        } else if n.args[0] == "optional"@ {
            Ok(Shift::Verify(Mode::Optional))
        } else if n.args[0] == "on"@ {
            Ok(Shift::Verify(Mode::Required))
        } else {
            Err(SecurityError::VerifyMode)
        }
    } else if n.name == "rgnix_jwt"@ {
        if turned_off(n.args) {
            Ok(Shift::Tokens(None))
        } else {
            match terms_of(n.args, base) {
                Err(e) => Err(e),
                Ok(t) => Ok(Shift::Tokens(Some(t))),
            }
        }
    } else if n.name == "rgnix_auth_request"@ {
        if turned_off(n.args) {
            Ok(Shift::Decider(None))
        } else if !(1 <= n.args.len() <= 3) {
            Err(SecurityError::DeciderArguments)
        } else {
            match arbiter_of(n.args[0], n.args.skip(1)) {
                Err(e) => Err(e),
                Ok(a) => Ok(Shift::Decider(Some(a))),
            }
        }
    } else {
        Ok(Shift::Other)
    }
}

pub open spec fn changed(r: Result<Change, SecurityError>) -> Result<Shift, SecurityError> {
    match r {
        Ok(c) => Ok(c@),
        Err(e) => Err(e),
    }
}

fn is_off(args: &Vec<String>) -> (r: bool)
    ensures
        r == turned_off(text::texts(args@)),
{
    assert(text::texts(args@).len() == args@.len());
    if args.len() != 1 {
        return false;
    }
    assert(text::texts(args@)[0] == args@[0]@);
    text::same(args[0].as_str(), "off")
}

proof fn lemma_terms_error(args: Seq<Seq<char>>, base: Seq<char>, i: int)
    requires
        0 <= i <= args.len(),
        terms_of(args.take(i), base) is Err,
    ensures
        terms_of(args, base) == terms_of(args.take(i), base),
    decreases args.len(),
{
    if i < args.len() {
        assert(args.drop_last().take(i) =~= args.take(i));
        lemma_terms_error(args.drop_last(), base, i);
    } else {
        assert(args.take(i) =~= args);
    }
}

proof fn lemma_arbiter_error(url: Seq<char>, args: Seq<Seq<char>>, i: int)
    requires
        0 <= i <= args.len(),
        arbiter_of(url, args.take(i)) is Err,
    ensures
        arbiter_of(url, args) == arbiter_of(url, args.take(i)),
    decreases args.len(),
{
    if i < args.len() {
        assert(args.drop_last().take(i) =~= args.take(i));
        lemma_arbiter_error(url, args.drop_last(), i);
    } else {
        assert(args.take(i) =~= args);
    }
}

fn add_term(t: &mut TokenSpec, arg: &str, base: &str) -> (r: Result<(), SecurityError>)
    ensures
        match with_term(old(t)@, arg@, base@) {
            Ok(u) => r is Ok && final(t)@ == u,
            Err(e) => r is Err && r->Err_0 == e,
        },
{
    let (key, value) = match text::split_once(arg, '=') {
        None => return Err(SecurityError::TokenArgument),
        Some(p) => p,
    };
    let name = key.as_str();
    if text::same(name, "jwks") {
        t.source = if text::starts_with(value.as_str(), "https://") {
            value
        } else {
            path::join(base, value.as_str())
        };
    } else if text::same(name, "issuer") {
        t.issuer = value;
    } else if text::same(name, "audience") {
        t.audience = value;
    } else if text::same(name, "algorithm") {
        t.algorithm = value;
    } else {
        return Err(SecurityError::TokenOption);
    }
    Ok(())
}

fn read_terms(args: &Vec<String>, base: &str) -> (r: Result<TokenSpec, SecurityError>)
    ensures
        match terms_of(text::texts(args@), base@) {
            Ok(t) => r is Ok && r->Ok_0@ == t,
            Err(e) => r is Err && r->Err_0 == e,
        },
{
    let ghost all = text::texts(args@);
    let mut t = TokenSpec {
        source: String::new(),
        issuer: String::new(),
        audience: String::new(),
        algorithm: "RS256".to_owned(),
    };
    proof {
        assert(t.source@ =~= Seq::<char>::empty());
        assert(t.issuer@ =~= Seq::<char>::empty());
        assert(t.audience@ =~= Seq::<char>::empty());
    }
    let mut i: usize = 0;
    assert(terms_of(all.take(0), base@) == Ok::<Terms, SecurityError>(t@));
    while i < args.len()
        invariant
            i <= args.len(),
            all == text::texts(args@),
            terms_of(all.take(i as int), base@) == Ok::<Terms, SecurityError>(t@),
        decreases args.len() - i,
    {
        proof {
            assert(all.take(i + 1).drop_last() =~= all.take(i as int));
            assert(all.take(i + 1).last() == args@[i as int]@);
        }
        if let Err(e) = add_term(&mut t, args[i].as_str(), base) {
            proof {
                lemma_terms_error(all, base@, i + 1);
            }
            return Err(e);
        }
        i += 1;
    }
    assert(all.take(i as int) =~= all);
    Ok(t)
}

fn lower_list(value: &str) -> (out: Vec<String>)
    ensures
        text::texts(out@) == lower_all(text::split_spec(value@, ',')),
{
    let v = text::split(value, ',');
    let ghost goal = lower_all(text::split_spec(value@, ','));
    let mut out: Vec<String> = Vec::new();
    let mut i: usize = 0;
    while i < v.len()
        invariant
            i <= v.len(),
            text::texts(v@) == text::split_spec(value@, ','),
            goal == lower_all(text::split_spec(value@, ',')),
            text::texts(out@) =~= goal.take(i as int),
        decreases v.len() - i,
    {
        let ghost before = text::texts(out@);
        assert(text::texts(v@)[i as int] == v@[i as int]@);
        let s = text::to_lowercase(v[i].as_str());
        let ghost x = s@;
        out.push(s);
        assert(text::texts(out@) =~= before.push(x));
        i += 1;
    }
    assert(text::texts(v@).len() == v@.len());
    out
}

fn add_part(a: &mut DeciderSpec, arg: &str) -> (r: Result<(), SecurityError>)
    ensures
        match with_part(old(a)@, arg@) {
            Ok(b) => r is Ok && final(a)@ == b,
            Err(e) => r is Err && r->Err_0 == e,
        },
{
    if let Some(t) = text::strip_prefix(arg, "timeout=") {
        match duration(t) {
            Ok(n) => {
                a.timeout = n;
                Ok(())
            },
            Err(_) => Err(SecurityError::DeciderTimeout),
        }
    } else if let Some(h) = text::strip_prefix(arg, "headers=") {
        a.response_headers = lower_list(h);
        Ok(())
    } else {
        Err(SecurityError::DeciderOption)
    }
}

fn read_decider(args: &Vec<String>) -> (r: Result<DeciderSpec, SecurityError>)
    requires
        args@.len() > 0,
    ensures
        match arbiter_of(text::texts(args@)[0], text::texts(args@).skip(1)) {
            Ok(a) => r is Ok && r->Ok_0@ == a,
            Err(e) => r is Err && r->Err_0 == e,
        },
{
    let ghost all = text::texts(args@);
    let ghost rest = all.skip(1);
    assert(all[0] == args@[0]@);
    let mut a = DeciderSpec {
        url: args[0].clone(),
        timeout: 3000,
        response_headers: Vec::new(),
    };
    assert(text::texts(a.response_headers@) =~= Seq::empty());
    let mut i: usize = 1;
    assert(arbiter_of(all[0], rest.take(0)) == Ok::<Arbiter, SecurityError>(a@));
    while i < args.len()
        invariant
            1 <= i <= args.len(),
            all == text::texts(args@),
            rest == all.skip(1),
            arbiter_of(all[0], rest.take(i - 1)) == Ok::<Arbiter, SecurityError>(a@),
        decreases args.len() - i,
    {
        proof {
            assert(rest.take(i as int).drop_last() =~= rest.take(i - 1));
            assert(rest.take(i as int).last() == args@[i as int]@);
        }
        if let Err(e) = add_part(&mut a, args[i].as_str()) {
            proof {
                lemma_arbiter_error(all[0], rest, i as int);
            }
            return Err(e);
        }
        i += 1;
    }
    assert(rest.take(i - 1) =~= rest);
    Ok(a)
}

/// What a directive changes; files are relative to `base`.
pub fn apply(n: &Directive, base: &str, context: Context) -> (r: Result<Change, SecurityError>)
    ensures
        changed(r) == change_of(n.node(), base@, context),
{
    let ghost all = text::texts(n.args@);
    assert(n.node().args =~= all);
    assert(all.len() == n.args@.len());
    let name = n.name.as_str();
    if text::same(name, "ssl_client_certificate") {
        if n.args.len() != 1 {
            return Err(SecurityError::OneArgument);
        }
        assert(all[0] == n.args@[0]@);
        if context == Context::Location {
            return Err(SecurityError::InLocation);
        }
        return Ok(Change::ClientAuthority(path::join(base, n.args[0].as_str())));
    }
    if text::same(name, "ssl_verify_client") {
        if n.args.len() != 1 {
            return Err(SecurityError::OneArgument);
        }
        assert(all[0] == n.args@[0]@);
        if context == Context::Location {
            return Err(SecurityError::InLocation);
        }
        let value = n.args[0].as_str();
        return if text::same(value, "off") {
            Ok(Change::Verify(Mode::Off))
        } else if text::same(value, "optional") {
            Ok(Change::Verify(Mode::Optional))
        } else if text::same(value, "on") {
            Ok(Change::Verify(Mode::Required))
        } else {
            Err(SecurityError::VerifyMode)
        };
    }
    if text::same(name, "rgnix_jwt") {
        if is_off(&n.args) {
            return Ok(Change::Tokens(None));
        }
        return match read_terms(&n.args, base) {
            Err(e) => Err(e),
            Ok(t) => Ok(Change::Tokens(Some(t))),
        };
    }
    if text::same(name, "rgnix_auth_request") {
        if is_off(&n.args) {
            return Ok(Change::Decider(None));
        }
        if n.args.len() < 1 || n.args.len() > 3 {
            return Err(SecurityError::DeciderArguments);
        }
        return match read_decider(&n.args) {
            Err(e) => Err(e),
            Ok(a) => Ok(Change::Decider(Some(a))),
        };
    }
    Ok(Change::Other)
}

/// Clients are asked for a certificate as the word says, for servers only.
pub proof fn law_certificates_are_asked_for(n: Node, base: Seq<char>, context: Context)
    requires
        n.name == "ssl_verify_client"@,
    ensures
        context == Context::Location ==> change_of(n, base, context) is Err,
        context != Context::Location ==> {
            &&& n.args == seq!["off"@] ==> change_of(n, base, context) == Ok::<Shift, SecurityError>(
                Shift::Verify(Mode::Off),
            )
            &&& n.args == seq!["optional"@] ==> change_of(n, base, context) == Ok::<Shift, SecurityError>(
                Shift::Verify(Mode::Optional),
            )
            &&& n.args == seq!["on"@] ==> change_of(n, base, context) == Ok::<Shift, SecurityError>(
                Shift::Verify(Mode::Required),
            )
        },
{
    reveal_strlit("ssl_verify_client");
    reveal_strlit("ssl_client_certificate");
    assert("ssl_verify_client"@.len() != "ssl_client_certificate"@.len());
    reveal_strlit("off");
    reveal_strlit("optional");
    assert("off"@.len() != "optional"@.len());
    reveal_strlit("on");
    assert("off"@.len() != "on"@.len());
    reveal_strlit("optional");
    reveal_strlit("on");
    assert("optional"@.len() != "on"@.len());
}

/// The authorities of clients are read from the file that is named.
pub proof fn law_authorities_are_files(n: Node, base: Seq<char>, file: Seq<char>)
    requires
        n.name == "ssl_client_certificate"@,
        n.args == seq![file],
    ensures
        change_of(n, base, Context::Server) == Ok::<Shift, SecurityError>(
            Shift::ClientAuthority(path::joined(base, file)),
        ),
        change_of(n, base, Context::Location) is Err,
{
}

/// Each word of a rule on tokens sets what it names.
pub proof fn law_terms_are_named(t: Terms, value: Seq<char>, base: Seq<char>)
    ensures
        with_term(t, "issuer="@ + value, base) == Ok::<Terms, SecurityError>(Terms { issuer: value, ..t }),
        with_term(t, "audience="@ + value, base) == Ok::<Terms, SecurityError>(
            Terms { audience: value, ..t },
        ),
        with_term(t, "algorithm="@ + value, base) == Ok::<Terms, SecurityError>(
            Terms { algorithm: value, ..t },
        ),
        text::starts(value, "https://"@) ==> with_term(t, "jwks="@ + value, base) == Ok::<
            Terms,
            SecurityError,
        >(Terms { source: value, ..t }),
        !text::starts(value, "https://"@) ==> with_term(t, "jwks="@ + value, base) == Ok::<
            Terms,
            SecurityError,
        >(Terms { source: path::joined(base, value), ..t }),
        terms_of(Seq::empty(), base) matches Ok(d) && d.algorithm == "RS256"@ && d.issuer.len() == 0,
{
    reveal_strlit("jwks");
    reveal_strlit("issuer");
    assert("jwks"@.len() != "issuer"@.len());
    reveal_strlit("audience");
    assert("jwks"@.len() != "audience"@.len());
    reveal_strlit("algorithm");
    assert("jwks"@.len() != "algorithm"@.len());
    reveal_strlit("issuer");
    reveal_strlit("audience");
    assert("issuer"@.len() != "audience"@.len());
    reveal_strlit("algorithm");
    assert("issuer"@.len() != "algorithm"@.len());
    reveal_strlit("audience");
    reveal_strlit("algorithm");
    assert("audience"@.len() != "algorithm"@.len());
    reveal_strlit("jwks=");
    reveal_strlit("issuer=");
    reveal_strlit("audience=");
    reveal_strlit("algorithm=");
    assert("jwks="@ =~= "jwks"@.push('='));
    assert("issuer="@ =~= "issuer"@.push('='));
    assert("audience="@ =~= "audience"@.push('='));
    assert("algorithm="@ =~= "algorithm"@.push('='));
    lemma_named("jwks"@, value);
    lemma_named("issuer"@, value);
    lemma_named("audience"@, value);
    lemma_named("algorithm"@, value);
}

proof fn lemma_named(k: Seq<char>, value: Seq<char>)
    requires
        forall|i: int| 0 <= i < k.len() ==> #[trigger] k[i] != '=',
    ensures
        text::split_once_spec(k.push('=') + value, '=') == Some((k, value)),
{
    let s = k.push('=') + value;
    assert(forall|i: int| 0 <= i < k.len() ==> s[i] == k[i]);
    text::lemma_position_is(s, '=', k.len() as int);
    assert(s.take(k.len() as int) =~= k);
    assert(s.skip(k.len() as int + 1) =~= value);
}

/// A later word counts over an earlier one, and one that is not known is refused.
pub proof fn law_words_count_in_order(args: Seq<Seq<char>>, arg: Seq<char>, base: Seq<char>, url: Seq<char>)
    ensures
        terms_of(args, base) is Ok ==> terms_of(args.push(arg), base) == with_term(
            terms_of(args, base)->Ok_0,
            arg,
            base,
        ),
        arbiter_of(url, args) is Ok ==> arbiter_of(url, args.push(arg)) == with_part(
            arbiter_of(url, args)->Ok_0,
            arg,
        ),
        !arg.contains('=') ==> terms_of(args.push(arg), base) is Err,
{
    assert(args.push(arg).drop_last() =~= args);
    if !arg.contains('=') {
        text::lemma_position_is(arg, '=', arg.len() as int);
    }
}

/// An outside authorization is asked at its address, for three seconds and with no fields unless its words say
/// otherwise.
pub proof fn law_deciders_are_as_configured(url: Seq<char>, a: Arbiter, s: Seq<char>, ms: u64)
    ensures
        arbiter_of(url, Seq::empty()) == Ok::<Arbiter, SecurityError>(
            Arbiter { url, timeout: 3000, response_headers: Seq::empty() },
        ),
        duration_of(s) == Ok::<u64, crate::config::value::ValueError>(ms) ==> with_part(a, "timeout="@ + s)
            == Ok::<Arbiter, SecurityError>(Arbiter { timeout: ms, ..a }),
        !s.contains(',') ==> with_part(a, "headers="@ + s) == Ok::<Arbiter, SecurityError>(
            Arbiter { response_headers: seq![text::lowercase(s)], ..a },
        ),
{
    reveal_strlit("timeout=");
    reveal_strlit("headers=");
    text::lemma_prefixed("timeout="@, s);
    text::lemma_prefixed("headers="@, s);
    assert("timeout="@[0] == 't');
    if !s.contains(',') {
        text::lemma_split_first(s, ',', Seq::empty());
        assert(lower_all(seq![s]) =~= seq![text::lowercase(s)]);
    }
}

/// What is off is not asked for.
pub proof fn law_security_is_turned_off(n: Node, base: Seq<char>, context: Context)
    requires
        n.args == seq!["off"@],
    ensures
        n.name == "rgnix_jwt"@ ==> change_of(n, base, context) == Ok::<Shift, SecurityError>(
            Shift::Tokens(None),
        ),
        n.name == "rgnix_auth_request"@ ==> change_of(n, base, context) == Ok::<Shift, SecurityError>(
            Shift::Decider(None),
        ),
{
    reveal_strlit("rgnix_jwt");
    reveal_strlit("ssl_client_certificate");
    assert("rgnix_jwt"@.len() != "ssl_client_certificate"@.len());
    reveal_strlit("ssl_verify_client");
    assert("rgnix_jwt"@.len() != "ssl_verify_client"@.len());
    reveal_strlit("rgnix_auth_request");
    reveal_strlit("ssl_client_certificate");
    assert("rgnix_auth_request"@.len() != "ssl_client_certificate"@.len());
    reveal_strlit("ssl_verify_client");
    assert("rgnix_auth_request"@.len() != "ssl_verify_client"@.len());
    reveal_strlit("rgnix_jwt");
    assert("rgnix_auth_request"@.len() != "rgnix_jwt"@.len());
}

} // verus!
