//! Who may look and who may change, and what each of them sees.
use crate::digest;
use crate::digest::sha256;
use crate::header;
use crate::header::Headers;
use crate::net::Socket;
use crate::tenancy;
use crate::text;
use vstd::prelude::*;
use vstd::utf8::encode_utf8;

verus! {

/// The lengths that a token can have, in bytes.
pub const MIN_TOKEN: usize = 32;

pub const MAX_TOKEN: usize = 4096;

/// The most identities that a file can name, and the most namespaces that an identity can have.
pub const MAX_IDENTITIES: usize = 1024;

/// The longest name of an identity, in bytes.
pub const MAX_NAME: usize = 128;

#[derive(Clone, Copy, Debug, PartialEq, Eq, Structural)]
pub enum Role {
    Reader,
    Writer,
}

/// Somebody who asks. Without a scope everything is theirs; an empty scope grants nothing.
#[derive(Debug)]
pub struct Principal {
    pub name: String,
    pub role: Role,
    pub namespaces: Option<Vec<String>>,
}

/// What a `Principal` holds.
#[verifier::ext_equal]
pub ghost struct Holder {
    pub name: Seq<char>,
    pub role: Role,
    pub namespaces: Option<Seq<Seq<char>>>,
}

pub open spec fn scope(v: Option<Vec<String>>) -> Option<Seq<Seq<char>>> {
    match v {
        Some(v) => Some(text::texts(v@)),
        None => None,
    }
}

impl View for Principal {
    type V = Holder;

    open spec fn view(&self) -> Holder {
        Holder { name: self.name@, role: self.role, namespaces: scope(self.namespaces) }
    }
}

impl Holder {
    pub open spec fn writer(self) -> bool {
        self.role == Role::Writer
    }

    pub open spec fn global(self) -> bool {
        self.namespaces is None
    }

    pub open spec fn allows(self, namespace: Seq<char>) -> bool {
        match self.namespaces {
            None => true,
            Some(v) => v.contains(namespace),
        }
    }

    /// Whether a route is within the scope; its identifier begins with its namespace and `/`.
    pub open spec fn route(self, id: Seq<char>) -> bool {
        self.global() || match text::split_once_spec(id, '/') {
            Some((namespace, _)) => self.allows(namespace),
            None => false,
        }
    }
}

impl Principal {
    pub fn writer(&self) -> (r: bool)
        ensures
            r == self@.writer(),
    {
        self.role == Role::Writer
    }

    pub fn global(&self) -> (r: bool)
        ensures
            r == self@.global(),
    {
        self.namespaces.is_none()
    }

    pub fn allows(&self, namespace: &str) -> (r: bool)
        ensures
            r == self@.allows(namespace@),
    {
        match &self.namespaces {
            None => true,
            Some(v) => text::contains(v, namespace),
        }
    }

    /// Whether the route of an identifier is within the scope.
    pub fn route(&self, id: &str) -> (r: bool)
        ensures
            r == self@.route(id@),
    {
        if self.global() {
            return true;
        }
        match text::split_once(id, '/') {
            Some((namespace, _)) => self.allows(namespace.as_str()),
            None => false,
        }
    }

    /// The same again.
    pub fn copy(&self) -> (r: Principal)
        ensures
            r@ == self@,
    {
        Principal {
            name: self.name.clone(),
            role: self.role,
            namespaces: match &self.namespaces {
                Some(v) => Some(text::copy_all(v)),
                None => None,
            },
        }
    }
}

// ---------------------------------------------------------------------------
// Tokens
// ---------------------------------------------------------------------------

#[derive(Clone, Copy, Debug, PartialEq, Eq, Structural)]
pub enum AuthError {
    Token,
    TooManyIdentities,
    Name,
    Digest,
    Scope,
    Duplicate,
}

/// A visible ASCII character.
pub open spec fn graphic(c: char) -> bool {
    '!' <= c <= '~'
}

pub open spec fn valid_token(s: Seq<char>) -> bool {
    MIN_TOKEN <= text::byte_len(s) <= MAX_TOKEN && forall|i: int|
        0 <= i < s.len() ==> graphic(#[trigger] s[i])
}

/// The digest of the token that a file holds.
pub open spec fn token_digest(value: Seq<char>) -> Result<Seq<u8>, AuthError> {
    if valid_token(text::trim_spec(value)) {
        Ok(sha256(encode_utf8(text::trim_spec(value))))
    } else {
        Err(AuthError::Token)
    }
}

fn is_graphic(s: &str) -> (r: bool)
    ensures
        r == forall|i: int| 0 <= i < s@.len() ==> graphic(#[trigger] s@[i]),
{
    let v = text::chars(s);
    let mut i: usize = 0;
    while i < v.len()
        invariant
            i <= v.len(),
            v@ == s@,
            forall|j: int| 0 <= j < i ==> graphic(#[trigger] s@[j]),
        decreases v.len() - i,
    {
        let c = v[i];
        if !('!' <= c && c <= '~') {
            assert(!graphic(s@[i as int]));
            return false;
        }
        i += 1;
    }
    true
}

/// The digest of the token that a file holds.
pub fn token_hash(value: &str) -> (r: Result<Vec<u8>, AuthError>)
    ensures
        match r {
            Ok(h) => token_digest(value@) == Ok::<Seq<u8>, AuthError>(h@) && h@.len() == 32,
            Err(e) => token_digest(value@) == Err::<Seq<u8>, AuthError>(e),
        },
{
    let token = text::trim(value);
    let n = text::len(token);
    if n < MIN_TOKEN || n > MAX_TOKEN || !is_graphic(token) {
        return Err(AuthError::Token);
    }
    Ok(digest::digest(&text::bytes(token)))
}

/// The value of a hexadecimal digit.
pub open spec fn nibble(c: char) -> int {
    if '0' <= c <= '9' {
        c as int - '0' as int
    } else if 'a' <= c <= 'f' {
        c as int - 'a' as int + 10
    } else {
        c as int - 'A' as int + 10
    }
}

/// The bytes that pairs of hexadecimal digits stand for.
pub open spec fn unhex(s: Seq<char>) -> Seq<u8> {
    Seq::new(s.len() / 2, |i: int| (nibble(s[2 * i]) * 16 + nibble(s[2 * i + 1])) as u8)
}

/// A digest of 32 bytes in hexadecimal.
pub open spec fn hex_digest(s: Seq<char>) -> bool {
    s.len() == 64 && forall|i: int| 0 <= i < s.len() ==> text::spec_hex_digit(#[trigger] s[i])
}

fn digit_value(c: char) -> (n: u8)
    requires
        text::spec_hex_digit(c),
    ensures
        n == nibble(c),
        n < 16,
{
    let b = c as u8;
    if '0' <= c && c <= '9' {
        b - 48
    } else if 'a' <= c && c <= 'f' {
        b - 87
    } else {
        b - 55
    }
}

fn read_digest(s: &str) -> (r: Option<Vec<u8>>)
    ensures
        match r {
            Some(v) => hex_digest(s@) && v@ == unhex(s@) && v@.len() == 32,
            None => !hex_digest(s@),
        },
{
    let v = text::chars(s);
    if v.len() != 64 {
        return None;
    }
    let mut i: usize = 0;
    while i < v.len()
        invariant
            i <= v.len() == 64,
            v@ == s@,
            forall|j: int| 0 <= j < i ==> text::spec_hex_digit(#[trigger] s@[j]),
        decreases v.len() - i,
    {
        if !text::hex_digit(v[i]) {
            assert(!text::spec_hex_digit(s@[i as int]));
            return None;
        }
        i += 1;
    }
    let mut out: Vec<u8> = Vec::new();
    let mut k: usize = 0;
    while k < 32
        invariant
            k <= 32,
            v.len() == 64,
            v@ == s@,
            hex_digest(s@),
            out@ == unhex(s@).take(k as int),
        decreases 32 - k,
    {
        assert(text::spec_hex_digit(s@[2 * k]));
        assert(text::spec_hex_digit(s@[2 * k + 1]));
        let b: u8 = digit_value(v[2 * k]) * 16 + digit_value(v[2 * k + 1]);
        out.push(b);
        assert(out@ =~= unhex(s@).take(k + 1));
        k += 1;
    }
    assert(unhex(s@).take(32) =~= unhex(s@));
    Some(out)
}

// ---------------------------------------------------------------------------
// Identities
// ---------------------------------------------------------------------------

/// An identity of a file.
#[derive(Debug)]
pub struct User {
    pub name: String,
    pub role: Role,
    pub namespaces: Option<Vec<String>>,
    pub token_sha256: String,
}

/// What a `User` holds.
#[verifier::ext_equal]
pub ghost struct Person {
    pub name: Seq<char>,
    pub role: Role,
    pub namespaces: Option<Seq<Seq<char>>>,
    pub token_sha256: Seq<char>,
}

impl View for User {
    type V = Person;

    open spec fn view(&self) -> Person {
        Person {
            name: self.name@,
            role: self.role,
            namespaces: scope(self.namespaces),
            token_sha256: self.token_sha256@,
        }
    }
}

pub open spec fn persons(v: Seq<User>) -> Seq<Person> {
    Seq::new(v.len(), |i: int| v[i]@)
}

pub open spec fn name_char(c: char) -> bool {
    text::spec_alphanumeric(c) || c == '-' || c == '_' || c == '.' || c == '@'
}

pub open spec fn valid_identity(s: Seq<char>) -> bool {
    0 < s.len() && text::byte_len(s) <= MAX_NAME && forall|i: int|
        0 <= i < s.len() ==> name_char(#[trigger] s[i])
}

fn is_valid_identity(s: &str) -> (r: bool)
    ensures
        r == valid_identity(s@),
{
    if s.is_empty() || text::len(s) > MAX_NAME {
        return false;
    }
    let v = text::chars(s);
    let mut i: usize = 0;
    while i < v.len()
        invariant
            i <= v.len(),
            v@ == s@,
            forall|j: int| 0 <= j < i ==> name_char(#[trigger] s@[j]),
        decreases v.len() - i,
    {
        let c = v[i];
        if !(text::alphanumeric(c) || c == '-' || c == '_' || c == '.' || c == '@') {
            assert(!name_char(s@[i as int]));
            return false;
        }
        i += 1;
    }
    true
}

/// An identity of a file, checked: the digest of its token, and what it may do.
pub open spec fn checked(p: Person) -> Result<(Seq<u8>, Holder), AuthError> {
    if !valid_identity(p.name) {
        Err(AuthError::Name)
    } else if !hex_digest(p.token_sha256) {
        Err(AuthError::Digest)
    } else if p.namespaces is Some && !(p.namespaces->0.len() <= MAX_IDENTITIES
        && tenancy::all_labels(p.namespaces->0)) {
        Err(AuthError::Scope)
    } else {
        Ok(
            (
                unhex(p.token_sha256),
                Holder { name: p.name, role: p.role, namespaces: p.namespaces },
            ),
        )
    }
}

/// Who is known, by the digest of the token.
#[derive(Debug)]
pub struct Credentials {
    pub entries: Vec<(Vec<u8>, Principal)>,
}

pub open spec fn known(v: Seq<(Vec<u8>, Principal)>) -> Seq<(Seq<u8>, Holder)> {
    Seq::new(v.len(), |i: int| (v[i].0@, v[i].1@))
}

impl View for Credentials {
    type V = Seq<(Seq<u8>, Holder)>;

    open spec fn view(&self) -> Seq<(Seq<u8>, Holder)> {
        known(self.entries@)
    }
}

/// No name and no token stands for two identities.
pub open spec fn apart(v: Seq<(Seq<u8>, Holder)>) -> bool {
    forall|i: int, j: int|
        0 <= i < j < v.len() ==> (#[trigger] v[i]).0 != (#[trigger] v[j]).0 && v[i].1.name
            != v[j].1.name
}

impl Credentials {
    /// Every digest has its length.
    pub open spec fn wf(&self) -> bool {
        forall|i: int| 0 <= i < self@.len() ==> (#[trigger] self@[i]).0.len() == 32
    }
}

pub open spec fn all_checked(v: Seq<Person>) -> Result<Seq<(Seq<u8>, Holder)>, AuthError>
    decreases v.len(),
{
    if v.len() == 0 {
        Ok(Seq::empty())
    } else {
        match all_checked(v.drop_last()) {
            Err(e) => Err(e),
            Ok(w) => match checked(v.last()) {
                Err(e) => Err(e),
                Ok(x) => Ok(w.push(x)),
            },
        }
    }
}

proof fn lemma_checked_error(v: Seq<Person>, i: int)
    requires
        0 <= i <= v.len(),
        all_checked(v.take(i)) is Err,
    ensures
        all_checked(v) == all_checked(v.take(i)),
    decreases v.len(),
{
    if i < v.len() {
        assert(v.drop_last().take(i) =~= v.take(i));
        lemma_checked_error(v.drop_last(), i);
    } else {
        assert(v.take(i) =~= v);
    }
}

/// The identity of a token of its own.
pub open spec fn lone(
    token: Option<Seq<char>>,
    name: Seq<char>,
    role: Role,
) -> Result<Seq<(Seq<u8>, Holder)>, AuthError> {
    match token {
        None => Ok(Seq::empty()),
        Some(s) => match token_digest(s) {
            Err(e) => Err(e),
            Ok(h) => Ok(seq![(h, Holder { name, role, namespaces: None })]),
        },
    }
}

/// Everybody who is known: by the two tokens, and by a list of identities.
pub open spec fn loaded(
    writer: Option<Seq<char>>,
    reader: Option<Seq<char>>,
    users: Option<Seq<Person>>,
) -> Result<Seq<(Seq<u8>, Holder)>, AuthError> {
    match lone(writer, "writer"@, Role::Writer) {
        Err(e) => Err(e),
        Ok(a) => match lone(reader, "reader"@, Role::Reader) {
            Err(e) => Err(e),
            Ok(b) => if users is Some && users->0.len() > MAX_IDENTITIES {
                Err(AuthError::TooManyIdentities)
            } else {
                match all_checked(
                    match users {
                        Some(v) => v,
                        None => Seq::empty(),
                    },
                ) {
                    Err(e) => Err(e),
                    Ok(c) => if apart(a + b + c) {
                        Ok(a + b + c)
                    } else {
                        Err(AuthError::Duplicate)
                    },
                }
            },
        },
    }
}

pub open spec fn people(v: Option<Vec<User>>) -> Option<Seq<Person>> {
    match v {
        Some(v) => Some(persons(v@)),
        None => None,
    }
}

fn check(u: &User) -> (r: Result<(Vec<u8>, Principal), AuthError>)
    ensures
        match r {
            Ok(x) => checked(u@) == Ok::<(Seq<u8>, Holder), AuthError>((x.0@, x.1@)) && x.0@.len()
                == 32,
            Err(e) => checked(u@) == Err::<(Seq<u8>, Holder), AuthError>(e),
        },
{
    if !is_valid_identity(u.name.as_str()) {
        return Err(AuthError::Name);
    }
    let hash = match read_digest(u.token_sha256.as_str()) {
        Some(h) => h,
        None => return Err(AuthError::Digest),
    };
    if let Some(v) = &u.namespaces {
        if v.len() > MAX_IDENTITIES || !tenancy::namespace_names(v) {
            return Err(AuthError::Scope);
        }
    }
    let namespaces = match &u.namespaces {
        Some(v) => Some(text::copy_all(v)),
        None => None,
    };
    Ok((hash, Principal { name: u.name.clone(), role: u.role, namespaces }))
}

fn same_bytes(a: &Vec<u8>, b: &Vec<u8>) -> (r: bool)
    ensures
        r == (a@ == b@),
{
    if a.len() != b.len() {
        return false;
    }
    let mut i: usize = 0;
    while i < a.len()
        invariant
            i <= a.len() == b.len(),
            forall|j: int| 0 <= j < i ==> a@[j] == b@[j],
        decreases a.len() - i,
    {
        if a[i] != b[i] {
            return false;
        }
        i += 1;
    }
    assert(a@ =~= b@);
    true
}

fn are_apart(v: &Vec<(Vec<u8>, Principal)>) -> (r: bool)
    ensures
        r == apart(known(v@)),
{
    let ghost all = known(v@);
    let mut j: usize = 0;
    while j < v.len()
        invariant
            j <= v.len(),
            all == known(v@),
            forall|a: int, b: int|
                0 <= a < b < j ==> (#[trigger] all[a]).0 != (#[trigger] all[b]).0 && all[a].1.name
                    != all[b].1.name,
        decreases v.len() - j,
    {
        let mut i: usize = 0;
        while i < j
            invariant
                i <= j < v.len(),
                all == known(v@),
                forall|a: int|
                    0 <= a < i ==> (#[trigger] all[a]).0 != all[j as int].0 && all[a].1.name
                        != all[j as int].1.name,
            decreases j - i,
        {
            if same_bytes(&v[i].0, &v[j].0) || text::same(
                v[i].1.name.as_str(),
                v[j].1.name.as_str(),
            ) {
                assert(all[i as int].0 == all[j as int].0 || all[i as int].1.name
                    == all[j as int].1.name);
                return false;
            }
            assert(all[i as int].0 != all[j as int].0);
            i += 1;
        }
        j += 1;
    }
    true
}

fn own_token(token: &Option<String>, name: &str, role: Role, entries: &mut Vec<(Vec<u8>, Principal)>) -> (r: Result<(), AuthError>)
    requires
        forall|i: int| 0 <= i < old(entries)@.len() ==> known(old(entries)@)[i].0.len() == 32,
    ensures
        match r {
            Ok(_) => lone(text::opt(*token), name@, role) is Ok && known(final(entries)@) == known(
                old(entries)@,
            ) + lone(text::opt(*token), name@, role)->Ok_0,
            Err(e) => lone(text::opt(*token), name@, role) == Err::<
                Seq<(Seq<u8>, Holder)>,
                AuthError,
            >(e),
        },
        forall|i: int| 0 <= i < final(entries)@.len() ==> known(final(entries)@)[i].0.len() == 32,
{
    let ghost before = known(entries@);
    match token {
        None => {
            assert(before =~= before + Seq::empty());
            Ok(())
        },
        Some(s) => match token_hash(s.as_str()) {
            Err(e) => Err(e),
            Ok(h) => {
                let ghost x = (h@, Holder { name: name@, role, namespaces: None });
                entries.push((h, Principal { name: name.to_owned(), role, namespaces: None }));
                proof {
                    assert(known(entries@) =~= before + seq![x]);
                    assert forall|i: int| 0 <= i < entries@.len() implies known(
                        entries@,
                    )[i].0.len() == 32 by {
                        if i < before.len() {
                            assert(before[i].0.len() == 32);
                        }
                    }
                }
                Ok(())
            },
        },
    }
}

fn add_users(users: &Vec<User>, entries: &mut Vec<(Vec<u8>, Principal)>) -> (r: Result<(), AuthError>)
    requires
        forall|i: int| 0 <= i < old(entries)@.len() ==> known(old(entries)@)[i].0.len() == 32,
    ensures
        match r {
            Ok(_) => all_checked(persons(users@)) is Ok && known(final(entries)@) == known(
                old(entries)@,
            ) + all_checked(persons(users@))->Ok_0,
            Err(e) => all_checked(persons(users@)) == Err::<Seq<(Seq<u8>, Holder)>, AuthError>(e),
        },
        forall|i: int| 0 <= i < final(entries)@.len() ==> known(final(entries)@)[i].0.len() == 32,
{
    let ghost start = known(entries@);
    let ghost all = persons(users@);
    let mut i: usize = 0;
    assert(all.take(0) =~= Seq::empty());
    assert(start + Seq::empty() =~= start);
    while i < users.len()
        invariant
            i <= users.len(),
            all == persons(users@),
            all_checked(all.take(i as int)) is Ok,
            known(entries@) == start + all_checked(all.take(i as int))->Ok_0,
            forall|k: int| 0 <= k < entries@.len() ==> known(entries@)[k].0.len() == 32,
        decreases users.len() - i,
    {
        proof {
            assert(all.take(i + 1).drop_last() =~= all.take(i as int));
            assert(all.take(i + 1).last() == users@[i as int]@);
        }
        match check(&users[i]) {
            Err(e) => {
                proof {
                    lemma_checked_error(all, i + 1);
                }
                return Err(e);
            },
            Ok(x) => {
                let ghost before = known(entries@);
                let ghost y = (x.0@, x.1@);
                entries.push(x);
                proof {
                    assert(known(entries@) =~= before.push(y));
                    assert(before.push(y) =~= start + all_checked(all.take(i as int))->Ok_0.push(
                        y,
                    ));
                    assert forall|k: int| 0 <= k < entries@.len() implies known(
                        entries@,
                    )[k].0.len() == 32 by {
                        if k < before.len() {
                            assert(before[k].0.len() == 32);
                        }
                    }
                }
            },
        }
        i += 1;
    }
    assert(all.take(i as int) =~= all);
    Ok(())
}

/// The first identity whose token has a digest.
pub open spec fn by_digest(v: Seq<(Seq<u8>, Holder)>, h: Seq<u8>) -> Option<Holder>
    decreases v.len(),
{
    if v.len() == 0 {
        None
    } else if v[0].0 == h {
        Some(v[0].1)
    } else {
        by_digest(v.drop_first(), h)
    }
}

/// The token that a request brings: in one field, and not too long.
pub open spec fn token_of(fields: Seq<Seq<u8>>) -> Option<Seq<char>> {
    if fields.len() != 1 {
        None
    } else {
        match header::visible_text(fields[0]) {
            None => None,
            Some(s) => if !text::starts(s, "Bearer "@) {
                None
            } else {
                let t = s.skip("Bearer "@.len() as int);
                if text::byte_len(t) > MAX_TOKEN {
                    None
                } else {
                    Some(t)
                }
            },
        }
    }
}

/// Who a request comes from.
pub open spec fn authenticated(v: Seq<(Seq<u8>, Holder)>, fields: Seq<Seq<u8>>) -> Option<Holder> {
    match token_of(fields) {
        None => None,
        Some(t) => by_digest(v, sha256(encode_utf8(t))),
    }
}

/// `memcmp::eq` of the `openssl` crate: whether two texts of bytes of one length are the same, in a time
/// that does not depend on where they differ.
#[verifier::external_body]
fn same_digest(a: &Vec<u8>, b: &Vec<u8>) -> (r: bool)
    requires
        a@.len() == b@.len(),
    ensures
        r == (a@ == b@),
{
    openssl::memcmp::eq(a, b)
}

impl Credentials {
    /// Everybody who is known: by the two tokens, and by a list of identities.
    pub fn load(
        writer: &Option<String>,
        reader: &Option<String>,
        users: &Option<Vec<User>>,
    ) -> (r: Result<Credentials, AuthError>)
        ensures
            match r {
                Ok(c) => c.wf() && loaded(text::opt(*writer), text::opt(*reader), people(*users))
                    == Ok::<Seq<(Seq<u8>, Holder)>, AuthError>(c@),
                Err(e) => loaded(text::opt(*writer), text::opt(*reader), people(*users)) == Err::<
                    Seq<(Seq<u8>, Holder)>,
                    AuthError,
                >(e),
            },
    {
        let mut entries: Vec<(Vec<u8>, Principal)> = Vec::new();
        assert(known(entries@) =~= Seq::empty());
        if let Err(e) = own_token(writer, "writer", Role::Writer, &mut entries) {
            return Err(e);
        }
        let ghost a = known(entries@);
        assert(a =~= lone(text::opt(*writer), "writer"@, Role::Writer)->Ok_0);
        if let Err(e) = own_token(reader, "reader", Role::Reader, &mut entries) {
            return Err(e);
        }
        let ghost ab = known(entries@);
        match users {
            Some(v) => {
                if v.len() > MAX_IDENTITIES {
                    return Err(AuthError::TooManyIdentities);
                }
                if let Err(e) = add_users(v, &mut entries) {
                    return Err(e);
                }
            },
            None => {
                assert(ab + Seq::empty() =~= ab);
            },
        }
        if !are_apart(&entries) {
            return Err(AuthError::Duplicate);
        }
        Ok(Credentials { entries })
    }

    /// Who a request comes from.
    pub fn authenticate(&self, headers: &Headers) -> (r: Option<Principal>)
        requires
            self.wf(),
        ensures
            match r {
                Some(p) => authenticated(
                    self@,
                    header::values(headers.fields@, "authorization"@),
                ) == Some(p@),
                None => authenticated(
                    self@,
                    header::values(headers.fields@, "authorization"@),
                ) is None,
            },
    {
        let values = headers.all("authorization");
        if values.len() != 1 {
            return None;
        }
        let value = match header::to_text(values[0]) {
            Some(s) => s,
            None => return None,
        };
        let token = match text::strip_prefix(value.as_str(), "Bearer ") {
            Some(t) => t,
            None => return None,
        };
        if text::len(token) > MAX_TOKEN {
            return None;
        }
        let hash = digest::digest(&text::bytes(token));
        let ghost all = self@;
        let mut i: usize = 0;
        assert(all.skip(0) =~= all);
        while i < self.entries.len()
            invariant
                i <= self.entries.len(),
                self.wf(),
                all == self@,
                hash@.len() == 32,
                hash@ == sha256(encode_utf8(token@)),
                token_of(header::values(headers.fields@, "authorization"@)) == Some(token@),
                by_digest(all.skip(i as int), hash@) == by_digest(all, hash@),
            decreases self.entries.len() - i,
        {
            assert(all.skip(i as int).drop_first() =~= all.skip(i + 1));
            assert(all[i as int].0.len() == 32);
            if same_digest(&self.entries[i].0, &hash) {
                return Some(self.entries[i].1.copy());
            }
            i += 1;
        }
        None
    }
}

// ---------------------------------------------------------------------------
// What is seen
// ---------------------------------------------------------------------------

/// A route as far as a scope goes.
#[derive(Debug)]
pub struct VisibleRoute {
    pub id: String,
    /// The backends that the route can ask.
    pub backends: Vec<String>,
}

#[derive(Debug)]
pub struct VisibleHost {
    pub listener: Socket,
    pub ingress: bool,
    pub names: Vec<String>,
    pub routes: Vec<VisibleRoute>,
}

#[derive(Debug)]
pub struct VisibleCertificate {
    pub listener: Socket,
    pub name: String,
}

/// What runs, as far as a scope goes.
#[derive(Debug)]
pub struct Exposure {
    pub hosts: Vec<VisibleHost>,
    pub backends: Vec<String>,
    pub certificates: Vec<VisibleCertificate>,
    /// Whether the files of the configuration are there.
    pub bundled: bool,
}

/// What a `VisibleHost` holds.
#[verifier::ext_equal]
pub ghost struct SeenHost {
    pub listener: Socket,
    pub ingress: bool,
    pub names: Seq<Seq<char>>,
    pub routes: Seq<(Seq<char>, Seq<Seq<char>>)>,
}

pub open spec fn seen_routes(v: Seq<VisibleRoute>) -> Seq<(Seq<char>, Seq<Seq<char>>)> {
    Seq::new(v.len(), |i: int| (v[i].id@, text::texts(v[i].backends@)))
}

impl View for VisibleHost {
    type V = SeenHost;

    open spec fn view(&self) -> SeenHost {
        SeenHost {
            listener: self.listener,
            ingress: self.ingress,
            names: text::texts(self.names@),
            routes: seen_routes(self.routes@),
        }
    }
}

pub open spec fn seen_hosts(v: Seq<VisibleHost>) -> Seq<SeenHost> {
    Seq::new(v.len(), |i: int| v[i]@)
}

pub open spec fn seen_certificates(v: Seq<VisibleCertificate>) -> Seq<(Socket, Seq<char>)> {
    Seq::new(v.len(), |i: int| (v[i].listener, v[i].name@))
}

/// What an `Exposure` holds.
#[verifier::ext_equal]
pub ghost struct Seen {
    pub hosts: Seq<SeenHost>,
    pub backends: Seq<Seq<char>>,
    pub certificates: Seq<(Socket, Seq<char>)>,
    pub bundled: bool,
}

impl View for Exposure {
    type V = Seen;

    open spec fn view(&self) -> Seen {
        Seen {
            hosts: seen_hosts(self.hosts@),
            backends: text::texts(self.backends@),
            certificates: seen_certificates(self.certificates@),
            bundled: self.bundled,
        }
    }
}

/// The routes that are within a scope.
pub open spec fn own_routes(h: Holder, v: Seq<(Seq<char>, Seq<Seq<char>>)>) -> Seq<
    (Seq<char>, Seq<Seq<char>>),
>
    decreases v.len(),
{
    if v.len() == 0 {
        Seq::empty()
    } else if h.route(v.last().0) {
        own_routes(h, v.drop_last()).push(v.last())
    } else {
        own_routes(h, v.drop_last())
    }
}

/// The hosts with the routes that are within a scope; one without any is left out.
pub open spec fn own_hosts(h: Holder, v: Seq<SeenHost>) -> Seq<SeenHost>
    decreases v.len(),
{
    if v.len() == 0 {
        Seq::empty()
    } else {
        let before = own_hosts(h, v.drop_last());
        let routes = own_routes(h, v.last().routes);
        if v.last().ingress && routes.len() > 0 {
            before.push(SeenHost { routes, ..v.last() })
        } else {
            before
        }
    }
}

/// Whether a route of some hosts can ask a backend.
pub open spec fn asked_by(hosts: Seq<SeenHost>, backend: Seq<char>) -> bool {
    exists|i: int, j: int|
        0 <= i < hosts.len() && 0 <= j < hosts[i].routes.len() && (
        #[trigger] hosts[i].routes[j]).1.contains(backend)
}

/// Whether a certificate is one of some hosts.
pub open spec fn worn_by(hosts: Seq<SeenHost>, c: (Socket, Seq<char>)) -> bool {
    exists|i: int|
        0 <= i < hosts.len() && (#[trigger] hosts[i]).listener == c.0 && hosts[i].names.contains(
            c.1,
        )
}

pub open spec fn own_backends(hosts: Seq<SeenHost>, v: Seq<Seq<char>>) -> Seq<Seq<char>>
    decreases v.len(),
{
    if v.len() == 0 {
        Seq::empty()
    } else if asked_by(hosts, v.last()) {
        own_backends(hosts, v.drop_last()).push(v.last())
    } else {
        own_backends(hosts, v.drop_last())
    }
}

pub open spec fn own_certificates(hosts: Seq<SeenHost>, v: Seq<(Socket, Seq<char>)>) -> Seq<
    (Socket, Seq<char>),
>
    decreases v.len(),
{
    if v.len() == 0 {
        Seq::empty()
    } else if worn_by(hosts, v.last()) {
        own_certificates(hosts, v.drop_last()).push(v.last())
    } else {
        own_certificates(hosts, v.drop_last())
    }
}

/// What somebody sees of what runs.
pub open spec fn visible(h: Holder, s: Seen) -> Seen {
    if h.global() {
        s
    } else {
        let hosts = own_hosts(h, s.hosts);
        Seen {
            hosts,
            backends: own_backends(hosts, s.backends),
            certificates: own_certificates(hosts, s.certificates),
            bundled: false,
        }
    }
}

fn keep_routes(p: &Principal, v: Vec<VisibleRoute>) -> (out: Vec<VisibleRoute>)
    ensures
        seen_routes(out@) == own_routes(p@, seen_routes(v@)),
{
    let ghost all = seen_routes(v@);
    let mut rest = v;
    let mut out: Vec<VisibleRoute> = Vec::new();
    let mut i: usize = 0;
    assert(seen_routes(out@) =~= Seq::empty());
    while i < rest.len()
        invariant
            i <= rest.len(),
            all == seen_routes(rest@),
            seen_routes(out@) == own_routes(p@, all.take(i as int)),
        decreases rest.len() - i,
    {
        let ghost before = seen_routes(out@);
        assert(all.take(i + 1).drop_last() =~= all.take(i as int));
        assert(all.take(i + 1).last() == (rest@[i as int].id@, text::texts(
            rest@[i as int].backends@,
        )));
        if p.route(rest[i].id.as_str()) {
            let r = VisibleRoute {
                id: rest[i].id.clone(),
                backends: text::copy_all(&rest[i].backends),
            };
            let ghost x = (r.id@, text::texts(r.backends@));
            out.push(r);
            assert(seen_routes(out@) =~= before.push(x));
        }
        i += 1;
    }
    assert(all.take(i as int) =~= all);
    out
}

fn copy_routes(v: &Vec<VisibleRoute>) -> (out: Vec<VisibleRoute>)
    ensures
        seen_routes(out@) == seen_routes(v@),
{
    let mut out: Vec<VisibleRoute> = Vec::new();
    let mut i: usize = 0;
    while i < v.len()
        invariant
            i <= v.len(),
            seen_routes(out@) == seen_routes(v@).take(i as int),
        decreases v.len() - i,
    {
        let ghost before = seen_routes(out@);
        let r = VisibleRoute { id: v[i].id.clone(), backends: text::copy_all(&v[i].backends) };
        let ghost x = (r.id@, text::texts(r.backends@));
        out.push(r);
        proof {
            assert(seen_routes(out@) =~= before.push(x));
            assert(seen_routes(v@).take(i + 1) =~= seen_routes(v@).take(i as int).push(x));
        }
        i += 1;
    }
    assert(seen_routes(v@).take(i as int) =~= seen_routes(v@));
    out
}

fn keep_hosts(p: &Principal, v: &Vec<VisibleHost>) -> (out: Vec<VisibleHost>)
    ensures
        seen_hosts(out@) == own_hosts(p@, seen_hosts(v@)),
{
    let ghost all = seen_hosts(v@);
    let mut out: Vec<VisibleHost> = Vec::new();
    let mut i: usize = 0;
    assert(seen_hosts(out@) =~= Seq::empty());
    while i < v.len()
        invariant
            i <= v.len(),
            all == seen_hosts(v@),
            seen_hosts(out@) == own_hosts(p@, all.take(i as int)),
        decreases v.len() - i,
    {
        let ghost before = seen_hosts(out@);
        assert(all.take(i + 1).drop_last() =~= all.take(i as int));
        assert(all.take(i + 1).last() == v@[i as int]@);
        let h = &v[i];
        let routes = keep_routes(p, copy_routes(&h.routes));
        assert(seen_routes(routes@).len() == routes@.len());
        if h.ingress && routes.len() > 0 {
            let n = VisibleHost {
                listener: h.listener,
                ingress: h.ingress,
                names: text::copy_all(&h.names),
                routes,
            };
            let ghost x = n@;
            out.push(n);
            assert(seen_hosts(out@) =~= before.push(x));
        }
        i += 1;
    }
    assert(all.take(i as int) =~= all);
    out
}

fn is_asked(hosts: &Vec<VisibleHost>, backend: &str) -> (r: bool)
    ensures
        r == asked_by(seen_hosts(hosts@), backend@),
{
    let ghost all = seen_hosts(hosts@);
    let mut i: usize = 0;
    while i < hosts.len()
        invariant
            i <= hosts.len(),
            all == seen_hosts(hosts@),
            forall|a: int, b: int|
                0 <= a < i && 0 <= b < all[a].routes.len() ==> !(
                #[trigger] all[a].routes[b]).1.contains(backend@),
        decreases hosts.len() - i,
    {
        let routes = &hosts[i].routes;
        let mut j: usize = 0;
        assert(all[i as int].routes == seen_routes(routes@));
        while j < routes.len()
            invariant
                j <= routes.len(),
                i < hosts.len(),
                all == seen_hosts(hosts@),
                all[i as int].routes == seen_routes(routes@),
                forall|b: int|
                    0 <= b < j ==> !(#[trigger] all[i as int].routes[b]).1.contains(backend@),
            decreases routes.len() - j,
        {
            if text::contains(&routes[j].backends, backend) {
                assert(all[i as int].routes[j as int].1.contains(backend@));
                return true;
            }
            assert(!all[i as int].routes[j as int].1.contains(backend@));
            j += 1;
        }
        i += 1;
    }
    false
}

fn is_worn(hosts: &Vec<VisibleHost>, listener: Socket, name: &str) -> (r: bool)
    ensures
        r == worn_by(seen_hosts(hosts@), (listener, name@)),
{
    let ghost all = seen_hosts(hosts@);
    let mut i: usize = 0;
    while i < hosts.len()
        invariant
            i <= hosts.len(),
            all == seen_hosts(hosts@),
            forall|a: int|
                0 <= a < i ==> !((#[trigger] all[a]).listener == listener
                    && all[a].names.contains(name@)),
        decreases hosts.len() - i,
    {
        assert(all[i as int] == hosts@[i as int]@);
        if hosts[i].listener == listener && text::contains(&hosts[i].names, name) {
            return true;
        }
        i += 1;
    }
    false
}

impl Principal {
    /// What is seen of what runs.
    pub fn view_of(&self, s: Exposure) -> (r: Exposure)
        ensures
            r@ == visible(self@, s@),
    {
        if self.global() {
            return s;
        }
        let hosts = keep_hosts(self, &s.hosts);
        let ghost own = seen_hosts(hosts@);
        let ghost all = text::texts(s.backends@);
        let mut backends: Vec<String> = Vec::new();
        let mut i: usize = 0;
        assert(text::texts(backends@) =~= Seq::empty());
        while i < s.backends.len()
            invariant
                i <= s.backends.len(),
                own == seen_hosts(hosts@),
                all == text::texts(s.backends@),
                text::texts(backends@) == own_backends(own, all.take(i as int)),
            decreases s.backends.len() - i,
        {
            let ghost before = text::texts(backends@);
            assert(all.take(i + 1).drop_last() =~= all.take(i as int));
            if is_asked(&hosts, s.backends[i].as_str()) {
                backends.push(s.backends[i].clone());
                assert(text::texts(backends@) =~= before.push(s.backends@[i as int]@));
            }
            i += 1;
        }
        assert(all.take(i as int) =~= all);
        let ghost worn = seen_certificates(s.certificates@);
        let mut certificates: Vec<VisibleCertificate> = Vec::new();
        let mut k: usize = 0;
        assert(seen_certificates(certificates@) =~= Seq::empty());
        while k < s.certificates.len()
            invariant
                k <= s.certificates.len(),
                own == seen_hosts(hosts@),
                worn == seen_certificates(s.certificates@),
                seen_certificates(certificates@) == own_certificates(own, worn.take(k as int)),
            decreases s.certificates.len() - k,
        {
            let ghost before = seen_certificates(certificates@);
            let c = &s.certificates[k];
            assert(worn.take(k + 1).drop_last() =~= worn.take(k as int));
            assert(worn.take(k + 1).last() == (c.listener, c.name@));
            if is_worn(&hosts, c.listener, c.name.as_str()) {
                certificates.push(
                    VisibleCertificate { listener: c.listener, name: c.name.clone() },
                );
                assert(seen_certificates(certificates@) =~= before.push((c.listener, c.name@)));
            }
            k += 1;
        }
        assert(worn.take(k as int) =~= worn);
        Exposure { hosts, backends, certificates, bundled: false }
    }
}

// ---------------------------------------------------------------------------
// Laws
// ---------------------------------------------------------------------------

proof fn lemma_by_digest(v: Seq<(Seq<u8>, Holder)>, h: Seq<u8>)
    ensures
        by_digest(v, h) is Some ==> exists|i: int|
            0 <= i < v.len() && #[trigger] v[i] == (h, by_digest(v, h)->0),
    decreases v.len(),
{
    if v.len() > 0 {
        if v[0].0 == h {
            assert(v[0] == (h, by_digest(v, h)->0));
        } else {
            lemma_by_digest(v.drop_first(), h);
            if by_digest(v, h) is Some {
                let w = v.drop_first();
                let i = choose|i: int|
                    0 <= i < w.len() && #[trigger] w[i] == (h, by_digest(w, h)->0);
                assert(v[i + 1] == w[i]);
            }
        }
    }
}

/// Nobody is known but by a token whose digest is on record, and one token stands for one identity.
pub proof fn law_tokens_stand_for_one_identity(
    writer: Option<Seq<char>>,
    reader: Option<Seq<char>>,
    users: Option<Seq<Person>>,
    fields: Seq<Seq<u8>>,
    i: int,
)
    requires
        loaded(writer, reader, users) is Ok,
        0 <= i < loaded(writer, reader, users)->Ok_0.len(),
        token_of(fields) is Some,
        loaded(writer, reader, users)->Ok_0[i].0 == sha256(encode_utf8(token_of(fields)->0)),
    ensures
        authenticated(loaded(writer, reader, users)->Ok_0, fields) == Some(
            loaded(writer, reader, users)->Ok_0[i].1,
        ),
{
    let v = loaded(writer, reader, users)->Ok_0;
    let h = sha256(encode_utf8(token_of(fields)->0));
    lemma_found(v, h, i);
    lemma_by_digest(v, h);
    let j = choose|j: int| 0 <= j < v.len() && #[trigger] v[j] == (h, by_digest(v, h)->0);
    if i < j {
        assert(v[i].0 != v[j].0);
    } else if j < i {
        assert(v[j].0 != v[i].0);
    }
}

proof fn lemma_found(v: Seq<(Seq<u8>, Holder)>, h: Seq<u8>, i: int)
    requires
        0 <= i < v.len(),
        v[i].0 == h,
    ensures
        by_digest(v, h) is Some,
    decreases v.len(),
{
    if v[0].0 != h {
        lemma_found(v.drop_first(), h, i - 1);
    }
}

proof fn lemma_own_routes(h: Holder, v: Seq<(Seq<char>, Seq<Seq<char>>)>, j: int)
    requires
        0 <= j < own_routes(h, v).len(),
    ensures
        h.route(own_routes(h, v)[j].0),
    decreases v.len(),
{
    if v.len() > 0 {
        if j < own_routes(h, v.drop_last()).len() {
            lemma_own_routes(h, v.drop_last(), j);
        }
    }
}

/// Somebody with a scope sees routes of Ingresses within the scope alone.
pub proof fn law_scopes_hide_other_routes(h: Holder, s: Seen, i: int, j: int)
    requires
        !h.global(),
        0 <= i < visible(h, s).hosts.len(),
        0 <= j < visible(h, s).hosts[i].routes.len(),
    ensures
        visible(h, s).hosts[i].ingress,
        h.route(visible(h, s).hosts[i].routes[j].0),
{
    lemma_own_hosts(h, s.hosts, i);
    let k = choose|k: int|
        0 <= k < s.hosts.len() && own_hosts(h, s.hosts)[i].routes == own_routes(
            h,
            (#[trigger] s.hosts[k]).routes,
        );
    lemma_own_routes(h, s.hosts[k].routes, j);
}

proof fn lemma_own_hosts(h: Holder, v: Seq<SeenHost>, i: int)
    requires
        0 <= i < own_hosts(h, v).len(),
    ensures
        own_hosts(h, v)[i].ingress,
        exists|k: int|
            0 <= k < v.len() && own_hosts(h, v)[i].routes == own_routes(
                h,
                (#[trigger] v[k]).routes,
            ),
    decreases v.len(),
{
    if v.len() > 0 {
        let w = v.drop_last();
        if i < own_hosts(h, w).len() {
            lemma_own_hosts(h, w, i);
            let k = choose|k: int|
                0 <= k < w.len() && own_hosts(h, w)[i].routes == own_routes(
                    h,
                    (#[trigger] w[k]).routes,
                );
            assert(v[k] == w[k]);
        } else {
            assert(v[v.len() - 1] == v.last());
        }
    }
}

/// An empty scope grants nothing.
pub proof fn law_empty_scopes_see_nothing(h: Holder, s: Seen)
    requires
        h.namespaces == Some(Seq::<Seq<char>>::empty()),
    ensures
        visible(h, s).hosts.len() == 0,
        visible(h, s).backends.len() == 0,
        visible(h, s).certificates.len() == 0,
{
    lemma_nothing(h, s.hosts);
    let hosts = own_hosts(h, s.hosts);
    lemma_no_backends(hosts, s.backends);
    lemma_no_certificates(hosts, s.certificates);
}

proof fn lemma_no_routes(h: Holder, v: Seq<(Seq<char>, Seq<Seq<char>>)>)
    requires
        h.namespaces == Some(Seq::<Seq<char>>::empty()),
    ensures
        own_routes(h, v).len() == 0,
    decreases v.len(),
{
    if v.len() > 0 {
        lemma_no_routes(h, v.drop_last());
    }
}

proof fn lemma_nothing(h: Holder, v: Seq<SeenHost>)
    requires
        h.namespaces == Some(Seq::<Seq<char>>::empty()),
    ensures
        own_hosts(h, v).len() == 0,
    decreases v.len(),
{
    if v.len() > 0 {
        lemma_nothing(h, v.drop_last());
        lemma_no_routes(h, v.last().routes);
    }
}

proof fn lemma_no_backends(hosts: Seq<SeenHost>, v: Seq<Seq<char>>)
    requires
        hosts.len() == 0,
    ensures
        own_backends(hosts, v).len() == 0,
    decreases v.len(),
{
    if v.len() > 0 {
        lemma_no_backends(hosts, v.drop_last());
    }
}

proof fn lemma_no_certificates(hosts: Seq<SeenHost>, v: Seq<(Socket, Seq<char>)>)
    requires
        hosts.len() == 0,
    ensures
        own_certificates(hosts, v).len() == 0,
    decreases v.len(),
{
    if v.len() > 0 {
        lemma_no_certificates(hosts, v.drop_last());
    }
}

/// A holder of a scope sees the routes of its namespaces; one without a scope sees all.
pub proof fn law_holders_see_their_namespaces(h: Holder, ns: Seq<char>, rest: Seq<char>, v: Seq<Seq<char>>)
    requires
        !ns.contains('/'),
    ensures
        h.namespaces is None ==> h.global() && h.allows(ns) && h.route(ns + seq!['/'] + rest),
        h.namespaces == Some(v) ==> {
            &&& !h.global()
            &&& h.allows(ns) <==> v.contains(ns)
            &&& h.route(ns + seq!['/'] + rest) <==> v.contains(ns)
            &&& !h.route(ns)
        },
        h.writer() <==> h.role == Role::Writer,
{
    let s = ns + seq!['/'] + rest;
    assert forall|i: int| 0 <= i < ns.len() implies s[i] != '/' && ns[i] != '/' by {
        assert(ns.contains(ns[i]));
    }
    text::lemma_position_is(s, '/', ns.len() as int);
    text::lemma_position_is(ns, '/', ns.len() as int);
    assert(s.take(ns.len() as int) =~= ns);
}

/// A token follows `Bearer ` in the one field of authorization.
pub proof fn law_bearers_show_one_token(v: Seq<u8>, t: Seq<char>, fields: Seq<Seq<u8>>)
    requires
        header::visible_text(v) == Some("Bearer "@ + t),
    ensures
        text::byte_len(t) <= 4096 ==> token_of(seq![v]) == Some(t),
        text::byte_len(t) > 4096 ==> token_of(seq![v]) is None,
        fields.len() != 1 ==> token_of(fields) is None,
{
    text::lemma_prefixed("Bearer "@, t);
    assert(seq![v][0] == v);
}

/// A token that nobody has stands for nobody.
pub proof fn law_unknown_tokens_stand_for_nobody(v: Seq<(Seq<u8>, Holder)>, h: Seq<u8>)
    ensures
        (forall|i: int| 0 <= i < v.len() ==> (#[trigger] v[i]).0 != h) ==> by_digest(v, h) is None,
        by_digest(v, h) matches Some(x) ==> exists|i: int|
            0 <= i < v.len() && (#[trigger] v[i]).0 == h && v[i].1 == x,
    decreases v.len(),
{
    if v.len() > 0 {
        let t = v.drop_first();
        law_unknown_tokens_stand_for_nobody(t, h);
        assert(forall|i: int| 0 <= i < t.len() ==> t[i] == v[i + 1]);
        if v[0].0 == h {
        } else if by_digest(t, h) is Some {
            let i = choose|i: int| 0 <= i < t.len() && (#[trigger] t[i]).0 == h && t[i].1 == by_digest(t, h)->0;
            assert(v[i + 1] == t[i]);
        }
    }
}

/// The two tokens of the configuration are a writer's and a reader's, for all namespaces.
pub proof fn law_lone_tokens_have_their_role(s: Seq<char>, h: Seq<u8>)
    requires
        token_digest(s) == Ok::<Seq<u8>, AuthError>(h),
    ensures
        loaded(Some(s), None, None) == Ok::<Seq<(Seq<u8>, Holder)>, AuthError>(
            seq![(h, Holder { name: "writer"@, role: Role::Writer, namespaces: None })],
        ),
        loaded(None, Some(s), None) == Ok::<Seq<(Seq<u8>, Holder)>, AuthError>(
            seq![(h, Holder { name: "reader"@, role: Role::Reader, namespaces: None })],
        ),
{
    let a = seq![(h, Holder { name: "writer"@, role: Role::Writer, namespaces: None::<Seq<Seq<char>>> })];
    let b = seq![(h, Holder { name: "reader"@, role: Role::Reader, namespaces: None::<Seq<Seq<char>>> })];
    let e = Seq::<(Seq<u8>, Holder)>::empty();
    assert(a + e + e =~= a);
    assert(e + b + e =~= b);
}

/// A token is of visible characters, 32 bytes at least and 4096 at most, and is kept by its digest.
pub proof fn law_tokens_are_long_enough(s: Seq<char>, i: int)
    requires
        text::trim_spec(s) == s,
    ensures
        text::byte_len(s) < 32 || text::byte_len(s) > 4096 ==> token_digest(s) == Err::<Seq<u8>, AuthError>(
            AuthError::Token,
        ),
        0 <= i < s.len() && s[i] == ' ' ==> token_digest(s) == Err::<Seq<u8>, AuthError>(AuthError::Token),
        valid_token(s) ==> token_digest(s) == Ok::<Seq<u8>, AuthError>(sha256(encode_utf8(s))),
{
    if 0 <= i < s.len() && s[i] == ' ' {
        assert(!graphic(s[i]));
    }
}

/// A user has a name, the digest of a token and namespaces that are such.
pub proof fn law_users_are_checked(p: Person)
    ensures
        p.name.len() == 0 || text::byte_len(p.name) > 128 ==> checked(p) == Err::<(Seq<u8>, Holder), AuthError>(
            AuthError::Name,
        ),
        valid_identity(p.name) && p.token_sha256.len() != 64 ==> checked(p) == Err::<(Seq<u8>, Holder), AuthError>(
            AuthError::Digest,
        ),
        valid_identity(p.name) && hex_digest(p.token_sha256) && p.namespaces is None ==> checked(p) == Ok::<
            (Seq<u8>, Holder),
            AuthError,
        >((unhex(p.token_sha256), Holder { name: p.name, role: p.role, namespaces: None })),
        valid_identity(p.name) && hex_digest(p.token_sha256) && p.namespaces is Some && !tenancy::all_labels(
            p.namespaces->0,
        ) ==> checked(p) == Err::<(Seq<u8>, Holder), AuthError>(AuthError::Scope),
{
}

/// All is visible without a scope; with one, what is not of its namespaces is not, nor are the files.
pub proof fn law_scopes_bound_what_is_seen(h: Holder, s: Seen, v: Seq<(Seq<char>, Seq<Seq<char>>)>, r: (Seq<char>, Seq<Seq<char>>))
    ensures
        h.global() ==> visible(h, s) == s,
        !h.global() ==> !visible(h, s).bundled,
        h.route(r.0) ==> own_routes(h, v.push(r)) == own_routes(h, v).push(r),
        !h.route(r.0) ==> own_routes(h, v.push(r)) == own_routes(h, v),
{
    assert(v.push(r).drop_last() =~= v);
}

} // verus!
