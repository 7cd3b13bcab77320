//! Header fields, and the checks of the `http` crate on their parts.
use crate::table::Table;
use crate::text;
use vstd::prelude::*;

verus! {

/// A header field; the name is in lower case.
#[derive(Debug)]
pub struct Field {
    pub name: String,
    pub value: Vec<u8>,
}

/// The fields of a message, in order.
#[derive(Debug)]
pub struct Headers {
    pub fields: Vec<Field>,
}

/// The values of the fields named `name`, in order.
pub open spec fn values(v: Seq<Field>, name: Seq<char>) -> Seq<Seq<u8>>
    decreases v.len(),
{
    if v.len() == 0 {
        Seq::empty()
    } else if v.last().name@ == name {
        values(v.drop_last(), name).push(v.last().value@)
    } else {
        values(v.drop_last(), name)
    }
}

pub open spec fn byte_views(v: Seq<Vec<u8>>) -> Seq<Seq<u8>> {
    Seq::new(v.len(), |i: int| v[i]@)
}

/// A byte that `HeaderValue::to_str` lets pass.
pub open spec fn spec_visible(b: u8) -> bool {
    (32 <= b && b < 127) || b == 9
}

/// The text of a value, where all of it is visible ASCII.
pub open spec fn visible_text(v: Seq<u8>) -> Option<Seq<char>> {
    if forall|i: int| 0 <= i < v.len() ==> spec_visible(#[trigger] v[i]) {
        Some(Seq::new(v.len(), |i: int| v[i] as char))
    } else {
        None
    }
}

/// The text of a value, where all of it is visible ASCII.
pub fn to_text(v: &Vec<u8>) -> (r: Option<String>)
    ensures
        text::opt(r) == visible_text(v@),
{
    let mut out = String::new();
    let mut i: usize = 0;
    while i < v.len()
        invariant
            i <= v.len(),
            out@ == Seq::new(i as nat, |j: int| v@[j] as char),
            forall|j: int| 0 <= j < i ==> spec_visible(#[trigger] v@[j]),
        decreases v.len() - i,
    {
        let b = v[i];
        if !((32 <= b && b < 127) || b == 9) {
            return None;
        }
        out.push(b as char);
        i += 1;
        assert(out@ =~= Seq::new(i as nat, |j: int| v@[j] as char));
    }
    Some(out)
}

impl Headers {
    /// The values of the fields named `name`, in order.
    pub fn all(&self, name: &str) -> (out: Vec<&Vec<u8>>)
        ensures
            out@.len() == values(self.fields@, name@).len(),
            forall|i: int|
                0 <= i < out@.len() ==> (#[trigger] out@[i])@ == values(self.fields@, name@)[i],
    {
        let mut out: Vec<&Vec<u8>> = Vec::new();
        let mut i: usize = 0;
        while i < self.fields.len()
            invariant
                i <= self.fields.len(),
                out@.len() == values(self.fields@.take(i as int), name@).len(),
                forall|j: int|
                    0 <= j < out@.len() ==> (#[trigger] out@[j])@ == values(
                        self.fields@.take(i as int),
                        name@,
                    )[j],
            decreases self.fields.len() - i,
        {
            assert(self.fields@.take(i + 1).drop_last() =~= self.fields@.take(i as int));
            if text::same(self.fields[i].name.as_str(), name) {
                out.push(&self.fields[i].value);
            }
            i += 1;
        }
        assert(self.fields@.take(i as int) =~= self.fields@);
        out
    }

    /// The value of the first field named `name`.
    pub fn first(&self, name: &str) -> (r: Option<&Vec<u8>>)
        ensures
            match r {
                Some(v) => values(self.fields@, name@).len() > 0 && v@ == values(
                    self.fields@,
                    name@,
                )[0],
                None => values(self.fields@, name@).len() == 0,
            },
    {
        let all = self.all(name);
        if all.len() > 0 {
            Some(all[0])
        } else {
            None
        }
    }

    pub fn has(&self, name: &str) -> (r: bool)
        ensures
            r == (values(self.fields@, name@).len() > 0),
    {
        self.first(name).is_some()
    }

    /// The text of the first field named `name`, where it is visible ASCII.
    pub fn first_text(&self, name: &str) -> (r: Option<String>)
        ensures
            text::opt(r) == first_text_of(self.fields@, name@),
    {
        match self.first(name) {
            Some(v) => to_text(v),
            None => None,
        }
    }
}

pub open spec fn first_text_of(v: Seq<Field>, name: Seq<char>) -> Option<Seq<char>> {
    if values(v, name).len() > 0 {
        visible_text(values(v, name)[0])
    } else {
        None
    }
}

/// A character of an HTTP token.
pub open spec fn token_char(c: char) -> bool {
    text::spec_alphanumeric(c) || c == '!' || c == '#' || c == '$' || c == '%' || c == '&' || c
        == '\'' || c == '*' || c == '+' || c == '-' || c == '.' || c == '^' || c == '_' || c == '`'
        || c == '|' || c == '~'
}

pub open spec fn token(s: Seq<char>) -> bool {
    s.len() > 0 && forall|i: int| 0 <= i < s.len() ==> token_char(#[trigger] s[i])
}

/// A name that a header field can have.
pub open spec fn valid_name(s: Seq<char>) -> bool {
    token(s) && s.len() <= 65535
}

/// `HeaderName::from_bytes` of the `http` crate accepts the tokens of at most 65535 characters, and
/// keeps the name in lower case.
#[verifier::external_body]
pub(crate) fn name(s: &str) -> (r: Option<String>)
    ensures
        match r {
            Some(n) => valid_name(s@) && n@ == text::lowercase(s@),
            None => !valid_name(s@),
        },
{
    http::header::HeaderName::from_bytes(s.as_bytes()).ok().map(|n| n.as_str().to_owned())
}

/// A text that can stand in a header field: no control character but the tab.
pub open spec fn valid_value(s: Seq<char>) -> bool {
    forall|i: int|
        0 <= i < s.len() ==> (#[trigger] s[i] as u32 >= 32 && s[i] as u32 != 127) || s[i] == '\t'
}

/// `HeaderValue::from_str` of the `http` crate accepts every text without control characters, the tab
/// excepted.
#[verifier::external_body]
pub(crate) fn value_accepted(s: &str) -> (r: bool)
    ensures
        r == valid_value(s@),
{
    http::HeaderValue::from_str(s).is_ok()
}

/// `Method::from_bytes` of the `http` crate accepts every token.
#[verifier::external_body]
pub(crate) fn method_accepted(s: &str) -> (r: bool)
    ensures
        r == token(s@),
{
    http::Method::from_bytes(s.as_bytes()).is_ok()
}

// ---------------------------------------------------------------------------
// Changes
// ---------------------------------------------------------------------------

/// The names and values of fields.
pub open spec fn raw(v: Seq<Field>) -> Seq<(Seq<char>, Seq<u8>)> {
    Seq::new(v.len(), |i: int| (v[i].name@, v[i].value@))
}

/// The values of a name among pairs.
pub open spec fn raw_values(v: Seq<(Seq<char>, Seq<u8>)>, name: Seq<char>) -> Seq<Seq<u8>>
    decreases v.len(),
{
    if v.len() == 0 {
        Seq::empty()
    } else if v.last().0 == name {
        raw_values(v.drop_last(), name).push(v.last().1)
    } else {
        raw_values(v.drop_last(), name)
    }
}

pub proof fn lemma_raw_values(v: Seq<Field>, name: Seq<char>)
    ensures
        raw_values(raw(v), name) == values(v, name),
    decreases v.len(),
{
    if v.len() > 0 {
        lemma_raw_values(v.drop_last(), name);
        assert(raw(v).drop_last() =~= raw(v.drop_last()));
    }
}

/// The fields of every other name.
pub open spec fn dropped(v: Seq<(Seq<char>, Seq<u8>)>, name: Seq<char>) -> Seq<
    (Seq<char>, Seq<u8>),
>
    decreases v.len(),
{
    if v.len() == 0 {
        Seq::empty()
    } else if v.last().0 == name {
        dropped(v.drop_last(), name)
    } else {
        dropped(v.drop_last(), name).push(v.last())
    }
}

/// The fields with one of this name and no other.
pub open spec fn placed(v: Seq<(Seq<char>, Seq<u8>)>, name: Seq<char>, value: Seq<u8>) -> Seq<
    (Seq<char>, Seq<u8>),
> {
    dropped(v, name).push((name, value))
}

pub proof fn lemma_dropped(v: Seq<(Seq<char>, Seq<u8>)>, name: Seq<char>, other: Seq<char>)
    ensures
        raw_values(dropped(v, name), other) == if other == name {
            Seq::<Seq<u8>>::empty()
        } else {
            raw_values(v, other)
        },
    decreases v.len(),
{
    if v.len() > 0 {
        lemma_dropped(v.drop_last(), name, other);
        let d = dropped(v.drop_last(), name);
        if v.last().0 != name {
            assert(d.push(v.last()).drop_last() =~= d);
        }
    }
}

/// A field that was set has the one value that was given, and no other name is touched.
pub proof fn law_set_fields_have_one_value(
    v: Seq<(Seq<char>, Seq<u8>)>,
    name: Seq<char>,
    value: Seq<u8>,
    other: Seq<char>,
)
    ensures
        raw_values(placed(v, name, value), name) == seq![value],
        other != name ==> raw_values(placed(v, name, value), other) == raw_values(v, other),
{
    let d = dropped(v, name);
    lemma_dropped(v, name, name);
    lemma_dropped(v, name, other);
    assert(d.push((name, value)).drop_last() =~= d);
    assert(Seq::<Seq<u8>>::empty().push(value) =~= seq![value]);
}

fn copy_bytes(v: &Vec<u8>) -> (out: Vec<u8>)
    ensures
        out@ == v@,
{
    let mut out: Vec<u8> = Vec::new();
    let mut i: usize = 0;
    while i < v.len()
        invariant
            i <= v.len(),
            out@ == v@.take(i as int),
        decreases v.len() - i,
    {
        out.push(v[i]);
        i += 1;
        assert(out@ =~= v@.take(i as int));
    }
    assert(v@.take(i as int) =~= v@);
    out
}

/// The text of each field that is visible ASCII; of several of one name the last counts.
pub open spec fn text_map(v: Seq<(Seq<char>, Seq<u8>)>) -> Map<Seq<char>, Seq<char>>
    decreases v.len(),
{
    if v.len() == 0 {
        Map::empty()
    } else {
        match visible_text(v.last().1) {
            Some(s) => text_map(v.drop_last()).insert(v.last().0, s),
            None => text_map(v.drop_last()),
        }
    }
}

impl Headers {
    pub open spec fn raw(&self) -> Seq<(Seq<char>, Seq<u8>)> {
        raw(self.fields@)
    }

    /// The same fields again.
    pub fn copy(&self) -> (r: Headers)
        ensures
            r.raw() == self.raw(),
    {
        let mut fields: Vec<Field> = Vec::new();
        let mut i: usize = 0;
        while i < self.fields.len()
            invariant
                i <= self.fields.len(),
                raw(fields@) == self.raw().take(i as int),
            decreases self.fields.len() - i,
        {
            let f = &self.fields[i];
            let ghost before = raw(fields@);
            fields.push(Field { name: f.name.clone(), value: copy_bytes(&f.value) });
            proof {
                assert(raw(fields@) =~= before.push((f.name@, f.value@)));
                assert(self.raw().take(i + 1) =~= self.raw().take(i as int).push(
                    (f.name@, f.value@),
                ));
            }
            i += 1;
        }
        assert(self.raw().take(i as int) =~= self.raw());
        Headers { fields }
    }

    /// Removes the fields of a name, which is in lower case.
    pub fn remove(&mut self, name: &str)
        ensures
            final(self).raw() == dropped(old(self).raw(), name@),
    {
        let ghost all = self.raw();
        let mut fields: Vec<Field> = Vec::new();
        let mut i: usize = 0;
        assert(raw(fields@) =~= Seq::empty());
        while i < self.fields.len()
            invariant
                i <= self.fields.len(),
                all == raw(self.fields@),
                raw(fields@) == dropped(all.take(i as int), name@),
            decreases self.fields.len() - i,
        {
            let f = &self.fields[i];
            let ghost before = raw(fields@);
            assert(all.take(i + 1).drop_last() =~= all.take(i as int));
            if !text::same(f.name.as_str(), name) {
                fields.push(Field { name: f.name.clone(), value: copy_bytes(&f.value) });
                assert(raw(fields@) =~= before.push((f.name@, f.value@)));
            }
            i += 1;
        }
        assert(all.take(i as int) =~= all);
        self.fields = fields;
    }

    /// Adds a field beside those of its name, which is in lower case.
    pub fn append(&mut self, name: String, value: Vec<u8>)
        ensures
            final(self).raw() == old(self).raw().push((name@, value@)),
    {
        let ghost before = self.raw();
        let ghost x = (name@, value@);
        self.fields.push(Field { name, value });
        assert(self.raw() =~= before.push(x));
    }

    /// Puts a field in the place of those of its name, which is in lower case.
    pub fn insert(&mut self, name: String, value: Vec<u8>)
        ensures
            final(self).raw() == placed(old(self).raw(), name@, value@),
    {
        self.remove(name.as_str());
        self.append(name, value);
    }

    /// The text of each field that is visible ASCII; of several of one name the last counts.
    pub fn text_table(&self) -> (t: Table)
        ensures
            t.wf(),
            t@ == text_map(self.raw()),
    {
        let ghost all = self.raw();
        let mut t = Table::new();
        let mut i: usize = 0;
        while i < self.fields.len()
            invariant
                i <= self.fields.len(),
                all == raw(self.fields@),
                t.wf(),
                t@ == text_map(all.take(i as int)),
            decreases self.fields.len() - i,
        {
            let f = &self.fields[i];
            assert(all.take(i + 1).drop_last() =~= all.take(i as int));
            if let Some(s) = to_text(&f.value) {
                t.insert(f.name.clone(), s);
            }
            i += 1;
        }
        assert(all.take(i as int) =~= all);
        t
    }
}

/// The values of a field are those that it was given, in their order, and adding to one field adds to no other.
pub proof fn law_values_are_in_order(v: Seq<(Seq<char>, Seq<u8>)>, name: Seq<char>, value: Seq<u8>, other: Seq<char>)
    ensures
        raw_values(v.push((name, value)), name) == raw_values(v, name).push(value),
        other != name ==> raw_values(v.push((name, value)), other) == raw_values(v, other),
        raw_values(dropped(v, name), name).len() == 0,
        other != name ==> raw_values(dropped(v, name), other) == raw_values(v, other),
{
    assert(v.push((name, value)).drop_last() =~= v);
    lemma_dropped(v, name, name);
    lemma_dropped(v, name, other);
}

/// A value of visible bytes is the text of their characters; any other is no text.
pub proof fn law_texts_are_visible(v: Seq<u8>, i: int)
    requires
        0 <= i < v.len(),
    ensures
        visible_text(v) matches Some(s) ==> s.len() == v.len() && s[i] == v[i] as char,
        v[i] < 9 || v[i] >= 127 || 10 <= v[i] < 32 ==> visible_text(v) is None,
        (forall|j: int| 0 <= j < v.len() ==> 32 <= #[trigger] v[j] < 127) ==> visible_text(v) is Some,
{
    if v[i] < 9 || v[i] >= 127 || 10 <= v[i] < 32 {
        assert(!spec_visible(v[i]));
    }
}

/// A name is of letters, digits and a few marks, and a value holds no control characters.
pub proof fn law_names_and_values_are_checked(s: Seq<char>, i: int)
    requires
        0 <= i < s.len(),
    ensures
        s[i] == ' ' || s[i] == ':' || s[i] == '(' || s[i] == ',' || s[i] == '/' || s[i] == '@' || s[i] == '"'
            || s[i] == '\n' ==> !valid_name(s),
        s[i] == '\n' || s[i] == '\r' || s[i] == '\0' ==> !valid_value(s),
        s.len() <= 65535 && (forall|j: int| 0 <= j < s.len() ==> 'a' <= #[trigger] s[j] <= 'z') ==> valid_name(
            s,
        ),
        (forall|j: int| 0 <= j < s.len() ==> ' ' <= #[trigger] s[j] <= '~') ==> valid_value(s),
        !valid_name(Seq::empty()),
{
    if s[i] == ' ' || s[i] == ':' || s[i] == '(' || s[i] == ',' || s[i] == '/' || s[i] == '@' || s[i] == '"'
        || s[i] == '\n' {
        assert(!token_char(s[i]));
    }
    if s[i] == '\n' || s[i] == '\r' || s[i] == '\0' {
        assert(!(s[i] as u32 >= 32 && s[i] as u32 != 127));
    }
}

/// The table of a request's fields holds the last value of each that is text.
pub proof fn law_tables_hold_the_last_value(v: Seq<(Seq<char>, Seq<u8>)>, name: Seq<char>, value: Seq<u8>)
    ensures
        visible_text(value) matches Some(s) ==> text_map(v.push((name, value))) == text_map(v).insert(name, s),
        visible_text(value) is None ==> text_map(v.push((name, value))) == text_map(v),
        text_map(Seq::empty()).dom() =~= Set::empty(),
{
    assert(v.push((name, value)).drop_last() =~= v);
}

} // verus!
