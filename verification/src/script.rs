//! A request as the rules and the scripts see it, and what a script asks to change.
use crate::table::Table;
use crate::text;
use vstd::prelude::*;

verus! {

/// A request: the path is decoded and normal, the names of the fields are in lower case.
#[derive(Debug)]
pub struct RequestData {
    pub method: String,
    pub path: String,
    pub query: String,
    pub host: String,
    pub remote_addr: String,
    pub headers: Table,
    pub claims: Table,
}

/// What a `RequestData` holds.
#[verifier::ext_equal]
pub ghost struct Request {
    pub method: Seq<char>,
    pub path: Seq<char>,
    pub query: Seq<char>,
    pub host: Seq<char>,
    pub remote_addr: Seq<char>,
    pub headers: Map<Seq<char>, Seq<char>>,
    pub claims: Map<Seq<char>, Seq<char>>,
}

impl View for RequestData {
    type V = Request;

    open spec fn view(&self) -> Request {
        Request {
            method: self.method@,
            path: self.path@,
            query: self.query@,
            host: self.host@,
            remote_addr: self.remote_addr@,
            headers: self.headers@,
            claims: self.claims@,
        }
    }
}

impl Request {
    /// The value of a field, where the request has it.
    pub open spec fn header(self, name: Seq<char>) -> Option<Seq<char>> {
        if self.headers.dom().contains(name) {
            Some(self.headers[name])
        } else {
            None
        }
    }
}

impl RequestData {
    pub open spec fn wf(&self) -> bool {
        self.headers.wf() && self.claims.wf()
    }

    pub fn header(&self, name: &str) -> (r: Option<&str>)
        requires
            self.wf(),
        ensures
            match r {
                Some(s) => self@.header(name@) == Some(s@),
                None => self@.header(name@) is None,
            },
    {
        self.headers.get(name)
    }

    /// The same request again.
    pub fn copy(&self) -> (r: RequestData)
        ensures
            r@ == self@,
            r.wf() == self.wf(),
    {
        RequestData {
            method: self.method.clone(),
            path: self.path.clone(),
            query: self.query.clone(),
            host: self.host.clone(),
            remote_addr: self.remote_addr.clone(),
            headers: self.headers.copy(),
            claims: self.claims.copy(),
        }
    }
}

impl Default for RequestData {
    fn default() -> (r: Self)
        ensures
            r.wf(),
            r@.method == Seq::<char>::empty(),
            r@.path == Seq::<char>::empty(),
            r@.query == Seq::<char>::empty(),
            r@.host == Seq::<char>::empty(),
            r@.remote_addr == Seq::<char>::empty(),
            r@.headers == Map::<Seq<char>, Seq<char>>::empty(),
            r@.claims == Map::<Seq<char>, Seq<char>>::empty(),
    {
        RequestData {
            method: String::new(),
            path: String::new(),
            query: String::new(),
            host: String::new(),
            remote_addr: String::new(),
            headers: Table::new(),
            claims: Table::new(),
        }
    }
}

/// Changes to a request: another path or query, and fields to set or, without a value, to remove.
#[derive(Debug)]
pub struct Edits {
    pub path: Option<String>,
    pub query: Option<String>,
    pub headers: Vec<(String, Option<String>)>,
}

/// What an `Edits` holds.
#[verifier::ext_equal]
pub ghost struct Changes {
    pub path: Option<Seq<char>>,
    pub query: Option<Seq<char>>,
    pub headers: Seq<(Seq<char>, Option<Seq<char>>)>,
}

pub open spec fn field_edits(v: Seq<(String, Option<String>)>) -> Seq<
    (Seq<char>, Option<Seq<char>>),
> {
    Seq::new(v.len(), |i: int| (v[i].0@, text::opt(v[i].1)))
}

impl View for Edits {
    type V = Changes;

    open spec fn view(&self) -> Changes {
        Changes {
            path: text::opt(self.path),
            query: text::opt(self.query),
            headers: field_edits(self.headers@),
        }
    }
}

impl Default for Edits {
    fn default() -> (r: Self)
        ensures
            r@ == (Changes { path: None, query: None, headers: Seq::empty() }),
    {
        let r = Edits { path: None, query: None, headers: Vec::new() };
        assert(field_edits(r.headers@) =~= Seq::empty());
        r
    }
}

/// The edits with one more: it takes the place of an earlier one of the same name.
pub open spec fn edited(
    v: Seq<(Seq<char>, Option<Seq<char>>)>,
    name: Seq<char>,
    value: Option<Seq<char>>,
) -> Seq<(Seq<char>, Option<Seq<char>>)>
    decreases v.len(),
{
    if v.len() == 0 {
        seq![(name, value)]
    } else if v[0].0 == name {
        seq![(name, value)] + v.drop_first()
    } else {
        seq![v[0]] + edited(v.drop_first(), name, value)
    }
}

/// The edits with those of `w` one after the other.
pub open spec fn all_edited(
    v: Seq<(Seq<char>, Option<Seq<char>>)>,
    w: Seq<(Seq<char>, Option<Seq<char>>)>,
) -> Seq<(Seq<char>, Option<Seq<char>>)>
    decreases w.len(),
{
    if w.len() == 0 {
        v
    } else {
        edited(all_edited(v, w.drop_last()), w.last().0, w.last().1)
    }
}

impl Edits {
    /// Sets or, without a value, removes a field.
    pub fn edit(&mut self, name: String, value: Option<String>)
        ensures
            final(self)@ == (Changes {
                headers: edited(old(self)@.headers, name@, text::opt(value)),
                ..old(self)@
            }),
    {
        let ghost all = field_edits(self.headers@);
        let ghost key = name@;
        let ghost x = text::opt(value);
        let mut i: usize = 0;
        proof {
            assert(all.take(0) + edited(all.skip(0), key, x) =~= edited(all, key, x)) by {
                assert(all.skip(0) =~= all);
            }
        }
        while i < self.headers.len() && !text::same(self.headers[i].0.as_str(), name.as_str())
            invariant
                i <= self.headers.len(),
                all == field_edits(self.headers@),
                key == name@,
                all.take(i as int) + edited(all.skip(i as int), key, x) == edited(all, key, x),
            decreases self.headers.len() - i,
        {
            proof {
                let rest = all.skip(i as int);
                assert(rest.drop_first() =~= all.skip(i + 1));
                assert(all.take(i + 1) + edited(all.skip(i + 1), key, x) =~= all.take(i as int)
                    + edited(rest, key, x));
            }
            i += 1;
        }
        if i < self.headers.len() {
            proof {
                let rest = all.skip(i as int);
                assert(rest.drop_first() =~= all.skip(i + 1));
                assert(edited(rest, key, x) == seq![(key, x)] + all.skip(i + 1));
                assert(all.take(i as int) + (seq![(key, x)] + all.skip(i + 1)) =~= all.update(
                    i as int,
                    (key, x),
                ));
            }
            self.headers.set(i, (name, value));
            assert(field_edits(self.headers@) =~= all.update(i as int, (key, x)));
        } else {
            proof {
                assert(all.skip(i as int) =~= Seq::empty());
                assert(all.take(i as int) + seq![(key, x)] =~= all.push((key, x)));
            }
            self.headers.push((name, value));
            assert(field_edits(self.headers@) =~= all.push((key, x)));
        }
    }

    /// Takes the edits of another list over, one after the other.
    pub fn extend(&mut self, other: &Vec<(String, Option<String>)>)
        ensures
            final(self)@ == (Changes {
                headers: all_edited(old(self)@.headers, field_edits(other@)),
                ..old(self)@
            }),
    {
        let ghost all = field_edits(other@);
        let mut i: usize = 0;
        while i < other.len()
            invariant
                i <= other.len(),
                all == field_edits(other@),
                self@ == (Changes {
                    headers: all_edited(old(self)@.headers, all.take(i as int)),
                    ..old(self)@
                }),
            decreases other.len() - i,
        {
            assert(all.take(i + 1).drop_last() =~= all.take(i as int));
            self.edit(other[i].0.clone(), crate::model::copy_opt(&other[i].1));
            i += 1;
        }
        assert(all.take(i as int) =~= all);
    }
}

/// What a script decides of a request.
#[derive(Debug)]
pub enum Decision {
    Pass,
    Proxy(String),
    Reply(u16, String),
}

/// What stands of a field after the edits: the value of the first that names it.
pub open spec fn standing(v: Seq<(Seq<char>, Option<Seq<char>>)>, name: Seq<char>) -> Option<
    Option<Seq<char>>,
>
    decreases v.len(),
{
    if v.len() == 0 {
        None
    } else if v[0].0 == name {
        Some(v[0].1)
    } else {
        standing(v.drop_first(), name)
    }
}

/// An edit of a field stands in place of an earlier one, and leaves those of other fields as they are.
pub proof fn law_later_edits_stand(
    v: Seq<(Seq<char>, Option<Seq<char>>)>,
    name: Seq<char>,
    value: Option<Seq<char>>,
    other: Seq<char>,
)
    ensures
        standing(edited(v, name, value), name) == Some(value),
        other != name ==> standing(edited(v, name, value), other) == standing(v, other),
        edited(v, name, value).len() <= v.len() + 1,
        standing(v, name) is Some ==> edited(v, name, value).len() == v.len(),
    decreases v.len(),
{
    reveal_with_fuel(standing, 2);
    if v.len() == 0 {
        assert(edited(v, name, value).drop_first() =~= Seq::empty());
    } else {
        assert(edited(v, name, value).drop_first() =~= if v[0].0 == name {
            v.drop_first()
        } else {
            edited(v.drop_first(), name, value)
        });
        if v[0].0 != name {
            law_later_edits_stand(v.drop_first(), name, value, other);
        }
    }
}

/// The edits of a script stand over those before it.
pub proof fn law_edits_are_taken_over(
    v: Seq<(Seq<char>, Option<Seq<char>>)>,
    w: Seq<(Seq<char>, Option<Seq<char>>)>,
    name: Seq<char>,
)
    ensures
        (forall|i: int| 0 <= i < w.len() ==> (#[trigger] w[i]).0 != name) ==> standing(
            all_edited(v, w),
            name,
        ) == standing(v, name),
        w.len() > 0 ==> standing(all_edited(v, w), w.last().0) == Some(w.last().1),
    decreases w.len(),
{
    if w.len() > 0 {
        let l = w.drop_last();
        law_edits_are_taken_over(v, l, name);
        law_later_edits_stand(all_edited(v, l), w.last().0, w.last().1, name);
        assert(forall|i: int| 0 <= i < l.len() ==> l[i] == w[i]);
    }
}

} // verus!
