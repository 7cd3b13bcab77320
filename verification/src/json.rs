//! JSON values, as far as rules read them.
use crate::text;
use vstd::prelude::*;

verus! {

/// A JSON value; a number is kept as it is written.
#[derive(Debug)]
pub enum Json {
    Null,
    Bool(bool),
    Number(String),
    Text(String),
    List(Vec<Json>),
    Object(Vec<(String, Json)>),
}

/// The value of the first member of a name.
pub open spec fn member(v: Seq<(String, Json)>, name: Seq<char>) -> Option<Json>
    decreases v.len(),
{
    if v.len() == 0 {
        None
    } else if v[0].0@ == name {
        Some(v[0].1)
    } else {
        member(v.drop_first(), name)
    }
}

impl Json {
    /// The member of an object; nothing where the value is no object.
    pub open spec fn entry(self, name: Seq<char>) -> Option<Json> {
        match self {
            Json::Object(v) => member(v@, name),
            _ => None,
        }
    }

    /// The member of an object, null where there is none.
    pub open spec fn at(self, name: Seq<char>) -> Json {
        match self.entry(name) {
            Some(j) => j,
            None => Json::Null,
        }
    }

    pub open spec fn string(self) -> Option<Seq<char>> {
        match self {
            Json::Text(s) => Some(s@),
            _ => None,
        }
    }

    pub open spec fn list(self) -> Option<Seq<Json>> {
        match self {
            Json::List(v) => Some(v@),
            _ => None,
        }
    }

    pub open spec fn members(self) -> Option<Seq<(String, Json)>> {
        match self {
            Json::Object(v) => Some(v@),
            _ => None,
        }
    }

    /// The text of a member, or `fallback` where it is missing or no text.
    pub open spec fn string_or(self, name: Seq<char>, fallback: Seq<char>) -> Seq<char> {
        match self.at(name).string() {
            Some(s) => s,
            None => fallback,
        }
    }

    /// The whole number that a value is, where it is one that is not negative.
    pub open spec fn number(self) -> Option<nat> {
        match self {
            Json::Number(s) => if s@.len() > 0 && text::all_digits(s@) {
                text::decimal_upto(s@, u64::MAX as nat)
            } else {
                None
            },
            _ => None,
        }
    }

    /// The member of an object, null where there is none.
    pub fn field(&self, name: &str) -> (r: &Json)
        ensures
            *r == self.at(name@),
    {
        match self.get(name) {
            Some(j) => j,
            None => &Json::Null,
        }
    }

    /// The whole number that a value is, where it is one that is not negative.
    pub fn as_u64(&self) -> (r: Option<u64>)
        ensures
            match r {
                Some(n) => self.number() == Some(n as nat),
                None => self.number() is None,
            },
    {
        match self {
            Json::Number(s) => {
                let v = text::chars(s.as_str());
                if v.len() == 0 || !text::digit(v[0]) {
                    proof {
                        if v@.len() > 0 {
                            assert(!text::spec_digit(s@[0]));
                        }
                    }
                    return None;
                }
                let r = text::parse_u64(s.as_str());
                proof {
                    if r is None && text::all_digits(s@) {
                        assert(text::decimal_upto(s@, u64::MAX as nat) is None);
                    }
                    if r is Some {
                        assert(s@[0] != '+');
                    }
                }
                r
            },
            _ => None,
        }
    }

    pub fn get(&self, name: &str) -> (r: Option<&Json>)
        ensures
            match r {
                Some(j) => self.entry(name@) == Some(*j),
                None => self.entry(name@) is None,
            },
    {
        match self {
            Json::Object(v) => find(v, name),
            _ => None,
        }
    }

    pub fn as_str(&self) -> (r: Option<&str>)
        ensures
            match r {
                Some(s) => self.string() == Some(s@),
                None => self.string() is None,
            },
    {
        match self {
            Json::Text(s) => Some(s.as_str()),
            _ => None,
        }
    }

    pub fn as_array(&self) -> (r: Option<&Vec<Json>>)
        ensures
            match r {
                Some(v) => self.list() == Some(v@),
                None => self.list() is None,
            },
    {
        match self {
            Json::List(v) => Some(v),
            _ => None,
        }
    }

    pub fn as_object(&self) -> (r: Option<&Vec<(String, Json)>>)
        ensures
            match r {
                Some(v) => self.members() == Some(v@),
                None => self.members() is None,
            },
    {
        match self {
            Json::Object(v) => Some(v),
            _ => None,
        }
    }

    /// The text of a member, where it is one.
    pub fn get_str(&self, name: &str) -> (r: Option<&str>)
        ensures
            match r {
                Some(s) => self.at(name@).string() == Some(s@),
                None => self.at(name@).string() is None,
            },
    {
        match self.get(name) {
            Some(j) => j.as_str(),
            None => None,
        }
    }

    /// The list that a member is, where it is one.
    pub fn get_array(&self, name: &str) -> (r: Option<&Vec<Json>>)
        ensures
            match r {
                Some(v) => self.at(name@).list() == Some(v@),
                None => self.at(name@).list() is None,
            },
    {
        match self.get(name) {
            Some(j) => j.as_array(),
            None => None,
        }
    }

    /// The text of a member, or `fallback` where it is missing or no text.
    pub fn text<'a>(&'a self, name: &str, fallback: &'a str) -> (r: &'a str)
        ensures
            r@ == self.string_or(name@, fallback@),
    {
        match self.get_str(name) {
            Some(s) => s,
            None => fallback,
        }
    }
}

pub fn find<'a>(v: &'a Vec<(String, Json)>, name: &str) -> (r: Option<&'a Json>)
    ensures
        match r {
            Some(j) => member(v@, name@) == Some(*j),
            None => member(v@, name@) is None,
        },
{
    let mut i: usize = 0;
    assert(v@.skip(0) =~= v@);
    while i < v.len()
        invariant
            i <= v.len(),
            member(v@.skip(i as int), name@) == member(v@, name@),
        decreases v.len() - i,
    {
        assert(v@.skip(i as int).drop_first() =~= v@.skip(i + 1));
        if text::same(v[i].0.as_str(), name) {
            return Some(&v[i].1);
        }
        i += 1;
    }
    None
}

// ---------------------------------------------------------------------------
// Values by what they hold
// ---------------------------------------------------------------------------

/// What a JSON value holds.
#[verifier::ext_equal]
pub ghost enum Tree {
    Null,
    Bool(bool),
    Number(Seq<char>),
    Text(Seq<char>),
    List(Seq<Tree>),
    Object(Seq<(Seq<char>, Tree)>),
}

impl Json {
    pub open spec fn tree(self) -> Tree
        decreases self,
    {
        match self {
            Json::Null => Tree::Null,
            Json::Bool(b) => Tree::Bool(b),
            Json::Number(s) => Tree::Number(s@),
            Json::Text(s) => Tree::Text(s@),
            Json::List(v) => Tree::List(
                Seq::new(
                    v@.len(),
                    |i: int|
                        if 0 <= i < v@.len() {
                            v@[i].tree()
                        } else {
                            arbitrary()
                        },
                ),
            ),
            Json::Object(v) => Tree::Object(
                Seq::new(
                    v@.len(),
                    |i: int|
                        if 0 <= i < v@.len() {
                            (v@[i].0@, v@[i].1.tree())
                        } else {
                            arbitrary()
                        },
                ),
            ),
        }
    }
}

pub open spec fn trees(v: Seq<Json>) -> Seq<Tree> {
    Seq::new(v.len(), |i: int| v[i].tree())
}

pub open spec fn member_trees(v: Seq<(String, Json)>) -> Seq<(Seq<char>, Tree)> {
    Seq::new(v.len(), |i: int| (v[i].0@, v[i].1.tree()))
}

pub proof fn lemma_tree(j: Json)
    ensures
        j matches Json::List(v) ==> j.tree() == Tree::List(trees(v@)),
        j matches Json::Object(v) ==> j.tree() == Tree::Object(member_trees(v@)),
{
    match j {
        Json::List(v) => {
            assert(j.tree()->List_0 =~= trees(v@));
        },
        Json::Object(v) => {
            assert(j.tree()->Object_0 =~= member_trees(v@));
        },
        _ => {},
    }
}

/// Whether two values hold the same. The order in which the members of an object stand makes no
/// difference; their names are distinct.
pub open spec fn alike(a: Tree, b: Tree) -> bool
    decreases a, 0nat,
{
    match (a, b) {
        (Tree::List(v), Tree::List(w)) => v.len() == w.len() && all_alike(v, w),
        (Tree::Object(v), Tree::Object(w)) => alike_members(v, w) && named_in(w, v),
        _ => a == b,
    }
}

/// Whether two lists of one length hold the same.
pub open spec fn all_alike(v: Seq<Tree>, w: Seq<Tree>) -> bool
    decreases v, 1nat,
{
    v.len() == 0 || (alike(v.last(), w.last()) && all_alike(v.drop_last(), w.drop_last()))
}

/// Whether each member is also one of `w`, and holds the same there.
pub open spec fn alike_members(v: Seq<(Seq<char>, Tree)>, w: Seq<(Seq<char>, Tree)>) -> bool
    decreases v, 1nat,
{
    v.len() == 0 || (branch(w, v.last().0) is Some && alike(v.last().1, branch(w, v.last().0)->0)
        && alike_members(v.drop_last(), w))
}

/// Whether each name is also one of `w`.
pub open spec fn named_in(v: Seq<(Seq<char>, Tree)>, w: Seq<(Seq<char>, Tree)>) -> bool {
    forall|i: int| 0 <= i < v.len() ==> branch(w, (#[trigger] v[i]).0) is Some
}

proof fn lemma_all_alike(v: Seq<Tree>, w: Seq<Tree>)
    requires
        v.len() == w.len(),
    ensures
        all_alike(v, w) <==> forall|i: int| 0 <= i < v.len() ==> alike(#[trigger] v[i], w[i]),
    decreases v.len(),
{
    if v.len() > 0 {
        let (x, y) = (v.drop_last(), w.drop_last());
        lemma_all_alike(x, y);
        assert(forall|i: int| 0 <= i < x.len() ==> x[i] == #[trigger] v[i] && y[i] == w[i]);
        if all_alike(v, w) {
            assert forall|i: int| 0 <= i < v.len() implies alike(#[trigger] v[i], w[i]) by {
                if i < x.len() {
                    assert(alike(x[i], y[i]));
                }
            }
        }
        if forall|i: int| 0 <= i < v.len() ==> alike(#[trigger] v[i], w[i]) {
            assert forall|i: int| 0 <= i < x.len() implies alike(#[trigger] x[i], y[i]) by {
                assert(alike(v[i], w[i]));
            }
            assert(alike(v[v.len() - 1], w[v.len() - 1]));
        }
    }
}

pub open spec fn alike_in(m: (Seq<char>, Tree), w: Seq<(Seq<char>, Tree)>) -> bool {
    branch(w, m.0) is Some && alike(m.1, branch(w, m.0)->0)
}

proof fn lemma_alike_members(v: Seq<(Seq<char>, Tree)>, w: Seq<(Seq<char>, Tree)>)
    ensures
        alike_members(v, w) <==> forall|i: int| 0 <= i < v.len() ==> alike_in(#[trigger] v[i], w),
    decreases v.len(),
{
    if v.len() > 0 {
        let x = v.drop_last();
        lemma_alike_members(x, w);
        if alike_members(v, w) {
            assert forall|i: int| 0 <= i < v.len() implies alike_in(#[trigger] v[i], w) by {
                if i < x.len() {
                    assert(alike_in(x[i], w));
                }
            }
        }
        if forall|i: int| 0 <= i < v.len() ==> alike_in(#[trigger] v[i], w) {
            assert forall|i: int| 0 <= i < x.len() implies alike_in(#[trigger] x[i], w) by {
                assert(alike_in(v[i], w));
            }
            assert(alike_in(v[v.len() - 1], w));
        }
    }
}

/// Whether two lists hold the same values.
fn same_lists(a: &Vec<Json>, b: &Vec<Json>) -> (r: bool)
    ensures
        r == (a@.len() == b@.len() && all_alike(trees(a@), trees(b@))),
    decreases a@, 1nat,
{
    let ghost x = trees(a@);
    let ghost y = trees(b@);
    if a.len() != b.len() {
        return false;
    }
    proof {
        lemma_all_alike(x, y);
    }
    let mut i: usize = 0;
    while i < a.len()
        invariant
            i <= a.len() == b.len(),
            x == trees(a@),
            y == trees(b@),
            all_alike(x, y) <==> forall|j: int| 0 <= j < x.len() ==> alike(#[trigger] x[j], y[j]),
            forall|j: int| 0 <= j < i ==> alike(#[trigger] x[j], y[j]),
        decreases a.len() - i,
    {
        proof {
            assert(decreases_to!(a@ => a@[i as int]));
        }
        if !a[i].same(&b[i]) {
            assert(!alike(x[i as int], y[i as int]));
            return false;
        }
        i += 1;
    }
    true
}

/// Whether two objects have the same members.
fn same_members(a: &Vec<(String, Json)>, b: &Vec<(String, Json)>) -> (r: bool)
    ensures
        r == (alike_members(member_trees(a@), member_trees(b@)) && named_in(
            member_trees(b@),
            member_trees(a@),
        )),
    decreases a@, 1nat,
{
    let ghost x = member_trees(a@);
    let ghost y = member_trees(b@);
    proof {
        lemma_alike_members(x, y);
    }
    let mut i: usize = 0;
    while i < a.len()
        invariant
            i <= a.len(),
            x == member_trees(a@),
            y == member_trees(b@),
            alike_members(x, y) <==> forall|j: int| 0 <= j < x.len() ==> alike_in(#[trigger] x[j], y),
            forall|j: int| 0 <= j < i ==> alike_in(#[trigger] x[j], y),
        decreases a.len() - i,
    {
        proof {
            assert(decreases_to!(a@ => a@[i as int]));
            assert(decreases_to!(a@[i as int] => a@[i as int].1));
            lemma_branch(b@, a@[i as int].0@);
            assert(x[i as int] == (a@[i as int].0@, a@[i as int].1.tree()));
        }
        let alike = match find(b, a[i].0.as_str()) {
            Some(j) => a[i].1.same(j),
            None => false,
        };
        if !alike {
            assert(!alike_in(x[i as int], y));
            return false;
        }
        i += 1;
    }
    let mut k: usize = 0;
    while k < b.len()
        invariant
            k <= b.len(),
            x == member_trees(a@),
            y == member_trees(b@),
            forall|j: int| 0 <= j < k ==> branch(x, (#[trigger] y[j]).0) is Some,
        decreases b.len() - k,
    {
        proof {
            lemma_branch(a@, b@[k as int].0@);
            assert(y[k as int].0 == b@[k as int].0@);
        }
        if find(a, b[k].0.as_str()).is_none() {
            return false;
        }
        k += 1;
    }
    true
}

impl Json {
    /// Whether two values hold the same.
    pub fn same(&self, other: &Json) -> (r: bool)
        ensures
            r == alike(self.tree(), other.tree()),
        decreases *self, 0nat,
    {
        proof {
            lemma_tree(*self);
            lemma_tree(*other);
        }
        match (self, other) {
            (Json::Null, Json::Null) => true,
            (Json::Bool(a), Json::Bool(b)) => *a == *b,
            (Json::Number(a), Json::Number(b)) => text::same(a.as_str(), b.as_str()),
            (Json::Text(a), Json::Text(b)) => text::same(a.as_str(), b.as_str()),
            (Json::List(a), Json::List(b)) => {
                proof {
                    assert(decreases_to!(*self => a@));
                }
                same_lists(a, b)
            },
            (Json::Object(a), Json::Object(b)) => {
                proof {
                    assert(decreases_to!(*self => a@));
                }
                same_members(a, b)
            },
            _ => false,
        }
    }
}

fn copy_list(v: &Vec<Json>) -> (out: Vec<Json>)
    ensures
        trees(out@) == trees(v@),
    decreases v@, 1nat,
{
    let mut out: Vec<Json> = Vec::new();
    let mut i: usize = 0;
    while i < v.len()
        invariant
            i <= v.len(),
            trees(out@) =~= trees(v@).take(i as int),
        decreases v.len() - i,
    {
        proof {
            assert(decreases_to!(v@ => v@[i as int]));
        }
        let ghost before = out@;
        out.push(v[i].copy());
        assert(trees(out@) =~= trees(before).push(v@[i as int].tree()));
        i += 1;
    }
    out
}

pub fn copy_members(v: &Vec<(String, Json)>) -> (out: Vec<(String, Json)>)
    ensures
        member_trees(out@) == member_trees(v@),
    decreases v@, 1nat,
{
    let mut out: Vec<(String, Json)> = Vec::new();
    let mut i: usize = 0;
    while i < v.len()
        invariant
            i <= v.len(),
            member_trees(out@) =~= member_trees(v@).take(i as int),
        decreases v.len() - i,
    {
        proof {
            assert(decreases_to!(v@ => v@[i as int]));
            assert(decreases_to!(v@[i as int] => v@[i as int].1));
        }
        let ghost before = out@;
        out.push((v[i].0.clone(), v[i].1.copy()));
        assert(member_trees(out@) =~= member_trees(before).push(
            (v@[i as int].0@, v@[i as int].1.tree()),
        ));
        i += 1;
    }
    out
}

impl Json {
    /// The same value again.
    pub fn copy(&self) -> (r: Json)
        ensures
            r.tree() == self.tree(),
        decreases *self, 0nat,
    {
        proof {
            lemma_tree(*self);
        }
        let r = match self {
            Json::Null => Json::Null,
            Json::Bool(b) => Json::Bool(*b),
            Json::Number(s) => Json::Number(s.clone()),
            Json::Text(s) => Json::Text(s.clone()),
            Json::List(v) => {
                proof {
                    assert(decreases_to!(*self => v@));
                }
                Json::List(copy_list(v))
            },
            Json::Object(v) => {
                proof {
                    assert(decreases_to!(*self => v@));
                }
                Json::Object(copy_members(v))
            },
        };
        proof {
            lemma_tree(r);
        }
        r
    }
}

/// What the first member of a name holds.
pub open spec fn branch(v: Seq<(Seq<char>, Tree)>, name: Seq<char>) -> Option<Tree>
    decreases v.len(),
{
    if v.len() == 0 {
        None
    } else if v[0].0 == name {
        Some(v[0].1)
    } else {
        branch(v.drop_first(), name)
    }
}

impl Tree {
    /// What the member of an object holds, null where there is none.
    pub open spec fn at(self, name: Seq<char>) -> Tree {
        match self {
            Tree::Object(v) => match branch(v, name) {
                Some(t) => t,
                None => Tree::Null,
            },
            _ => Tree::Null,
        }
    }

    pub open spec fn list(self) -> Option<Seq<Tree>> {
        match self {
            Tree::List(v) => Some(v),
            _ => None,
        }
    }

    pub open spec fn string(self) -> Option<Seq<char>> {
        match self {
            Tree::Text(s) => Some(s),
            _ => None,
        }
    }

    pub open spec fn string_or(self, name: Seq<char>, fallback: Seq<char>) -> Seq<char> {
        match self.at(name).string() {
            Some(s) => s,
            None => fallback,
        }
    }
}

pub proof fn lemma_branch(v: Seq<(String, Json)>, name: Seq<char>)
    ensures
        branch(member_trees(v), name) == match member(v, name) {
            Some(j) => Some(j.tree()),
            None => None,
        },
    decreases v.len(),
{
    if v.len() > 0 {
        assert(member_trees(v).drop_first() =~= member_trees(v.drop_first()));
        lemma_branch(v.drop_first(), name);
    }
}

/// What a member holds is the same, read from the value or from what the value holds.
pub proof fn lemma_at(j: Json, name: Seq<char>)
    ensures
        j.at(name).tree() == j.tree().at(name),
        j.tree().string() == j.string(),
        j.tree().list() == match j.list() {
            Some(v) => Some(trees(v)),
            None => None,
        },
{
    lemma_tree(j);
    if let Json::Object(v) = j {
        lemma_branch(v@, name);
    }
}

/// Members with one of a name, in its place by the order of names.
pub open spec fn with_branch(v: Seq<(Seq<char>, Tree)>, name: Seq<char>, t: Tree) -> Seq<
    (Seq<char>, Tree),
>
    decreases v.len(),
{
    if v.len() == 0 {
        seq![(name, t)]
    } else if v[0].0 == name {
        seq![(name, t)] + v.drop_first()
    } else if text::before(name, v[0].0) {
        seq![(name, t)] + v
    } else {
        seq![v[0]] + with_branch(v.drop_first(), name, t)
    }
}

/// Sets a member, in its place by the order of names.
pub fn set_member(v: &mut Vec<(String, Json)>, name: &str, j: Json)
    ensures
        member_trees(final(v)@) == with_branch(member_trees(old(v)@), name@, j.tree()),
{
    let ghost all = member_trees(v@);
    let ghost x = (name@, j.tree());
    let mut i: usize = 0;
    proof {
        assert(all.skip(0) =~= all);
        assert(all.take(0) + with_branch(all, name@, x.1) =~= with_branch(all, name@, x.1));
    }
    while i < v.len() && !text::same(v[i].0.as_str(), name) && !text::is_before(
        name,
        v[i].0.as_str(),
    )
        invariant
            i <= v.len(),
            all == member_trees(v@),
            x == (name@, j.tree()),
            all.take(i as int) + with_branch(all.skip(i as int), name@, x.1) == with_branch(
                all,
                name@,
                x.1,
            ),
        decreases v.len() - i,
    {
        proof {
            let rest = all.skip(i as int);
            assert(rest.drop_first() =~= all.skip(i + 1));
            assert(rest[0] == (v@[i as int].0@, v@[i as int].1.tree()));
            assert(all.take(i + 1) + with_branch(all.skip(i + 1), name@, x.1) =~= all.take(
                i as int,
            ) + with_branch(rest, name@, x.1));
        }
        i += 1;
    }
    if i < v.len() && text::same(v[i].0.as_str(), name) {
        v.set(i, (name.to_owned(), j));
        proof {
            let rest = all.skip(i as int);
            assert(rest[0].0 == name@);
            assert(member_trees(v@) =~= all.update(i as int, x));
            assert(all.take(i as int) + (seq![x] + rest.drop_first()) =~= all.update(i as int, x));
        }
        return;
    }
    proof {
        if i < v.len() {
            assert(all.skip(i as int)[0].0 == v@[i as int].0@);
        }
    }
    v.insert(i, (name.to_owned(), j));
    proof {
        assert(member_trees(v@) =~= all.insert(i as int, x));
        if i < all.len() {
            assert(all.take(i as int) + (seq![x] + all.skip(i as int)) =~= all.insert(i as int, x));
        } else {
            assert(all.skip(i as int) =~= Seq::empty());
            assert(all.take(i as int) + seq![x] =~= all.insert(i as int, x));
        }
    }
}

// ---------------------------------------------------------------------------
// Making values
// ---------------------------------------------------------------------------

/// Adds a member behind the others.
pub fn put(v: &mut Vec<(String, Json)>, name: &str, j: Json)
    ensures
        member_trees(final(v)@) == member_trees(old(v)@).push((name@, j.tree())),
{
    let ghost before = member_trees(v@);
    let ghost x = (name@, j.tree());
    v.push((name.to_owned(), j));
    assert(member_trees(v@) =~= before.push(x));
}

/// No members yet.
pub fn start() -> (v: Vec<(String, Json)>)
    ensures
        member_trees(v@) == Seq::<(Seq<char>, Tree)>::empty(),
{
    let v: Vec<(String, Json)> = Vec::new();
    assert(member_trees(v@) =~= Seq::empty());
    v
}

/// The object with the members.
pub fn object(v: Vec<(String, Json)>) -> (j: Json)
    ensures
        j.tree() == Tree::Object(member_trees(v@)),
{
    let j = Json::Object(v);
    proof {
        lemma_tree(j);
    }
    j
}

pub open spec fn number(n: nat) -> Tree {
    Tree::Number(text::decimal(n))
}

pub fn number_json(n: u64) -> (j: Json)
    ensures
        j.tree() == number(n as nat),
{
    Json::Number(text::decimal_string(n))
}

/// A text, or null where there is none.
pub open spec fn text_or_null(s: Option<Seq<char>>) -> Tree {
    match s {
        Some(s) => Tree::Text(s),
        None => Tree::Null,
    }
}

pub fn text_json(s: &Option<String>) -> (j: Json)
    ensures
        j.tree() == text_or_null(text::opt(*s)),
{
    match s {
        Some(s) => Json::Text(s.clone()),
        None => Json::Null,
    }
}

pub open spec fn text_trees(v: Seq<Seq<char>>) -> Tree {
    Tree::List(Seq::new(v.len(), |i: int| Tree::Text(v[i])))
}

pub fn texts_json(v: &Vec<String>) -> (j: Json)
    ensures
        j.tree() == text_trees(text::texts(v@)),
{
    let mut out: Vec<Json> = Vec::new();
    let mut i: usize = 0;
    while i < v.len()
        invariant
            i <= v.len(),
            out@.len() == i,
            forall|k: int| 0 <= k < i ==> (#[trigger] out@[k]).tree() == Tree::Text(v@[k]@),
        decreases v.len() - i,
    {
        out.push(Json::Text(v[i].clone()));
        i += 1;
    }
    let j = Json::List(out);
    proof {
        lemma_tree(j);
        assert(j.tree()->List_0 =~= text_trees(text::texts(v@))->List_0);
    }
    j
}

/// A value, or null where there is none.
pub open spec fn tree_or_null(j: Option<Json>) -> Tree {
    match j {
        Some(j) => j.tree(),
        None => Tree::Null,
    }
}

pub fn copy_or_null(j: &Option<Json>) -> (r: Json)
    ensures
        r.tree() == tree_or_null(*j),
{
    match j {
        Some(j) => j.copy(),
        None => Json::Null,
    }
}

// ---------------------------------------------------------------------------
// Laws
// ---------------------------------------------------------------------------

/// Whether no two members have one name.
pub open spec fn distinct_names(v: Seq<(Seq<char>, Tree)>) -> bool {
    forall|i: int, j: int| 0 <= i < j < v.len() ==> (#[trigger] v[i]).0 != (#[trigger] v[j]).0
}

/// Whether no object in a value has two members of one name.
pub open spec fn well_named(t: Tree) -> bool
    decreases t, 0nat,
{
    match t {
        Tree::List(v) => all_well_named(v),
        Tree::Object(v) => distinct_names(v) && members_well_named(v),
        _ => true,
    }
}

pub open spec fn all_well_named(v: Seq<Tree>) -> bool
    decreases v, 1nat,
{
    v.len() == 0 || (well_named(v.last()) && all_well_named(v.drop_last()))
}

pub open spec fn members_well_named(v: Seq<(Seq<char>, Tree)>) -> bool
    decreases v, 1nat,
{
    v.len() == 0 || (well_named(v.last().1) && members_well_named(v.drop_last()))
}

proof fn lemma_branch_at(v: Seq<(Seq<char>, Tree)>, i: int)
    requires
        distinct_names(v),
        0 <= i < v.len(),
    ensures
        branch(v, v[i].0) == Some(v[i].1),
    decreases v.len(),
{
    if i > 0 {
        let w = v.drop_first();
        assert(v[0].0 != v[i].0);
        assert(forall|k: int| 0 <= k < w.len() ==> #[trigger] w[k] == v[k + 1]);
        assert(w[i - 1] == v[i]);
        lemma_branch_at(w, i - 1);
    }
}

/// A value is like itself.
pub proof fn law_values_are_like_themselves(t: Tree)
    requires
        well_named(t),
    ensures
        alike(t, t),
    decreases t, 0nat,
{
    match t {
        Tree::List(v) => {
            lemma_lists_like_themselves(v);
        },
        Tree::Object(v) => {
            lemma_members_like_themselves(v, v);
            assert forall|i: int| 0 <= i < v.len() implies branch(v, (#[trigger] v[i]).0) is Some by {
                lemma_branch_at(v, i);
            }
        },
        _ => {},
    }
}

proof fn lemma_lists_like_themselves(v: Seq<Tree>)
    requires
        all_well_named(v),
    ensures
        all_alike(v, v),
    decreases v, 1nat,
{
    if v.len() > 0 {
        law_values_are_like_themselves(v.last());
        lemma_lists_like_themselves(v.drop_last());
    }
}

/// Members that stand in an object, wherever, are like those of the object.
proof fn lemma_members_like_themselves(v: Seq<(Seq<char>, Tree)>, w: Seq<(Seq<char>, Tree)>)
    requires
        members_well_named(v),
        distinct_names(w),
        forall|i: int| 0 <= i < v.len() ==> w.contains(#[trigger] v[i]),
    ensures
        alike_members(v, w),
    decreases v, 1nat,
{
    if v.len() > 0 {
        law_values_are_like_themselves(v.last().1);
        assert(w.contains(v[v.len() - 1]));
        lemma_branch_at(w, w.index_of(v.last()));
        let x = v.drop_last();
        assert forall|i: int| 0 <= i < x.len() implies w.contains(#[trigger] x[i]) by {
            assert(w.contains(v[i]));
        }
        lemma_members_like_themselves(x, w);
    }
}

/// The order in which the members of an object stand makes no difference.
pub proof fn law_order_of_members_makes_no_difference(
    v: Seq<(Seq<char>, Tree)>,
    w: Seq<(Seq<char>, Tree)>,
)
    requires
        well_named(Tree::Object(v)),
        well_named(Tree::Object(w)),
        v.to_multiset() == w.to_multiset(),
    ensures
        alike(Tree::Object(v), Tree::Object(w)),
{
    broadcast use vstd::seq_lib::group_to_multiset_ensures;

    assert forall|i: int| 0 <= i < v.len() implies w.contains(#[trigger] v[i]) by {
        assert(v.contains(v[i]));
        assert(v.to_multiset().count(v[i]) > 0);
    }
    lemma_members_like_themselves(v, w);
    assert forall|i: int| 0 <= i < w.len() implies branch(v, (#[trigger] w[i]).0) is Some by {
        assert(w.contains(w[i]));
        assert(w.to_multiset().count(w[i]) > 0);
        assert(v.contains(w[i]));
        lemma_branch_at(v, v.index_of(w[i]));
    }
}

/// A member is found under its name; the first of that name is.
pub proof fn law_members_are_found(v: Seq<(String, Json)>, name: Seq<char>, i: int)
    requires
        0 <= i <= v.len(),
        forall|k: int| 0 <= k < i ==> (#[trigger] v[k]).0@ != name,
        i < v.len() ==> v[i].0@ == name,
    ensures
        i < v.len() ==> member(v, name) == Some(v[i].1),
        i == v.len() ==> member(v, name) is None,
    decreases v.len(),
{
    if v.len() > 0 && i > 0 {
        assert(v[0].0@ != name);
        assert forall|k: int| 0 <= k < i - 1 implies (#[trigger] v.drop_first()[k]).0@ != name by {
            assert(v.drop_first()[k] == v[k + 1]);
        }
        law_members_are_found(v.drop_first(), name, i - 1);
    }
}

/// A member that is set is found afterwards, and the others stay what they were.
pub proof fn law_set_members_are_found(v: Seq<(Seq<char>, Tree)>, name: Seq<char>, t: Tree, other: Seq<char>)
    ensures
        branch(with_branch(v, name, t), name) == Some(t),
        other != name ==> branch(with_branch(v, name, t), other) == branch(v, other),
    decreases v.len(),
{
    let w = with_branch(v, name, t);
    if v.len() == 0 {
        reveal_with_fuel(branch, 2);
        assert(w.drop_first() =~= Seq::<(Seq<char>, Tree)>::empty());
    } else if v[0].0 == name {
        assert(w.drop_first() =~= v.drop_first());
    } else if text::before(name, v[0].0) {
        assert(w.drop_first() =~= v);
    } else {
        law_set_members_are_found(v.drop_first(), name, t, other);
        assert(w.drop_first() =~= with_branch(v.drop_first(), name, t));
    }
}

/// Texts are alike where they are equal, lists only where they are as long, and objects only where each has
/// the members of the other.
pub proof fn law_values_that_differ_are_not_alike(
    a: Seq<char>,
    b: Seq<char>,
    v: Seq<Tree>,
    w: Seq<Tree>,
    x: Seq<(Seq<char>, Tree)>,
    y: Seq<(Seq<char>, Tree)>,
    i: int,
)
    ensures
        alike(Tree::Text(a), Tree::Text(b)) <==> a == b,
        alike(Tree::Number(a), Tree::Number(b)) <==> a == b,
        !alike(Tree::Text(a), Tree::Number(b)),
        !alike(Tree::Text(a), Tree::Null),
        v.len() != w.len() ==> !alike(Tree::List(v), Tree::List(w)),
        0 <= i < v.len() && alike(Tree::List(v), Tree::List(w)) ==> alike(v[i], w[i]),
        0 <= i < x.len() && alike(Tree::Object(x), Tree::Object(y)) ==> branch(y, x[i].0) is Some && alike(
            x[i].1,
            branch(y, x[i].0)->0,
        ),
        0 <= i < y.len() && alike(Tree::Object(x), Tree::Object(y)) ==> branch(x, y[i].0) is Some,
{
    if 0 <= i < v.len() && v.len() == w.len() && all_alike(v, w) {
        lemma_alike_at(v, w, i);
    }
    if 0 <= i < x.len() && alike_members(x, y) {
        lemma_member_at(x, y, i);
    }
}

proof fn lemma_alike_at(v: Seq<Tree>, w: Seq<Tree>, i: int)
    requires
        0 <= i < v.len(),
        v.len() == w.len(),
        all_alike(v, w),
    ensures
        alike(v[i], w[i]),
    decreases v.len(),
{
    if i < v.len() - 1 {
        lemma_alike_at(v.drop_last(), w.drop_last(), i);
    }
}

proof fn lemma_member_at(x: Seq<(Seq<char>, Tree)>, y: Seq<(Seq<char>, Tree)>, i: int)
    requires
        0 <= i < x.len(),
        alike_members(x, y),
    ensures
        branch(y, x[i].0) is Some,
        alike(x[i].1, branch(y, x[i].0)->0),
    decreases x.len(),
{
    if i < x.len() - 1 {
        lemma_member_at(x.drop_last(), y, i);
    }
}

} // verus!
