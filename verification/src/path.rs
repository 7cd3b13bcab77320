//! Paths of files, as texts whose parts are separated by `/`.
use crate::text;
use vstd::prelude::*;

verus! {

pub open spec fn absolute(p: Seq<char>) -> bool {
    p.len() > 0 && p[0] == '/'
}

/// `p` as seen from the directory `base`; an absolute `p` is kept.
pub open spec fn joined(base: Seq<char>, p: Seq<char>) -> Seq<char> {
    if absolute(p) || base.len() == 0 {
        p
    } else if base.last() == '/' {
        base + p
    } else {
        base + "/"@ + p
    }
}

pub fn join(base: &str, p: &str) -> (out: String)
    ensures
        out@ == joined(base@, p@),
{
    let b = text::chars(base);
    let q = text::chars(p);
    if (q.len() > 0 && q[0] == '/') || b.len() == 0 {
        p.to_owned()
    } else if b[b.len() - 1] == '/' {
        text::concat(base, p)
    } else {
        text::concat3(base, "/", p)
    }
}

/// One more than the index of the last `/`; 0 where there is none.
pub open spec fn name_start(p: Seq<char>) -> int
    decreases p.len(),
{
    if p.len() == 0 || p.last() == '/' {
        p.len() as int
    } else {
        name_start(p.drop_last())
    }
}

/// The directory that holds the file at `p`.
pub open spec fn directory(p: Seq<char>) -> Seq<char> {
    let n = name_start(p);
    if n <= 1 {
        p.take(n)
    } else {
        p.take(n - 1)
    }
}

/// The directory that holds the file at `p`.
pub fn parent(p: &str) -> (out: &str)
    ensures
        out@ == directory(p@),
{
    let v = text::chars(p);
    let mut n: usize = v.len();
    assert(v@.take(n as int) =~= p@);
    while n > 0 && v[n - 1] != '/'
        invariant
            n <= v.len(),
            v@ == p@,
            name_start(v@.take(n as int)) == name_start(p@),
        decreases n,
    {
        assert(v@.take(n as int).drop_last() =~= v@.take(n - 1));
        n -= 1;
    }
    let end: usize = if n <= 1 {
        n
    } else {
        n - 1
    };
    let out = p.substring_char(0, end);
    assert(out@ =~= p@.take(end as int));
    out
}

/// A path that begins with `/` stands for itself; another is looked for below the base.
pub proof fn law_paths_are_looked_for_below(base: Seq<char>, p: Seq<char>)
    ensures
        p.len() > 0 && p[0] == '/' ==> joined(base, p) == p,
        p.len() > 0 && p[0] != '/' && base.len() > 0 && base.last() != '/' ==> joined(base, p) == base + "/"@ + p,
        p.len() > 0 && p[0] != '/' && base.len() > 0 && base.last() == '/' ==> joined(base, p) == base + p,
        joined(Seq::empty(), p) == p,
{
}

/// The directory of a file is what stands before its name.
pub proof fn law_directories_hold_their_files(base: Seq<char>, name: Seq<char>)
    requires
        base.len() > 0,
        !name.contains('/'),
    ensures
        directory(base + seq!['/'] + name) == base,
        directory(name) == Seq::<char>::empty(),
{
    lemma_name_start(base + seq!['/'], name);
    lemma_name_start(Seq::empty(), name);
    let p = base + seq!['/'] + name;
    assert(p.take(base.len() as int) =~= base);
    assert(Seq::<char>::empty() + name =~= name);
}

proof fn lemma_name_start(base: Seq<char>, name: Seq<char>)
    requires
        base.len() == 0 || base.last() == '/',
        !name.contains('/'),
    ensures
        name_start(base + name) == base.len(),
    decreases name.len(),
{
    let p = base + name;
    if name.len() > 0 {
        let l = name.drop_last();
        assert(p.last() == name.last());
        assert(name.contains(name.last()));
        assert(p.drop_last() =~= base + l);
        assert forall|c: char| l.contains(c) implies name.contains(c) by {
            let i = choose|i: int| 0 <= i < l.len() && l[i] == c;
            assert(name[i] == c);
        }
        lemma_name_start(base, l);
    } else {
        assert(p =~= base);
    }
}

} // verus!
