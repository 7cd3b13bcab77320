//! Names of namespaces.
use crate::text;
use vstd::prelude::*;

verus! {

/// The longest label of a name.
pub const MAX_LABEL: usize = 63;

pub open spec fn label_char(c: char) -> bool {
    text::spec_lower_letter(c) || text::spec_digit(c) || c == '-'
}

/// A DNS label: at most 63 lower-case letters, digits and hyphens, with no hyphen at either end.
pub open spec fn label(s: Seq<char>) -> bool {
    &&& 0 < s.len() <= MAX_LABEL
    &&& s[0] != '-'
    &&& s.last() != '-'
    &&& forall|i: int| 0 <= i < s.len() ==> label_char(#[trigger] s[i])
}

/// Whether a namespace can have the name.
pub fn namespace_name(s: &str) -> (r: bool)
    ensures
        r == label(s@),
{
    let v = text::chars(s);
    if v.len() == 0 || v.len() > MAX_LABEL || v[0] == '-' || v[v.len() - 1] == '-' {
        return false;
    }
    let mut i: usize = 0;
    while i < v.len()
        invariant
            i <= v.len(),
            v@ == s@,
            forall|j: int| 0 <= j < i ==> label_char(#[trigger] s@[j]),
        decreases v.len() - i,
    {
        let c = v[i];
        if !(text::lower_letter(c) || text::digit(c) || c == '-') {
            assert(!label_char(s@[i as int]));
            return false;
        }
        i += 1;
    }
    true
}

pub open spec fn all_labels(v: Seq<Seq<char>>) -> bool {
    forall|i: int| 0 <= i < v.len() ==> label(#[trigger] v[i])
}

/// Whether every text of a list is a name that a namespace can have.
pub fn namespace_names(v: &Vec<String>) -> (r: bool)
    ensures
        r == all_labels(text::texts(v@)),
{
    let mut i: usize = 0;
    while i < v.len()
        invariant
            i <= v.len(),
            forall|j: int| 0 <= j < i ==> label(#[trigger] text::texts(v@)[j]),
        decreases v.len() - i,
    {
        if !namespace_name(v[i].as_str()) {
            assert(!label(text::texts(v@)[i as int]));
            return false;
        }
        i += 1;
    }
    true
}

/// The name of a namespace is of lower-case letters, digits and dashes inside, at most 63.
pub proof fn law_namespaces_are_labels(s: Seq<char>, i: int)
    ensures
        s.len() == 0 || s.len() > 63 ==> !label(s),
        s.len() > 0 && (s[0] == '-' || s.last() == '-') ==> !label(s),
        0 <= i < s.len() && (s[i] == '.' || s[i] == '/' || s[i] == '_' || 'A' <= s[i] <= 'Z') ==> !label(s),
        0 < s.len() <= 63 && (forall|j: int| 0 <= j < s.len() ==> 'a' <= #[trigger] s[j] <= 'z') ==> label(s),
{
    if 0 <= i < s.len() && (s[i] == '.' || s[i] == '/' || s[i] == '_' || 'A' <= s[i] <= 'Z') {
        assert(!label_char(s[i]));
    }
}

} // verus!
