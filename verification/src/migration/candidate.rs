//! What is written of directives reads as what was written.
use crate::config::syntax::{
    block, delimiter, directive_at, directives, escaped, is_mark, line_end, mark, next_mark, parsed,
    preceded, scan, tokens_of, word, words, Lexeme, Node, SyntaxError, Word, MAX_NESTING,
};
use crate::migration::nginx::{quoted, quoted_char, written, written_args, written_one};
use crate::text;
use vstd::prelude::*;

verus! {

// ---------------------------------------------------------------------------
// Tokens without their places
// ---------------------------------------------------------------------------

/// A token, wherever it stands.
#[verifier::ext_equal]
pub ghost struct Sign {
    pub text: Seq<char>,
    pub punctuation: bool,
}

pub open spec fn sign(t: Lexeme) -> Sign {
    Sign { text: t.text, punctuation: t.punctuation }
}

pub open spec fn signs(v: Seq<Lexeme>) -> Seq<Sign> {
    Seq::new(v.len(), |i: int| sign(v[i]))
}

/// The tokens that came of a text, if any did.
pub open spec fn outcome(r: Result<Seq<Lexeme>, SyntaxError>) -> Option<Seq<Sign>> {
    match r {
        Ok(v) => Some(signs(v)),
        Err(_) => None,
    }
}

/// The tokens of a text.
pub open spec fn read(s: Seq<char>) -> Option<Seq<Sign>> {
    outcome(tokens_of(s))
}

pub open spec fn followed(x: Seq<Sign>, r: Option<Seq<Sign>>) -> Option<Seq<Sign>> {
    match r {
        Some(rest) => Some(x + rest),
        None => None,
    }
}

pub open spec fn word_sign(s: Seq<char>) -> Sign {
    Sign { text: s, punctuation: false }
}

pub open spec fn mark_sign(c: char) -> Sign {
    Sign { text: seq![c], punctuation: true }
}

proof fn lemma_preceded(x: Lexeme, r: Result<Seq<Lexeme>, SyntaxError>)
    ensures
        outcome(preceded(x, r)) == followed(seq![sign(x)], outcome(r)),
{
    if let Ok(v) = r {
        assert(signs(seq![x] + v) =~= seq![sign(x)] + signs(v));
    }
}

proof fn lemma_followed(x: Seq<Sign>, y: Seq<Sign>, r: Option<Seq<Sign>>)
    ensures
        followed(x, followed(y, r)) == followed(x + y, r),
{
    if let Some(v) = r {
        assert(x + (y + v) =~= (x + y) + v);
    }
}

/// The rest of two texts is the same further on.
proof fn lemma_rest(s: Seq<char>, i: int, t: Seq<char>, j: int, k: int)
    requires
        0 <= i <= s.len(),
        0 <= j <= t.len(),
        s.skip(i) == t.skip(j),
        0 <= k <= s.len() - i,
    ensures
        s.len() - i == t.len() - j,
        s.skip(i + k) == t.skip(j + k),
        k < s.len() - i ==> s[i + k] == t[j + k],
{
    assert(s.skip(i).len() == t.skip(j).len());
    assert(s.skip(i + k) =~= s.skip(i).skip(k));
    assert(t.skip(j + k) =~= t.skip(j).skip(k));
    if k < s.len() - i {
        assert(s.skip(i)[k] == s[i + k]);
        assert(t.skip(j)[k] == t[j + k]);
    }
}

proof fn lemma_line_end(s: Seq<char>, i: int, t: Seq<char>, j: int)
    requires
        0 <= i <= s.len(),
        0 <= j <= t.len(),
        s.skip(i) == t.skip(j),
    ensures
        line_end(s, i) - i == line_end(t, j) - j,
        i <= line_end(s, i) <= s.len(),
    decreases s.len() - i,
{
    lemma_rest(s, i, t, j, 0);
    if i < s.len() && s[i] != '\n' {
        lemma_rest(s, i, t, j, 1);
        lemma_line_end(s, i + 1, t, j + 1);
    }
}

/// The text of a word, and how far it reaches.
pub open spec fn reach(w: Word, i: int) -> Option<(Seq<char>, int)> {
    match w {
        Word::Read { text, end, .. } => Some((text, end - i)),
        _ => None,
    }
}

/// A word depends only on the text from its start on.
proof fn lemma_word(
    s: Seq<char>,
    i: int,
    t: Seq<char>,
    j: int,
    at: (int, int),
    to: (int, int),
    quote: Option<char>,
)
    requires
        0 <= i <= s.len(),
        0 <= j <= t.len(),
        s.skip(i) == t.skip(j),
    ensures
        reach(word(s, i, at.0, at.1, quote), i) == reach(word(t, j, to.0, to.1, quote), j),
    decreases s.len() - i,
{
    lemma_rest(s, i, t, j, 0);
    if i < s.len() && !(quote is None && delimiter(s[i])) {
        if s[i] == '\\' {
            if i + 1 < s.len() {
                lemma_rest(s, i, t, j, 1);
                lemma_rest(s, i, t, j, 2);
                lemma_word(
                    s,
                    i + 2,
                    t,
                    j + 2,
                    (at.0, at.1 + 2),
                    (to.0, to.1 + 2),
                    quote,
                );
            }
        } else {
            lemma_rest(s, i, t, j, 1);
            let a = if s[i] == '\n' {
                (at.0 + 1, 1int)
            } else {
                (at.0, at.1 + 1)
            };
            let b = if s[i] == '\n' {
                (to.0 + 1, 1int)
            } else {
                (to.0, to.1 + 1)
            };
            if quote == Some(s[i]) {
                lemma_word(s, i + 1, t, j + 1, a, b, None);
            } else if quote is None && (s[i] == '\'' || s[i] == '"') {
                lemma_word(s, i + 1, t, j + 1, a, b, Some(s[i]));
            } else {
                lemma_word(s, i + 1, t, j + 1, a, b, quote);
            }
        }
    }
}

/// The tokens depend only on the text from where they are looked for.
proof fn lemma_scan(s: Seq<char>, i: int, t: Seq<char>, j: int, at: (int, int), to: (int, int))
    requires
        0 <= i <= s.len(),
        0 <= j <= t.len(),
        s.skip(i) == t.skip(j),
    ensures
        outcome(scan(s, i, at.0, at.1)) == outcome(scan(t, j, to.0, to.1)),
    decreases s.len() - i,
{
    lemma_rest(s, i, t, j, 0);
    if i < s.len() {
        lemma_rest(s, i, t, j, 1);
        if s[i] == '\n' {
            lemma_scan(s, i + 1, t, j + 1, (at.0 + 1, 1), (to.0 + 1, 1));
        } else if text::spec_whitespace(s[i]) {
            lemma_scan(s, i + 1, t, j + 1, (at.0, at.1 + 1), (to.0, to.1 + 1));
        } else if s[i] == '#' {
            lemma_line_end(s, i + 1, t, j + 1);
            let e = line_end(s, i + 1);
            let f = line_end(t, j + 1);
            lemma_rest(s, i, t, j, e - i);
            lemma_scan(s, e, t, f, (at.0, at.1 + (e - i)), (to.0, to.1 + (f - j)));
        } else if mark(s[i]) {
            lemma_scan(s, i + 1, t, j + 1, (at.0, at.1 + 1), (to.0, to.1 + 1));
            let x = Lexeme { text: seq![s[i]], punctuation: true, line: at.0, column: at.1 };
            let y = Lexeme { text: seq![s[i]], punctuation: true, line: to.0, column: to.1 };
            lemma_preceded(x, scan(s, i + 1, at.0, at.1 + 1));
            lemma_preceded(y, scan(t, j + 1, to.0, to.1 + 1));
        } else {
            lemma_word(s, i, t, j, at, to, None);
            let a = word(s, i, at.0, at.1, None);
            let b = word(t, j, to.0, to.1, None);
            if let Word::Read { text: u, end: e, line: l, column: c } = a {
                if let Word::Read { text: v, end: f, line: m, column: d } = b {
                    if i < e <= s.len() {
                        lemma_rest(s, i, t, j, e - i);
                        lemma_scan(s, e, t, f, (l, c), (m, d));
                        let x = Lexeme { text: u, punctuation: false, line: at.0, column: at.1 };
                        let y = Lexeme { text: v, punctuation: false, line: to.0, column: to.1 };
                        lemma_preceded(x, scan(s, e, l, c));
                        lemma_preceded(y, scan(t, f, m, d));
                    }
                }
            }
        }
    }
}

// ---------------------------------------------------------------------------
// Texts that begin with something
// ---------------------------------------------------------------------------

proof fn lemma_blank(c: char, t: Seq<char>)
    requires
        text::spec_whitespace(c),
    ensures
        read(seq![c] + t) == read(t),
{
    let s = seq![c] + t;
    assert(s.skip(1) =~= t.skip(0));
    assert(t.skip(0) =~= t);
    if c == '\n' {
        lemma_scan(s, 1, t, 0, (2, 1), (1, 1));
    } else {
        lemma_scan(s, 1, t, 0, (1, 2), (1, 1));
    }
}

proof fn lemma_blanks(b: Seq<char>, t: Seq<char>)
    requires
        forall|i: int| 0 <= i < b.len() ==> text::spec_whitespace(#[trigger] b[i]),
    ensures
        read(b + t) == read(t),
    decreases b.len(),
{
    if b.len() == 0 {
        assert(b + t =~= t);
    } else {
        let rest = b.drop_first();
        assert(b + t =~= seq![b[0]] + (rest + t));
        lemma_blank(b[0], rest + t);
        assert forall|i: int| 0 <= i < rest.len() implies text::spec_whitespace(
            #[trigger] rest[i],
        ) by {
            assert(text::spec_whitespace(b[i + 1]));
        }
        lemma_blanks(rest, t);
    }
}

proof fn lemma_mark(c: char, t: Seq<char>)
    requires
        mark(c),
    ensures
        read(seq![c] + t) == followed(seq![mark_sign(c)], read(t)),
{
    let s = seq![c] + t;
    assert(s.skip(1) =~= t.skip(0));
    assert(!text::spec_whitespace(c));
    lemma_scan(s, 1, t, 0, (1, 2), (1, 1));
    let x = Lexeme { text: seq![c], punctuation: true, line: 1, column: 1 };
    lemma_preceded(x, scan(s, 1, 1, 2));
}

/// A word that begins a text, where it is known how far it reaches.
proof fn lemma_read_word(s: Seq<char>, a: Seq<char>, n: int)
    requires
        0 < n <= s.len(),
        !delimiter(s[0]),
        reach(word(s, 0, 1, 1, None), 0) == Some((a, n)),
    ensures
        read(s) == followed(seq![word_sign(a)], read(s.skip(n))),
{
    let t = s.skip(n);
    if let Word::Read { text: u, end: e, line: l, column: c } = word(s, 0, 1, 1, None) {
        assert(t.skip(0) =~= t);
        lemma_scan(s, e, t, 0, (l, c), (1, 1));
        let x = Lexeme { text: u, punctuation: false, line: 1, column: 1 };
        lemma_preceded(x, scan(s, e, l, c));
    }
}

/// Whether a name can be written as it is.
pub open spec fn plain(name: Seq<char>) -> bool {
    &&& name.len() > 0
    &&& forall|i: int| 0 <= i < name.len() ==> plain_char(#[trigger] name[i])
}

pub open spec fn plain_char(c: char) -> bool {
    !delimiter(c) && c != '\\' && c != '\'' && c != '"'
}

proof fn lemma_plain_word(w: Seq<char>, t: Seq<char>, k: int, at: (int, int))
    requires
        forall|i: int| 0 <= i < w.len() ==> plain_char(#[trigger] w[i]),
        t.len() > 0,
        delimiter(t[0]),
        0 <= k <= w.len(),
    ensures
        reach(word(w + t, k, at.0, at.1, None), k) == Some((w.skip(k), w.len() - k)),
    decreases w.len() - k,
{
    let s = w + t;
    if k == w.len() {
        assert(s[k] == t[0]);
        assert(w.skip(k) =~= Seq::empty());
    } else {
        assert(s[k] == w[k]);
        assert(plain_char(w[k]));
        let to = if s[k] == '\n' {
            (at.0 + 1, 1int)
        } else {
            (at.0, at.1 + 1)
        };
        lemma_plain_word(w, t, k + 1, to);
        assert(w.skip(k) =~= seq![w[k]] + w.skip(k + 1));
    }
}

proof fn lemma_name(w: Seq<char>, t: Seq<char>)
    requires
        plain(w),
        t.len() > 0,
        delimiter(t[0]),
    ensures
        read(w + t) == followed(seq![word_sign(w)], read(t)),
{
    lemma_plain_word(w, t, 0, (1, 1));
    assert((w + t)[0] == w[0]);
    assert(plain_char(w[0]));
    assert(w.skip(0) =~= w);
    lemma_read_word(w + t, w, w.len() as int);
    assert((w + t).skip(w.len() as int) =~= t);
}

proof fn lemma_quoted_first(c: char, r: Seq<char>)
    ensures
        quoted(seq![c] + r) == quoted_char(c) + quoted(r),
    decreases r.len(),
{
    let s = seq![c] + r;
    if r.len() == 0 {
        assert(s.drop_last() =~= r);
        assert(s.last() == c);
        assert(quoted(r) =~= Seq::empty());
        assert(quoted(s) =~= quoted_char(c) + quoted(r));
    } else {
        assert(s.drop_last() =~= seq![c] + r.drop_last());
        lemma_quoted_first(c, r.drop_last());
        assert((quoted_char(c) + quoted(r.drop_last())) + quoted_char(r.last()) =~= quoted_char(c)
            + (quoted(r.drop_last()) + quoted_char(r.last())));
    }
}

/// What stands in quotes is read as the text that was quoted.
proof fn lemma_quoted_word(a: Seq<char>, t: Seq<char>, at: (int, int))
    requires
        t.len() > 0,
        delimiter(t[0]),
    ensures
        reach(word(quoted(a) + seq!['"'] + t, 0, at.0, at.1, Some('"')), 0) == Some(
            (a, quoted(a).len() + 1int),
        ),
    decreases a.len(),
{
    let s = quoted(a) + seq!['"'] + t;
    if a.len() == 0 {
        assert(quoted(a) =~= Seq::empty());
        assert(s[0] == '"');
        assert(s[1] == t[0]);
        assert(word(s, 1, at.0, at.1 + 1, None) == Word::Read {
            text: Seq::empty(),
            end: 1,
            line: at.0,
            column: at.1 + 1,
        });
        assert(a =~= Seq::empty());
    } else {
        let c = a[0];
        let r = a.drop_first();
        let u = quoted(r) + seq!['"'] + t;
        assert(a =~= seq![c] + r);
        lemma_quoted_first(c, r);
        assert(s =~= quoted_char(c) + u);
        let n = quoted_char(c).len() as int;
        assert(s.skip(n) =~= u.skip(0));
        lemma_quoted_word(r, t, (1, 1));
        if n == 2 {
            assert(s[0] == '\\');
            assert(s[1] == quoted_char(c)[1]);
            assert(escaped(s[1]) == c);
            lemma_word(s, 2, u, 0, (at.0, at.1 + 2), (1, 1), Some('"'));
        } else {
            assert(s[0] == c);
            let to = if c == '\n' {
                (at.0 + 1, 1int)
            } else {
                (at.0, at.1 + 1)
            };
            lemma_word(s, 1, u, 0, to, (1, 1), Some('"'));
        }
        assert(seq![c] + r =~= a);
    }
}

proof fn lemma_argument(a: Seq<char>, t: Seq<char>)
    requires
        t.len() > 0,
        delimiter(t[0]),
    ensures
        read(seq!['"'] + quoted(a) + seq!['"'] + t) == followed(seq![word_sign(a)], read(t)),
{
    let s = seq!['"'] + quoted(a) + seq!['"'] + t;
    let u = quoted(a) + seq!['"'] + t;
    assert(s =~= seq!['"'] + u);
    assert(s.skip(1) =~= u.skip(0));
    lemma_quoted_word(a, t, (1, 1));
    lemma_word(s, 1, u, 0, (1, 2), (1, 1), Some('"'));
    assert(s[0] == '"');
    let n = quoted(a).len() + 2;
    assert(reach(word(s, 0, 1, 1, None), 0) == Some((a, n as int)));
    lemma_read_word(s, a, n as int);
    assert(s.skip(n as int) =~= t);
}

// ---------------------------------------------------------------------------
// Directives
// ---------------------------------------------------------------------------

pub open spec fn word_signs(v: Seq<Seq<char>>) -> Seq<Sign> {
    Seq::new(v.len(), |i: int| word_sign(v[i]))
}

proof fn lemma_arguments(v: Seq<Seq<char>>, t: Seq<char>)
    requires
        t.len() > 0,
        delimiter(t[0]),
    ensures
        read(written_args(v) + t) == followed(word_signs(v), read(t)),
        (written_args(v) + t).len() > 0,
        delimiter((written_args(v) + t)[0]),
    decreases v.len(),
{
    if v.len() == 0 {
        assert(written_args(v) + t =~= t);
        assert(word_signs(v) =~= Seq::empty());
        if let Some(r) = read(t) {
            assert(word_signs(v) + r =~= r);
        }
    } else {
        reveal_strlit(" \"");
        reveal_strlit("\"");
        assert(" \""@ =~= seq![' ', '"']);
        assert("\""@ =~= seq!['"']);
        let a = v.last();
        let u = seq!['"'] + quoted(a) + seq!['"'] + t;
        let w = seq![' '] + u;
        lemma_arguments(v.drop_last(), w);
        assert(written_args(v) + t =~= written_args(v.drop_last()) + w);
        lemma_blank(' ', u);
        lemma_argument(a, t);
        lemma_followed(word_signs(v.drop_last()), seq![word_sign(a)], read(t));
        assert(word_signs(v.drop_last()) + seq![word_sign(a)] =~= word_signs(v));
    }
}

/// The tokens of a directive.
pub open spec fn node_signs(n: Node) -> Seq<Sign>
    decreases n, 0nat,
{
    let head = seq![word_sign(n.name)] + word_signs(n.args);
    match n.children {
        None => head + seq![mark_sign(';')],
        Some(inner) => head + seq![mark_sign('{')] + all_signs(inner) + seq![mark_sign('}')],
    }
}

/// The tokens of directives.
pub open spec fn all_signs(v: Seq<Node>) -> Seq<Sign>
    decreases v, 1nat,
{
    if v.len() == 0 {
        Seq::empty()
    } else {
        node_signs(v[0]) + all_signs(v.drop_first())
    }
}

/// Whether the names of a directive and of those in it can be written as they are.
pub open spec fn plainly(n: Node) -> bool
    decreases n, 0nat,
{
    plain(n.name) && match n.children {
        None => true,
        Some(inner) => all_plainly(inner),
    }
}

pub open spec fn all_plainly(v: Seq<Node>) -> bool
    decreases v, 1nat,
{
    if v.len() == 0 {
        true
    } else {
        plainly(v[0]) && all_plainly(v.drop_first())
    }
}

proof fn lemma_written_one(n: Node, indent: Seq<char>, t: Seq<char>)
    requires
        plainly(n),
        forall|i: int| 0 <= i < indent.len() ==> #[trigger] indent[i] == ' ',
    ensures
        read(written_one(n, indent) + t) == followed(node_signs(n), read(t)),
    decreases n, 0nat,
{
    reveal_strlit(";\n");
    reveal_strlit(" {\n");
    reveal_strlit("    ");
    reveal_strlit("}\n");
    assert(";\n"@ =~= seq![';', '\n']);
    assert(" {\n"@ =~= seq![' ', '{', '\n']);
    assert("}\n"@ =~= seq!['}', '\n']);
    let head = seq![word_sign(n.name)] + word_signs(n.args);
    assert forall|i: int| 0 <= i < indent.len() implies text::spec_whitespace(
        #[trigger] indent[i],
    ) by {
        assert(indent[i] == ' ');
    }
    match n.children {
        None => {
            let end = seq![';'] + (seq!['\n'] + t);
            lemma_blank('\n', t);
            lemma_mark(';', seq!['\n'] + t);
            lemma_arguments(n.args, end);
            lemma_name(n.name, written_args(n.args) + end);
            lemma_blanks(indent, n.name + (written_args(n.args) + end));
            assert(written_one(n, indent) + t =~= indent + (n.name + (written_args(n.args) + end)));
            lemma_followed(word_signs(n.args), seq![mark_sign(';')], read(t));
            lemma_followed(
                seq![word_sign(n.name)],
                word_signs(n.args) + seq![mark_sign(';')],
                read(t),
            );
            assert(seq![word_sign(n.name)] + (word_signs(n.args) + seq![mark_sign(';')])
                =~= node_signs(n));
        },
        Some(inner) => {
            let deeper = indent + "    "@;
            assert forall|i: int| 0 <= i < deeper.len() implies #[trigger] deeper[i] == ' ' by {
                if i >= indent.len() {
                    assert(deeper[i] == "    "@[i - indent.len()]);
                }
            }
            let tail = seq!['}'] + (seq!['\n'] + t);
            let close = indent + tail;
            let body = written(inner, deeper) + close;
            let open = seq![' '] + (seq!['{'] + (seq!['\n'] + body));
            lemma_blank('\n', t);
            lemma_mark('}', seq!['\n'] + t);
            lemma_blanks(indent, tail);
            lemma_written(inner, deeper, close);
            lemma_blank('\n', body);
            lemma_mark('{', seq!['\n'] + body);
            lemma_blank(' ', seq!['{'] + (seq!['\n'] + body));
            lemma_arguments(n.args, open);
            lemma_name(n.name, written_args(n.args) + open);
            lemma_blanks(indent, n.name + (written_args(n.args) + open));
            assert(written_one(n, indent) + t =~= indent + (n.name + (written_args(n.args) + open)));
            let a = seq![word_sign(n.name)];
            let b = word_signs(n.args);
            let c = seq![mark_sign('{')];
            let d = all_signs(inner);
            let e = seq![mark_sign('}')];
            lemma_followed(d, e, read(t));
            lemma_followed(c, d + e, read(t));
            lemma_followed(b, c + (d + e), read(t));
            lemma_followed(a, b + (c + (d + e)), read(t));
            assert(a + (b + (c + (d + e))) =~= node_signs(n));
        },
    }
}

proof fn lemma_written(v: Seq<Node>, indent: Seq<char>, t: Seq<char>)
    requires
        all_plainly(v),
        forall|i: int| 0 <= i < indent.len() ==> #[trigger] indent[i] == ' ',
    ensures
        read(written(v, indent) + t) == followed(all_signs(v), read(t)),
    decreases v, 1nat,
{
    if v.len() == 0 {
        assert(written(v, indent) + t =~= t);
        if let Some(r) = read(t) {
            assert(all_signs(v) + r =~= r);
        }
    } else {
        let u = written(v.drop_first(), indent) + t;
        lemma_written(v.drop_first(), indent, t);
        lemma_written_one(v[0], indent, u);
        assert(written(v, indent) + t =~= written_one(v[0], indent) + u);
        lemma_followed(node_signs(v[0]), all_signs(v.drop_first()), read(t));
    }
}

// ---------------------------------------------------------------------------
// Reading directives
// ---------------------------------------------------------------------------

/// Whether two directives say the same, wherever they stand.
pub open spec fn alike(a: Node, b: Node) -> bool
    decreases b, 0nat,
{
    a.name == b.name && a.args == b.args && match (a.children, b.children) {
        (None, None) => true,
        (Some(x), Some(y)) => all_alike(x, y),
        _ => false,
    }
}

pub open spec fn all_alike(a: Seq<Node>, b: Seq<Node>) -> bool
    decreases b, 1nat,
{
    if b.len() == 0 || a.len() == 0 {
        a.len() == 0 && b.len() == 0
    } else {
        alike(a[0], b[0]) && all_alike(a.drop_first(), b.drop_first())
    }
}

/// How deep the blocks of a directive are nested.
pub open spec fn height(n: Node) -> nat
    decreases n, 0nat,
{
    match n.children {
        None => 0,
        Some(inner) => 1 + all_height(inner),
    }
}

pub open spec fn all_height(v: Seq<Node>) -> nat
    decreases v, 1nat,
{
    if v.len() == 0 {
        0
    } else {
        let a = height(v[0]);
        let b = all_height(v.drop_first());
        if a > b {
            a
        } else {
            b
        }
    }
}

/// Whether some tokens stand at a place.
pub open spec fn stands(l: Seq<Lexeme>, at: int, v: Seq<Sign>) -> bool {
    &&& 0 <= at
    &&& at + v.len() <= l.len()
    &&& forall|i: int| 0 <= i < v.len() ==> sign(l[at + i]) == #[trigger] v[i]
}

proof fn lemma_stands(l: Seq<Lexeme>, at: int, a: Seq<Sign>, b: Seq<Sign>)
    requires
        stands(l, at, a + b),
    ensures
        stands(l, at, a),
        stands(l, at + a.len(), b),
{
    assert forall|i: int| 0 <= i < a.len() implies sign(l[at + i]) == #[trigger] a[i] by {
        assert((a + b)[i] == a[i]);
    }
    assert forall|i: int| 0 <= i < b.len() implies sign(l[at + a.len() + i]) == #[trigger] b[i] by {
        assert((a + b)[a.len() + i] == b[i]);
    }
}

proof fn lemma_next_mark(l: Seq<Lexeme>, at: int, args: Seq<Seq<char>>)
    requires
        stands(l, at, word_signs(args)),
        at + args.len() < l.len(),
        l[at + args.len()].punctuation,
    ensures
        next_mark(l, at) == at + args.len(),
    decreases args.len(),
{
    if args.len() > 0 {
        let rest = args.drop_first();
        assert(word_signs(args)[0] == word_sign(args[0]));
        assert forall|i: int| 0 <= i < rest.len() implies sign(l[at + 1 + i]) == #[trigger] word_signs(
            rest,
        )[i] by {
            assert(word_signs(args)[i + 1] == word_sign(args[i + 1]));
        }
        lemma_next_mark(l, at + 1, rest);
    }
}

proof fn lemma_directive(l: Seq<Lexeme>, at: int, depth: int, path: Seq<char>, n: Node)
    requires
        stands(l, at, node_signs(n)),
        0 <= depth,
        depth + height(n) <= MAX_NESTING,
    ensures
        directive_at(l, at, depth, path) matches Ok((m, next)) && alike(m, n) && next == at
            + node_signs(n).len(),
        node_signs(n).len() > 0,
        !l[at].punctuation,
    decreases n, 0nat,
{
    let a = seq![word_sign(n.name)];
    let b = word_signs(n.args);
    let end = at + 1 + n.args.len();
    let rest = match n.children {
        None => seq![mark_sign(';')],
        Some(inner) => seq![mark_sign('{')] + (all_signs(inner) + seq![mark_sign('}')]),
    };
    assert(node_signs(n) =~= a + (b + rest));
    lemma_stands(l, at, a, b + rest);
    lemma_stands(l, at + 1, b, rest);
    assert(sign(l[at + 0]) == a[0]);
    assert(sign(l[end + 0]) == rest[0]);
    lemma_next_mark(l, at + 1, n.args);
    assert(words(l, at + 1, end) =~= n.args) by {
        assert forall|i: int| 0 <= i < n.args.len() implies l[at + 1 + i].text == n.args[i] by {
            assert(b[i] == word_sign(n.args[i]));
        }
    }
    if let Some(inner) = n.children {
        let c = seq![mark_sign('{')];
        let d = all_signs(inner) + seq![mark_sign('}')];
        lemma_stands(l, end, c, d);
        lemma_directives(l, end + 1, depth + 1, path, inner);
        assert(!is_mark(l[end], ';')) by {
            assert(l[end].text[0] == '{');
        }
    }
}

/// Directives that stand in a block with its end behind them.
proof fn lemma_directives(l: Seq<Lexeme>, at: int, depth: int, path: Seq<char>, v: Seq<Node>)
    requires
        depth > 0,
        stands(l, at, all_signs(v) + seq![mark_sign('}')]),
        depth + all_height(v) <= MAX_NESTING,
    ensures
        directives(l, at, depth, path) matches Ok((w, next)) && all_alike(w, v) && next == at
            + all_signs(v).len() + 1,
    decreases v, 1nat,
{
    let e = seq![mark_sign('}')];
    if v.len() == 0 {
        assert(all_signs(v) + e =~= e);
        assert(sign(l[at + 0]) == e[0]);
    } else {
        let x = node_signs(v[0]);
        let y = all_signs(v.drop_first());
        assert(all_signs(v) + e =~= x + (y + e));
        lemma_stands(l, at, x, y + e);
        lemma_directive(l, at, depth, path, v[0]);
        lemma_directives(l, at + x.len(), depth, path, v.drop_first());
        if let Ok((m, next)) = directive_at(l, at, depth, path) {
            if let Ok((w, _)) = directives(l, next, depth, path) {
                assert((seq![m] + w).drop_first() =~= w);
            }
        }
    }
}

/// Directives that end with the text.
proof fn lemma_top(l: Seq<Lexeme>, at: int, path: Seq<char>, v: Seq<Node>)
    requires
        stands(l, at, all_signs(v)),
        at + all_signs(v).len() == l.len(),
        all_height(v) <= MAX_NESTING,
    ensures
        directives(l, at, 0, path) matches Ok((w, next)) && all_alike(w, v) && next == l.len(),
    decreases v.len(),
{
    if v.len() > 0 {
        let x = node_signs(v[0]);
        let y = all_signs(v.drop_first());
        lemma_stands(l, at, x, y);
        lemma_directive(l, at, 0, path, v[0]);
        lemma_top(l, at + x.len(), path, v.drop_first());
        if let Ok((m, next)) = directive_at(l, at, 0, path) {
            if let Ok((w, _)) = directives(l, next, 0, path) {
                assert((seq![m] + w).drop_first() =~= w);
            }
        }
    }
}

// ---------------------------------------------------------------------------
// The law
// ---------------------------------------------------------------------------

/// Parsing undoes rendering: the text that is rendered of directives gives tokens, and these parse, to the
/// last, as directives with the same names, arguments and blocks. The names have to be ones that can be
/// written as they are, and the blocks may not be nested too deep to be read at all.
pub proof fn law_parsing_undoes_rendering(v: Seq<Node>, path: Seq<char>)
    requires
        all_plainly(v),
        all_height(v) <= MAX_NESTING,
    ensures
        ({
            let text = written(v, Seq::empty());
            &&& tokens_of(text) is Ok
            &&& block(tokens_of(text)->Ok_0, 0, 0, path) matches Ok((w, next)) && all_alike(w, v) && next
                == tokens_of(text)->Ok_0.len()
            &&& parsed(tokens_of(text)->Ok_0, path) matches Ok(w) && all_alike(w, v)
        }),
{
    let s = written(v, Seq::empty());
    lemma_written(v, Seq::empty(), Seq::empty());
    assert(s + Seq::<char>::empty() =~= s);
    assert(read(Seq::empty()) == Some(Seq::<Sign>::empty())) by {
        assert(signs(Seq::empty()) =~= Seq::<Sign>::empty());
    }
    assert(all_signs(v) + Seq::<Sign>::empty() =~= all_signs(v));
    let l = tokens_of(s)->Ok_0;
    assert(signs(l) == all_signs(v));
    assert forall|i: int| 0 <= i < all_signs(v).len() implies sign(l[0 + i]) == #[trigger] all_signs(
        v,
    )[i] by {
        assert(signs(l)[i] == sign(l[i]));
    }
    lemma_top(l, 0, path, v);
    assert(block(l, 0, 0, path) == directives(l, 0, 0, path));
}

} // verus!
