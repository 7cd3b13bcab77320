//! The configuration syntax: words, quoted strings, `;` and nested blocks.
use crate::path;
use crate::text;
use crate::text::texts;
use vstd::prelude::*;

verus! {

/// Why a configuration text was refused, with the place of the offending token.
#[derive(Clone, Copy, Debug, PartialEq, Eq, Structural)]
pub enum SyntaxError {
    IncompleteEscape { line: usize, column: usize },
    UnterminatedString { line: usize, column: usize },
    NestingTooDeep,
    UnexpectedClosingBrace { line: usize, column: usize },
    ExpectedDirective { line: usize, column: usize },
    MissingSemicolonOrBlock { line: usize, column: usize },
    MissingSemicolon { line: usize, column: usize },
    UnclosedBlock,
}

/// One directive with its arguments and, for a block, the directives in it.
#[derive(Debug)]
pub struct Directive {
    pub name: String,
    pub args: Vec<String>,
    pub children: Option<Vec<Directive>>,
    pub source: String,
}

/// What a `Directive` holds.
#[verifier::ext_equal]
pub ghost struct Node {
    pub name: Seq<char>,
    pub args: Seq<Seq<char>>,
    pub children: Option<Seq<Node>>,
    pub source: Seq<char>,
}

impl Directive {
    pub open spec fn node(self) -> Node
        decreases self,
    {
        Node {
            name: self.name@,
            args: texts(self.args@),
            children: match self.children {
                Some(v) => Some(
                    Seq::new(
                        v@.len(),
                        |i: int|
                            if 0 <= i < v@.len() {
                                v@[i].node()
                            } else {
                                arbitrary()
                            },
                    ),
                ),
                None => None,
            },
            source: self.source@,
        }
    }
}

pub open spec fn nodes(v: Seq<Directive>) -> Seq<Node> {
    Seq::new(v.len(), |i: int| v[i].node())
}

pub proof fn lemma_node(d: Directive)
    ensures
        d.children is Some ==> d.node().children == Some(nodes(d.children->0@)),
{
    if d.children is Some {
        assert(d.node().children->0 =~= nodes(d.children->0@));
    }
}

/// A word, a string or a punctuation mark with the place where it starts.
#[derive(Debug)]
pub struct Token {
    pub text: String,
    pub punctuation: bool,
    pub line: usize,
    pub column: usize,
}

#[verifier::ext_equal]
pub ghost struct Lexeme {
    pub text: Seq<char>,
    pub punctuation: bool,
    pub line: int,
    pub column: int,
}

impl View for Token {
    type V = Lexeme;

    open spec fn view(&self) -> Lexeme {
        Lexeme {
            text: self.text@,
            punctuation: self.punctuation,
            line: self.line as int,
            column: self.column as int,
        }
    }
}

pub open spec fn lexemes(v: Seq<Token>) -> Seq<Lexeme> {
    Seq::new(v.len(), |i: int| v[i]@)
}

pub open spec fn mark(c: char) -> bool {
    c == '{' || c == '}' || c == ';'
}

/// A character that ends a word outside quotes.
pub open spec fn delimiter(c: char) -> bool {
    text::spec_whitespace(c) || mark(c) || c == '#'
}

/// What a backslash and `c` stand for.
pub open spec fn escaped(c: char) -> char {
    if c == 'n' {
        '\n'
    } else if c == 'r' {
        '\r'
    } else if c == 't' {
        '\t'
    } else {
        c
    }
}

/// The end of the line that holds `i`.
pub open spec fn line_end(s: Seq<char>, i: int) -> int
    decreases s.len() - i,
{
    if 0 <= i < s.len() && s[i] != '\n' {
        line_end(s, i + 1)
    } else {
        i
    }
}

/// What reading the rest of a word gives: its text, where it ends, and the place there.
pub ghost enum Word {
    Read { text: Seq<char>, end: int, line: int, column: int },
    IncompleteEscape { line: int, column: int },
    Unterminated,
}

pub open spec fn prefixed(c: char, w: Word) -> Word {
    match w {
        Word::Read { text, end, line, column } => Word::Read {
            text: seq![c] + text,
            end,
            line,
            column,
        },
        _ => w,
    }
}

/// The word that goes on at `i`, inside `quote` where there is one.
///
/// A backslash takes the next character as it is; a quote opens or closes a part in which
/// delimiters are ordinary characters.
pub open spec fn word(s: Seq<char>, i: int, line: int, column: int, quote: Option<char>) -> Word
    decreases s.len() - i,
{
    if i < 0 || i >= s.len() || (quote is None && delimiter(s[i])) {
        if quote is Some {
            Word::Unterminated
        } else {
            Word::Read { text: Seq::empty(), end: i, line, column }
        }
    } else if s[i] == '\\' {
        if i + 1 == s.len() {
            Word::IncompleteEscape { line, column: column + 1 }
        } else {
            prefixed(escaped(s[i + 1]), word(s, i + 2, line, column + 2, quote))
        }
    } else {
        let (l, c) = if s[i] == '\n' {
            (line + 1, 1int)
        } else {
            (line, column + 1)
        };
        if quote == Some(s[i]) {
            word(s, i + 1, l, c, None)
        } else if quote is None && (s[i] == '\'' || s[i] == '"') {
            word(s, i + 1, l, c, Some(s[i]))
        } else {
            prefixed(s[i], word(s, i + 1, l, c, quote))
        }
    }
}

pub open spec fn preceded<T>(x: T, r: Result<Seq<T>, SyntaxError>) -> Result<Seq<T>, SyntaxError> {
    match r {
        Ok(rest) => Ok(seq![x] + rest),
        Err(e) => Err(e),
    }
}

/// The tokens of `s` from `i` on, where `i` stands at the given line and column.
pub open spec fn scan(s: Seq<char>, i: int, line: int, column: int) -> Result<
    Seq<Lexeme>,
    SyntaxError,
>
    decreases s.len() - i,
{
    if i < 0 || i >= s.len() {
        Ok(Seq::empty())
    } else if s[i] == '\n' {
        scan(s, i + 1, line + 1, 1)
    } else if text::spec_whitespace(s[i]) {
        scan(s, i + 1, line, column + 1)
    } else if s[i] == '#' {
        let end = line_end(s, i + 1);
        if i < end <= s.len() {
            scan(s, end, line, column + (end - i))
        } else {
            arbitrary()
        }
    } else if mark(s[i]) {
        preceded(
            Lexeme { text: seq![s[i]], punctuation: true, line, column },
            scan(s, i + 1, line, column + 1),
        )
    } else {
        match word(s, i, line, column, None) {
            Word::Read { text, end, line: l, column: c } => if i < end <= s.len() {
                preceded(
                    Lexeme { text, punctuation: false, line, column },
                    scan(s, end, l, c),
                )
            } else {
                arbitrary()
            },
            Word::IncompleteEscape { line: l, column: c } => Err(
                SyntaxError::IncompleteEscape { line: l as usize, column: c as usize },
            ),
            Word::Unterminated => Err(
                SyntaxError::UnterminatedString { line: line as usize, column: column as usize },
            ),
        }
    }
}

/// The tokens of a configuration text.
pub open spec fn tokens_of(s: Seq<char>) -> Result<Seq<Lexeme>, SyntaxError> {
    scan(s, 0, 1, 1)
}

proof fn lemma_line_end(s: Seq<char>, i: int)
    requires
        0 <= i <= s.len(),
    ensures
        i <= line_end(s, i) <= s.len(),
        line_end(s, i) < s.len() ==> s[line_end(s, i)] == '\n',
        forall|j: int| i <= j < line_end(s, i) ==> s[j] != '\n',
    decreases s.len() - i,
{
    if i < s.len() && s[i] != '\n' {
        lemma_line_end(s, i + 1);
    }
}

/// Where a word has been read from `i` on, `value` so far.
spec fn word_from(value: Seq<char>, w: Word) -> Word {
    match w {
        Word::Read { text, end, line, column } => Word::Read {
            text: value + text,
            end,
            line,
            column,
        },
        _ => w,
    }
}

exec fn read_word(s: &Vec<char>, start: usize, line: usize, column: usize) -> (r: Result<
    (Token, usize, usize, usize),
    SyntaxError,
>)
    requires
        start < s.len() < usize::MAX,
        line <= start + 1,
        column <= start + 1,
        !delimiter(s@[start as int]),
    ensures
        match word(s@, start as int, line as int, column as int, None) {
            Word::Read { text, end, line: l, column: c } => {
                &&& r is Ok
                &&& r->Ok_0.0@ == (Lexeme {
                    text,
                    punctuation: false,
                    line: line as int,
                    column: column as int,
                })
                &&& r->Ok_0.1 == end
                &&& r->Ok_0.2 == l
                &&& r->Ok_0.3 == c
                &&& start < end <= s.len()
                &&& l <= end + 1
                &&& c <= end + 1
            },
            Word::IncompleteEscape { line: l, column: c } => r == Err::<
                (Token, usize, usize, usize),
                SyntaxError,
            >(SyntaxError::IncompleteEscape { line: l as usize, column: c as usize }),
            Word::Unterminated => r == Err::<(Token, usize, usize, usize), SyntaxError>(
                SyntaxError::UnterminatedString { line, column },
            ),
        },
{
    let ghost whole = word(s@, start as int, line as int, column as int, None);
    let mut i: usize = start;
    let mut l: usize = line;
    let mut k: usize = column;
    let mut value = String::new();
    let mut quote: Option<char> = None;
    proof {
        assert(word_from(value@, whole) == whole) by {
            if whole is Read {
                assert(Seq::<char>::empty() + whole->text =~= whole->text);
            }
        }
    }
    while i < s.len()
        invariant_except_break
            start <= i <= s.len() < usize::MAX,
            start < s.len(),
            whole == word(s@, start as int, line as int, column as int, None),
            l <= i + 1,
            k <= i + 1,
            i == start ==> quote is None && !delimiter(s@[start as int]),
            word_from(value@, word(s@, i as int, l as int, k as int, quote)) == whole,
        ensures
            start < i <= s.len(),
            l <= i + 1,
            k <= i + 1,
            i >= s.len() || (quote is None && delimiter(s@[i as int])),
            word_from(value@, word(s@, i as int, l as int, k as int, quote)) == whole,
        decreases s.len() - i,
    {
        let c = s[i];
        let outside = quote.is_none();
        if outside && (text::whitespace(c) || c == '{' || c == '}' || c == ';' || c == '#') {
            break;
        }
        let ghost before = value@;
        let ghost tail = word(s@, i as int, l as int, k as int, quote);
        if c == '\\' {
            i += 1;
            k += 1;
            if i == s.len() {
                return Err(SyntaxError::IncompleteEscape { line: l, column: k });
            }
            let e = s[i];
            let x = if e == 'n' {
                '\n'
            } else if e == 'r' {
                '\r'
            } else if e == 't' {
                '\t'
            } else {
                e
            };
            value.push(x);
            i += 1;
            k += 1;
            proof {
                let rest = word(s@, i as int, l as int, k as int, quote);
                if rest is Read {
                    assert(before.push(x) + rest->text =~= before + (seq![x] + rest->text));
                }
            }
        } else {
            let ghost q = quote;
            let mut kept = false;
            match quote {
                Some(open) => {
                    if open == c {
                        quote = None;
                    } else {
                        kept = true;
                    }
                },
                None => {
                    if c == '\'' || c == '"' {
                        quote = Some(c);
                    } else {
                        kept = true;
                    }
                },
            }
            if kept {
                value.push(c);
            }
            if c == '\n' {
                l += 1;
                k = 0;
            }
            i += 1;
            k += 1;
            proof {
                let rest = word(s@, i as int, l as int, k as int, quote);
                if kept && rest is Read {
                    assert(before.push(c) + rest->text =~= before + (seq![c] + rest->text));
                }
            }
        }
    }
    if quote.is_some() {
        return Err(SyntaxError::UnterminatedString { line, column });
    }
    assert(value@ + Seq::<char>::empty() =~= value@);
    Ok((Token { text: value, punctuation: false, line, column }, i, l, k))
}

/// The tokens of a configuration text, each with the line and column where it starts.
pub fn tokenize(input: &str) -> (r: Result<Vec<Token>, SyntaxError>)
    requires
        input@.len() < usize::MAX,
    ensures
        match r {
            Ok(v) => tokens_of(input@) == Ok::<Seq<Lexeme>, SyntaxError>(lexemes(v@)),
            Err(e) => tokens_of(input@) == Err::<Seq<Lexeme>, SyntaxError>(e),
        },
{
    let s = text::chars(input);
    let mut tokens: Vec<Token> = Vec::new();
    let mut i: usize = 0;
    let mut line: usize = 1;
    let mut column: usize = 1;
    let ghost whole = tokens_of(input@);
    proof {
        if whole is Ok {
            assert(lexemes(tokens@) + whole->Ok_0 =~= whole->Ok_0);
        }
    }
    while i < s.len()
        invariant
            i <= s.len() < usize::MAX,
            s@ == input@,
            line <= i + 1,
            column <= i + 1,
            ({
                let rest = scan(s@, i as int, line as int, column as int);
                match rest {
                    Ok(more) => whole == Ok::<Seq<Lexeme>, SyntaxError>(lexemes(tokens@) + more),
                    Err(e) => whole == Err::<Seq<Lexeme>, SyntaxError>(e),
                }
            }),
            whole == tokens_of(input@),
        decreases s.len() - i,
    {
        let c = s[i];
        let ghost before = lexemes(tokens@);
        let ghost rest = scan(s@, i as int, line as int, column as int);
        if text::whitespace(c) {
            if c == '\n' {
                line += 1;
                column = 1;
            } else {
                column += 1;
            }
            i += 1;
        } else if c == '#' {
            let ghost from = i;
            let ghost at = column;
            proof {
                lemma_line_end(s@, i + 1);
                assert(line_end(s@, i as int) == line_end(s@, i + 1));
            }
            while i < s.len() && s[i] != '\n'
                invariant
                    from <= i <= s.len() < usize::MAX,
                    line_end(s@, i as int) == line_end(s@, from + 1),
                    column == at + (i - from),
                    at <= from + 1,
                decreases s.len() - i,
            {
                i += 1;
                column += 1;
            }
        } else if c == '{' || c == '}' || c == ';' {
            let mut t = String::new();
            t.push(c);
            assert(t@ =~= seq![c]);
            tokens.push(Token { text: t, punctuation: true, line, column });
            i += 1;
            proof {
                let x = tokens@.last()@;
                assert(lexemes(tokens@) =~= before.push(x));
                let more = scan(s@, i as int, line as int, column + 1);
                if more is Ok {
                    assert(before.push(x) + more->Ok_0 =~= before + (seq![x] + more->Ok_0));
                }
            }
            column += 1;
        } else {
            match read_word(&s, i, line, column) {
                Err(e) => {
                    return Err(e);
                },
                Ok((token, end, l, k)) => {
                    tokens.push(token);
                    proof {
                        let x = tokens@.last()@;
                        assert(lexemes(tokens@) =~= before.push(x));
                        let more = scan(s@, end as int, l as int, k as int);
                        if more is Ok {
                            assert(before.push(x) + more->Ok_0 =~= before + (seq![x]
                                + more->Ok_0));
                        }
                    }
                    i = end;
                    line = l;
                    column = k;
                },
            }
        }
    }
    assert(lexemes(tokens@) + Seq::<Lexeme>::empty() =~= lexemes(tokens@));
    Ok(tokens)
}

// ---------------------------------------------------------------------------
// Directives
// ---------------------------------------------------------------------------

pub const MAX_NESTING: usize = 32;

/// The place of a token in a file, as diagnostics name it.
pub open spec fn place(path: Seq<char>, t: Lexeme) -> Seq<char> {
    path + ":"@ + text::decimal(t.line as nat) + ":"@ + text::decimal(t.column as nat)
}

fn source(path: &str, t: &Token) -> (out: String)
    ensures
        out@ == place(path@, t@),
{
    let mut out = path.to_owned();
    out.append(":");
    out.append(text::decimal_string(t.line as u64).as_str());
    out.append(":");
    out.append(text::decimal_string(t.column as u64).as_str());
    out
}

pub open spec fn is_mark(t: Lexeme, c: char) -> bool {
    t.punctuation && t.text == seq![c]
}

/// The first punctuation mark from `at` on, or the end.
pub open spec fn next_mark(tokens: Seq<Lexeme>, at: int) -> int
    decreases tokens.len() - at,
{
    if 0 <= at < tokens.len() && !tokens[at].punctuation {
        next_mark(tokens, at + 1)
    } else {
        at
    }
}

/// The texts of `tokens[from..to]`.
pub open spec fn words(tokens: Seq<Lexeme>, from: int, to: int) -> Seq<Seq<char>> {
    Seq::new((to - from) as nat, |i: int| tokens[from + i].text)
}

/// The directive whose name is at `at`, and the index after it.
pub open spec fn directive_at(tokens: Seq<Lexeme>, at: int, depth: int, path: Seq<char>) -> Result<
    (Node, int),
    SyntaxError,
>
    decreases tokens.len() - at, 0int,
{
    let t = tokens[at];
    let end = next_mark(tokens, at + 1);
    let (line, column) = (t.line as usize, t.column as usize);
    if !(0 <= at < end <= tokens.len()) {
        arbitrary()
    } else if end == tokens.len() {
        Err(SyntaxError::MissingSemicolonOrBlock { line, column })
    } else {
        let name = t.text;
        let args = words(tokens, at + 1, end);
        let source = place(path, t);
        if is_mark(tokens[end], ';') {
            Ok((Node { name, args, children: None, source }, end + 1))
        } else if is_mark(tokens[end], '{') {
            match block(tokens, end + 1, depth + 1, path) {
                Ok((inner, next)) => Ok(
                    (Node { name, args, children: Some(inner), source }, next),
                ),
                Err(e) => Err(e),
            }
        } else {
            Err(SyntaxError::MissingSemicolon { line, column })
        }
    }
}

/// The directives from `at` to the end of the enclosing block (of the text, where `depth` is 0),
/// and the index after it.
pub open spec fn directives(tokens: Seq<Lexeme>, at: int, depth: int, path: Seq<char>) -> Result<
    (Seq<Node>, int),
    SyntaxError,
>
    decreases tokens.len() - at, 1int,
{
    if at < 0 || at >= tokens.len() {
        if depth > 0 {
            Err(SyntaxError::UnclosedBlock)
        } else {
            Ok((Seq::empty(), at))
        }
    } else {
        let t = tokens[at];
        let (line, column) = (t.line as usize, t.column as usize);
        if is_mark(t, '}') {
            if depth == 0 {
                Err(SyntaxError::UnexpectedClosingBrace { line, column })
            } else {
                Ok((Seq::empty(), at + 1))
            }
        } else if t.punctuation {
            Err(SyntaxError::ExpectedDirective { line, column })
        } else {
            match directive_at(tokens, at, depth, path) {
                Ok((node, next)) => if at < next <= tokens.len() {
                    match directives(tokens, next, depth, path) {
                        Ok((more, end)) => Ok((seq![node] + more, end)),
                        Err(e) => Err(e),
                    }
                } else {
                    arbitrary()
                },
                Err(e) => Err(e),
            }
        }
    }
}

/// `directives` where blocks are not nested too deep.
pub open spec fn block(tokens: Seq<Lexeme>, at: int, depth: int, path: Seq<char>) -> Result<
    (Seq<Node>, int),
    SyntaxError,
>
    decreases tokens.len() - at, 2int,
{
    if depth > MAX_NESTING {
        Err(SyntaxError::NestingTooDeep)
    } else {
        directives(tokens, at, depth, path)
    }
}

/// The directives of a token sequence.
pub open spec fn parsed(tokens: Seq<Lexeme>, path: Seq<char>) -> Result<Seq<Node>, SyntaxError> {
    match block(tokens, 0, 0, path) {
        Ok((v, _)) => Ok(v),
        Err(e) => Err(e),
    }
}

spec fn after(done: Seq<Node>, r: Result<(Seq<Node>, int), SyntaxError>) -> Result<
    (Seq<Node>, int),
    SyntaxError,
> {
    match r {
        Ok((more, end)) => Ok((done + more, end)),
        Err(e) => Err(e),
    }
}

/// Whether `r` is what `spec` says.
pub open spec fn agrees(
    r: Result<(Vec<Directive>, usize), SyntaxError>,
    spec: Result<(Seq<Node>, int), SyntaxError>,
) -> bool {
    match r {
        Ok(p) => spec == Ok::<(Seq<Node>, int), SyntaxError>((nodes(p.0@), p.1 as int)),
        Err(e) => spec == Err::<(Seq<Node>, int), SyntaxError>(e),
    }
}

fn is(t: &Token, c: char) -> (r: bool)
    ensures
        r == is_mark(t@, c),
{
    if !t.punctuation {
        return false;
    }
    let v = text::chars(t.text.as_str());
    if v.len() == 1 && v[0] == c {
        assert(t.text@ =~= seq![c]);
        true
    } else {
        false
    }
}

fn parse_directive(tokens: &Vec<Token>, at: usize, path: &str, depth: usize) -> (r: Result<
    (Directive, usize),
    SyntaxError,
>)
    requires
        at < tokens.len() < usize::MAX,
        depth <= MAX_NESTING,
    ensures
        ({
            let spec = directive_at(lexemes(tokens@), at as int, depth as int, path@);
            match r {
                Ok(p) => spec == Ok::<(Node, int), SyntaxError>((p.0.node(), p.1 as int)) && at
                    < p.1 <= tokens.len(),
                Err(e) => spec == Err::<(Node, int), SyntaxError>(e),
            }
        }),
    decreases tokens.len() - at, 0int,
{
    let ghost ts = lexemes(tokens@);
    let t = &tokens[at];
    assert(ts[at as int] == t@);
    let name = t.text.clone();
    let source = source(path, t);
    let mut args: Vec<String> = Vec::new();
    let mut end: usize = at + 1;
    while end < tokens.len() && !tokens[end].punctuation
        invariant
            at < end <= tokens.len() < usize::MAX,
            ts == lexemes(tokens@),
            texts(args@) == words(ts, at + 1, end as int),
            next_mark(ts, end as int) == next_mark(ts, at + 1),
        decreases tokens.len() - end,
    {
        let ghost before = args@;
        args.push(tokens[end].text.clone());
        proof {
            assert(ts[end as int] == tokens@[end as int]@);
            let now = words(ts, at + 1, end + 1);
            assert(texts(before).len() == words(ts, at + 1, end as int).len());
            assert forall|j: int| 0 <= j < args.len() implies texts(args@)[j] == now[j] by {
                if j < before.len() {
                    assert(texts(before)[j] == words(ts, at + 1, end as int)[j]);
                }
            }
            assert(texts(args@) =~= now);
        }
        end += 1;
    }
    if end == tokens.len() {
        return Err(SyntaxError::MissingSemicolonOrBlock { line: t.line, column: t.column });
    }
    assert(ts[end as int] == tokens@[end as int]@);
    if is(&tokens[end], ';') {
        let d = Directive { name, args, children: None, source };
        Ok((d, end + 1))
    } else if is(&tokens[end], '{') {
        assert(seq!['{'][0] != seq![';'][0]);
        match parse(tokens, end + 1, path, depth + 1) {
            Ok((inner, next)) => {
                let d = Directive { name, args, children: Some(inner), source };
                proof {
                    lemma_node(d);
                }
                Ok((d, next))
            },
            Err(e) => Err(e),
        }
    } else {
        Err(SyntaxError::MissingSemicolon { line: t.line, column: t.column })
    }
}

/// The directives from `at` to the end of a block that is nested `depth` deep, and the index
/// after it.
pub fn parse(tokens: &Vec<Token>, at: usize, path: &str, depth: usize) -> (r: Result<
    (Vec<Directive>, usize),
    SyntaxError,
>)
    requires
        at <= tokens.len() < usize::MAX,
        depth <= MAX_NESTING + 1,
    ensures
        agrees(r, block(lexemes(tokens@), at as int, depth as int, path@)),
        r is Ok ==> at <= r->Ok_0.1 <= tokens.len(),
    decreases tokens.len() - at, 2int,
{
    if depth > MAX_NESTING {
        return Err(SyntaxError::NestingTooDeep);
    }
    let ghost ts = lexemes(tokens@);
    let ghost whole = directives(ts, at as int, depth as int, path@);
    let mut found: Vec<Directive> = Vec::new();
    let mut i: usize = at;
    proof {
        assert(nodes(found@) =~= Seq::<Node>::empty());
        if whole is Ok {
            assert(Seq::<Node>::empty() + whole->Ok_0.0 =~= whole->Ok_0.0);
        }
    }
    while i < tokens.len()
        invariant
            at <= i <= tokens.len() < usize::MAX,
            depth <= MAX_NESTING,
            ts == lexemes(tokens@),
            whole == block(ts, at as int, depth as int, path@),
            after(nodes(found@), directives(ts, i as int, depth as int, path@)) == whole,
        decreases tokens.len() - i,
    {
        let t = &tokens[i];
        assert(ts[i as int] == t@);
        assert(nodes(found@) + Seq::<Node>::empty() =~= nodes(found@));
        if is(t, '}') {
            if depth == 0 {
                return Err(
                    SyntaxError::UnexpectedClosingBrace { line: t.line, column: t.column },
                );
            }
            return Ok((found, i + 1));
        }
        if t.punctuation {
            return Err(SyntaxError::ExpectedDirective { line: t.line, column: t.column });
        }
        let ghost before = nodes(found@);
        match parse_directive(tokens, i, path, depth) {
            Ok((node, next)) => {
                let ghost n = node.node();
                found.push(node);
                proof {
                    assert(nodes(found@) =~= before.push(n));
                    let more = directives(ts, next as int, depth as int, path@);
                    if more is Ok {
                        assert(before.push(n) + more->Ok_0.0 =~= before + (seq![n]
                            + more->Ok_0.0));
                    }
                }
                i = next;
            },
            Err(e) => {
                return Err(e);
            },
        }
    }
    assert(nodes(found@) + Seq::<Node>::empty() =~= nodes(found@));
    if depth > 0 {
        return Err(SyntaxError::UnclosedBlock);
    }
    Ok((found, i))
}

// ---------------------------------------------------------------------------
// Files and inclusion
// ---------------------------------------------------------------------------

pub const MAX_FILES_DEEP: usize = 32;

pub const MAX_FILE_BYTES: usize = 4194304;

/// The files that a pattern stands for, in order.
#[derive(Debug)]
pub struct Listing {
    pub pattern: String,
    pub paths: Vec<String>,
}

/// A file as it was read.
#[derive(Debug)]
pub struct File {
    pub path: String,
    pub bytes: Vec<u8>,
}

/// What is known of the file system: patterns that were listed and files that were read.
#[derive(Debug)]
pub struct Files {
    pub listings: Vec<Listing>,
    pub files: Vec<File>,
}

/// The files that a pattern stands for, where it was listed.
pub open spec fn listed(v: Seq<Listing>, pattern: Seq<char>) -> Option<Seq<Seq<char>>>
    decreases v.len(),
{
    if v.len() == 0 {
        None
    } else if v[0].pattern@ == pattern {
        Some(texts(v[0].paths@))
    } else {
        listed(v.drop_first(), pattern)
    }
}

/// What a file holds, where it was read.
pub open spec fn held(v: Seq<File>, path: Seq<char>) -> Option<Seq<u8>>
    decreases v.len(),
{
    if v.len() == 0 {
        None
    } else if v[0].path@ == path {
        Some(v[0].bytes@)
    } else {
        held(v.drop_first(), path)
    }
}

impl Files {
    fn listing(&self, pattern: &str) -> (r: Option<&Vec<String>>)
        ensures
            match r {
                Some(p) => listed(self.listings@, pattern@) == Some(texts(p@)),
                None => listed(self.listings@, pattern@) is None,
            },
    {
        let mut i: usize = 0;
        assert(self.listings@.skip(0) =~= self.listings@);
        while i < self.listings.len()
            invariant
                i <= self.listings.len(),
                listed(self.listings@.skip(i as int), pattern@) == listed(
                    self.listings@,
                    pattern@,
                ),
            decreases self.listings.len() - i,
        {
            if text::same(self.listings[i].pattern.as_str(), pattern) {
                return Some(&self.listings[i].paths);
            }
            assert(self.listings@.skip(i as int).drop_first() =~= self.listings@.skip(i + 1));
            i += 1;
        }
        None
    }

    fn content(&self, path: &str) -> (r: Option<&Vec<u8>>)
        ensures
            match r {
                Some(b) => held(self.files@, path@) == Some(b@),
                None => held(self.files@, path@) is None,
            },
    {
        let mut i: usize = 0;
        assert(self.files@.skip(0) =~= self.files@);
        while i < self.files.len()
            invariant
                i <= self.files.len(),
                held(self.files@.skip(i as int), path@) == held(self.files@, path@),
            decreases self.files.len() - i,
        {
            if text::same(self.files[i].path.as_str(), path) {
                return Some(&self.files[i].bytes);
            }
            assert(self.files@.skip(i as int).drop_first() =~= self.files@.skip(i + 1));
            i += 1;
        }
        None
    }
}

/// Why a configuration could not be loaded, or what has to be looked up first.
#[derive(Debug)]
pub enum LoadError {
    /// The files that this pattern stands for have to be listed.
    NeedListing(String),
    /// This file has to be read.
    NeedFile(String),
    IncludeCycle(String),
    TooLarge(String),
    NotUtf8(String),
    Syntax(String, SyntaxError),
    IncludeArguments(String),
    IncludeNotFound(String),
}

/// What a `LoadError` holds.
#[verifier::ext_equal]
pub ghost enum Fault {
    NeedListing(Seq<char>),
    NeedFile(Seq<char>),
    IncludeCycle(Seq<char>),
    TooLarge(Seq<char>),
    NotUtf8(Seq<char>),
    Syntax(Seq<char>, SyntaxError),
    IncludeArguments(Seq<char>),
    IncludeNotFound(Seq<char>),
}

impl View for LoadError {
    type V = Fault;

    open spec fn view(&self) -> Fault {
        match self {
            LoadError::NeedListing(p) => Fault::NeedListing(p@),
            LoadError::NeedFile(p) => Fault::NeedFile(p@),
            LoadError::IncludeCycle(p) => Fault::IncludeCycle(p@),
            LoadError::TooLarge(p) => Fault::TooLarge(p@),
            LoadError::NotUtf8(p) => Fault::NotUtf8(p@),
            LoadError::Syntax(p, e) => Fault::Syntax(p@, *e),
            LoadError::IncludeArguments(p) => Fault::IncludeArguments(p@),
            LoadError::IncludeNotFound(p) => Fault::IncludeNotFound(p@),
        }
    }
}

/// Whether an argument of `include` stands for any number of files.
pub open spec fn is_pattern(s: Seq<char>) -> bool {
    s.contains('*') || s.contains('?') || s.contains('[')
}

pub open spec fn joined_results(
    a: Result<Seq<Node>, Fault>,
    b: Result<Seq<Node>, Fault>,
) -> Result<Seq<Node>, Fault> {
    match a {
        Err(e) => Err(e),
        Ok(x) => match b {
            Err(e) => Err(e),
            Ok(y) => Ok(x + y),
        },
    }
}

/// The directives of the file at `path`, with those of the files it includes in their place;
/// `stack` holds the files that are being loaded.
pub open spec fn file_nodes(files: Files, path: Seq<char>, stack: Seq<Seq<char>>) -> Result<
    Seq<Node>,
    Fault,
>
    decreases MAX_FILES_DEEP + 1 - stack.len(), 0int, Seq::<Node>::empty(), 0nat,
{
    if stack.contains(path) || stack.len() >= MAX_FILES_DEEP {
        Err(Fault::IncludeCycle(path))
    } else {
        match held(files.files@, path) {
            None => Err(Fault::NeedFile(path)),
            Some(bytes) => if bytes.len() > MAX_FILE_BYTES {
                Err(Fault::TooLarge(path))
            } else if !vstd::utf8::valid_utf8(bytes) {
                Err(Fault::NotUtf8(path))
            } else {
                match tokens_of(vstd::utf8::decode_utf8(bytes)) {
                    Err(e) => Err(Fault::Syntax(path, e)),
                    Ok(tokens) => match parsed(tokens, path) {
                        Err(e) => Err(Fault::Syntax(path, e)),
                        Ok(v) => expanded(files, v, stack.push(path)),
                    },
                }
            },
        }
    }
}

/// The directives of several files, one after the other.
pub open spec fn files_nodes(
    files: Files,
    paths: Seq<Seq<char>>,
    stack: Seq<Seq<char>>,
) -> Result<Seq<Node>, Fault>
    decreases MAX_FILES_DEEP + 1 - stack.len(), 1int, Seq::<Node>::empty(), paths.len(),
{
    if paths.len() == 0 {
        Ok(Seq::empty())
    } else {
        joined_results(
            file_nodes(files, paths[0], stack),
            files_nodes(files, paths.drop_first(), stack),
        )
    }
}

/// `v` with each `include` replaced by the directives of the files it stands for.
pub open spec fn expanded(files: Files, v: Seq<Node>, stack: Seq<Seq<char>>) -> Result<
    Seq<Node>,
    Fault,
>
    decreases MAX_FILES_DEEP + 1 - stack.len(), 2int, v, 0nat,
{
    if v.len() == 0 {
        Ok(Seq::empty())
    } else {
        let node = v[0];
        let first: Result<Seq<Node>, Fault> = if node.name == "include"@ {
            if node.children is Some || node.args.len() != 1 {
                Err(Fault::IncludeArguments(node.source))
            } else {
                let pattern = path::joined(path::directory(stack[0]), node.args[0]);
                match listed(files.listings@, pattern) {
                    None => Err(Fault::NeedListing(pattern)),
                    Some(paths) => if paths.len() == 0 && !is_pattern(node.args[0]) {
                        Err(Fault::IncludeNotFound(node.source))
                    } else {
                        files_nodes(files, paths, stack)
                    },
                }
            }
        } else {
            match node.children {
                None => Ok(seq![node]),
                Some(inner) => match expanded(files, inner, stack) {
                    Err(e) => Err(e),
                    Ok(w) => Ok(seq![Node { children: Some(w), ..node }]),
                },
            }
        };
        joined_results(first, expanded(files, v.drop_first(), stack))
    }
}

/// Whether `r` is what `spec` says.
pub open spec fn loaded(
    r: Result<Vec<Directive>, LoadError>,
    spec: Result<Seq<Node>, Fault>,
) -> bool {
    match r {
        Ok(v) => spec == Ok::<Seq<Node>, Fault>(nodes(v@)),
        Err(e) => spec == Err::<Seq<Node>, Fault>(e@),
    }
}

/// Adds the elements of `more` at the end of `out`.
fn extend(out: &mut Vec<Directive>, more: Vec<Directive>)
    ensures
        final(out)@ == old(out)@ + more@,
{
    let mut more = more;
    out.append(&mut more);
}

fn load_file(files: &Files, path: &str, stack: &Vec<String>) -> (r: Result<
    Vec<Directive>,
    LoadError,
>)
    requires
        stack.len() <= MAX_FILES_DEEP,
    ensures
        loaded(r, file_nodes(*files, path@, texts(stack@))),
    decreases MAX_FILES_DEEP + 1 - stack.len(), 0int, Seq::<Node>::empty(), 0nat,
{
    if text::contains(stack, path) || stack.len() >= MAX_FILES_DEEP {
        return Err(LoadError::IncludeCycle(path.to_owned()));
    }
    let bytes = match files.content(path) {
        Some(b) => b,
        None => return Err(LoadError::NeedFile(path.to_owned())),
    };
    if bytes.len() > MAX_FILE_BYTES {
        return Err(LoadError::TooLarge(path.to_owned()));
    }
    let input = match text::decode(bytes) {
        Some(s) => s,
        None => return Err(LoadError::NotUtf8(path.to_owned())),
    };
    proof {
        text::lemma_decoded_len(bytes@);
    }
    let tokens = match tokenize(input.as_str()) {
        Ok(t) => t,
        Err(e) => return Err(LoadError::Syntax(path.to_owned(), e)),
    };
    if tokens.len() == usize::MAX {
        proof {
            lemma_token_count(input@, 0, 1, 1);
            assert(false);
        }
        return Err(LoadError::TooLarge(path.to_owned()));
    }
    let found = match parse(&tokens, 0, path, 0) {
        Ok(p) => p.0,
        Err(e) => return Err(LoadError::Syntax(path.to_owned(), e)),
    };
    let mut deeper = text::copy_all(stack);
    deeper.push(path.to_owned());
    assert(texts(deeper@) =~= texts(stack@).push(path@));
    expand(files, &found, &deeper)
}

/// There are at most as many tokens as characters.
proof fn lemma_token_count(s: Seq<char>, i: int, line: int, column: int)
    requires
        0 <= i <= s.len(),
    ensures
        scan(s, i, line, column) is Ok ==> scan(s, i, line, column)->Ok_0.len() <= s.len() - i,
    decreases s.len() - i,
{
    if i < s.len() {
        if s[i] == '\n' {
            lemma_token_count(s, i + 1, line + 1, 1);
        } else if text::spec_whitespace(s[i]) {
            lemma_token_count(s, i + 1, line, column + 1);
        } else if s[i] == '#' {
            lemma_line_end(s, i + 1);
            let end = line_end(s, i + 1);
            lemma_token_count(s, end, line, column + (end - i));
        } else if mark(s[i]) {
            lemma_token_count(s, i + 1, line, column + 1);
        } else {
            lemma_word_end(s, i, line, column, None);
            match word(s, i, line, column, None) {
                Word::Read { text, end, line: l, column: c } => {
                    lemma_token_count(s, end, l, c);
                },
                _ => {},
            }
        }
    }
}

proof fn lemma_word_end(s: Seq<char>, i: int, line: int, column: int, quote: Option<char>)
    requires
        0 <= i <= s.len(),
    ensures
        match word(s, i, line, column, quote) {
            Word::Read { end, .. } => i <= end <= s.len() && (i < s.len() && !delimiter(s[i])
                ==> i < end),
            _ => true,
        },
    decreases s.len() - i,
{
    if !(i >= s.len() || (quote is None && delimiter(s[i]))) {
        if s[i] == '\\' {
            if i + 1 < s.len() {
                lemma_word_end(s, i + 2, line, column + 2, quote);
            }
        } else {
            let (l, c) = if s[i] == '\n' {
                (line + 1, 1int)
            } else {
                (line, column + 1)
            };
            lemma_word_end(s, i + 1, l, c, None);
            lemma_word_end(s, i + 1, l, c, Some(s[i]));
            lemma_word_end(s, i + 1, l, c, quote);
        }
    }
}

fn load_files(files: &Files, paths: &Vec<String>, stack: &Vec<String>) -> (r: Result<
    Vec<Directive>,
    LoadError,
>)
    requires
        stack.len() <= MAX_FILES_DEEP,
    ensures
        loaded(r, files_nodes(*files, texts(paths@), texts(stack@))),
    decreases MAX_FILES_DEEP + 1 - stack.len(), 1int, Seq::<Node>::empty(), 0nat,
{
    let ghost whole = files_nodes(*files, texts(paths@), texts(stack@));
    let mut out: Vec<Directive> = Vec::new();
    let mut i: usize = 0;
    proof {
        assert(texts(paths@).skip(0) =~= texts(paths@));
        if whole is Ok {
            assert(nodes(out@) + whole->Ok_0 =~= whole->Ok_0);
        }
    }
    while i < paths.len()
        invariant
            i <= paths.len(),
            stack.len() <= MAX_FILES_DEEP,
            whole == files_nodes(*files, texts(paths@), texts(stack@)),
            joined_results(
                Ok(nodes(out@)),
                files_nodes(*files, texts(paths@).skip(i as int), texts(stack@)),
            ) == whole,
        decreases paths.len() - i,
    {
        let ghost before = nodes(out@);
        proof {
            let rest = texts(paths@).skip(i as int);
            assert(rest[0] == paths@[i as int]@);
            assert(rest.drop_first() =~= texts(paths@).skip(i + 1));
        }
        match load_file(files, paths[i].as_str(), stack) {
            Err(e) => {
                return Err(e);
            },
            Ok(v) => {
                let ghost added = nodes(v@);
                extend(&mut out, v);
                proof {
                    assert(nodes(out@) =~= before + added);
                    let more = files_nodes(*files, texts(paths@).skip(i + 1), texts(stack@));
                    if more is Ok {
                        assert((before + added) + more->Ok_0 =~= before + (added + more->Ok_0));
                    }
                }
            },
        }
        i += 1;
    }
    assert(nodes(out@) + Seq::<Node>::empty() =~= nodes(out@));
    Ok(out)
}

impl Directive {
    /// The same directive again.
    pub fn copy(&self) -> (out: Directive)
        ensures
            out.node() == self.node(),
        decreases self.node(),
    {
        let children = match &self.children {
            None => None,
            Some(v) => {
                let mut w: Vec<Directive> = Vec::new();
                let mut i: usize = 0;
                while i < v.len()
                    invariant
                        i <= v.len(),
                        self.children == Some(*v),
                        nodes(w@) == nodes(v@).take(i as int),
                    decreases v.len() - i,
                {
                    proof {
                        lemma_node(*self);
                        assert(decreases_to!(self.node() => self.node().children->0));
                        assert(decreases_to!(nodes(v@) => nodes(v@)[i as int]));
                    }
                    let d = v[i].copy();
                    let ghost before = nodes(w@);
                    w.push(d);
                    proof {
                        assert(nodes(w@) =~= before.push(d.node()));
                        assert(nodes(v@).take(i + 1) =~= nodes(v@).take(i as int).push(
                            v@[i as int].node(),
                        ));
                    }
                    i += 1;
                }
                assert(nodes(v@).take(v.len() as int) =~= nodes(v@));
                Some(w)
            },
        };
        let out = Directive {
            name: self.name.clone(),
            args: text::copy_all(&self.args),
            children,
            source: self.source.clone(),
        };
        proof {
            lemma_node(out);
            lemma_node(*self);
        }
        out
    }
}

/// The directive `d` with the files that it, or its block, includes put in place.
fn expand_one(files: &Files, d: &Directive, stack: &Vec<String>) -> (r: Result<
    Vec<Directive>,
    LoadError,
>)
    requires
        1 <= stack.len() <= MAX_FILES_DEEP,
    ensures
        loaded(r, expanded(*files, seq![d.node()], texts(stack@))),
    decreases MAX_FILES_DEEP + 1 - stack.len(), 2int, d.node(), 0nat,
{
    let ghost rest = seq![d.node()].drop_first();
    proof {
        assert(rest =~= Seq::<Node>::empty());
        assert forall|x: Seq<Node>| #[trigger] (x + Seq::<Node>::empty()) == x by {
            assert(x + Seq::<Node>::empty() =~= x);
        }
        reveal_with_fuel(expanded, 2);
    }
    if text::same(d.name.as_str(), "include") {
        if d.children.is_some() || d.args.len() != 1 {
            return Err(LoadError::IncludeArguments(d.source.clone()));
        }
        let base = path::parent(stack[0].as_str());
        let arg = d.args[0].as_str();
        let pattern = path::join(base, arg);
        proof {
            assert(texts(stack@)[0] == stack@[0]@);
            assert(d.node().args[0] == arg@);
        }
        match files.listing(pattern.as_str()) {
            None => Err(LoadError::NeedListing(pattern)),
            Some(paths) => {
                if paths.len() == 0 && !(text::has_char(arg, '*') || text::has_char(arg, '?')
                    || text::has_char(arg, '[')) {
                    Err(LoadError::IncludeNotFound(d.source.clone()))
                } else {
                    load_files(files, paths, stack)
                }
            },
        }
    } else {
        match &d.children {
            None => {
                let mut out: Vec<Directive> = Vec::new();
                out.push(d.copy());
                assert(nodes(out@) =~= seq![d.node()]);
                Ok(out)
            },
            Some(inner) => {
                proof {
                    lemma_node(*d);
                    assert(decreases_to!(d.node() => d.node().children->0));
                }
                match expand(files, inner, stack) {
                    Err(e) => Err(e),
                    Ok(w) => {
                        let mut out: Vec<Directive> = Vec::new();
                        let again = Directive {
                            name: d.name.clone(),
                            args: text::copy_all(&d.args),
                            children: Some(w),
                            source: d.source.clone(),
                        };
                        out.push(again);
                        proof {
                            lemma_node(again);
                            assert(nodes(out@) =~= seq![again.node()]);
                        }
                        Ok(out)
                    },
                }
            },
        }
    }
}

/// `v` with each `include` replaced by the directives of the files it stands for.
fn expand(files: &Files, v: &Vec<Directive>, stack: &Vec<String>) -> (r: Result<
    Vec<Directive>,
    LoadError,
>)
    requires
        1 <= stack.len() <= MAX_FILES_DEEP,
    ensures
        loaded(r, expanded(*files, nodes(v@), texts(stack@))),
    decreases MAX_FILES_DEEP + 1 - stack.len(), 2int, nodes(v@), 0nat,
{
    let ghost all = nodes(v@);
    let ghost st = texts(stack@);
    let ghost whole = expanded(*files, all, st);
    let mut out: Vec<Directive> = Vec::new();
    let mut i: usize = 0;
    proof {
        assert(all.skip(0) =~= all);
        if whole is Ok {
            assert(nodes(out@) + whole->Ok_0 =~= whole->Ok_0);
        }
    }
    while i < v.len()
        invariant
            i <= v.len(),
            1 <= stack.len() <= MAX_FILES_DEEP,
            all == nodes(v@),
            st == texts(stack@),
            whole == expanded(*files, all, st),
            joined_results(Ok(nodes(out@)), expanded(*files, all.skip(i as int), st)) == whole,
        decreases v.len() - i,
    {
        let ghost before = nodes(out@);
        let ghost node = v@[i as int].node();
        proof {
            assert(decreases_to!(all => all[i as int]));
            lemma_expanded_first(*files, all.skip(i as int), st);
            assert(all.skip(i as int)[0] == node);
            assert(all.skip(i as int).drop_first() =~= all.skip(i + 1));
        }
        match expand_one(files, &v[i], stack) {
            Err(e) => {
                return Err(e);
            },
            Ok(w) => {
                let ghost added = nodes(w@);
                extend(&mut out, w);
                proof {
                    assert(nodes(out@) =~= before + added);
                    let more = expanded(*files, all.skip(i + 1), st);
                    if more is Ok {
                        assert((before + added) + more->Ok_0 =~= before + (added + more->Ok_0));
                    }
                }
            },
        }
        i += 1;
    }
    assert(nodes(out@) + Seq::<Node>::empty() =~= nodes(out@));
    Ok(out)
}

/// Expanding a list is expanding its first directive and then the others.
proof fn lemma_expanded_first(files: Files, v: Seq<Node>, stack: Seq<Seq<char>>)
    requires
        v.len() > 0,
    ensures
        expanded(files, v, stack) == joined_results(
            expanded(files, seq![v[0]], stack),
            expanded(files, v.drop_first(), stack),
        ),
{
    reveal_with_fuel(expanded, 2);
    assert(seq![v[0]].drop_first() =~= Seq::<Node>::empty());
    assert forall|x: Seq<Node>| #[trigger] (x + Seq::<Node>::empty()) == x by {
        assert(x + Seq::<Node>::empty() =~= x);
    }
}

/// The directives of the configuration whose first file is `path`.
///
/// Where `files` lacks something that is needed, the error says what has to be listed or read;
/// with that added the call goes further.
pub fn load(path: &str, files: &Files) -> (r: Result<Vec<Directive>, LoadError>)
    ensures
        loaded(r, file_nodes(*files, path@, Seq::empty())),
{
    let stack: Vec<String> = Vec::new();
    assert(texts(stack@) =~= Seq::<Seq<char>>::empty());
    load_file(files, path, &stack)
}

/// A character that is only itself in a word.
pub open spec fn plain(c: char) -> bool {
    !delimiter(c) && c != '\\' && c != '\'' && c != '"'
}

/// Plain characters up to a delimiter are a word.
pub proof fn law_plain_words_are_read(s: Seq<char>, i: int, j: int, line: int, column: int)
    requires
        0 <= i <= j <= s.len(),
        forall|k: int| i <= k < j ==> plain(#[trigger] s[k]),
        j < s.len() ==> delimiter(s[j]),
    ensures
        word(s, i, line, column, None) == (Word::Read {
            text: s.subrange(i, j),
            end: j,
            line,
            column: column + (j - i),
        }),
    decreases j - i,
{
    if i < j {
        assert(plain(s[i]));
        assert(s[i] != '\n') by {
            assert(text::spec_whitespace('\n'));
        }
        law_plain_words_are_read(s, i + 1, j, line, column + 1);
        assert(seq![s[i]] + s.subrange(i + 1, j) =~= s.subrange(i, j));
    } else {
        assert(s.subrange(i, j) =~= Seq::empty());
    }
}

/// What stands between quotes is a word, with its blanks and marks.
pub proof fn law_quoted_words_are_read(s: Seq<char>, i: int, j: int, line: int, column: int, quote: char)
    requires
        0 <= i <= j < s.len(),
        forall|k: int| i <= k < j ==> #[trigger] s[k] != quote && s[k] != '\\' && s[k] != '\n',
        s[j] == quote,
        quote == '"' || quote == '\'',
        j + 1 < s.len() ==> delimiter(s[j + 1]),
    ensures
        word(s, i, line, column, Some(quote)) == (Word::Read {
            text: s.subrange(i, j),
            end: j + 1,
            line,
            column: column + (j - i) + 1,
        }),
    decreases j - i,
{
    if i < j {
        assert(s[i] != quote);
        law_quoted_words_are_read(s, i + 1, j, line, column + 1, quote);
        assert(seq![s[i]] + s.subrange(i + 1, j) =~= s.subrange(i, j));
    } else {
        law_plain_words_are_read(s, j + 1, j + 1, line, column + 1);
        assert(s.subrange(i, j) =~= Seq::empty());
        assert(s.subrange(j + 1, j + 1) =~= Seq::empty());
    }
}

/// A character behind a backslash stands for itself, or for the end of a line, a return or a tab.
pub proof fn law_escapes_are_read(s: Seq<char>, i: int, line: int, column: int, quote: Option<char>)
    requires
        0 <= i < s.len(),
        s[i] == '\\',
    ensures
        i + 1 == s.len() ==> word(s, i, line, column, quote) is IncompleteEscape,
        i + 1 < s.len() ==> word(s, i, line, column, quote) == prefixed(
            if s[i + 1] == 'n' {
                '\n'
            } else if s[i + 1] == 'r' {
                '\r'
            } else if s[i + 1] == 't' {
                '\t'
            } else {
                s[i + 1]
            },
            word(s, i + 2, line, column + 2, quote),
        ),
{
    assert(!delimiter('\\'));
}

/// Blanks and comments are passed over.
pub proof fn law_blanks_are_passed_over(s: Seq<char>, i: int, line: int, column: int)
    requires
        0 <= i < s.len(),
    ensures
        s[i] == '\n' ==> scan(s, i, line, column) == scan(s, i + 1, line + 1, 1),
        s[i] == ' ' ==> scan(s, i, line, column) == scan(s, i + 1, line, column + 1),
        s[i] == '#' && s.last() == '#' && i == s.len() - 1 ==> scan(s, i, line, column) == Ok::<
            Seq<Lexeme>,
            SyntaxError,
        >(Seq::empty()),
{
    assert(text::spec_whitespace(' '));
    if s[i] == '#' && i == s.len() - 1 {
        assert(line_end(s, i + 1) == s.len());
        assert(!text::spec_whitespace('#'));
    }
}

/// A word and what follows it up to a semicolon are a directive with its arguments.
pub proof fn law_directives_end_with_a_semicolon(a: Lexeme, b: Lexeme, m: Lexeme, path: Seq<char>)
    requires
        !a.punctuation,
        !b.punctuation,
        is_mark(m, ';'),
    ensures
        parsed(seq![a, b, m], path) == Ok::<Seq<Node>, SyntaxError>(
            seq![
                Node {
                    name: a.text,
                    args: seq![b.text],
                    children: None,
                    source: path + ":"@ + text::decimal(a.line as nat) + ":"@ + text::decimal(a.column as nat),
                },
            ],
        ),
        parsed(seq![a, b], path) == Err::<Seq<Node>, SyntaxError>(
            SyntaxError::MissingSemicolonOrBlock { line: a.line as usize, column: a.column as usize },
        ),
{
    let v = seq![a, b, m];
    let w = seq![a, b];
    assert(v[0] == a && v[1] == b && v[2] == m);
    assert(w[0] == a && w[1] == b);
    reveal_with_fuel(next_mark, 4);
    reveal_with_fuel(directives, 3);
    reveal_with_fuel(directive_at, 3);
    assert(next_mark(v, 1) == 2);
    assert(next_mark(w, 1) == 2);
    assert(words(v, 1, 2) =~= seq![b.text]);
    let n = Node {
        name: a.text,
        args: seq![b.text],
        children: None,
        source: path + ":"@ + text::decimal(a.line as nat) + ":"@ + text::decimal(a.column as nat),
    };
    assert(directive_at(v, 0, 0, path) == Ok::<(Node, int), SyntaxError>((n, 3)));
    assert(directives(v, 3, 0, path) == Ok::<(Seq<Node>, int), SyntaxError>((Seq::empty(), 3)));
    assert(seq![n] + Seq::<Node>::empty() =~= seq![n]);
}

/// A block has to be closed, and only once; blocks in blocks go 32 deep.
pub proof fn law_blocks_are_closed(tokens: Seq<Lexeme>, at: int, depth: int, path: Seq<char>)
    ensures
        at >= tokens.len() && depth > 0 ==> directives(tokens, at, depth, path) == Err::<
            (Seq<Node>, int),
            SyntaxError,
        >(SyntaxError::UnclosedBlock),
        0 <= at < tokens.len() && is_mark(tokens[at], '}') && depth > 0 ==> directives(tokens, at, depth, path)
            == Ok::<(Seq<Node>, int), SyntaxError>((Seq::empty(), at + 1)),
        0 <= at < tokens.len() && is_mark(tokens[at], '}') && depth == 0 ==> directives(tokens, at, depth, path)
            is Err,
        depth > 32 ==> block(tokens, at, depth, path) == Err::<(Seq<Node>, int), SyntaxError>(
            SyntaxError::NestingTooDeep,
        ),
{
}

/// A file is read where it is there, is small enough and is text; one that takes itself in is refused.
pub proof fn law_files_are_read(files: Files, path: Seq<char>, stack: Seq<Seq<char>>, b: Seq<u8>)
    ensures
        stack.contains(path) ==> file_nodes(files, path, stack) == Err::<Seq<Node>, Fault>(
            Fault::IncludeCycle(path),
        ),
        !stack.contains(path) && stack.len() < 32 ==> {
            &&& held(files.files@, path) is None ==> file_nodes(files, path, stack) == Err::<Seq<Node>, Fault>(
                Fault::NeedFile(path),
            )
            &&& held(files.files@, path) == Some(b) && b.len() > 4194304 ==> file_nodes(files, path, stack)
                == Err::<Seq<Node>, Fault>(Fault::TooLarge(path))
            &&& held(files.files@, path) == Some(b) && b.len() <= 4194304 && !vstd::utf8::valid_utf8(b)
                ==> file_nodes(files, path, stack) == Err::<Seq<Node>, Fault>(Fault::NotUtf8(path))
        },
{
}

/// What is taken in stands in the place of the directive that names it, one file behind the other; other
/// directives stay.
pub proof fn law_files_stand_in_their_place(
    files: Files,
    n: Node,
    v: Seq<Node>,
    stack: Seq<Seq<char>>,
    paths: Seq<Seq<char>>,
)
    ensures
        n.name != "include"@ && n.children is None ==> expanded(files, seq![n] + v, stack) == joined_results(
            Ok(seq![n]),
            expanded(files, v, stack),
        ),
        n.name == "include"@ && n.children is None && n.args.len() == 1 && paths.len() > 0 && listed(
            files.listings@,
            path::joined(path::directory(stack[0]), n.args[0]),
        ) == Some(paths) ==> expanded(files, seq![n] + v, stack) == joined_results(
            files_nodes(files, paths, stack),
            expanded(files, v, stack),
        ),
        n.name == "include"@ && n.args.len() != 1 ==> expanded(files, seq![n] + v, stack) == Err::<
            Seq<Node>,
            Fault,
        >(Fault::IncludeArguments(n.source)),
{
    let w = seq![n] + v;
    assert(w[0] == n);
    assert(w.drop_first() =~= v);
}

} // verus!
