//! Files that are served as they are: ranges, dates, and the fields of the answer.
use crate::header::Headers;
use crate::proxy::paths::{normal, normalize_decoded_path, PathError};
use crate::proxy::paths::encode_path;
use crate::proxy::planning::line_path;
use crate::script::{Changes, Edits, Request, RequestData};
use crate::text;
use vstd::prelude::*;
use vstd::utf8::encode_utf8;

verus! {

// ---------------------------------------------------------------------------
// Ranges
// ---------------------------------------------------------------------------

/// The part of a file that a `Range` field asks for, as its first and its last byte. `Ok(None)` stands
/// for the whole file, an error for a range that cannot be given.
pub open spec fn range_of(value: Seq<char>, length: u64) -> Result<Option<(u64, u64)>, ()> {
    if !text::starts(value, "bytes="@) {
        Ok(None)
    } else {
        let v = value.skip("bytes="@.len() as int);
        if v.contains(',') {
            Ok(None)
        } else {
            match text::split_once_spec(v, '-') {
                None => Ok(None),
                Some((first, last)) => if length == 0 {
                    Err(())
                } else if first.len() == 0 {
                    match text::decimal_upto(last, u64::MAX as nat) {
                        None => Err(()),
                        Some(n) => if n == 0 {
                            Err(())
                        } else if n >= length {
                            Ok(Some((0, (length - 1) as u64)))
                        } else {
                            Ok(Some(((length - n) as u64, (length - 1) as u64)))
                        },
                    }
                } else {
                    match text::decimal_upto(first, u64::MAX as nat) {
                        None => Err(()),
                        Some(start) => {
                            let end = if last.len() == 0 {
                                Some((length - 1) as nat)
                            } else {
                                match text::decimal_upto(last, u64::MAX as nat) {
                                    None => None,
                                    Some(n) => Some(
                                        if n < length - 1 {
                                            n
                                        } else {
                                            (length - 1) as nat
                                        },
                                    ),
                                }
                            };
                            match end {
                                None => Err(()),
                                Some(end) => if start >= length || end < start {
                                    Err(())
                                } else {
                                    Ok(Some((start as u64, end as u64)))
                                },
                            }
                        },
                    }
                },
            }
        }
    }
}

/// The part of a file that a `Range` field asks for.
pub fn range(value: &str, length: u64) -> (r: Result<Option<(u64, u64)>, ()>)
    ensures
        r == range_of(value@, length),
{
    let v = match text::strip_prefix(value, "bytes=") {
        Some(v) => v,
        None => return Ok(None),
    };
    if text::has_char(v, ',') {
        return Ok(None);
    }
    let (first, last) = match text::split_once(v, '-') {
        Some(p) => p,
        None => return Ok(None),
    };
    if length == 0 {
        return Err(());
    }
    if first.as_str().is_empty() {
        let n = match text::parse_u64(last.as_str()) {
            Some(n) => n,
            None => return Err(()),
        };
        if n == 0 {
            return Err(());
        }
        let start: u64 = if n >= length {
            0
        } else {
            length - n
        };
        return Ok(Some((start, length - 1)));
    }
    let start = match text::parse_u64(first.as_str()) {
        Some(n) => n,
        None => return Err(()),
    };
    let end: u64 = if last.as_str().is_empty() {
        length - 1
    } else {
        match text::parse_u64(last.as_str()) {
            Some(n) => if n < length - 1 {
                n
            } else {
                length - 1
            },
            None => return Err(()),
        }
    };
    if start >= length || end < start {
        return Err(());
    }
    Ok(Some((start, end)))
}

/// A part that is given lies within the file.
pub proof fn law_ranges_are_bounded(value: Seq<char>, length: u64)
    ensures
        range_of(value, length) is Ok && range_of(value, length)->Ok_0 is Some ==> {
            let (a, b) = range_of(value, length)->Ok_0->0;
            a <= b < length
        },
{
}

// ---------------------------------------------------------------------------
// Names and tags
// ---------------------------------------------------------------------------

/// The extension of a file's name, in lower case: what follows its last dot, which is not its first
/// character.
pub open spec fn extension_of(name: Seq<char>) -> Seq<char> {
    let base = name.skip(text::last_position(name, '/') + 1);
    let dot = text::last_position(base, '.');
    if dot <= 0 || base == ".."@ {
        Seq::empty()
    } else {
        text::lowercase(base.skip(dot + 1))
    }
}

pub fn extension(name: &str) -> (out: String)
    ensures
        out@ == extension_of(name@),
{
    let v = text::chars(name);
    let start: usize = match text::rfind(&v, '/') {
        Some(i) => i + 1,
        None => 0,
    };
    let base = text::slice(&v, start, v.len());
    assert(base@ =~= name@.skip(text::last_position(name@, '/') + 1));
    let w = text::chars(base.as_str());
    let out = match text::rfind(&w, '.') {
        Some(i) => if i == 0 || text::same(base.as_str(), "..") {
            String::new()
        } else {
            let tail = text::slice(&w, i + 1, w.len());
            assert(tail@ =~= base@.skip(i + 1));
            text::to_lowercase(tail.as_str())
        },
        None => String::new(),
    };
    assert(out@ =~= extension_of(name@));
    out
}

/// The tag of a file: its length and the seconds and nanoseconds of its last change, in hexadecimal.
pub open spec fn etag_of(length: u64, seconds: u64, nanos: u32) -> Seq<char> {
    "\""@ + text::hex(length as nat) + "-"@ + text::hex(seconds as nat) + "-"@ + text::hex(
        nanos as nat,
    ) + "\""@
}

pub fn etag(length: u64, seconds: u64, nanos: u32) -> (out: String)
    ensures
        out@ == etag_of(length, seconds, nanos),
{
    let mut out = text::concat3("\"", text::hex_string(length).as_str(), "-");
    out.append(text::hex_string(seconds).as_str());
    out.append("-");
    out.append(text::hex_string(nanos as u64).as_str());
    out.append("\"");
    out
}

/// The type of a file by its name, of a table of extensions.
pub open spec fn mime_of(types: Seq<(Seq<char>, Seq<char>)>, fallback: Seq<char>, name: Seq<char>) -> Seq<
    char,
> {
    match text::lookup(types, extension_of(name)) {
        Some(t) => t,
        None => fallback,
    }
}

pub fn mime(types: &Vec<(String, String)>, fallback: &str, name: &str) -> (out: String)
    ensures
        out@ == mime_of(text::pairs(types@), fallback@, name@),
{
    let e = extension(name);
    match text::find(types, e.as_str()) {
        Some(t) => t.to_owned(),
        None => fallback.to_owned(),
    }
}

// ---------------------------------------------------------------------------
// Dates
// ---------------------------------------------------------------------------

/// The first second that has no date with a year of four digits.
pub const DATE_END: u64 = 253402300800;

/// The seconds since 1970 that an HTTP date stands for, as the `httpdate` crate reads it.
pub uninterp spec fn http_date(s: Seq<char>) -> Option<u64>;

/// `parse_http_date` of the `httpdate` crate, in seconds since 1970.
#[verifier::external_body]
pub(crate) fn parse_date(s: &str) -> (r: Option<u64>)
    ensures
        r == http_date(s@),
{
    let time = httpdate::parse_http_date(s).ok()?;
    Some(time.duration_since(std::time::UNIX_EPOCH).ok()?.as_secs())
}

/// The HTTP date of a second, as the `httpdate` crate writes it.
pub uninterp spec fn date_text(seconds: u64) -> Seq<char>;

/// `fmt_http_date` of the `httpdate` crate; it panics on dates from the year 10000 on.
#[verifier::external_body]
pub(crate) fn format_date(seconds: u64) -> (out: String)
    requires
        seconds < DATE_END,
    ensures
        out@ == date_text(seconds),
{
    httpdate::fmt_http_date(std::time::UNIX_EPOCH + std::time::Duration::from_secs(seconds))
}

// ---------------------------------------------------------------------------
// The answer
// ---------------------------------------------------------------------------

/// A file that can be served.
#[derive(Debug)]
pub struct StaticFile {
    pub length: u64,
    pub mime: String,
    pub etag: String,
    /// The second of the last change, since 1970.
    pub modified: u64,
}

/// What was found at a path.
#[derive(Debug)]
pub enum Opened {
    File(StaticFile),
    Directory,
    NotFound,
    Forbidden,
    Status(u16),
}

/// `s` without the marks of weak tags at its start.
pub open spec fn strong(s: Seq<char>) -> Seq<char>
    decreases s.len(),
{
    if s.len() >= 2 && s[0] == 'W' && s[1] == '/' {
        strong(s.skip(2))
    } else {
        s
    }
}

fn is_strong(s: &str, tag: &str) -> (r: bool)
    ensures
        r == (strong(s@) == tag@),
{
    let v = text::chars(s);
    let mut i: usize = 0;
    assert(v@.skip(0) =~= v@);
    while v.len() - i >= 2 && v[i] == 'W' && v[i + 1] == '/'
        invariant
            i <= v.len(),
            v@ == s@,
            strong(v@.skip(i as int)) == strong(s@),
        decreases v.len() - i,
    {
        assert(v@.skip(i as int).skip(2) =~= v@.skip(i + 2));
        i += 2;
    }
    let rest = text::slice(&v, i, v.len());
    assert(rest@ =~= v@.skip(i as int));
    text::same(rest.as_str(), tag)
}

/// Whether a list of tags names a file's tag, or all.
pub open spec fn tag_listed(list: Seq<char>, tag: Seq<char>) -> bool {
    exists|i: int|
        0 <= i < text::split_spec(list, ',').len() && tag_named(
            #[trigger] text::split_spec(list, ',')[i],
            tag,
        )
}

pub open spec fn tag_named(piece: Seq<char>, tag: Seq<char>) -> bool {
    text::trim_spec(piece) == "*"@ || strong(text::trim_spec(piece)) == tag
}

fn is_tag_listed(list: &str, tag: &str) -> (r: bool)
    ensures
        r == tag_listed(list@, tag@),
{
    let pieces = text::split(list, ',');
    let ghost all = text::split_spec(list@, ',');
    let mut i: usize = 0;
    while i < pieces.len()
        invariant
            i <= pieces.len(),
            text::texts(pieces@) == all,
            all == text::split_spec(list@, ','),
            forall|j: int| 0 <= j < i ==> !tag_named(#[trigger] all[j], tag@),
        decreases pieces.len() - i,
    {
        assert(text::texts(pieces@)[i as int] == pieces@[i as int]@);
        let s = text::trim(pieces[i].as_str());
        if text::same(s, "*") || is_strong(s, tag) {
            assert(tag_named(text::split_spec(list@, ',')[i as int], tag@));
            return true;
        }
        i += 1;
    }
    false
}

/// Whether the client has the file already: by its tags where it gives any, else by its date.
pub open spec fn unchanged(r: Request, f: StaticFile, since: Option<u64>) -> bool {
    match r.header("if-none-match"@) {
        Some(list) => tag_listed(list, f.etag@),
        None => r.header("if-modified-since"@) is Some && since is Some && f.modified <= since->0,
    }
}

/// Whether a range still belongs to the file that the client has a part of.
pub open spec fn range_holds(r: Request, f: StaticFile, date: Option<u64>) -> bool {
    match r.header("if-range"@) {
        None => true,
        Some(s) => s == f.etag@ || date == Some(f.modified),
    }
}

/// How a file is answered: the status, the part that is sent, and what is said of it.
#[verifier::ext_equal]
pub ghost struct Answer {
    pub status: u16,
    pub start: u64,
    pub length: u64,
    pub content_range: Option<Seq<char>>,
}

/// How a file is answered; `since` and `date` are what the fields `If-Modified-Since` and `If-Range` were
/// read as.
pub open spec fn answered(r: Request, f: StaticFile, since: Option<u64>, date: Option<u64>) -> Answer {
    let whole = Answer { status: 200, start: 0, length: f.length, content_range: None };
    if unchanged(r, f, since) {
        Answer { status: 304, ..whole }
    } else if !range_holds(r, f, date) || r.header("range"@) is None {
        whole
    } else {
        match range_of(r.header("range"@)->0, f.length) {
            Ok(None) => whole,
            Ok(Some((a, b))) => Answer {
                status: 206,
                start: a,
                length: (b - a + 1) as u64,
                content_range: Some(
                    "bytes "@ + text::decimal(a as nat) + "-"@ + text::decimal(b as nat) + "/"@
                        + text::decimal(f.length as nat),
                ),
            },
            Err(_) => Answer {
                status: 416,
                start: 0,
                length: 0,
                content_range: Some("bytes */"@ + text::decimal(f.length as nat)),
            },
        }
    }
}

/// How a file is answered.
#[derive(Debug)]
pub struct FileAnswer {
    pub status: u16,
    pub start: u64,
    pub length: u64,
    pub content_range: Option<String>,
}

impl View for FileAnswer {
    type V = Answer;

    open spec fn view(&self) -> Answer {
        Answer {
            status: self.status,
            start: self.start,
            length: self.length,
            content_range: text::opt(self.content_range),
        }
    }
}

/// How a file is answered, by what its date fields were read as.
pub fn answer_with(
    request: &RequestData,
    file: &StaticFile,
    since: Option<u64>,
    date: Option<u64>,
) -> (r: FileAnswer)
    requires
        request.wf(),
    ensures
        r@ == answered(request@, *file, since, date),
{
    let fresh = match request.header("if-none-match") {
        Some(list) => is_tag_listed(list, file.etag.as_str()),
        None => match (request.header("if-modified-since"), since) {
            (Some(_), Some(n)) => file.modified <= n,
            _ => false,
        },
    };
    if fresh {
        return FileAnswer { status: 304, start: 0, length: file.length, content_range: None };
    }
    let whole = FileAnswer { status: 200, start: 0, length: file.length, content_range: None };
    let holds = match request.header("if-range") {
        None => true,
        Some(s) => text::same(s, file.etag.as_str()) || match date {
            Some(n) => n == file.modified,
            None => false,
        },
    };
    if !holds {
        return whole;
    }
    match request.header("range") {
        None => whole,
        Some(value) => {
            proof {
                law_ranges_are_bounded(value@, file.length);
            }
            match range(value, file.length) {
                Ok(None) => whole,
                Ok(Some((a, b))) => {
                    let mut s = text::concat3(
                        "bytes ",
                        text::decimal_string(a).as_str(),
                        "-",
                    );
                    s.append(text::decimal_string(b).as_str());
                    s.append("/");
                    s.append(text::decimal_string(file.length).as_str());
                    FileAnswer { status: 206, start: a, length: b - a + 1, content_range: Some(s) }
                },
                Err(_) => {
                    let s = text::concat("bytes */", text::decimal_string(file.length).as_str());
                    FileAnswer { status: 416, start: 0, length: 0, content_range: Some(s) }
                },
            }
        },
    }
}

pub open spec fn header_date(r: Request, name: Seq<char>) -> Option<u64> {
    match r.header(name) {
        Some(s) => http_date(s),
        None => None,
    }
}

/// How a file is answered.
pub fn answer(request: &RequestData, file: &StaticFile) -> (r: FileAnswer)
    requires
        request.wf(),
    ensures
        r@ == answered(
            request@,
            *file,
            header_date(request@, "if-modified-since"@),
            header_date(request@, "if-range"@),
        ),
{
    let since = match request.header("if-modified-since") {
        Some(s) => parse_date(s),
        None => None,
    };
    let date = match request.header("if-range") {
        Some(s) => parse_date(s),
        None => None,
    };
    answer_with(request, file, since, date)
}

/// The fields of the answer for a file whose date is written `modified`.
pub open spec fn file_fields(f: StaticFile, a: Answer, modified: Seq<char>) -> Seq<
    (Seq<char>, Seq<u8>),
> {
    let v = seq![
        ("content-type"@, encode_utf8(f.mime@)),
        ("etag"@, encode_utf8(f.etag@)),
        ("last-modified"@, encode_utf8(modified)),
        ("accept-ranges"@, encode_utf8("bytes"@)),
    ];
    let w = if a.status != 304 {
        v.push(("content-length"@, encode_utf8(text::decimal(a.length as nat))))
    } else {
        v
    };
    match a.content_range {
        Some(s) => w.push(("content-range"@, encode_utf8(s))),
        None => w,
    }
}

/// The fields of the answer for a file.
pub fn file_headers(file: &StaticFile, answer: &FileAnswer) -> (h: Headers)
    requires
        file.modified < DATE_END,
    ensures
        h.raw() == file_fields(*file, answer@, date_text(file.modified)),
{
    let mut h = Headers { fields: Vec::new() };
    assert(h.raw() =~= Seq::empty());
    h.append("content-type".to_owned(), text::bytes(file.mime.as_str()));
    h.append("etag".to_owned(), text::bytes(file.etag.as_str()));
    h.append("last-modified".to_owned(), text::bytes(format_date(file.modified).as_str()));
    h.append("accept-ranges".to_owned(), text::bytes("bytes"));
    proof {
        let modified = date_text(file.modified);
        assert(h.raw() =~= seq![
            ("content-type"@, encode_utf8(file.mime@)),
            ("etag"@, encode_utf8(file.etag@)),
            ("last-modified"@, encode_utf8(modified)),
            ("accept-ranges"@, encode_utf8("bytes"@)),
        ]);
    }
    if answer.status != 304 {
        h.append(
            "content-length".to_owned(),
            text::bytes(text::decimal_string(answer.length).as_str()),
        );
    }
    if let Some(s) = &answer.content_range {
        h.append("content-range".to_owned(), text::bytes(s.as_str()));
    }
    h
}

/// Whether the contents of a file follow an answer.
pub open spec fn sends(method: Seq<char>, status: u16, length: nat) -> bool {
    method != "HEAD"@ && status != 304 && length > 0
}

/// Whether anything is sent behind the fields.
pub fn sends_file(method: &str, answer: &FileAnswer) -> (r: bool)
    ensures
        r == (method@ != "HEAD"@ && answer@.status != 304 && answer@.length > 0),
        r == sends(method@, answer@.status, answer@.length as nat),
{
    !text::same(method, "HEAD") && answer.status != 304 && answer.length > 0
}

// ---------------------------------------------------------------------------
// The file of a request
// ---------------------------------------------------------------------------

/// What a request for a file leads to before the file is opened.
#[derive(Debug)]
pub enum Lookup {
    MethodNotAllowed,
    Invalid(PathError),
    Open(String),
}

pub open spec fn lookup_of(r: Request, e: Changes) -> (bool, Result<Seq<char>, PathError>) {
    (
        r.method == "GET"@ || r.method == "HEAD"@,
        normal(
            match e.path {
                Some(p) => p,
                None => r.path,
            },
        ),
    )
}

/// The path that a request for a file names. Only `GET` and `HEAD` are answered.
pub fn file_lookup(request: &RequestData, edits: &Edits) -> (r: Lookup)
    ensures
        match r {
            Lookup::MethodNotAllowed => !lookup_of(request@, edits@).0,
            Lookup::Invalid(e) => lookup_of(request@, edits@) == (
                true,
                Err::<Seq<char>, PathError>(e),
            ),
            Lookup::Open(p) => lookup_of(request@, edits@) == (
                true,
                Ok::<Seq<char>, PathError>(p@),
            ),
        },
{
    let method = request.method.as_str();
    if !text::same(method, "GET") && !text::same(method, "HEAD") {
        return Lookup::MethodNotAllowed;
    }
    let path: &str = match &edits.path {
        Some(p) => p.as_str(),
        None => request.path.as_str(),
    };
    match normalize_decoded_path(path) {
        Ok(p) => Lookup::Open(p),
        Err(e) => Lookup::Invalid(e),
    }
}

/// The name of a path below the root of the files.
pub open spec fn relative_of(path: Seq<char>) -> Seq<char> {
    let s = text::trim_start_char_spec(path, '/');
    if s.len() == 0 {
        "."@
    } else {
        s
    }
}

pub fn relative(path: &str) -> (out: &str)
    ensures
        out@ == relative_of(path@),
{
    let s = text::trim_start_char(path, '/');
    if s.is_empty() {
        "."
    } else {
        s
    }
}

/// The address of a directory: the path with `/` at its end, and the query.
pub open spec fn directory_address(path: Seq<char>, query: Seq<char>) -> Seq<char> {
    line_path(path) + "/"@ + if query.len() == 0 {
        Seq::empty()
    } else {
        "?"@ + query
    }
}

pub fn directory_location(path: &str, request: &RequestData, edits: &Edits) -> (out: String)
    ensures
        out@ == directory_address(
            path@,
            match edits@.query {
                Some(q) => q,
                None => request@.query,
            },
        ),
{
    let query: &str = match &edits.query {
        Some(q) => q.as_str(),
        None => request.query.as_str(),
    };
    let mut out = encode_path(path);
    out.append("/");
    if !query.is_empty() {
        out.append(text::concat("?", query).as_str());
    } else {
        assert(out@ =~= out@ + Seq::<char>::empty());
    }
    out
}

// ---------------------------------------------------------------------------
// Which file it is
// ---------------------------------------------------------------------------

/// What came of opening a name below the root of the files.
#[derive(Clone, Copy, Debug, PartialEq, Eq, Structural)]
pub enum Probe {
    File,
    Directory,
    /// Neither a file nor a directory.
    Special,
    /// There is nothing of that name.
    Missing,
    /// A part of the name that is no directory has names below it.
    NoDirectory,
    Denied,
    Failed,
}

/// What is done about a path.
#[derive(Clone, Copy, Debug, PartialEq, Eq, Structural)]
pub enum Choice {
    /// The file of the name itself is served.
    Named,
    /// The index file of a place in the list is served.
    Index(usize),
    /// The index file of a place in the list is opened next.
    Try(usize),
    Directory,
    NotFound,
    Forbidden,
    Failed,
}

/// What is done about a directory whose first index files were opened, out of `count`.
pub open spec fn indexed(probes: Seq<Probe>, count: usize) -> Choice
    decreases probes.len(),
{
    if probes.len() == 0 {
        if count == 0 {
            Choice::Forbidden
        } else {
            Choice::Try(0)
        }
    } else {
        match indexed(probes.drop_last(), count) {
            Choice::Try(i) => match probes.last() {
                Probe::File => Choice::Index(i),
                Probe::Directory | Probe::Special | Probe::Missing => if i + 1 < count {
                    Choice::Try((i + 1) as usize)
                } else {
                    Choice::Forbidden
                },
                Probe::NoDirectory => Choice::NotFound,
                Probe::Denied => Choice::Forbidden,
                Probe::Failed => Choice::Failed,
            },
            c => c,
        }
    }
}

/// What is done about a path, by what its name led to and which index files were opened.
pub open spec fn choice_of(path: Seq<char>, named: Probe, probes: Seq<Probe>, count: usize) -> Choice {
    match named {
        Probe::File => Choice::Named,
        Probe::Special => Choice::Forbidden,
        Probe::Missing | Probe::NoDirectory => Choice::NotFound,
        Probe::Denied => Choice::Forbidden,
        Probe::Failed => Choice::Failed,
        Probe::Directory => if !text::ends(path, "/"@) {
            Choice::Directory
        } else {
            indexed(probes, count)
        },
    }
}

/// What is done about a path next; `probes` are the index files of the list that were opened so far, and
/// `count` is how many the list has.
pub fn choose_file(path: &str, named: Probe, probes: &Vec<Probe>, count: usize) -> (r: Choice)
    ensures
        r == choice_of(path@, named, probes@, count),
{
    match named {
        Probe::File => return Choice::Named,
        Probe::Special => return Choice::Forbidden,
        Probe::Missing => return Choice::NotFound,
        Probe::NoDirectory => return Choice::NotFound,
        Probe::Denied => return Choice::Forbidden,
        Probe::Failed => return Choice::Failed,
        Probe::Directory => {},
    }
    if !text::ends_with(path, "/") {
        return Choice::Directory;
    }
    let ghost all = probes@;
    let mut c = if count == 0 {
        Choice::Forbidden
    } else {
        Choice::Try(0)
    };
    let mut k: usize = 0;
    while k < probes.len()
        invariant
            k <= probes.len(),
            all == probes@,
            c == indexed(all.take(k as int), count),
            c matches Choice::Try(i) ==> i < count,
        decreases probes.len() - k,
    {
        proof {
            assert(all.take(k + 1).drop_last() =~= all.take(k as int));
            assert(all.take(k + 1).last() == probes@[k as int]);
        }
        if let Choice::Try(i) = c {
            c = match probes[k] {
                Probe::File => Choice::Index(i),
                Probe::Directory | Probe::Special | Probe::Missing => if i + 1 < count {
                    Choice::Try(i + 1)
                } else {
                    Choice::Forbidden
                },
                Probe::NoDirectory => Choice::NotFound,
                Probe::Denied => Choice::Forbidden,
                Probe::Failed => Choice::Failed,
            };
        }
        k += 1;
    }
    assert(all.take(k as int) =~= all);
    c
}

/// A directory is answered with the first of its index files that is one: all before it are none.
pub proof fn law_the_first_index_is_served(probes: Seq<Probe>, count: usize)
    ensures
        indexed(probes, count) matches Choice::Index(i) ==> i < probes.len() && i < count && probes[
            i as int] == Probe::File && forall|j: int|
            0 <= j < i ==> (#[trigger] probes[j]) == Probe::Directory || probes[j] == Probe::Special
                || probes[j] == Probe::Missing,
        indexed(probes, count) matches Choice::Try(i) ==> i == probes.len() && i < count
            && forall|j: int|
            0 <= j < i ==> (#[trigger] probes[j]) == Probe::Directory || probes[j] == Probe::Special
                || probes[j] == Probe::Missing,
    decreases probes.len(),
{
    if probes.len() > 0 {
        let v = probes.drop_last();
        law_the_first_index_is_served(v, count);
        assert(forall|j: int| 0 <= j < v.len() ==> v[j] == #[trigger] probes[j]);
    }
}

// ---------------------------------------------------------------------------
// What a client gets
// ---------------------------------------------------------------------------

/// What a client gets for what was found at a path.
#[derive(Debug)]
pub enum FileReply {
    /// A status with a few words, and with the place to go to where there is one.
    Plain { status: u16, body: &'static str, location: Option<String> },
    File(FileAnswer),
}

/// What a `FileReply` holds.
#[verifier::ext_equal]
pub ghost enum Served {
    Plain { status: u16, body: Seq<char>, location: Option<Seq<char>> },
    File(Answer),
}

impl View for FileReply {
    type V = Served;

    open spec fn view(&self) -> Served {
        match self {
            FileReply::Plain { status, body, location } => Served::Plain {
                status: *status,
                body: body@,
                location: text::opt(*location),
            },
            FileReply::File(a) => Served::File(a@),
        }
    }
}

/// What a client gets for what was found at a path, by what the date fields were read as.
pub open spec fn served(
    path: Seq<char>,
    r: Request,
    e: Changes,
    opened: Opened,
    since: Option<u64>,
    date: Option<u64>,
) -> Served {
    match opened {
        Opened::File(f) => Served::File(answered(r, f, since, date)),
        Opened::Directory => Served::Plain {
            status: 301,
            body: ""@,
            location: Some(
                directory_address(
                    path,
                    match e.query {
                        Some(q) => q,
                        None => r.query,
                    },
                ),
            ),
        },
        Opened::NotFound => Served::Plain { status: 404, body: "not found\n"@, location: None },
        Opened::Forbidden => Served::Plain { status: 403, body: "forbidden\n"@, location: None },
        Opened::Status(s) => Served::Plain { status: s, body: ""@, location: None },
    }
}

/// What a client gets for what was found at a path.
pub fn serve_file(path: &str, request: &RequestData, edits: &Edits, opened: &Opened) -> (r: FileReply)
    requires
        request.wf(),
    ensures
        r@ == served(
            path@,
            request@,
            edits@,
            *opened,
            header_date(request@, "if-modified-since"@),
            header_date(request@, "if-range"@),
        ),
{
    match opened {
        Opened::File(f) => FileReply::File(answer(request, f)),
        Opened::Directory => FileReply::Plain {
            status: 301,
            body: "",
            location: Some(directory_location(path, request, edits)),
        },
        Opened::NotFound => FileReply::Plain { status: 404, body: "not found\n", location: None },
        Opened::Forbidden => FileReply::Plain { status: 403, body: "forbidden\n", location: None },
        Opened::Status(s) => FileReply::Plain { status: *s, body: "", location: None },
    }
}

/// The most bytes of a file that are read at once.
pub const PIECE: u64 = 65536;

/// How many bytes of a file are read next.
pub fn next_piece(remaining: u64) -> (r: u64)
    ensures
        r == if remaining < PIECE {
            remaining
        } else {
            PIECE
        },
{
    if remaining < PIECE {
        remaining
    } else {
        PIECE
    }
}

/// How much of a file is left after some bytes of it were read; nothing where there were none any more, for
/// the file has become shorter.
pub fn after_piece(remaining: u64, read: u64) -> (r: Option<u64>)
    requires
        read <= remaining,
    ensures
        r == if read == 0 {
            None::<u64>
        } else {
            Some((remaining - read) as u64)
        },
{
    if read == 0 {
        None
    } else {
        Some(remaining - read)
    }
}

/// A file that is sent as a whole or in part is one that was found, and what is sent of it lies within it.
pub proof fn law_parts_lie_within_their_file(
    r: Request,
    f: StaticFile,
    since: Option<u64>,
    date: Option<u64>,
)
    ensures
        answered(r, f, since, date).start + answered(r, f, since, date).length <= f.length,
{
    match r.header("range"@) {
        Some(value) => law_ranges_are_bounded(value, f.length),
        None => {},
    }
}

// ---------------------------------------------------------------------------
// Laws of ranges and answers
// ---------------------------------------------------------------------------

proof fn lemma_number_is_plain(n: nat)
    ensures
        text::decimal(n).len() > 0,
        !text::decimal(n).contains(','),
        !text::decimal(n).contains('-'),
        text::decimal_value(text::decimal(n)) == Some(n),
{
    text::lemma_decimal_reads_back(n);
    let s = text::decimal(n);
    assert forall|i: int| 0 <= i < s.len() implies s[i] != ',' && s[i] != '-' by {
        assert(text::spec_digit(s[i]));
    }
}

proof fn lemma_range_parts(first: Seq<char>, last: Seq<char>)
    requires
        !first.contains(','),
        !first.contains('-'),
        !last.contains(','),
    ensures
        ({
            let value = "bytes="@ + first + "-"@ + last;
            let v = value.skip("bytes="@.len() as int);
            &&& text::starts(value, "bytes="@)
            &&& !v.contains(',')
            &&& text::split_once_spec(v, '-') == Some((first, last))
        }),
{
    reveal_strlit("bytes=");
    reveal_strlit("-");
    let value = "bytes="@ + first + "-"@ + last;
    let v = value.skip("bytes="@.len() as int);
    assert(value.take("bytes="@.len() as int) =~= "bytes="@);
    assert(v =~= first + "-"@ + last);
    assert forall|i: int| 0 <= i < v.len() implies v[i] != ',' by {
        if i < first.len() {
            assert(first.contains(v[i]));
        } else if i > first.len() {
            assert(last.contains(v[i]));
        }
    }
    assert forall|i: int| 0 <= i < first.len() implies v[i] != '-' by {
        assert(first.contains(v[i]));
    }
    assert(v[first.len() as int] == '-');
    text::lemma_position_is(v, '-', first.len() as int);
    assert(v.take(first.len() as int) =~= first);
    assert(v.skip(first.len() as int + 1) =~= last);
}

/// A range from one byte to another is that part of the file, as far as the file goes; one that begins behind
/// the file, or ends before it begins, cannot be had.
pub proof fn law_ranges_are_what_is_asked_for(a: u64, b: u64, length: u64)
    ensures
        ({
            let r = range_of("bytes="@ + text::decimal(a as nat) + "-"@ + text::decimal(b as nat), length);
            &&& a <= b && a < length ==> r == Ok::<Option<(u64, u64)>, ()>(
                Some(
                    (
                        a,
                        if b < length {
                            b
                        } else {
                            (length - 1) as u64
                        },
                    ),
                ),
            )
            &&& a >= length || b < a ==> r is Err
        }),
{
    lemma_number_is_plain(a as nat);
    lemma_number_is_plain(b as nat);
    lemma_range_parts(text::decimal(a as nat), text::decimal(b as nat));
}

/// A range without an end goes to the end of the file.
pub proof fn law_open_ranges_go_to_the_end(a: u64, length: u64)
    ensures
        a < length ==> range_of("bytes="@ + text::decimal(a as nat) + "-"@ + Seq::<char>::empty(), length)
            == Ok::<Option<(u64, u64)>, ()>(Some((a, (length - 1) as u64))),
        a >= length ==> range_of(
            "bytes="@ + text::decimal(a as nat) + "-"@ + Seq::<char>::empty(),
            length,
        ) is Err,
{
    lemma_number_is_plain(a as nat);
    lemma_range_parts(text::decimal(a as nat), Seq::empty());
}

/// A range without a start is that many bytes at the end of the file, all of it where it is shorter.
pub proof fn law_suffixes_are_the_last_bytes(n: u64, length: u64)
    requires
        n > 0,
        length > 0,
    ensures
        range_of("bytes="@ + Seq::<char>::empty() + "-"@ + text::decimal(n as nat), length) == Ok::<
            Option<(u64, u64)>,
            (),
        >(
            Some(
                (
                    if n < length {
                        (length - n) as u64
                    } else {
                        0
                    },
                    (length - 1) as u64,
                ),
            ),
        ),
{
    lemma_number_is_plain(n as nat);
    lemma_range_parts(Seq::empty(), text::decimal(n as nat));
}

/// A range of other units, or of several parts, is as if it were not asked for.
pub proof fn law_other_ranges_are_ignored(value: Seq<char>, length: u64)
    ensures
        !text::starts(value, "bytes="@) ==> range_of(value, length) == Ok::<Option<(u64, u64)>, ()>(None),
        text::starts(value, "bytes="@) && value.skip("bytes="@.len() as int).contains(',') ==> range_of(
            value,
            length,
        ) == Ok::<Option<(u64, u64)>, ()>(None),
{
}

/// A client that has the file by its tag is told that nothing changed, and one that has another is sent it.
pub proof fn law_tags_tell_what_is_unchanged(r: Request, f: StaticFile, since: Option<u64>, date: Option<u64>)
    requires
        r.header("if-none-match"@) is Some,
        !r.header("if-none-match"@)->0.contains(','),
        text::trim_spec(r.header("if-none-match"@)->0) == r.header("if-none-match"@)->0,
        !text::starts(r.header("if-none-match"@)->0, "W/"@),
        r.header("if-none-match"@)->0 != "*"@,
    ensures
        r.header("if-none-match"@) == Some(f.etag@) ==> answered(r, f, since, date).status == 304,
        r.header("if-none-match"@) != Some(f.etag@) ==> answered(r, f, since, date).status != 304,
{
    reveal_strlit("W/");
    let s = r.header("if-none-match"@)->0;
    text::lemma_split_first(s, ',', Seq::empty());
    assert(text::split_spec(s, ',')[0] == s);
    if s.len() >= 2 && s[0] == 'W' && s[1] == '/' {
        assert(s.take(2) =~= "W/"@);
    }
    assert(strong(s) == s);
    if tag_listed(s, f.etag@) {
        let i = choose|i: int|
            0 <= i < text::split_spec(s, ',').len() && tag_named(
                #[trigger] text::split_spec(s, ',')[i],
                f.etag@,
            );
        assert(i == 0);
    } else {
        assert(!tag_named(text::split_spec(s, ',')[0], f.etag@));
    }
}

/// Without a tag, a client that has the file of that time or a later one is told that nothing changed, and one
/// that has an older one is sent it.
pub proof fn law_times_tell_what_is_unchanged(r: Request, f: StaticFile, since: u64, date: Option<u64>)
    requires
        r.header("if-none-match"@) is None,
        r.header("if-modified-since"@) is Some,
    ensures
        f.modified <= since ==> answered(r, f, Some(since), date).status == 304,
        f.modified > since ==> answered(r, f, Some(since), date).status != 304,
        answered(r, f, None, date).status != 304,
{
}

/// A request without conditions gets the whole file.
pub proof fn law_plain_requests_get_the_whole_file(
    r: Request,
    f: StaticFile,
    since: Option<u64>,
    date: Option<u64>,
)
    requires
        r.header("if-none-match"@) is None,
        r.header("if-modified-since"@) is None,
        r.header("range"@) is None,
    ensures
        answered(r, f, since, date) == (Answer {
            status: 200,
            start: 0,
            length: f.length,
            content_range: None,
        }),
{
}

/// A part is sent from its first byte to its last, and says which it is; a part that cannot be had is refused,
/// with the length of the file.
pub proof fn law_parts_are_sent_as_asked(
    r: Request,
    f: StaticFile,
    since: Option<u64>,
    date: Option<u64>,
    a: u64,
    b: u64,
)
    requires
        r.header("if-none-match"@) is None,
        r.header("if-modified-since"@) is None,
        r.header("if-range"@) is None,
        r.header("range"@) is Some,
    ensures
        range_of(r.header("range"@)->0, f.length) == Ok::<Option<(u64, u64)>, ()>(Some((a, b)))
            ==> answered(r, f, since, date) == (Answer {
            status: 206,
            start: a,
            length: (b - a + 1) as u64,
            content_range: Some(
                "bytes "@ + text::decimal(a as nat) + "-"@ + text::decimal(b as nat) + "/"@
                    + text::decimal(f.length as nat),
            ),
        }),
        range_of(r.header("range"@)->0, f.length) is Err ==> answered(r, f, since, date).status == 416
            && answered(r, f, since, date).length == 0 && answered(r, f, since, date).content_range
            == Some("bytes */"@ + text::decimal(f.length as nat)),
{
}

/// A part of another file than the client has is not sent: it gets the whole.
pub proof fn law_parts_are_of_the_same_file(r: Request, f: StaticFile, since: Option<u64>, date: Option<u64>)
    requires
        r.header("if-none-match"@) is None,
        r.header("if-modified-since"@) is None,
        r.header("if-range"@) matches Some(s) && s != f.etag@,
        date != Some(f.modified),
    ensures
        answered(r, f, since, date).status == 200,
        answered(r, f, since, date).length == f.length,
{
}

/// The extension of a name is what follows its last dot, in lower case.
pub proof fn law_extensions_follow_the_last_dot(base: Seq<char>, ext: Seq<char>)
    requires
        base.len() > 0,
        !base.contains('/'),
        !ext.contains('/'),
        !ext.contains('.'),
        base + seq!['.'] + ext != ".."@,
    ensures
        extension_of(base + seq!['.'] + ext) == text::lowercase(ext),
{
    let name = base + seq!['.'] + ext;
    lemma_last_position(name, '/', -1);
    assert(name.skip(0) =~= name);
    lemma_last_position(name, '.', base.len() as int);
    assert(name.skip(base.len() as int + 1) =~= ext);
}

proof fn lemma_last_position(s: Seq<char>, c: char, p: int)
    requires
        -1 <= p < s.len(),
        p >= 0 ==> s[p] == c,
        forall|i: int| p < i < s.len() ==> s[i] != c,
    ensures
        text::last_position(s, c) == p,
    decreases s.len(),
{
    if s.len() > 0 && p < s.len() - 1 {
        assert(s[s.len() - 1] != c);
        let t = s.drop_last();
        assert(forall|i: int| p < i < t.len() ==> t[i] == s[i]);
        lemma_last_position(t, c, p);
    }
}

/// The type of a file is that of its extension, and the usual one where that has none.
pub proof fn law_types_go_by_the_extension(
    types: Seq<(Seq<char>, Seq<char>)>,
    fallback: Seq<char>,
    name: Seq<char>,
)
    ensures
        text::lookup(types, extension_of(name)) matches Some(t) ==> mime_of(types, fallback, name) == t,
        text::lookup(types, extension_of(name)) is None ==> mime_of(types, fallback, name) == fallback,
{
}

/// A file is served, a directory without a slash is sent to the one with it, and what is missing, forbidden or
/// neither a file nor a directory is told so.
pub proof fn law_names_lead_to_what_they_name(path: Seq<char>, probes: Seq<Probe>, count: usize)
    ensures
        choice_of(path, Probe::File, probes, count) == Choice::Named,
        choice_of(path, Probe::Missing, probes, count) == Choice::NotFound,
        choice_of(path, Probe::NoDirectory, probes, count) == Choice::NotFound,
        choice_of(path, Probe::Special, probes, count) == Choice::Forbidden,
        choice_of(path, Probe::Denied, probes, count) == Choice::Forbidden,
        choice_of(path, Probe::Failed, probes, count) == Choice::Failed,
        choice_of(path + "/"@, Probe::Directory, Seq::empty(), 0) == Choice::Forbidden,
        count > 0 ==> choice_of(path + "/"@, Probe::Directory, Seq::empty(), count) == Choice::Try(0),
        !text::ends(path, "/"@) ==> choice_of(path, Probe::Directory, probes, count) == Choice::Directory,
{
    reveal_strlit("/");
    let p = path + "/"@;
    assert(p.skip(p.len() - 1) =~= "/"@);
}

/// Where none of the index files is there, the directory is not shown.
pub proof fn law_directories_are_not_listed(probes: Seq<Probe>, count: usize)
    requires
        probes.len() == count,
        count > 0,
        forall|i: int| 0 <= i < probes.len() ==> #[trigger] probes[i] == Probe::Missing,
    ensures
        indexed(probes, count) == Choice::Forbidden,
{
    lemma_missing(probes, count, count as int);
    assert(probes.take(count as int) =~= probes);
}

proof fn lemma_missing(probes: Seq<Probe>, count: usize, n: int)
    requires
        0 <= n <= probes.len(),
        probes.len() == count,
        count > 0,
        forall|i: int| 0 <= i < probes.len() ==> #[trigger] probes[i] == Probe::Missing,
    ensures
        indexed(probes.take(n), count) == if n < count {
            Choice::Try(n as usize)
        } else {
            Choice::Forbidden
        },
    decreases n,
{
    if n > 0 {
        lemma_missing(probes, count, n - 1);
        assert(probes.take(n).drop_last() =~= probes.take(n - 1));
        assert(probes.take(n).last() == probes[n - 1]);
    }
}

/// What was found of a file decides the answer.
pub proof fn law_findings_decide_the_answer(
    path: Seq<char>,
    r: Request,
    e: Changes,
    status: u16,
    since: Option<u64>,
    date: Option<u64>,
)
    ensures
        served(path, r, e, Opened::NotFound, since, date) matches Served::Plain { status: s, location, .. }
            && s == 404 && location is None,
        served(path, r, e, Opened::Forbidden, since, date) matches Served::Plain { status: s, location, .. }
            && s == 403 && location is None,
        served(path, r, e, Opened::Status(status), since, date) matches Served::Plain {
            status: s,
            location,
            ..
        } && s == status && location is None,
        e.query is None && r.query.len() == 0 ==> (served(path, r, e, Opened::Directory, since, date)
            matches Served::Plain { status: s, location, .. } && s == 301 && location == Some(
            line_path(path) + "/"@,
        )),
        e.query is None && r.query.len() > 0 ==> (served(path, r, e, Opened::Directory, since, date)
            matches Served::Plain { status: s, location, .. } && s == 301 && location == Some(
            line_path(path) + "/"@ + ("?"@ + r.query),
        )),
{
    assert(line_path(path) + "/"@ + Seq::<char>::empty() =~= line_path(path) + "/"@);
}

/// Files are read with `GET` and `HEAD` alone, by the path that a script set where it did.
pub proof fn law_files_are_read_only(r: Request, e: Changes)
    ensures
        lookup_of(r, e).0 <==> r.method == "GET"@ || r.method == "HEAD"@,
        e.path is None ==> lookup_of(r, e).1 == normal(r.path),
        e.path matches Some(p) ==> lookup_of(r, e).1 == normal(p),
{
}

/// The fields of a file are of that file: its type, its tag, the length of what is sent.
pub proof fn law_fields_are_of_the_file(f: StaticFile, a: Answer, modified: Seq<char>)
    ensures
        ({
            let v = file_fields(f, a, modified);
            &&& v[0] == ("content-type"@, encode_utf8(f.mime@))
            &&& v[1] == ("etag"@, encode_utf8(f.etag@))
            &&& v[2] == ("last-modified"@, encode_utf8(modified))
            &&& v[3] == ("accept-ranges"@, encode_utf8("bytes"@))
            &&& a.status != 304 ==> v[4] == (
                "content-length"@,
                encode_utf8(text::decimal(a.length as nat)),
            )
            &&& a.content_range matches Some(s) ==> v.last() == ("content-range"@, encode_utf8(s))
            &&& a.content_range is None && a.status == 304 ==> v.len() == 4
            &&& a.content_range is None && a.status != 304 ==> v.len() == 5
        }),
{
}

proof fn lemma_hex_plain(n: nat)
    ensures
        text::hex(n).len() > 0,
        forall|i: int| 0 <= i < text::hex(n).len() ==> #[trigger] text::hex(n)[i] != '-' && text::hex(n)[i]
            != '"',
    decreases n,
{
    if n >= 16 {
        lemma_hex_plain(n / 16);
    }
}

proof fn lemma_hex_differs(a: nat, b: nat)
    requires
        text::hex(a) == text::hex(b),
    ensures
        a == b,
    decreases a,
{
    lemma_hex_plain(a / 16);
    lemma_hex_plain(b / 16);
    let x = text::hex(a);
    let y = text::hex(b);
    if a < 16 && b < 16 {
        assert(x[0] == text::hex_char(a));
        assert(y[0] == text::hex_char(b));
    } else if a >= 16 && b >= 16 {
        assert(x.last() == text::hex_char(a % 16));
        assert(y.last() == text::hex_char(b % 16));
        assert(x.drop_last() =~= text::hex(a / 16));
        assert(y.drop_last() =~= text::hex(b / 16));
        lemma_hex_differs(a / 16, b / 16);
    } else if a >= 16 {
        assert(x.len() > 1);
        assert(y.len() == 1);
    } else {
        assert(y.len() > 1);
        assert(x.len() == 1);
    }
}

/// Files that differ in length or in the time of their last change have different tags.
pub proof fn law_tags_tell_files_apart(a: u64, s: u64, n: u32, b: u64, t: u64, m: u32)
    requires
        etag_of(a, s, n) == etag_of(b, t, m),
    ensures
        a == b,
        s == t,
        n == m,
{
    reveal_strlit("\"");
    reveal_strlit("-");
    let (p, q, r) = (text::hex(a as nat), text::hex(s as nat), text::hex(n as nat));
    let (x, y, z) = (text::hex(b as nat), text::hex(t as nat), text::hex(m as nat));
    lemma_hex_plain(a as nat);
    lemma_hex_plain(s as nat);
    lemma_hex_plain(n as nat);
    lemma_hex_plain(b as nat);
    lemma_hex_plain(t as nat);
    lemma_hex_plain(m as nat);
    let e = etag_of(a, s, n);
    let f = etag_of(b, t, m);
    let first = p + "-"@ + (q + "-"@ + r);
    let second = x + "-"@ + (y + "-"@ + z);
    assert(e.subrange(1, e.len() - 1) =~= first);
    assert(f.subrange(1, f.len() - 1) =~= second);
    lemma_parts_before_dash(p, q + "-"@ + r, x, y + "-"@ + z);
    lemma_parts_before_dash(q, r, y, z);
    lemma_hex_differs(a as nat, b as nat);
    lemma_hex_differs(s as nat, t as nat);
    lemma_hex_differs(n as nat, m as nat);
}

proof fn lemma_parts_before_dash(p: Seq<char>, q: Seq<char>, x: Seq<char>, y: Seq<char>)
    requires
        p + "-"@ + q == x + "-"@ + y,
        forall|i: int| 0 <= i < p.len() ==> #[trigger] p[i] != '-',
        forall|i: int| 0 <= i < x.len() ==> #[trigger] x[i] != '-',
    ensures
        p == x,
        q == y,
{
    reveal_strlit("-");
    let s = p + "-"@ + q;
    assert(forall|i: int| 0 <= i < p.len() ==> s[i] == p[i]);
    assert(forall|i: int| 0 <= i < x.len() ==> s[i] == x[i]);
    assert(s[p.len() as int] == '-');
    assert(s[x.len() as int] == '-');
    text::lemma_position_is(s, '-', p.len() as int);
    text::lemma_position_is(s, '-', x.len() as int);
    assert(s.take(p.len() as int) =~= p);
    assert(s.take(x.len() as int) =~= x);
    assert(s.skip(p.len() as int + 1) =~= q);
    assert(s.skip(x.len() as int + 1) =~= y);
}

/// Contents follow no answer to `HEAD`, none that tells that nothing changed, and none that is empty.
pub proof fn law_contents_follow_answers(status: u16, length: nat)
    ensures
        !sends("HEAD"@, status, length),
        !sends("GET"@, 304, length),
        !sends("GET"@, status, 0),
        status != 304 && length > 0 ==> sends("GET"@, status, length),
{
    reveal_strlit("GET");
    reveal_strlit("HEAD");
    assert("GET"@.len() != "HEAD"@.len());
}

} // verus!
