//! What directives set: the settings of a route and the scope that they are gathered in.
use crate::body::BodyPolicy;
use crate::compression::Compression;
use crate::identity::{AccessRule, IdentityPolicy};
use crate::logging::access::Policy;
use crate::model;
use crate::model::{Action, Added, AddedHeader, Deed};
use crate::net::Network;
use crate::table::Table;
use crate::text;
use crate::text::{opt, pairs, texts};
use vstd::prelude::*;

verus! {

/// The settings of a route. Times are in milliseconds.
#[derive(Debug)]
pub struct Settings {
    pub root: String,
    pub index: Vec<String>,
    pub mime: Table,
    pub default_type: String,
    pub request_headers: Vec<(String, String)>,
    pub response_headers: Vec<AddedHeader>,
    pub max_body: u64,
    pub body_policy: BodyPolicy,
    pub connect_timeout: u64,
    pub read_timeout: u64,
    pub write_timeout: u64,
    pub keepalive: u64,
    pub access_log: Option<String>,
    pub log_policy: Policy,
    pub identity: IdentityPolicy,
    pub compression: Compression,
    pub alias: Option<String>,
    pub try_files: Vec<String>,
    pub https_redirect_port: Option<u16>,
}

/// What the settings hold.
#[verifier::ext_equal]
pub ghost struct Values {
    pub root: Seq<char>,
    pub index: Seq<Seq<char>>,
    pub mime: Map<Seq<char>, Seq<char>>,
    pub default_type: Seq<char>,
    pub request_headers: Seq<(Seq<char>, Seq<char>)>,
    pub response_headers: Seq<Added>,
    pub max_body: u64,
    pub body_policy: BodyPolicy,
    pub connect_timeout: u64,
    pub read_timeout: u64,
    pub write_timeout: u64,
    pub keepalive: u64,
    pub access_log: Option<Seq<char>>,
    pub log: LogValues,
    pub trusted: Seq<Network>,
    pub real_ip_header: Seq<char>,
    pub real_ip_recursive: bool,
    pub access: Seq<AccessRule>,
    pub compression: CompressionValues,
    pub alias: Option<Seq<char>>,
    pub try_files: Seq<Seq<char>>,
    pub https_redirect_port: Option<u16>,
}

#[verifier::ext_equal]
pub ghost struct LogValues {
    pub json: bool,
    pub query: bool,
    pub client: bool,
    pub referer: bool,
    pub redact: Seq<Seq<char>>,
    pub fields: Seq<Seq<char>>,
}

#[verifier::ext_equal]
pub ghost struct CompressionValues {
    pub gzip: u32,
    pub brotli: u32,
    pub min_length: u64,
    pub types: Seq<Seq<char>>,
}

impl View for Policy {
    type V = LogValues;

    open spec fn view(&self) -> LogValues {
        LogValues {
            json: self.json,
            query: self.query,
            client: self.client,
            referer: self.referer,
            redact: texts(self.redact@),
            fields: texts(self.fields@),
        }
    }
}

impl View for Compression {
    type V = CompressionValues;

    open spec fn view(&self) -> CompressionValues {
        CompressionValues {
            gzip: self.gzip,
            brotli: self.brotli,
            min_length: self.min_length,
            types: texts(self.types@),
        }
    }
}

pub open spec fn added(v: Seq<AddedHeader>) -> Seq<Added> {
    Seq::new(v.len(), |i: int| v[i]@)
}

impl View for Settings {
    type V = Values;

    open spec fn view(&self) -> Values {
        Values {
            root: self.root@,
            index: texts(self.index@),
            mime: self.mime@,
            default_type: self.default_type@,
            request_headers: pairs(self.request_headers@),
            response_headers: added(self.response_headers@),
            max_body: self.max_body,
            body_policy: self.body_policy,
            connect_timeout: self.connect_timeout,
            read_timeout: self.read_timeout,
            write_timeout: self.write_timeout,
            keepalive: self.keepalive,
            access_log: opt(self.access_log),
            log: self.log_policy@,
            trusted: self.identity.trusted@,
            real_ip_header: self.identity.header@,
            real_ip_recursive: self.identity.recursive,
            access: self.identity.access@,
            compression: self.compression@,
            alias: opt(self.alias),
            try_files: texts(self.try_files@),
            https_redirect_port: self.https_redirect_port,
        }
    }
}

/// The settings where nothing is configured.
pub open spec fn default_values() -> Values {
    Values {
        root: "html"@,
        index: seq!["index.html"@],
        mime: Map::<Seq<char>, Seq<char>>::empty().insert("html"@, "text/html"@).insert(
            "css"@,
            "text/css"@,
        ).insert("js"@, "application/javascript"@),
        default_type: "application/octet-stream"@,
        request_headers: Seq::empty(),
        response_headers: Seq::empty(),
        max_body: 1048576,
        body_policy: BodyPolicy {
            inspection: crate::body::Inspection::Off,
            timeout: crate::body::DEFAULT_TIMEOUT,
        },
        connect_timeout: 60000,
        read_timeout: 60000,
        write_timeout: 60000,
        keepalive: 75000,
        access_log: Some("/dev/stdout"@),
        log: LogValues {
            json: false,
            query: true,
            client: true,
            referer: true,
            redact: crate::logging::access::default_redacted(),
            fields: Seq::empty(),
        },
        trusted: Seq::empty(),
        real_ip_header: "x-real-ip"@,
        real_ip_recursive: false,
        access: Seq::empty(),
        compression: CompressionValues {
            gzip: 0,
            brotli: 0,
            min_length: 1024,
            types: seq![
                "text/html"@,
                "text/plain"@,
                "text/css"@,
                "application/javascript"@,
                "application/json"@,
                "image/svg+xml"@,
            ],
        },
        alias: None,
        try_files: Seq::empty(),
        https_redirect_port: None,
    }
}

impl Settings {
    /// The parts that have an invariant keep it.
    pub open spec fn wf(&self) -> bool {
        self.mime.wf() && self.identity.valid_networks()
    }
}

impl Default for Settings {
    fn default() -> (r: Self)
        ensures
            r.wf(),
            r@ == default_values(),
    {
        let mut index: Vec<String> = Vec::new();
        index.push("index.html".to_owned());
        let mut mime = Table::new();
        mime.insert("html".to_owned(), "text/html".to_owned());
        mime.insert("css".to_owned(), "text/css".to_owned());
        mime.insert("js".to_owned(), "application/javascript".to_owned());
        let r = Settings {
            root: "html".to_owned(),
            index,
            mime,
            default_type: "application/octet-stream".to_owned(),
            request_headers: Vec::new(),
            response_headers: Vec::new(),
            max_body: 1048576,
            body_policy: BodyPolicy::default(),
            connect_timeout: 60000,
            read_timeout: 60000,
            write_timeout: 60000,
            keepalive: 75000,
            access_log: Some("/dev/stdout".to_owned()),
            log_policy: Policy::default(),
            identity: IdentityPolicy::default(),
            compression: Compression::default(),
            alias: None,
            try_files: Vec::new(),
            https_redirect_port: None,
        };
        proof {
            assert(r@.index =~= seq!["index.html"@]);
            assert(r@.request_headers =~= Seq::empty());
            assert(r@.response_headers =~= Seq::empty());
            assert(r@.log.fields =~= Seq::empty());
            assert(r@.trusted =~= Seq::empty());
            assert(r@.access =~= Seq::empty());
            assert(r@.try_files =~= Seq::empty());
            assert(r@ =~= default_values());
        }
        r
    }
}

pub fn copy_pairs(v: &Vec<(String, String)>) -> (out: Vec<(String, String)>)
    ensures
        pairs(out@) == pairs(v@),
{
    let mut out: Vec<(String, String)> = Vec::new();
    let mut i: usize = 0;
    while i < v.len()
        invariant
            i <= v.len(),
            pairs(out@) == pairs(v@).take(i as int),
        decreases v.len() - i,
    {
        let ghost before = pairs(out@);
        out.push((v[i].0.clone(), v[i].1.clone()));
        proof {
            let x = (v@[i as int].0@, v@[i as int].1@);
            assert(pairs(out@) =~= before.push(x));
            assert(pairs(v@).take(i + 1) =~= pairs(v@).take(i as int).push(x));
        }
        i += 1;
    }
    assert(pairs(v@).take(i as int) =~= pairs(v@));
    out
}

pub fn copy_added(v: &Vec<AddedHeader>) -> (out: Vec<AddedHeader>)
    ensures
        added(out@) == added(v@),
{
    let mut out: Vec<AddedHeader> = Vec::new();
    let mut i: usize = 0;
    while i < v.len()
        invariant
            i <= v.len(),
            added(out@) == added(v@).take(i as int),
        decreases v.len() - i,
    {
        let ghost before = added(out@);
        let h = &v[i];
        out.push(AddedHeader { name: h.name.clone(), value: h.value.clone(), always: h.always });
        proof {
            assert(added(out@) =~= before.push(v@[i as int]@));
            assert(added(v@).take(i + 1) =~= added(v@).take(i as int).push(v@[i as int]@));
        }
        i += 1;
    }
    assert(added(v@).take(i as int) =~= added(v@));
    out
}

pub(crate) fn copy_networks(v: &Vec<Network>) -> (out: Vec<Network>)
    ensures
        out@ == v@,
{
    let mut out: Vec<Network> = Vec::new();
    let mut i: usize = 0;
    while i < v.len()
        invariant
            i <= v.len(),
            out@ == v@.take(i as int),
        decreases v.len() - i,
    {
        out.push(v[i]);
        i += 1;
        assert(out@ =~= v@.take(i as int));
    }
    assert(out@ =~= v@);
    out
}

fn copy_rules(v: &Vec<AccessRule>) -> (out: Vec<AccessRule>)
    ensures
        out@ == v@,
{
    let mut out: Vec<AccessRule> = Vec::new();
    let mut i: usize = 0;
    while i < v.len()
        invariant
            i <= v.len(),
            out@ == v@.take(i as int),
        decreases v.len() - i,
    {
        out.push(v[i]);
        i += 1;
        assert(out@ =~= v@.take(i as int));
    }
    assert(out@ =~= v@);
    out
}

impl Settings {
    /// The same settings again.
    pub fn copy(&self) -> (r: Settings)
        ensures
            r@ == self@,
            self.wf() ==> r.wf(),
    {
        let r = Settings {
            root: self.root.clone(),
            index: text::copy_all(&self.index),
            mime: self.mime.copy(),
            default_type: self.default_type.clone(),
            request_headers: copy_pairs(&self.request_headers),
            response_headers: copy_added(&self.response_headers),
            max_body: self.max_body,
            body_policy: self.body_policy,
            connect_timeout: self.connect_timeout,
            read_timeout: self.read_timeout,
            write_timeout: self.write_timeout,
            keepalive: self.keepalive,
            access_log: model::copy_opt(&self.access_log),
            log_policy: Policy {
                json: self.log_policy.json,
                query: self.log_policy.query,
                client: self.log_policy.client,
                referer: self.log_policy.referer,
                redact: text::copy_all(&self.log_policy.redact),
                fields: text::copy_all(&self.log_policy.fields),
            },
            identity: IdentityPolicy {
                trusted: copy_networks(&self.identity.trusted),
                header: self.identity.header.clone(),
                recursive: self.identity.recursive,
                access: copy_rules(&self.identity.access),
            },
            compression: Compression {
                gzip: self.compression.gzip,
                brotli: self.compression.brotli,
                min_length: self.compression.min_length,
                types: text::copy_all(&self.compression.types),
            },
            alias: model::copy_opt(&self.alias),
            try_files: text::copy_all(&self.try_files),
            https_redirect_port: self.https_redirect_port,
        };
        assert(r@ =~= self@);
        r
    }
}

/// Where the log of errors goes, and from which level on.
#[derive(Debug)]
pub struct ErrorLog {
    pub path: String,
    pub level: String,
}

/// What the directives of a block have set so far.
#[derive(Debug)]
pub struct Scope {
    pub settings: Settings,
    pub action: Option<Action>,
    pub script: Option<String>,
    pub cert: Option<String>,
    pub key: Option<String>,
    pub http2: bool,
    pub error_log: Option<ErrorLog>,
}

/// What a scope holds.
#[verifier::ext_equal]
pub ghost struct State {
    pub settings: Values,
    pub action: Option<Deed>,
    pub script: Option<Seq<char>>,
    pub cert: Option<Seq<char>>,
    pub key: Option<Seq<char>>,
    pub http2: bool,
    pub error_log: Option<(Seq<char>, Seq<char>)>,
}

pub open spec fn deed(a: Option<Action>) -> Option<Deed> {
    match a {
        Some(a) => Some(a@),
        None => None,
    }
}

impl View for Scope {
    type V = State;

    open spec fn view(&self) -> State {
        State {
            settings: self.settings@,
            action: deed(self.action),
            script: opt(self.script),
            cert: opt(self.cert),
            key: opt(self.key),
            http2: self.http2,
            error_log: match self.error_log {
                Some(e) => Some((e.path@, e.level@)),
                None => None,
            },
        }
    }
}

impl Scope {
    pub open spec fn wf(&self) -> bool {
        self.settings.wf()
    }

    /// The scope in which nothing is set but the root.
    pub fn new(root: String) -> (s: Scope)
        ensures
            s.wf(),
            s@ == (State {
                settings: Values { root: root@, ..default_values() },
                action: None,
                script: None,
                cert: None,
                key: None,
                http2: false,
                error_log: None,
            }),
    {
        let mut settings = Settings::default();
        settings.root = root;
        let s = Scope {
            settings,
            action: None,
            script: None,
            cert: None,
            key: None,
            http2: false,
            error_log: None,
        };
        assert(s@.settings =~= (Values { root: root@, ..default_values() }));
        s
    }

    /// The same scope again.
    pub fn copy(&self) -> (r: Scope)
        ensures
            r@ == self@,
            self.wf() ==> r.wf(),
    {
        let r = Scope {
            settings: self.settings.copy(),
            action: match &self.action {
                Some(a) => Some(a.copy()),
                None => None,
            },
            script: model::copy_opt(&self.script),
            cert: model::copy_opt(&self.cert),
            key: model::copy_opt(&self.key),
            http2: self.http2,
            error_log: match &self.error_log {
                Some(e) => Some(ErrorLog { path: e.path.clone(), level: e.level.clone() }),
                None => None,
            },
        };
        assert(r@ =~= self@);
        r
    }
}

/// The usual settings: a minute for each step, a megabyte for a body, files below `html`, a log of all requests,
/// no compression and no rules on clients.
pub proof fn law_usual_settings()
    ensures
        ({
            let v = default_values();
            &&& v.connect_timeout == 60000 && v.read_timeout == 60000 && v.write_timeout == 60000
            &&& v.keepalive == 75000 && v.max_body == 1048576
            &&& v.root == "html"@ && v.index == seq!["index.html"@] && v.default_type
                == "application/octet-stream"@
            &&& v.access_log == Some("/dev/stdout"@) && !v.log.json && v.log.query && v.log.client
            &&& v.compression.gzip == 0 && v.compression.brotli == 0 && v.compression.min_length == 1024
            &&& v.trusted.len() == 0 && v.access.len() == 0 && v.real_ip_header == "x-real-ip"@
            &&& v.alias is None && v.https_redirect_port is None && v.request_headers.len() == 0
        }),
{
}

/// What is not set otherwise is told of files by their names, compressed by their types, and read whole.
pub proof fn law_usual_types()
    ensures
        ({
            let v = default_values();
            &&& v.mime.dom().contains("html"@) && v.mime["html"@] == "text/html"@
            &&& v.mime.dom().contains("css"@) && v.mime["css"@] == "text/css"@
            &&& v.mime.dom().contains("js"@) && v.mime["js"@] == "application/javascript"@
            &&& v.compression.types.len() == 6
            &&& v.compression.types.contains("text/html"@) && v.compression.types.contains("application/json"@)
            &&& v.compression.types.contains("text/plain"@) && v.compression.types.contains("text/css"@)
            &&& v.compression.types.contains("application/javascript"@) && v.compression.types.contains("image/svg+xml"@)
            &&& v.log.referer && v.log.fields.len() == 0 && v.response_headers.len() == 0 && v.try_files.len() == 0
            &&& !v.real_ip_recursive && v.body_policy.inspection is Off
        }),
{
    let t = default_values().compression.types;
    assert(t[0] == "text/html"@ && t[1] == "text/plain"@ && t[2] == "text/css"@);
    assert(t[3] == "application/javascript"@ && t[4] == "application/json"@ && t[5] == "image/svg+xml"@);
    reveal_strlit("html");
    reveal_strlit("css");
    assert("html"@.len() != "css"@.len());
    reveal_strlit("js");
    assert("html"@.len() != "js"@.len());
    reveal_strlit("css");
    reveal_strlit("js");
    assert("css"@.len() != "js"@.len());
}

} // verus!
