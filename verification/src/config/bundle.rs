//! A configuration together with the files that it needs, so that it can be kept and used again.
use crate::config::syntax::{lemma_node, nodes, Directive, Node};
use crate::path;
use crate::text;
use crate::text::texts;
use vstd::prelude::*;

verus! {

/// The most bytes that the files of a configuration may have together.
pub const MAX_ASSETS: usize = 16777216;

/// The most bytes that the directives of a configuration may take as JSON.
pub const MAX_CONFIG: usize = 4194304;

/// Directives that name a file which the configuration needs.
pub open spec fn needs_file(name: Seq<char>) -> bool {
    ||| name == "ssl_certificate"@
    ||| name == "ssl_certificate_key"@
    ||| name == "ssl_client_certificate"@
    ||| name == "proxy_ssl_certificate"@
    ||| name == "proxy_ssl_certificate_key"@
    ||| name == "proxy_ssl_trusted_certificate"@
    ||| name == "rgnix_script"@
}

fn does_need_file(name: &str) -> (r: bool)
    ensures
        r == needs_file(name@),
{
    text::same(name, "ssl_certificate") || text::same(name, "ssl_certificate_key") || text::same(
        name,
        "ssl_client_certificate",
    ) || text::same(name, "proxy_ssl_certificate") || text::same(
        name,
        "proxy_ssl_certificate_key",
    ) || text::same(name, "proxy_ssl_trusted_certificate") || text::same(name, "rgnix_script")
}

/// Directives that name a directory or a file that stays where it is.
pub open spec fn names_place(name: Seq<char>) -> bool {
    name == "root"@ || name == "alias"@ || name == "access_log"@ || name == "error_log"@
}

/// The extension of a file's name; `bin` where it has none.
pub open spec fn suffix_of(p: Seq<char>) -> Seq<char> {
    let base = p.skip(text::last_position(p, '/') + 1);
    let dot = text::last_position(base, '.');
    if dot <= 0 || base == ".."@ {
        "bin"@
    } else {
        base.skip(dot + 1)
    }
}

fn suffix(p: &str) -> (out: String)
    ensures
        out@ == suffix_of(p@),
{
    let v = text::chars(p);
    let start: usize = match text::rfind(&v, '/') {
        Some(i) => i + 1,
        None => 0,
    };
    let base = text::slice(&v, start, v.len());
    assert(base@ =~= p@.skip(text::last_position(p@, '/') + 1));
    let w = text::chars(base.as_str());
    match text::rfind(&w, '.') {
        Some(i) => if i == 0 || text::same(base.as_str(), "..") {
            "bin".to_owned()
        } else {
            let tail = text::slice(&w, i + 1, w.len());
            assert(tail@ =~= base@.skip(i + 1));
            tail
        },
        None => "bin".to_owned(),
    }
}

/// A file to take along: the name that it gets, where it is, and whether the files so far are measured
/// once it is read.
#[derive(Debug)]
pub struct Asset {
    pub name: String,
    pub path: String,
    pub measured: bool,
}

/// What an `Asset` holds.
#[verifier::ext_equal]
pub ghost struct Item {
    pub name: Seq<char>,
    pub path: Seq<char>,
    pub measured: bool,
}

impl View for Asset {
    type V = Item;

    open spec fn view(&self) -> Item {
        Item { name: self.name@, path: self.path@, measured: self.measured }
    }
}

pub open spec fn items(v: Seq<Asset>) -> Seq<Item> {
    Seq::new(v.len(), |i: int| v[i]@)
}

/// The name of the file of a number.
pub open spec fn asset_name(number: nat, suffix: Seq<char>) -> Seq<char> {
    "asset-"@ + text::decimal(number) + "."@ + suffix
}

fn name_asset(number: usize, suffix: &str) -> (out: String)
    ensures
        out@ == asset_name(number as nat, suffix@),
{
    let head = text::concat("asset-", text::decimal_string(number as u64).as_str());
    text::concat3(head.as_str(), ".", suffix)
}

/// Whether an argument names a file of keys.
pub open spec fn names_keys(arg: Seq<char>) -> bool {
    text::starts(arg, "jwks="@) && !text::starts(arg.skip("jwks="@.len() as int), "https://"@)
}

/// The arguments of a directive for tokens with the names of the files that are taken along; `taken` are
/// the files so far.
pub open spec fn keyed(args: Seq<Seq<char>>, base: Seq<char>, taken: Seq<Item>) -> (
    Seq<Seq<char>>,
    Seq<Item>,
)
    decreases args.len(),
{
    if args.len() == 0 {
        (Seq::empty(), taken)
    } else {
        let (v, t) = keyed(args.drop_last(), base, taken);
        let arg = args.last();
        if names_keys(arg) {
            let name = asset_name(t.len(), "json"@);
            (
                v.push("jwks="@ + name),
                t.push(
                    Item {
                        name,
                        path: path::joined(base, arg.skip("jwks="@.len() as int)),
                        measured: false,
                    },
                ),
            )
        } else {
            (v.push(arg), t)
        }
    }
}

/// The files with the last of those since `from` measured.
pub open spec fn sealed(taken: Seq<Item>, from: nat) -> Seq<Item> {
    if taken.len() > from {
        taken.update(taken.len() - 1, Item { measured: true, ..taken.last() })
    } else {
        taken
    }
}

/// The arguments of a directive, and the files with those that it needs.
pub open spec fn captured_args(n: Node, base: Seq<char>, taken: Seq<Item>) -> (
    Seq<Seq<char>>,
    Seq<Item>,
) {
    let (args, items) = if needs_file(n.name) && n.args.len() == 1 && n.args[0] != "off"@ {
        let place = path::joined(base, n.args[0]);
        let name = asset_name(taken.len(), suffix_of(place));
        (seq![name], taken.push(Item { name, path: place, measured: false }))
    } else {
        (n.args, taken)
    };
    let (keys, more) = if n.name == "rgnix_jwt"@ {
        keyed(args, base, items)
    } else {
        (args, items)
    };
    let last = if names_place(n.name) && keys.len() > 0 && keys[0] != "off"@ && keys[0]
        != "stderr"@ {
        keys.update(0, path::joined(base, keys[0]))
    } else {
        keys
    };
    (last, sealed(more, taken.len()))
}

/// A directive with the names of the files that are taken along; those in its block come first.
pub open spec fn captured_one(n: Node, base: Seq<char>, taken: Seq<Item>) -> (Node, Seq<Item>)
    decreases n, 0nat,
{
    match n.children {
        None => {
            let (args, items) = captured_args(n, base, taken);
            (Node { args, ..n }, items)
        },
        Some(inner) => {
            let (v, t) = captured(inner, base, taken);
            let (args, items) = captured_args(n, base, t);
            (Node { args, children: Some(v), ..n }, items)
        },
    }
}

/// Directives with the names of the files that are taken along.
pub open spec fn captured(v: Seq<Node>, base: Seq<char>, taken: Seq<Item>) -> (
    Seq<Node>,
    Seq<Item>,
)
    decreases v, 1nat,
{
    if v.len() == 0 {
        (Seq::empty(), taken)
    } else {
        let (first, t) = captured_one(v[0], base, taken);
        let (rest, u) = captured(v.drop_first(), base, t);
        (seq![first] + rest, u)
    }
}

fn take(taken: &mut Vec<Asset>, name: String, place: String)
    ensures
        items(final(taken)@) == items(old(taken)@).push(
            Item { name: name@, path: place@, measured: false },
        ),
{
    let ghost before = items(taken@);
    let a = Asset { name, path: place, measured: false };
    let ghost x = a@;
    taken.push(a);
    assert(items(taken@) =~= before.push(x));
}

fn key_args(args: &Vec<String>, base: &str, taken: &mut Vec<Asset>) -> (out: Vec<String>)
    ensures
        (texts(out@), items(final(taken)@)) == keyed(texts(args@), base@, items(old(taken)@)),
        final(taken)@.len() >= old(taken)@.len(),
{
    let ghost all = texts(args@);
    let ghost start = items(taken@);
    let ghost from = taken@.len();
    let mut out: Vec<String> = Vec::new();
    let mut i: usize = 0;
    assert(texts(out@) =~= Seq::empty());
    while i < args.len()
        invariant
            i <= args.len(),
            all == texts(args@),
            start == items(old(taken)@),
            from == old(taken)@.len(),
            taken@.len() >= from,
            (texts(out@), items(taken@)) == keyed(all.take(i as int), base@, start),
        decreases args.len() - i,
    {
        let ghost before = texts(out@);
        assert(all.take(i + 1).drop_last() =~= all.take(i as int));
        assert(items(taken@).len() == taken@.len());
        let arg = args[i].as_str();
        let keys = match text::strip_prefix(arg, "jwks=") {
            Some(p) => if text::starts_with(p, "https://") {
                None
            } else {
                Some(p)
            },
            None => None,
        };
        let next = match keys {
            Some(p) => {
                let name = name_asset(taken.len(), "json");
                let next = text::concat("jwks=", name.as_str());
                take(taken, name, path::join(base, p));
                next
            },
            None => arg.to_owned(),
        };
        let ghost x = next@;
        out.push(next);
        assert(texts(out@) =~= before.push(x));
        assert(items(taken@).len() == taken@.len());
        i += 1;
    }
    assert(all.take(i as int) =~= all);
    out
}

fn seal(taken: &mut Vec<Asset>, from: usize)
    ensures
        items(final(taken)@) == sealed(items(old(taken)@), from as nat),
{
    let ghost before = items(taken@);
    if taken.len() > from {
        let k = taken.len() - 1;
        let a = Asset {
            name: taken[k].name.clone(),
            path: taken[k].path.clone(),
            measured: true,
        };
        let ghost x = a@;
        taken.set(k, a);
        assert(items(taken@) =~= before.update(k as int, x));
    }
}

fn capture_args(d: &Directive, base: &str, taken: &mut Vec<Asset>) -> (out: Vec<String>)
    ensures
        (texts(out@), items(final(taken)@)) == captured_args(
            d.node(),
            base@,
            items(old(taken)@),
        ),
{
    let from = taken.len();
    assert(items(taken@).len() == taken@.len());
    let name = d.name.as_str();
    let mut args: Vec<String> = Vec::new();
    if does_need_file(name) && d.args.len() == 1 && !text::same(d.args[0].as_str(), "off") {
        let place = path::join(base, d.args[0].as_str());
        let asset = name_asset(taken.len(), suffix(place.as_str()).as_str());
        args.push(asset.clone());
        assert(texts(args@) =~= seq![asset@]);
        take(taken, asset, place);
    } else {
        args = text::copy_all(&d.args);
    }
    if text::same(name, "rgnix_jwt") {
        args = key_args(&args, base, taken);
    }
    if (text::same(name, "root") || text::same(name, "alias") || text::same(name, "access_log")
        || text::same(name, "error_log")) && args.len() > 0 && !text::same(
        args[0].as_str(),
        "off",
    ) && !text::same(args[0].as_str(), "stderr") {
        let ghost before = texts(args@);
        let place = path::join(base, args[0].as_str());
        let ghost x = place@;
        args.set(0, place);
        assert(texts(args@) =~= before.update(0, x));
    }
    seal(taken, from);
    args
}

fn capture_one(d: &Directive, base: &str, taken: &mut Vec<Asset>) -> (out: Directive)
    ensures
        (out.node(), items(final(taken)@)) == captured_one(d.node(), base@, items(old(taken)@)),
    decreases d.node(), 0nat,
{
    proof {
        lemma_node(*d);
    }
    let children = match &d.children {
        None => None,
        Some(inner) => {
            proof {
                assert(decreases_to!(d.node() => d.node().children->0));
            }
            Some(visit(inner, base, taken))
        },
    };
    let args = capture_args(d, base, taken);
    let out = Directive { name: d.name.clone(), args, children, source: d.source.clone() };
    proof {
        lemma_node(out);
    }
    out
}

/// Directives with the names of the files that are taken along.
pub fn visit(v: &Vec<Directive>, base: &str, taken: &mut Vec<Asset>) -> (out: Vec<Directive>)
    ensures
        (nodes(out@), items(final(taken)@)) == captured(nodes(v@), base@, items(old(taken)@)),
    decreases nodes(v@), 1nat,
{
    let ghost all = nodes(v@);
    let ghost whole = captured(all, base@, items(taken@));
    let mut out: Vec<Directive> = Vec::new();
    let mut i: usize = 0;
    proof {
        assert(all.skip(0) =~= all);
        assert(nodes(out@) + whole.0 =~= whole.0);
    }
    while i < v.len()
        invariant
            i <= v.len(),
            all == nodes(v@),
            whole == captured(all, base@, items(old(taken)@)),
            nodes(out@) + captured(all.skip(i as int), base@, items(taken@)).0 == whole.0,
            captured(all.skip(i as int), base@, items(taken@)).1 == whole.1,
        decreases v.len() - i,
    {
        let ghost rest = all.skip(i as int);
        let ghost done = nodes(out@);
        proof {
            assert(rest.drop_first() =~= all.skip(i + 1));
            assert(rest[0] == v@[i as int].node());
            assert(decreases_to!(nodes(v@) => nodes(v@)[i as int]));
        }
        let d = capture_one(&v[i], base, taken);
        let ghost x = d.node();
        out.push(d);
        proof {
            let more = captured(all.skip(i + 1), base@, items(taken@)).0;
            assert(nodes(out@) =~= done.push(x));
            assert(nodes(out@) + more =~= done + (seq![x] + more));
        }
        i += 1;
    }
    proof {
        assert(all.skip(i as int) =~= Seq::empty());
        assert(nodes(out@) + Seq::<Node>::empty() =~= nodes(out@));
    }
    out
}

// ---------------------------------------------------------------------------
// The bundle
// ---------------------------------------------------------------------------

/// A configuration with its files, by name.
#[derive(Debug)]
pub struct Bundle {
    pub nodes: Vec<Directive>,
    pub assets: Vec<(String, Vec<u8>)>,
}

/// What is taken along of a configuration: the directives with the names of the files, and the files to
/// read.
#[derive(Debug)]
pub struct Capture {
    pub nodes: Vec<Directive>,
    pub assets: Vec<Asset>,
}

/// What is taken along of the configuration in a file.
pub fn capture(v: &Vec<Directive>, file: &str) -> (c: Capture)
    ensures
        ({
            let base = path::directory(file@);
            let (w, a) = captured(nodes(v@), base, Seq::empty());
            &&& nodes(c.nodes@) == crate::migration::nginx::rooted(
                w,
                path::joined(base, "html"@),
                file@,
            )
            &&& items(c.assets@) == a
        }),
{
    let base = path::parent(file);
    let mut assets: Vec<Asset> = Vec::new();
    assert(items(assets@) =~= Seq::empty());
    let mut found = visit(v, base, &mut assets);
    let root = path::join(base, "html");
    crate::migration::nginx::add_root(&mut found, root.as_str(), file);
    Capture { nodes: found, assets }
}

/// The bytes of all files.
pub open spec fn total(v: Seq<(String, Vec<u8>)>) -> nat
    decreases v.len(),
{
    if v.len() == 0 {
        0
    } else {
        total(v.drop_last()) + v.last().1@.len()
    }
}

proof fn lemma_total(v: Seq<(String, Vec<u8>)>, i: int)
    requires
        0 <= i <= v.len(),
    ensures
        total(v.take(i)) <= total(v),
    decreases v.len(),
{
    if i < v.len() {
        assert(v.drop_last().take(i) =~= v.take(i));
        lemma_total(v.drop_last(), i);
    } else {
        assert(v.take(i) =~= v);
    }
}

/// Whether files are few enough bytes together.
pub fn assets_fit(v: &Vec<(String, Vec<u8>)>) -> (r: bool)
    ensures
        r == (total(v@) <= MAX_ASSETS),
{
    let mut n: usize = 0;
    let mut i: usize = 0;
    while i < v.len()
        invariant
            i <= v.len(),
            n == total(v@.take(i as int)),
            n <= MAX_ASSETS,
        decreases v.len() - i,
    {
        proof {
            assert(v@.take(i + 1).drop_last() =~= v@.take(i as int));
            lemma_total(v@, i + 1);
        }
        let k = v[i].1.len();
        if k > MAX_ASSETS - n {
            return false;
        }
        n += k;
        i += 1;
    }
    assert(v@.take(i as int) =~= v@);
    true
}

/// A name that a file of a bundle can have.
pub open spec fn valid_asset(name: Seq<char>) -> bool {
    !name.contains('/') && !name.contains('\\') && text::starts(name, "asset-"@)
}

pub fn is_valid_asset(name: &str) -> (r: bool)
    ensures
        r == valid_asset(name@),
{
    !text::has_char(name, '/') && !text::has_char(name, '\\') && text::starts_with(name, "asset-")
}

#[derive(Clone, Copy, Debug, PartialEq, Eq, Structural)]
pub enum BundleError {
    TooLarge,
    InvalidAsset,
}

impl Bundle {
    /// Whether a bundle that was kept can be used; `config_bytes` is the length of its directives as JSON.
    pub open spec fn usable(&self, config_bytes: usize) -> Result<(), BundleError> {
        if config_bytes > MAX_CONFIG || total(self.assets@) > MAX_ASSETS {
            Err(BundleError::TooLarge)
        } else if exists|i: int|
            0 <= i < self.assets@.len() && !valid_asset((#[trigger] self.assets@[i]).0@) {
            Err(BundleError::InvalidAsset)
        } else {
            Ok(())
        }
    }

    /// Whether a bundle that was kept can be used; `config_bytes` is the length of its directives as JSON.
    pub fn validate(&self, config_bytes: usize) -> (r: Result<(), BundleError>)
        ensures
            r == self.usable(config_bytes),
    {
        if config_bytes > MAX_CONFIG || !assets_fit(&self.assets) {
            return Err(BundleError::TooLarge);
        }
        let mut i: usize = 0;
        while i < self.assets.len()
            invariant
                i <= self.assets.len(),
                config_bytes <= MAX_CONFIG,
                total(self.assets@) <= MAX_ASSETS,
                forall|j: int| 0 <= j < i ==> valid_asset((#[trigger] self.assets@[j]).0@),
            decreases self.assets.len() - i,
        {
            if !is_valid_asset(self.assets[i].0.as_str()) {
                assert(!valid_asset(self.assets@[i as int].0@));
                return Err(BundleError::InvalidAsset);
            }
            i += 1;
        }
        Ok(())
    }
}

// ---------------------------------------------------------------------------
// Laws
// ---------------------------------------------------------------------------

/// The files of a list are named by their numbers.
pub open spec fn numbered(v: Seq<Item>) -> bool {
    forall|i: int| 0 <= i < v.len() ==> has_number(#[trigger] v[i], i as nat)
}

pub open spec fn has_number(x: Item, number: nat) -> bool {
    exists|s: Seq<char>| x.name == #[trigger] asset_name(number, s)
}

proof fn lemma_numbered_push(v: Seq<Item>, x: Item, s: Seq<char>)
    requires
        numbered(v),
        x.name == asset_name(v.len(), s),
    ensures
        numbered(v.push(x)),
{
    let w = v.push(x);
    assert forall|i: int| 0 <= i < w.len() implies has_number(
        #[trigger] w[i],
        i as nat,
    ) by {
        if i < v.len() {
            assert(w[i] == v[i]);
        } else {
            assert(w[i].name == asset_name(i as nat, s));
        }
    }
}

proof fn lemma_keyed_numbered(args: Seq<Seq<char>>, base: Seq<char>, taken: Seq<Item>)
    requires
        numbered(taken),
    ensures
        numbered(keyed(args, base, taken).1),
    decreases args.len(),
{
    if args.len() > 0 {
        lemma_keyed_numbered(args.drop_last(), base, taken);
        let t = keyed(args.drop_last(), base, taken).1;
        if names_keys(args.last()) {
            let x = Item {
                name: asset_name(t.len(), "json"@),
                path: path::joined(base, args.last().skip("jwks="@.len() as int)),
                measured: false,
            };
            lemma_numbered_push(t, x, "json"@);
        }
    }
}

proof fn lemma_args_numbered(n: Node, base: Seq<char>, taken: Seq<Item>)
    requires
        numbered(taken),
    ensures
        numbered(captured_args(n, base, taken).1),
{
    let (args, items) = if needs_file(n.name) && n.args.len() == 1 && n.args[0] != "off"@ {
        let place = path::joined(base, n.args[0]);
        let name = asset_name(taken.len(), suffix_of(place));
        (seq![name], taken.push(Item { name, path: place, measured: false }))
    } else {
        (n.args, taken)
    };
    if needs_file(n.name) && n.args.len() == 1 && n.args[0] != "off"@ {
        lemma_numbered_push(
            taken,
            items.last(),
            suffix_of(path::joined(base, n.args[0])),
        );
    }
    lemma_keyed_numbered(args, base, items);
    let more = if n.name == "rgnix_jwt"@ {
        keyed(args, base, items).1
    } else {
        items
    };
    let last = sealed(more, taken.len());
    assert forall|i: int| 0 <= i < last.len() implies has_number(
        #[trigger] last[i],
        i as nat,
    ) by {
        assert(last[i].name == more[i].name);
        assert(has_number(more[i], i as nat));
    }
}

proof fn lemma_one_numbered(n: Node, base: Seq<char>, taken: Seq<Item>)
    requires
        numbered(taken),
    ensures
        numbered(captured_one(n, base, taken).1),
    decreases n, 0nat,
{
    match n.children {
        None => {
            lemma_args_numbered(n, base, taken);
        },
        Some(inner) => {
            lemma_all_numbered(inner, base, taken);
            lemma_args_numbered(n, base, captured(inner, base, taken).1);
        },
    }
}

proof fn lemma_all_numbered(v: Seq<Node>, base: Seq<char>, taken: Seq<Item>)
    requires
        numbered(taken),
    ensures
        numbered(captured(v, base, taken).1),
    decreases v, 1nat,
{
    if v.len() > 0 {
        lemma_one_numbered(v[0], base, taken);
        lemma_all_numbered(v.drop_first(), base, captured_one(v[0], base, taken).1);
    }
}

/// Each file that is taken along has a number of its own in its name.
pub proof fn law_assets_are_numbered(v: Seq<Node>, base: Seq<char>)
    ensures
        numbered(captured(v, base, Seq::empty()).1),
{
    lemma_all_numbered(v, base, Seq::empty());
}

/// A file that a directive needs is taken under a name of its own, and the directive names it so.
pub proof fn law_needed_files_are_taken(n: Node, base: Seq<char>, taken: Seq<Item>, arg: Seq<char>)
    requires
        n.name == "ssl_certificate"@ || n.name == "ssl_certificate_key"@ || n.name == "rgnix_script"@,
        n.args == seq![arg],
        arg != "off"@,
    ensures
        ({
            let place = path::joined(base, arg);
            let name = asset_name(taken.len(), suffix_of(place));
            captured_args(n, base, taken) == (
                seq![name],
                taken.push(Item { name, path: place, measured: true }),
            )
        }),
{
    reveal_strlit("rgnix_script");
    reveal_strlit("rgnix_jwt");
    assert("rgnix_script"@.len() != "rgnix_jwt"@.len());
    reveal_strlit("root");
    assert("rgnix_script"@.len() != "root"@.len());
    reveal_strlit("alias");
    assert("rgnix_script"@.len() != "alias"@.len());
    reveal_strlit("access_log");
    assert("rgnix_script"@.len() != "access_log"@.len());
    reveal_strlit("error_log");
    assert("rgnix_script"@.len() != "error_log"@.len());
    reveal_strlit("ssl_certificate");
    reveal_strlit("rgnix_jwt");
    assert("ssl_certificate"@.len() != "rgnix_jwt"@.len());
    reveal_strlit("root");
    assert("ssl_certificate"@.len() != "root"@.len());
    reveal_strlit("alias");
    assert("ssl_certificate"@.len() != "alias"@.len());
    reveal_strlit("access_log");
    assert("ssl_certificate"@.len() != "access_log"@.len());
    reveal_strlit("error_log");
    assert("ssl_certificate"@.len() != "error_log"@.len());
    reveal_strlit("ssl_certificate_key");
    reveal_strlit("rgnix_jwt");
    assert("ssl_certificate_key"@.len() != "rgnix_jwt"@.len());
    reveal_strlit("root");
    assert("ssl_certificate_key"@.len() != "root"@.len());
    reveal_strlit("alias");
    assert("ssl_certificate_key"@.len() != "alias"@.len());
    reveal_strlit("access_log");
    assert("ssl_certificate_key"@.len() != "access_log"@.len());
    reveal_strlit("error_log");
    assert("ssl_certificate_key"@.len() != "error_log"@.len());
    let place = path::joined(base, arg);
    let name = asset_name(taken.len(), suffix_of(place));
    let a = taken.push(Item { name, path: place, measured: false });
    assert(seq![arg][0] == arg);
    assert(a.update(a.len() - 1, Item { measured: true, ..a.last() }) =~= taken.push(
        Item { name, path: place, measured: true },
    ));
}

/// A place is named from the directory of the configuration; what is off stays so.
pub proof fn law_places_are_named_from_the_directory(n: Node, base: Seq<char>, taken: Seq<Item>, arg: Seq<char>)
    requires
        n.name == "root"@ || n.name == "access_log"@,
        n.args == seq![arg],
    ensures
        arg != "off"@ && arg != "stderr"@ ==> captured_args(n, base, taken) == (
            seq![path::joined(base, arg)],
            taken,
        ),
        arg == "off"@ ==> captured_args(n, base, taken) == (n.args, taken),
{
    reveal_strlit("root");
    reveal_strlit("ssl_certificate");
    assert("root"@.len() != "ssl_certificate"@.len());
    reveal_strlit("ssl_certificate_key");
    assert("root"@.len() != "ssl_certificate_key"@.len());
    reveal_strlit("ssl_client_certificate");
    assert("root"@.len() != "ssl_client_certificate"@.len());
    reveal_strlit("proxy_ssl_certificate");
    assert("root"@.len() != "proxy_ssl_certificate"@.len());
    reveal_strlit("proxy_ssl_certificate_key");
    assert("root"@.len() != "proxy_ssl_certificate_key"@.len());
    reveal_strlit("proxy_ssl_trusted_certificate");
    assert("root"@.len() != "proxy_ssl_trusted_certificate"@.len());
    reveal_strlit("rgnix_script");
    assert("root"@.len() != "rgnix_script"@.len());
    reveal_strlit("rgnix_jwt");
    assert("root"@.len() != "rgnix_jwt"@.len());
    reveal_strlit("access_log");
    reveal_strlit("ssl_certificate");
    assert("access_log"@.len() != "ssl_certificate"@.len());
    reveal_strlit("ssl_certificate_key");
    assert("access_log"@.len() != "ssl_certificate_key"@.len());
    reveal_strlit("ssl_client_certificate");
    assert("access_log"@.len() != "ssl_client_certificate"@.len());
    reveal_strlit("proxy_ssl_certificate");
    assert("access_log"@.len() != "proxy_ssl_certificate"@.len());
    reveal_strlit("proxy_ssl_certificate_key");
    assert("access_log"@.len() != "proxy_ssl_certificate_key"@.len());
    reveal_strlit("proxy_ssl_trusted_certificate");
    assert("access_log"@.len() != "proxy_ssl_trusted_certificate"@.len());
    reveal_strlit("rgnix_script");
    assert("access_log"@.len() != "rgnix_script"@.len());
    reveal_strlit("rgnix_jwt");
    assert("access_log"@.len() != "rgnix_jwt"@.len());
    assert(seq![arg][0] == arg);
    assert(seq![arg].update(0, path::joined(base, arg)) =~= seq![path::joined(base, arg)]);
    assert(!needs_file(n.name));
}

/// A bundle is used where it is small enough and names only files of its own.
pub proof fn law_bundles_are_checked(b: Bundle, n: usize, i: int)
    ensures
        n > 4194304 ==> b.usable(n) == Err::<(), BundleError>(BundleError::TooLarge),
        total(b.assets@) > 16777216 ==> b.usable(n) == Err::<(), BundleError>(BundleError::TooLarge),
        n <= 4194304 && total(b.assets@) <= 16777216 && 0 <= i < b.assets@.len() && (b.assets@[i].0@.contains('/')
            || b.assets@[i].0@.contains('\\') || !text::starts(b.assets@[i].0@, "asset-"@)) ==> b.usable(n)
            == Err::<(), BundleError>(BundleError::InvalidAsset),
        n <= 4194304 && b.assets@.len() == 0 ==> b.usable(n) == Ok::<(), BundleError>(()),
{
    if 0 <= i < b.assets@.len() {
        assert(valid_asset(b.assets@[i].0@) == (!b.assets@[i].0@.contains('/') && !b.assets@[i].0@.contains('\\')
            && text::starts(b.assets@[i].0@, "asset-"@)));
    }
}

} // verus!
