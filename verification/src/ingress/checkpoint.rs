//! Accepted configurations of Ingresses, as they are kept for replicas to come.
use crate::body::BodyPolicy;
use crate::config::settings::copy_pairs;
use crate::digest::{digest_text, text_digest};
use crate::ingress::backends::is_named;
use crate::ingress::spec::{same_pairs, IngressSpec, Shape};
use crate::text;
use vstd::prelude::*;

verus! {

/// The longest checkpoint, in bytes.
pub const MAX_CHECKPOINT: usize = 921600;

/// The form of the checkpoints.
pub const SCHEMA: u8 = 1;

/// A configuration that was accepted: the resource, the script and the annotations.
#[derive(Debug)]
pub struct Accepted {
    pub schema: u8,
    pub class: String,
    pub uid: String,
    pub namespace: String,
    pub name: String,
    /// The script's place, or nothing where there is none.
    pub reference: String,
    pub plugin_uid: String,
    pub source: String,
    pub spec: IngressSpec,
    pub body_policy: BodyPolicy,
    pub policy: Vec<(String, String)>,
}

/// What an `Accepted` holds.
#[verifier::ext_equal]
pub ghost struct Grant {
    pub schema: u8,
    pub class: Seq<char>,
    pub uid: Seq<char>,
    pub namespace: Seq<char>,
    pub name: Seq<char>,
    pub reference: Seq<char>,
    pub plugin_uid: Seq<char>,
    pub source: Seq<char>,
    pub spec: Shape,
    pub body_policy: BodyPolicy,
    pub policy: Seq<(Seq<char>, Seq<char>)>,
}

impl View for Accepted {
    type V = Grant;

    open spec fn view(&self) -> Grant {
        Grant {
            schema: self.schema,
            class: self.class@,
            uid: self.uid@,
            namespace: self.namespace@,
            name: self.name@,
            reference: self.reference@,
            plugin_uid: self.plugin_uid@,
            source: self.source@,
            spec: self.spec@,
            body_policy: self.body_policy,
            policy: text::pairs(self.policy@),
        }
    }
}

pub open spec fn grant(a: Option<Accepted>) -> Option<Grant> {
    match a {
        Some(a) => Some(a@),
        None => None,
    }
}

impl Accepted {
    /// The same configuration again.
    pub fn copy(&self) -> (r: Accepted)
        ensures
            r@ == self@,
    {
        Accepted {
            schema: self.schema,
            class: self.class.clone(),
            uid: self.uid.clone(),
            namespace: self.namespace.clone(),
            name: self.name.clone(),
            reference: self.reference.clone(),
            plugin_uid: self.plugin_uid.clone(),
            source: self.source.clone(),
            spec: self.spec.copy(),
            body_policy: self.body_policy,
            policy: copy_pairs(&self.policy),
        }
    }

    pub fn same(&self, other: &Accepted) -> (r: bool)
        ensures
            r == (self@ == other@),
    {
        self.schema == other.schema && text::same(self.class.as_str(), other.class.as_str())
            && text::same(self.uid.as_str(), other.uid.as_str()) && text::same(
            self.namespace.as_str(),
            other.namespace.as_str(),
        ) && text::same(self.name.as_str(), other.name.as_str()) && text::same(
            self.reference.as_str(),
            other.reference.as_str(),
        ) && text::same(self.plugin_uid.as_str(), other.plugin_uid.as_str()) && text::same(
            self.source.as_str(),
            other.source.as_str(),
        ) && self.spec.same(&other.spec) && self.body_policy == other.body_policy && same_pairs(
            &self.policy,
            &other.policy,
        )
    }
}

pub fn same_accepted(a: &Option<Accepted>, b: &Option<Accepted>) -> (r: bool)
    ensures
        r == (grant(*a) == grant(*b)),
{
    match (a, b) {
        (Some(a), Some(b)) => a.same(b),
        (None, None) => true,
        _ => false,
    }
}

// ---------------------------------------------------------------------------
// Names
// ---------------------------------------------------------------------------

/// The first half of a text's digest.
pub open spec fn short_digest(s: Seq<char>) -> Seq<char> {
    text_digest(s).take(32)
}

pub fn short_digest_text(s: &str) -> (out: String)
    ensures
        out@ == short_digest(s@),
{
    let d = digest_text(s);
    let v = text::chars(d.as_str());
    let out = text::slice(&v, 0, 32);
    assert(out@ =~= d@.take(32));
    out
}

/// The name of the checkpoint of an Ingress.
pub open spec fn checkpoint_name(class: Seq<char>, uid: Seq<char>) -> Seq<char> {
    "rgnix-state-"@ + short_digest(class + "/"@ + uid)
}

pub fn name(class: &str, uid: &str) -> (out: String)
    ensures
        out@ == checkpoint_name(class@, uid@),
{
    let d = short_digest_text(text::concat3(class, "/", uid).as_str());
    text::concat("rgnix-state-", d.as_str())
}

/// A config map that may hold a checkpoint.
#[derive(Debug)]
pub struct CheckpointMap {
    pub namespace: Option<String>,
    pub name: String,
    pub labels: Vec<(String, String)>,
    pub data: Vec<(String, String)>,
}

impl CheckpointMap {
    /// Whether the map is labelled as one with a checkpoint of a class.
    pub open spec fn labelled(self, class: Seq<char>) -> bool {
        text::lookup(text::pairs(self.labels@), "rgnix.io/checkpoint-class"@) == Some(
            short_digest(class),
        )
    }

    fn is_labelled(&self, class: &str) -> (r: bool)
        ensures
            r == self.labelled(class@),
    {
        match text::find(&self.labels, "rgnix.io/checkpoint-class") {
            Some(l) => text::same(l, short_digest_text(class).as_str()),
            None => false,
        }
    }
}

/// Whether a map is where the checkpoint of an Ingress is kept.
pub open spec fn keeps(m: CheckpointMap, publish: Seq<char>, class: Seq<char>, uid: Seq<char>) -> bool {
    text::opt(m.namespace) == Some(publish) && m.name@ == checkpoint_name(class, uid) && m.labelled(class)
}

/// The first map in which the checkpoint of an Ingress is kept.
pub open spec fn keeper(v: Seq<CheckpointMap>, publish: Seq<char>, class: Seq<char>, uid: Seq<char>) -> Option<
    CheckpointMap,
>
    decreases v.len(),
{
    if v.len() == 0 {
        None
    } else if keeps(v[0], publish, class, uid) {
        Some(v[0])
    } else {
        keeper(v.drop_first(), publish, class, uid)
    }
}

/// The text of the checkpoint of an Ingress, where it is not too long.
pub open spec fn kept_text(v: Seq<CheckpointMap>, publish: Seq<char>, class: Seq<char>, uid: Seq<char>) -> Option<
    Seq<char>,
> {
    match keeper(v, publish, class, uid) {
        None => None,
        Some(m) => match text::lookup(text::pairs(m.data@), "accepted.json"@) {
            Some(t) if text::byte_len(t) <= MAX_CHECKPOINT => Some(t),
            _ => None,
        },
    }
}

/// The text of the checkpoint of an Ingress, where it is not too long.
pub fn stored_text<'a>(maps: &'a Vec<CheckpointMap>, publish: &str, class: &str, uid: &str) -> (r: Option<
    &'a str,
>)
    ensures
        match r {
            Some(t) => kept_text(maps@, publish@, class@, uid@) == Some(t@),
            None => kept_text(maps@, publish@, class@, uid@) is None,
        },
{
    let expected = name(class, uid);
    let mut i: usize = 0;
    assert(maps@.skip(0) =~= maps@);
    while i < maps.len()
        invariant
            i <= maps.len(),
            expected@ == checkpoint_name(class@, uid@),
            keeper(maps@, publish@, class@, uid@) == keeper(
                maps@.skip(i as int),
                publish@,
                class@,
                uid@,
            ),
        decreases maps.len() - i,
    {
        let m = &maps[i];
        proof {
            assert(maps@.skip(i as int).drop_first() =~= maps@.skip(i + 1));
            assert(maps@.skip(i as int)[0] == *m);
        }
        if is_named(&m.namespace, publish) && text::same(m.name.as_str(), expected.as_str())
            && m.is_labelled(class) {
            return match text::find(&m.data, "accepted.json") {
                Some(t) => if text::len(t) <= MAX_CHECKPOINT {
                    Some(t)
                } else {
                    None
                },
                None => None,
            };
        }
        i += 1;
    }
    None
}

/// The names of the checkpoints of Ingresses.
pub open spec fn checkpoint_names(class: Seq<char>, uids: Seq<Seq<char>>) -> Seq<Seq<char>> {
    Seq::new(uids.len(), |i: int| checkpoint_name(class, uids[i]))
}

/// Whether a map holds a checkpoint of a class that no Ingress wants.
pub open spec fn is_stale(m: CheckpointMap, class: Seq<char>, uids: Seq<Seq<char>>) -> bool {
    m.labelled(class) && text::starts(m.name@, "rgnix-state-"@) && !checkpoint_names(
        class,
        uids,
    ).contains(m.name@)
}

/// Where the maps are that no Ingress wants, among the first `n`.
pub open spec fn stale_until(v: Seq<CheckpointMap>, class: Seq<char>, uids: Seq<Seq<char>>, n: int) -> Seq<usize>
    decreases n,
{
    if n <= 0 {
        Seq::empty()
    } else if is_stale(v[n - 1], class, uids) {
        stale_until(v, class, uids, n - 1).push((n - 1) as usize)
    } else {
        stale_until(v, class, uids, n - 1)
    }
}

/// Where the maps are that hold checkpoints of a class which none of the Ingresses wants.
pub fn stale(maps: &Vec<CheckpointMap>, class: &str, uids: &Vec<String>) -> (out: Vec<usize>)
    ensures
        out@ == stale_until(maps@, class@, text::texts(uids@), maps@.len() as int),
{
    let mut names: Vec<String> = Vec::new();
    let mut i: usize = 0;
    while i < uids.len()
        invariant
            i <= uids.len(),
            names@.len() == i,
            forall|k: int| 0 <= k < i ==> (#[trigger] names@[k])@ == checkpoint_name(class@, uids@[k]@),
        decreases uids.len() - i,
    {
        names.push(name(class, uids[i].as_str()));
        i += 1;
    }
    assert(text::texts(names@) =~= checkpoint_names(class@, text::texts(uids@)));
    let mut out: Vec<usize> = Vec::new();
    let mut i: usize = 0;
    while i < maps.len()
        invariant
            i <= maps.len(),
            text::texts(names@) == checkpoint_names(class@, text::texts(uids@)),
            out@ == stale_until(maps@, class@, text::texts(uids@), i as int),
        decreases maps.len() - i,
    {
        let m = &maps[i];
        if m.is_labelled(class) && text::starts_with(m.name.as_str(), "rgnix-state-")
            && !text::contains(&names, m.name.as_str()) {
            out.push(i);
        }
        i += 1;
    }
    out
}

/// No checkpoint is removed but those of the class, and none that an Ingress wants.
pub proof fn law_wanted_checkpoints_stay(
    v: Seq<CheckpointMap>,
    class: Seq<char>,
    uids: Seq<Seq<char>>,
    n: int,
    i: int,
    k: int,
)
    requires
        0 <= n <= v.len(),
        v.len() <= usize::MAX,
        0 <= i < stale_until(v, class, uids, n).len(),
        0 <= k < uids.len(),
    ensures
        stale_until(v, class, uids, n)[i] < n,
        v[stale_until(v, class, uids, n)[i] as int].labelled(class),
        v[stale_until(v, class, uids, n)[i] as int].name@ != checkpoint_name(class, uids[k]),
    decreases n,
{
    let before = stale_until(v, class, uids, n - 1);
    if i < before.len() {
        law_wanted_checkpoints_stay(v, class, uids, n - 1, i, k);
    } else {
        assert(checkpoint_names(class, uids)[k] == checkpoint_name(class, uids[k]));
    }
}

// ---------------------------------------------------------------------------
// Reading and writing
// ---------------------------------------------------------------------------

/// Whether a checkpoint is the one of an Ingress, its class and its script.
pub open spec fn restorable(a: Grant, class: Seq<char>, uid: Seq<char>, plugin_uid: Seq<char>) -> bool {
    a.schema == SCHEMA && a.uid == uid && a.class == class && a.plugin_uid == plugin_uid
}

/// The checkpoint of an Ingress, where what was read is one for it. `length` is that of the text that it was
/// read from.
pub fn restore(
    read: &Option<Accepted>,
    length: usize,
    class: &str,
    uid: &str,
    plugin_uid: &str,
) -> (r: Option<Accepted>)
    ensures
        grant(r) == if length <= MAX_CHECKPOINT && grant(*read) is Some && restorable(
            grant(*read)->0,
            class@,
            uid@,
            plugin_uid@,
        ) {
            grant(*read)
        } else {
            None
        },
{
    if length > MAX_CHECKPOINT {
        return None;
    }
    match read {
        None => None,
        Some(a) => if a.schema == SCHEMA && text::same(a.uid.as_str(), uid) && text::same(
            a.class.as_str(),
            class,
        ) && text::same(a.plugin_uid.as_str(), plugin_uid) {
            Some(a.copy())
        } else {
            None
        },
    }
}

/// What becomes of the checkpoint of a configuration.
#[derive(Clone, Copy, Debug, PartialEq, Eq, Structural)]
pub enum Write {
    TooLong,
    /// It is written already.
    Kept,
    /// It is written where the resources are still those that were accepted.
    Verify,
}

pub open spec fn write_of(previous: Option<Seq<char>>, data: Seq<char>) -> Write {
    if text::byte_len(data) > MAX_CHECKPOINT {
        Write::TooLong
    } else if previous == Some(data) {
        Write::Kept
    } else {
        Write::Verify
    }
}

pub fn write(previous: &Option<String>, data: &str) -> (r: Write)
    ensures
        r == write_of(text::opt(*previous), data@),
{
    if text::len(data) > MAX_CHECKPOINT {
        Write::TooLong
    } else if is_named(previous, data) {
        Write::Kept
    } else {
        Write::Verify
    }
}

/// A script as it is kept in the cluster.
#[derive(Debug)]
pub struct Plugin {
    pub uid: Option<String>,
    pub data: Vec<(String, String)>,
}

/// Whether the resources are those that were accepted: the Ingress, its reference and the script.
pub open spec fn still_accepted(
    a: Grant,
    uid: Option<Seq<char>>,
    spec: Option<Shape>,
    reference: Option<Seq<char>>,
    plugin: Option<(Option<Seq<char>>, Seq<(Seq<char>, Seq<char>)>)>,
) -> bool {
    &&& uid == Some(a.uid)
    &&& spec == Some(a.spec)
    &&& reference == Some(a.reference)
    &&& match text::split_once_spec(a.reference, '/') {
        None => false,
        Some((_, key)) => plugin is Some && {
            let (id, data) = plugin->0;
            id == Some(a.plugin_uid) && text::lookup(data, key) == Some(a.source)
        },
    }
}

pub open spec fn shape(s: Option<IngressSpec>) -> Option<Shape> {
    match s {
        Some(s) => Some(s@),
        None => None,
    }
}

pub open spec fn plugin_view(p: Option<Plugin>) -> Option<
    (Option<Seq<char>>, Seq<(Seq<char>, Seq<char>)>),
> {
    match p {
        Some(p) => Some((text::opt(p.uid), text::pairs(p.data@))),
        None => None,
    }
}

/// Whether the resources are those that were accepted: the Ingress, its reference and the script.
pub fn is_current(
    a: &Accepted,
    uid: &Option<String>,
    spec: &Option<IngressSpec>,
    reference: &Option<String>,
    plugin: &Option<Plugin>,
) -> (r: bool)
    ensures
        r == still_accepted(
            a@,
            text::opt(*uid),
            shape(*spec),
            text::opt(*reference),
            plugin_view(*plugin),
        ),
{
    if !is_named(uid, a.uid.as_str()) {
        return false;
    }
    match spec {
        None => return false,
        Some(s) => if !s.same(&a.spec) {
            return false;
        },
    }
    if !is_named(reference, a.reference.as_str()) {
        return false;
    }
    let key = match text::split_once(a.reference.as_str(), '/') {
        None => return false,
        Some((_, key)) => key,
    };
    match plugin {
        None => false,
        Some(p) => is_named(&p.uid, a.plugin_uid.as_str()) && match text::find(
            &p.data,
            key.as_str(),
        ) {
            Some(s) => text::same(s, a.source.as_str()),
            None => false,
        },
    }
}

/// Whether a checkpoint that no configuration asks for is kept: the Ingress that it is for is there, and its
/// script too, so that this replica may only be behind.
pub open spec fn spared(
    a: Grant,
    uid: Option<Seq<char>>,
    reference: Option<Seq<char>>,
    plugin: Option<(Option<Seq<char>>, Seq<(Seq<char>, Seq<char>)>)>,
) -> bool {
    &&& uid == Some(a.uid)
    &&& reference is Some
    &&& match text::split_once_spec(reference->0, '/') {
        None => false,
        Some((_, key)) => plugin is Some && {
            let (id, data) = plugin->0;
            id == Some(a.plugin_uid) && text::lookup(data, key) is Some
        },
    }
}

pub fn is_spared(
    a: &Accepted,
    uid: &Option<String>,
    reference: &Option<String>,
    plugin: &Option<Plugin>,
) -> (r: bool)
    ensures
        r == spared(a@, text::opt(*uid), text::opt(*reference), plugin_view(*plugin)),
{
    if !is_named(uid, a.uid.as_str()) {
        return false;
    }
    let key = match reference {
        None => return false,
        Some(s) => match text::split_once(s.as_str(), '/') {
            None => return false,
            Some((_, key)) => key,
        },
    };
    match plugin {
        None => false,
        Some(p) => is_named(&p.uid, a.plugin_uid.as_str()) && text::find(
            &p.data,
            key.as_str(),
        ).is_some(),
    }
}

/// A checkpoint that may still be written is not thrown away.
pub proof fn law_current_checkpoints_are_spared(
    a: Grant,
    uid: Option<Seq<char>>,
    spec: Option<Shape>,
    reference: Option<Seq<char>>,
    plugin: Option<(Option<Seq<char>>, Seq<(Seq<char>, Seq<char>)>)>,
)
    requires
        still_accepted(a, uid, spec, reference, plugin),
    ensures
        spared(a, uid, reference, plugin),
{
}

/// A checkpoint is stale where it is of the class and is none of those that are wanted; every such one is
/// named.
pub proof fn law_stale_checkpoints_are_named(
    v: Seq<CheckpointMap>,
    class: Seq<char>,
    uids: Seq<Seq<char>>,
    n: int,
    k: int,
)
    requires
        0 <= k < n <= v.len(),
        v.len() <= usize::MAX,
    ensures
        stale_until(v, class, uids, n).contains(k as usize) <==> v[k].labelled(class) && text::starts(
            v[k].name@,
            "rgnix-state-"@,
        ) && forall|i: int| 0 <= i < uids.len() ==> v[k].name@ != checkpoint_name(class, #[trigger] uids[i]),
    decreases n,
{
    let w = stale_until(v, class, uids, n);
    let u = stale_until(v, class, uids, n - 1);
    let names = checkpoint_names(class, uids);
    if names.contains(v[k].name@) {
        let i = choose|i: int| 0 <= i < names.len() && names[i] == v[k].name@;
        assert(v[k].name@ == checkpoint_name(class, uids[i]));
    } else {
        assert forall|i: int| 0 <= i < uids.len() implies v[k].name@ != checkpoint_name(class, #[trigger] uids[i]) by {
            assert(names[i] == checkpoint_name(class, uids[i]));
        }
    }
    lemma_stale_below(v, class, uids, n - 1);
    if k == n - 1 {
        if is_stale(v[k], class, uids) {
            assert(w[w.len() - 1] == k as usize);
        } else if w.contains(k as usize) {
            let j = choose|j: int| 0 <= j < w.len() && w[j] == k as usize;
            assert(u[j] < n - 1);
        }
    } else {
        law_stale_checkpoints_are_named(v, class, uids, n - 1, k);
        if u.contains(k as usize) {
            let j = choose|j: int| 0 <= j < u.len() && u[j] == k as usize;
            assert(w[j] == k as usize);
        }
        if w.contains(k as usize) {
            let j = choose|j: int| 0 <= j < w.len() && w[j] == k as usize;
            assert(u[j] == k as usize);
        }
    }
}

proof fn lemma_stale_below(v: Seq<CheckpointMap>, class: Seq<char>, uids: Seq<Seq<char>>, n: int)
    requires
        0 <= n <= v.len(),
        v.len() <= usize::MAX,
    ensures
        forall|i: int|
            0 <= i < stale_until(v, class, uids, n).len() ==> #[trigger] stale_until(v, class, uids, n)[i] < n,
    decreases n,
{
    if n > 0 {
        lemma_stale_below(v, class, uids, n - 1);
        let u = stale_until(v, class, uids, n - 1);
        let w = stale_until(v, class, uids, n);
        assert forall|i: int| 0 <= i < w.len() implies #[trigger] w[i] < n by {
            if i < u.len() {
                assert(u[i] < n - 1);
            }
        }
    }
}

/// What a checkpoint holds is read from the map of its name, in the namespace of the controller, that is
/// labelled with its class; what is too long is not read.
pub proof fn law_checkpoints_are_found(
    v: Seq<CheckpointMap>,
    publish: Seq<char>,
    class: Seq<char>,
    uid: Seq<char>,
)
    ensures
        kept_text(v, publish, class, uid) is Some ==> exists|i: int|
            {
                &&& 0 <= i < v.len()
                &&& text::opt((#[trigger] v[i]).namespace) == Some(publish)
                &&& v[i].name@ == checkpoint_name(class, uid)
                &&& v[i].labelled(class)
                &&& text::lookup(text::pairs(v[i].data@), "accepted.json"@) == kept_text(v, publish, class, uid)
            },
        kept_text(v, publish, class, uid) is Some ==> text::byte_len(kept_text(v, publish, class, uid)->0) <= 921600,
{
    lemma_keeper(v, publish, class, uid);
}

proof fn lemma_keeper(v: Seq<CheckpointMap>, publish: Seq<char>, class: Seq<char>, uid: Seq<char>)
    ensures
        keeper(v, publish, class, uid) is Some ==> exists|i: int|
            0 <= i < v.len() && #[trigger] v[i] == keeper(v, publish, class, uid)->0 && keeps(
                v[i],
                publish,
                class,
                uid,
            ),
        keeper(v, publish, class, uid) is None ==> forall|i: int|
            0 <= i < v.len() ==> !keeps(#[trigger] v[i], publish, class, uid),
    decreases v.len(),
{
    if v.len() > 0 && !keeps(v[0], publish, class, uid) {
        let r = v.drop_first();
        lemma_keeper(r, publish, class, uid);
        match keeper(r, publish, class, uid) {
            Some(m) => {
                let i = choose|i: int| 0 <= i < r.len() && #[trigger] r[i] == m && keeps(r[i], publish, class, uid);
                assert(v[i + 1] == m);
            },
            None => {
                assert forall|i: int| 0 <= i < v.len() implies !keeps(#[trigger] v[i], publish, class, uid) by {
                    if i > 0 {
                        assert(r[i - 1] == v[i]);
                    }
                }
            },
        }
    }
}

/// A checkpoint of another schema, class, Ingress or script is not restored, and one of the same is.
pub proof fn law_only_own_checkpoints_are_restored(a: Grant, class: Seq<char>, uid: Seq<char>, plugin: Seq<char>)
    ensures
        a.schema != 1 ==> !restorable(a, class, uid, plugin),
        a.class != class ==> !restorable(a, class, uid, plugin),
        a.uid != uid ==> !restorable(a, class, uid, plugin),
        a.plugin_uid != plugin ==> !restorable(a, class, uid, plugin),
        a.schema == 1 ==> restorable(a, a.class, a.uid, a.plugin_uid),
{
}

/// A checkpoint is written only where it is short enough and differs from what is there.
pub proof fn law_checkpoints_are_written_when_they_change(previous: Option<Seq<char>>, data: Seq<char>)
    ensures
        write_of(previous, data) == Write::TooLong <==> text::byte_len(data) > 921600,
        write_of(previous, data) == Write::Kept <==> text::byte_len(data) <= 921600 && previous == Some(data),
        write_of(previous, data) == Write::Verify <==> text::byte_len(data) <= 921600 && previous != Some(data),
{
}

/// Once the Ingress, its rules, its reference or the script are others, what was accepted is no longer what
/// stands.
pub proof fn law_changes_end_what_was_accepted(
    a: Grant,
    uid: Option<Seq<char>>,
    spec: Option<Shape>,
    reference: Option<Seq<char>>,
    plugin: Option<(Option<Seq<char>>, Seq<(Seq<char>, Seq<char>)>)>,
    name: Seq<char>,
    key: Seq<char>,
)
    requires
        !name.contains('/'),
        a.reference == name + seq!['/'] + key,
    ensures
        still_accepted(a, uid, spec, reference, plugin) <==> uid == Some(a.uid) && spec == Some(a.spec) && reference
            == Some(a.reference) && plugin is Some && (plugin->0).0 == Some(a.plugin_uid) && text::lookup(
            (plugin->0).1,
            key,
        ) == Some(a.source),
{
    text::law_texts_are_split_once(name, '/', key);
}

/// The name of a checkpoint tells the class and the Ingress apart as far as their digest does.
pub proof fn law_checkpoints_are_named(class: Seq<char>, uid: Seq<char>)
    ensures
        checkpoint_name(class, uid) == "rgnix-state-"@ + text_digest(class + "/"@ + uid).take(32),
        text::starts(checkpoint_name(class, uid), "rgnix-state-"@),
{
    text::lemma_prefixed("rgnix-state-"@, short_digest(class + "/"@ + uid));
}

} // verus!
