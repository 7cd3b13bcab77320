//! The scripts of routes: which one is used while others cannot be.
use crate::gateway::checkpoint::{Accepted, MAX_CHECKPOINT};
use crate::gateway::references::{Object, Resources};
use crate::ingress::resources::{or_empty, text_or_empty};
use crate::text;
use vstd::prelude::*;

verus! {

/// The longest script where no quota says otherwise.
pub const MAX_SCRIPT: usize = 262144;

/// What a namespace may do with scripts.
#[derive(Clone, Copy, Debug, PartialEq, Eq, Structural)]
pub struct ScriptQuota {
    pub allow_scripts: bool,
    pub max_script_bytes: usize,
}

#[derive(Clone, Copy, Debug, PartialEq, Eq, Structural)]
pub enum ScriptError {
    Disabled,
    Reference,
    MapMissing,
    KeyMissing,
    TooLong,
    CompilationFailed,
    CheckpointTooLong,
    RetainedTooLong,
}

pub open spec fn limit_of(q: Option<ScriptQuota>) -> usize {
    match q {
        Some(q) => q.max_script_bytes,
        None => MAX_SCRIPT,
    }
}

fn limit(q: Option<ScriptQuota>) -> (r: usize)
    ensures
        r == limit_of(q),
{
    match q {
        Some(q) => q.max_script_bytes,
        None => MAX_SCRIPT,
    }
}

/// A script that a route refers to: the reference, the identifier of the config map, and the text.
#[derive(Debug)]
pub struct Source {
    pub reference: String,
    pub map_uid: String,
    pub source: String,
}

/// What a `Source` holds.
#[verifier::ext_equal]
pub ghost struct Origin {
    pub reference: Seq<char>,
    pub map_uid: Seq<char>,
    pub source: Seq<char>,
}

impl View for Source {
    type V = Origin;

    open spec fn view(&self) -> Origin {
        Origin { reference: self.reference@, map_uid: self.map_uid@, source: self.source@ }
    }
}

/// The script that a route refers to; nothing where it refers to none.
pub open spec fn origin_of(r: Resources, o: Object, q: Option<ScriptQuota>) -> Result<
    Option<Origin>,
    ScriptError,
> {
    match text::lookup(text::pairs(o.annotations@), "rgnix.io/script"@) {
        None => Ok(None),
        Some(reference) => if q is Some && !q->0.allow_scripts {
            Err(ScriptError::Disabled)
        } else {
            match text::split_once_spec(reference, '/') {
                None => Err(ScriptError::Reference),
                Some((name, key)) => match r.object(
                    "ConfigMap"@,
                    or_empty(text::opt(o.namespace)),
                    name,
                ) {
                    None => Err(ScriptError::MapMissing),
                    Some(m) => match m.data.at("data"@).at(key).string() {
                        None => Err(ScriptError::KeyMissing),
                        Some(source) => if text::byte_len(source) > limit_of(q) {
                            Err(ScriptError::TooLong)
                        } else {
                            Ok(
                                Some(
                                    Origin {
                                        reference,
                                        map_uid: or_empty(text::opt(m.uid)),
                                        source,
                                    },
                                ),
                            )
                        },
                    },
                },
            }
        },
    }
}

pub open spec fn origin(r: Result<Option<Source>, ScriptError>) -> Result<Option<Origin>, ScriptError> {
    match r {
        Ok(Some(s)) => Ok(Some(s@)),
        Ok(None) => Ok(None),
        Err(e) => Err(e),
    }
}

/// The script that a route refers to; nothing where it refers to none.
pub fn source(resources: &Resources, o: &Object, q: Option<ScriptQuota>) -> (r: Result<
    Option<Source>,
    ScriptError,
>)
    ensures
        origin(r) == origin_of(*resources, *o, q),
{
    let reference = match text::find(&o.annotations, "rgnix.io/script") {
        None => return Ok(None),
        Some(s) => s,
    };
    if let Some(q) = q {
        if !q.allow_scripts {
            return Err(ScriptError::Disabled);
        }
    }
    let (name, key) = match text::split_once(reference, '/') {
        None => return Err(ScriptError::Reference),
        Some(p) => p,
    };
    let ns = text_or_empty(&o.namespace);
    let m = match resources.find("ConfigMap", ns.as_str(), name.as_str()) {
        None => return Err(ScriptError::MapMissing),
        Some(m) => m,
    };
    let text = match m.data.field("data").get_str(key.as_str()) {
        None => return Err(ScriptError::KeyMissing),
        Some(s) => s,
    };
    if text::len(text) > limit(q) {
        return Err(ScriptError::TooLong);
    }
    Ok(
        Some(
            Source {
                reference: reference.to_owned(),
                map_uid: text_or_empty(&m.uid),
                source: text.to_owned(),
            },
        ),
    )
}

// ---------------------------------------------------------------------------
// What is kept
// ---------------------------------------------------------------------------

/// A script that can be used, with the route that was accepted with it. `build` is what the compiled script
/// is found by.
#[derive(Debug)]
pub struct Good {
    pub reference: String,
    pub map_uid: String,
    pub source_bytes: usize,
    pub build: u64,
}

/// What a `Good` holds.
#[verifier::ext_equal]
pub ghost struct Use {
    pub reference: Seq<char>,
    pub map_uid: Seq<char>,
    pub source_bytes: usize,
    pub build: u64,
}

impl View for Good {
    type V = Use;

    open spec fn view(&self) -> Use {
        Use {
            reference: self.reference@,
            map_uid: self.map_uid@,
            source_bytes: self.source_bytes,
            build: self.build,
        }
    }
}

pub open spec fn use_of(g: Option<Good>) -> Option<Use> {
    match g {
        Some(g) => Some(g@),
        None => None,
    }
}

/// What is kept for a route: a script that can be used, and whether one that was accepted before is still
/// being compiled.
#[derive(Debug)]
pub struct Slot {
    pub good: Option<Good>,
    pub pending: bool,
}

/// What a `Slot` holds.
#[verifier::ext_equal]
pub ghost struct Keep {
    pub good: Option<Use>,
    pub pending: bool,
}

impl View for Slot {
    type V = Keep;

    open spec fn view(&self) -> Keep {
        Keep { good: use_of(self.good), pending: self.pending }
    }
}

/// What became of compiling a script; `build` is what it is found by.
#[derive(Clone, Copy, Debug, PartialEq, Eq, Structural)]
pub enum Compiled {
    Done(u64),
    Pending,
    Failed,
}

/// Whether a checkpoint is tried: nothing else is at hand, and it is one of the same script.
pub open spec fn tries(
    k: Keep,
    strict: bool,
    checkpoint: Option<Accepted>,
    o: Origin,
    q: Option<ScriptQuota>,
) -> bool {
    &&& !strict
    &&& k.good is None
    &&& checkpoint is Some
    &&& checkpoint->0.reference@ == o.reference
    &&& checkpoint->0.configmap_uid@ == o.map_uid
    &&& text::byte_len(checkpoint->0.source@) <= limit_of(q)
}

/// What is kept after a checkpoint was tried.
pub open spec fn tried(k: Keep, checkpoint: Accepted, c: Compiled) -> Keep {
    match c {
        Compiled::Done(build) => Keep {
            good: Some(
                Use {
                    reference: checkpoint.reference@,
                    map_uid: checkpoint.configmap_uid@,
                    source_bytes: text::byte_len(checkpoint.source@) as usize,
                    build,
                },
            ),
            ..k
        },
        Compiled::Pending => Keep { pending: true, ..k },
        Compiled::Failed => k,
    }
}

/// What is used for a route.
#[derive(Clone, Copy, Debug, PartialEq, Eq, Structural)]
pub enum Served {
    /// The script that the route refers to.
    Fresh(u64),
    /// The last one that could be used, with the route as it was then.
    Retained(u64),
}

/// What is used for a route and what is kept, once its script was compiled. `length` is the length of the
/// checkpoint of the route.
pub open spec fn settled(
    k: Keep,
    strict: bool,
    o: Origin,
    q: Option<ScriptQuota>,
    c: Compiled,
    length: usize,
) -> (Keep, Result<Served, ScriptError>) {
    match c {
        Compiled::Done(build) => {
            let quiet = Keep { pending: false, ..k };
            if length > MAX_CHECKPOINT {
                (quiet, Err(ScriptError::CheckpointTooLong))
            } else {
                (
                    Keep {
                        good: Some(
                            Use {
                                reference: o.reference,
                                map_uid: o.map_uid,
                                source_bytes: text::byte_len(o.source) as usize,
                                build,
                            },
                        ),
                        pending: false,
                    },
                    Ok(Served::Fresh(build)),
                )
            }
        },
        _ => (
            k,
            if strict || k.good is None || k.good->0.reference != o.reference || k.good->0.map_uid
                != o.map_uid {
                Err(ScriptError::CompilationFailed)
            } else if q is Some && k.good->0.source_bytes > q->0.max_script_bytes {
                Err(ScriptError::RetainedTooLong)
            } else {
                Ok(Served::Retained(k.good->0.build))
            },
        ),
    }
}

impl Slot {
    /// Whether a checkpoint is tried; `strict` says that only the script of the route itself counts.
    pub fn wants(&self, strict: bool, checkpoint: &Option<Accepted>, s: &Source, q: Option<ScriptQuota>) -> (r: bool)
        ensures
            r == tries(self@, strict, *checkpoint, s@, q),
    {
        match checkpoint {
            None => false,
            Some(a) => !strict && self.good.is_none() && text::same(
                a.reference.as_str(),
                s.reference.as_str(),
            ) && text::same(a.configmap_uid.as_str(), s.map_uid.as_str()) && text::len(
                a.source.as_str(),
            ) <= limit(q),
        }
    }

    /// Goes by what became of compiling the script of a checkpoint.
    pub fn restore(&mut self, a: &Accepted, c: Compiled)
        ensures
            final(self)@ == tried(old(self)@, *a, c),
    {
        match c {
            Compiled::Done(build) => {
                self.good = Some(
                    Good {
                        reference: a.reference.clone(),
                        map_uid: a.configmap_uid.clone(),
                        source_bytes: text::len(a.source.as_str()),
                        build,
                    },
                );
            },
            Compiled::Pending => {
                self.pending = true;
            },
            Compiled::Failed => {},
        }
    }

    /// What is used for a route, once its script was compiled.
    pub fn settle(
        &mut self,
        strict: bool,
        s: &Source,
        q: Option<ScriptQuota>,
        c: Compiled,
        length: usize,
    ) -> (r: Result<Served, ScriptError>)
        ensures
            (final(self)@, r) == settled(old(self)@, strict, s@, q, c, length),
    {
        if let Compiled::Done(build) = c {
            self.pending = false;
            if length > MAX_CHECKPOINT {
                return Err(ScriptError::CheckpointTooLong);
            }
            self.good = Some(
                Good {
                    reference: s.reference.clone(),
                    map_uid: s.map_uid.clone(),
                    source_bytes: text::len(s.source.as_str()),
                    build,
                },
            );
            return Ok(Served::Fresh(build));
        }
        if strict {
            return Err(ScriptError::CompilationFailed);
        }
        match &self.good {
            None => Err(ScriptError::CompilationFailed),
            Some(g) => {
                if !text::same(g.reference.as_str(), s.reference.as_str()) || !text::same(
                    g.map_uid.as_str(),
                    s.map_uid.as_str(),
                ) {
                    return Err(ScriptError::CompilationFailed);
                }
                if let Some(q) = q {
                    if g.source_bytes > q.max_script_bytes {
                        return Err(ScriptError::RetainedTooLong);
                    }
                }
                Ok(Served::Retained(g.build))
            },
        }
    }
}

/// Whether what was kept for a route stays where the route cannot be carried out otherwise: the route still
/// refers to the script, and the config map is still the same one and still holds it.
pub open spec fn stays(r: Resources, o: Object, g: Use) -> bool {
    &&& text::lookup(text::pairs(o.annotations@), "rgnix.io/script"@) == Some(g.reference)
    &&& match text::split_once_spec(g.reference, '/') {
        None => false,
        Some((name, key)) => match r.object("ConfigMap"@, or_empty(text::opt(o.namespace)), name) {
            None => false,
            Some(m) => text::opt(m.uid) == Some(g.map_uid) && m.data.at("data"@).at(key).string()
                is Some,
        },
    }
}

/// What is kept for a route that cannot be carried out: what was kept before, where it stays.
pub fn fall_back(resources: &Resources, o: &Object, previous: Option<Good>) -> (r: Option<Good>)
    ensures
        use_of(r) == match use_of(previous) {
            Some(g) => if stays(*resources, *o, g) {
                Some(g)
            } else {
                None
            },
            None => None,
        },
{
    let g = match previous {
        None => return None,
        Some(g) => g,
    };
    let same = match text::find(&o.annotations, "rgnix.io/script") {
        Some(s) => text::same(s, g.reference.as_str()),
        None => false,
    };
    if !same {
        return None;
    }
    let (name, key) = match text::split_once(g.reference.as_str(), '/') {
        None => return None,
        Some(p) => p,
    };
    let ns = text_or_empty(&o.namespace);
    let there = match resources.find("ConfigMap", ns.as_str(), name.as_str()) {
        None => false,
        Some(m) => crate::ingress::backends::is_named(&m.uid, g.map_uid.as_str()) && m.data.field(
            "data",
        ).get_str(key.as_str()).is_some(),
    };
    if there {
        Some(g)
    } else {
        None
    }
}

// ---------------------------------------------------------------------------
// Laws
// ---------------------------------------------------------------------------

/// A script that is retained is one of the same config map under the same reference: a script that was
/// replaced by another one is not used.
pub proof fn law_replaced_scripts_are_not_used(
    k: Keep,
    strict: bool,
    o: Origin,
    q: Option<ScriptQuota>,
    c: Compiled,
    length: usize,
    build: u64,
)
    requires
        settled(k, strict, o, q, c, length).1 == Ok::<Served, ScriptError>(Served::Retained(build)),
    ensures
        k.good is Some,
        k.good->0.reference == o.reference,
        k.good->0.map_uid == o.map_uid,
        k.good->0.build == build,
        !strict,
{
}

/// A script that can be compiled is used, whatever was kept.
pub proof fn law_fresh_scripts_are_used(
    k: Keep,
    strict: bool,
    o: Origin,
    q: Option<ScriptQuota>,
    build: u64,
    length: usize,
)
    requires
        length <= MAX_CHECKPOINT,
    ensures
        settled(k, strict, o, q, Compiled::Done(build), length).1 == Ok::<Served, ScriptError>(
            Served::Fresh(build),
        ),
        !settled(k, strict, o, q, Compiled::Done(build), length).0.pending,
{
}

/// The script of a route is the text under the key, in the map of that name in the namespace of the route.
pub proof fn law_scripts_are_found(r: Resources, o: Object, q: Option<ScriptQuota>, name: Seq<char>, key: Seq<char>)
    requires
        !name.contains('/'),
        text::lookup(text::pairs(o.annotations@), "rgnix.io/script"@) == Some(name + seq!['/'] + key),
    ensures
        q is Some && !q->0.allow_scripts ==> origin_of(r, o, q) == Err::<Option<Origin>, ScriptError>(
            ScriptError::Disabled,
        ),
        (q is None || q->0.allow_scripts) && r.object("ConfigMap"@, or_empty(text::opt(o.namespace)), name) is None
            ==> origin_of(r, o, q) == Err::<Option<Origin>, ScriptError>(ScriptError::MapMissing),
        origin_of(r, o, q) is Ok ==> {
            let m = r.object("ConfigMap"@, or_empty(text::opt(o.namespace)), name);
            &&& origin_of(r, o, q)->Ok_0 is Some
            &&& m is Some
            &&& m->0.data.at("data"@).at(key).string() == Some((origin_of(r, o, q)->Ok_0)->0.source)
            &&& (origin_of(r, o, q)->Ok_0)->0.reference == name + seq!['/'] + key
            &&& (origin_of(r, o, q)->Ok_0)->0.map_uid == or_empty(text::opt(m->0.uid))
            &&& text::byte_len((origin_of(r, o, q)->Ok_0)->0.source) <= if q is Some {
                q->0.max_script_bytes as nat
            } else {
                262144nat
            }
        },
{
    text::law_texts_are_split_once(name, '/', key);
}

/// A route without a reference to a script has none, and a reference without a key is refused.
pub proof fn law_routes_need_no_script(r: Resources, o: Object, q: Option<ScriptQuota>, name: Seq<char>)
    ensures
        text::lookup(text::pairs(o.annotations@), "rgnix.io/script"@) is None ==> origin_of(r, o, q) == Ok::<
            Option<Origin>,
            ScriptError,
        >(None),
        !name.contains('/') && text::lookup(text::pairs(o.annotations@), "rgnix.io/script"@) == Some(name) && q is None
            ==> origin_of(r, o, q) == Err::<Option<Origin>, ScriptError>(ScriptError::Reference),
{
    if !name.contains('/') {
        text::law_texts_are_split_once(name, '/', Seq::empty());
    }
}

/// A script that cannot be compiled leaves the last good one of the same reference and map in place, unless
/// a check is strict or the namespace may no longer have one as long.
pub proof fn law_good_scripts_are_kept(
    k: Keep,
    o: Origin,
    q: Option<ScriptQuota>,
    length: usize,
)
    requires
        k.good is Some,
        k.good->0.reference == o.reference,
        k.good->0.map_uid == o.map_uid,
    ensures
        settled(k, false, o, q, Compiled::Failed, length).0 == k,
        q is None ==> settled(k, false, o, q, Compiled::Failed, length).1 == Ok::<Served, ScriptError>(
            Served::Retained(k.good->0.build),
        ),
        q is Some && k.good->0.source_bytes > q->0.max_script_bytes ==> settled(
            k,
            false,
            o,
            q,
            Compiled::Failed,
            length,
        ).1 == Err::<Served, ScriptError>(ScriptError::RetainedTooLong),
        settled(k, true, o, q, Compiled::Failed, length).1 == Err::<Served, ScriptError>(
            ScriptError::CompilationFailed,
        ),
{
}

/// A script that was compiled becomes the good one, unless its checkpoint would be too long.
pub proof fn law_compiled_scripts_become_good(
    k: Keep,
    strict: bool,
    o: Origin,
    q: Option<ScriptQuota>,
    build: u64,
    length: usize,
)
    ensures
        length > 921600 ==> settled(k, strict, o, q, Compiled::Done(build), length).1 == Err::<Served, ScriptError>(
            ScriptError::CheckpointTooLong,
        ) && settled(k, strict, o, q, Compiled::Done(build), length).0.good == k.good,
        length <= 921600 ==> {
            let g = settled(k, strict, o, q, Compiled::Done(build), length).0.good;
            &&& g is Some
            &&& g->0.reference == o.reference
            &&& g->0.map_uid == o.map_uid
            &&& g->0.build == build
        },
{
}

/// A checkpoint is tried only where nothing good is known, no check is strict, and it is of the same
/// reference and map.
pub proof fn law_checkpoints_are_tried_when_nothing_is_known(
    k: Keep,
    strict: bool,
    a: Accepted,
    o: Origin,
    q: Option<ScriptQuota>,
    build: u64,
)
    ensures
        strict ==> !tries(k, strict, Some(a), o, q),
        k.good is Some ==> !tries(k, strict, Some(a), o, q),
        !tries(k, strict, None, o, q),
        a.reference@ != o.reference ==> !tries(k, strict, Some(a), o, q),
        a.configmap_uid@ != o.map_uid ==> !tries(k, strict, Some(a), o, q),
        q is None && text::byte_len(a.source@) > 262144 ==> !tries(k, strict, Some(a), o, q),
        tried(k, a, Compiled::Done(build)).good is Some,
        tried(k, a, Compiled::Done(build)).good->0.build == build,
        tried(k, a, Compiled::Done(build)).good->0.reference == a.reference@,
        tried(k, a, Compiled::Pending).pending && tried(k, a, Compiled::Pending).good == k.good,
        tried(k, a, Compiled::Failed) == k,
{
}

/// A good script stays in use while the route refers to it, and its map and its key are still there.
pub proof fn law_good_scripts_stay(r: Resources, o: Object, g: Use, name: Seq<char>, key: Seq<char>)
    requires
        !name.contains('/'),
        g.reference == name + seq!['/'] + key,
    ensures
        stays(r, o, g) <==> {
            let m = r.object("ConfigMap"@, or_empty(text::opt(o.namespace)), name);
            &&& text::lookup(text::pairs(o.annotations@), "rgnix.io/script"@) == Some(g.reference)
            &&& m is Some
            &&& text::opt(m->0.uid) == Some(g.map_uid)
            &&& m->0.data.at("data"@).at(key).string() is Some
        },
{
    text::law_texts_are_split_once(name, '/', key);
}

} // verus!
