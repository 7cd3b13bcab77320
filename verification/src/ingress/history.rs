//! Which version of an Ingress is served: the latest that is kept for replicas to come, or the one before.
use crate::ingress::checkpoint::{grant, same_accepted, shape, Accepted, Grant};
use crate::ingress::spec::{IngressSpec, Shape};
use crate::model::copy_opt;
use crate::text;
use vstd::prelude::*;

verus! {

/// What is known of an Ingress from before.
#[derive(Debug)]
pub struct Entry {
    /// The script that is served.
    pub script: Option<String>,
    /// The routes that are served.
    pub routes: Option<IngressSpec>,
    /// The configuration that is served.
    pub accepted: Option<Accepted>,
    /// The configuration that waits for its checkpoint.
    pub proposal: Option<Accepted>,
    /// Whether what was served before may not come back.
    pub revoked: bool,
}

/// What an `Entry` holds.
#[verifier::ext_equal]
pub ghost struct Past {
    pub script: Option<Seq<char>>,
    pub routes: Option<Shape>,
    pub accepted: Option<Grant>,
    pub proposal: Option<Grant>,
    pub revoked: bool,
}

impl View for Entry {
    type V = Past;

    open spec fn view(&self) -> Past {
        Past {
            script: text::opt(self.script),
            routes: shape(self.routes),
            accepted: grant(self.accepted),
            proposal: grant(self.proposal),
            revoked: self.revoked,
        }
    }
}

/// What an Ingress asks for now.
#[derive(Debug)]
pub struct Offer {
    /// The script's place; nothing stands for no script, an empty text for the built-in one.
    pub reference: Option<String>,
    /// The script and the identity of the object that holds it, where it was found.
    pub found: Option<(String, String)>,
    /// The checkpoint of this Ingress and this script.
    pub durable: Option<Accepted>,
    /// Whether the checkpoint's script compiles.
    pub durable_compiles: bool,
    /// The configuration, where its annotations hold and its script compiles.
    pub candidate: Option<Accepted>,
    /// Whether the outcome is only looked at.
    pub preview: bool,
}

#[verifier::ext_equal]
pub ghost struct Wish {
    pub reference: Option<Seq<char>>,
    pub plugin: Option<Seq<char>>,
    pub durable: Option<Grant>,
    pub durable_compiles: bool,
    pub candidate: Option<Grant>,
    pub preview: bool,
}

impl View for Offer {
    type V = Wish;

    open spec fn view(&self) -> Wish {
        Wish {
            reference: text::opt(self.reference),
            plugin: match self.found {
                Some((_, uid)) => Some(uid@),
                None => None,
            },
            durable: grant(self.durable),
            durable_compiles: self.durable_compiles,
            candidate: grant(self.candidate),
            preview: self.preview,
        }
    }
}

/// Why an Ingress is not served as it asks.
#[derive(Clone, Copy, Debug, PartialEq, Eq, Structural)]
pub enum Reason {
    UnrecoverablePlugin,
    PendingCheckpoint,
    InvalidPlugin,
    MissingPlugin,
}

/// What is served of an Ingress.
#[derive(Debug)]
pub struct Verdict {
    pub script: Option<String>,
    /// Whether its routes answer that nothing is there.
    pub invalid: bool,
    /// Whether its routes are those from before.
    pub reuse: bool,
    pub reasons: Vec<Reason>,
}

#[verifier::ext_equal]
pub ghost struct Ruling {
    pub script: Option<Seq<char>>,
    pub invalid: bool,
    pub reuse: bool,
    pub reasons: Seq<Reason>,
}

impl View for Verdict {
    type V = Ruling;

    open spec fn view(&self) -> Ruling {
        Ruling {
            script: text::opt(self.script),
            invalid: self.invalid,
            reuse: self.reuse,
            reasons: self.reasons@,
        }
    }
}

/// The place of the script: as annotated, else the built-in one where annotations ask for anything or
/// something was accepted before.
pub open spec fn reference_of(
    annotation: Option<Seq<char>>,
    annotated: bool,
    accepted: bool,
) -> Option<Seq<char>> {
    match annotation {
        Some(s) => Some(s),
        None => if annotated || accepted {
            Some(Seq::empty())
        } else {
            None
        },
    }
}

pub fn reference(annotation: &Option<String>, annotated: bool, accepted: bool) -> (r: Option<String>)
    ensures
        text::opt(r) == reference_of(text::opt(*annotation), annotated, accepted),
{
    match annotation {
        Some(s) => Some(s.clone()),
        None => if annotated || accepted {
            let s = String::new();
            assert(s@ =~= Seq::<char>::empty());
            Some(s)
        } else {
            None
        },
    }
}

/// What is left when the script is another object than before: nothing, and nothing comes back.
pub open spec fn replaced(p: Past, plugin: Seq<char>) -> Past {
    if p.accepted is Some && p.accepted->0.plugin_uid != plugin {
        Past { script: None, routes: None, accepted: None, proposal: None, revoked: true }
    } else {
        p
    }
}

/// What a checkpoint brings back, where it may.
pub open spec fn recovered(p: Past, durable: Option<Grant>, compiles: bool) -> Past {
    if !p.revoked && durable is Some && p.accepted != durable && compiles {
        Past {
            script: Some(durable->0.source),
            routes: Some(durable->0.spec),
            accepted: durable,
            ..p
        }
    } else {
        p
    }
}

/// What a configuration that holds leads to: it is served where its checkpoint is there, and waits for that
/// otherwise.
pub open spec fn proposed(p: Past, candidate: Grant, w: Wish) -> (Past, Ruling) {
    if w.preview || w.durable == Some(candidate) {
        (
            Past {
                script: Some(candidate.source),
                accepted: Some(candidate),
                proposal: None,
                revoked: false,
                ..p
            },
            Ruling {
                script: Some(candidate.source),
                invalid: false,
                reuse: false,
                reasons: Seq::empty(),
            },
        )
    } else {
        (
            Past { proposal: Some(candidate), ..p },
            Ruling {
                script: p.script,
                invalid: p.script is None,
                reuse: p.script is Some,
                reasons: seq![
                    if p.script is None {
                        Reason::UnrecoverablePlugin
                    } else {
                        Reason::PendingCheckpoint
                    },
                ],
            },
        )
    }
}

/// What a configuration that does not hold leads to: the one before is served.
pub open spec fn refused(p: Past) -> (Past, Ruling) {
    (
        Past { proposal: None, ..p },
        Ruling {
            script: p.script,
            invalid: p.script is None,
            reuse: p.script is Some,
            reasons: if p.script is None {
                seq![Reason::InvalidPlugin, Reason::UnrecoverablePlugin]
            } else {
                seq![Reason::InvalidPlugin]
            },
        },
    )
}

/// The built-in script is not run.
pub open spec fn without_builtin(p: Past, r: Ruling) -> (Past, Ruling) {
    (
        p,
        Ruling {
            script: if p.accepted is Some && p.accepted->0.reference.len() == 0 {
                None
            } else {
                r.script
            },
            ..r
        },
    )
}

/// What is served of an Ingress, and what is known of it from then on.
pub open spec fn ruled(p: Past, w: Wish) -> (Past, Ruling) {
    let (q, r) = match w.reference {
        None => (
            Past { script: None, accepted: None, proposal: None, revoked: true, ..p },
            Ruling { script: None, invalid: false, reuse: false, reasons: Seq::empty() },
        ),
        Some(_) => match w.plugin {
            None => (
                Past { script: None, accepted: None, proposal: None, revoked: true, ..p },
                Ruling {
                    script: None,
                    invalid: true,
                    reuse: false,
                    reasons: seq![Reason::UnrecoverablePlugin, Reason::MissingPlugin],
                },
            ),
            Some(plugin) => {
                let x = recovered(replaced(p, plugin), w.durable, w.durable_compiles);
                match w.candidate {
                    Some(c) => proposed(x, c, w),
                    None => refused(x),
                }
            },
        },
    };
    without_builtin(q, r)
}

fn replace(e: &mut Entry, plugin: &str)
    ensures
        final(e)@ == replaced(old(e)@, plugin@),
{
    let other = match &e.accepted {
        Some(a) => !text::same(a.plugin_uid.as_str(), plugin),
        None => false,
    };
    if other {
        e.script = None;
        e.routes = None;
        e.accepted = None;
        e.proposal = None;
        e.revoked = true;
    }
}

fn recover(e: &mut Entry, durable: &Option<Accepted>, compiles: bool)
    ensures
        final(e)@ == recovered(old(e)@, grant(*durable), compiles),
{
    if let Some(d) = durable {
        if !e.revoked && !same_accepted(&e.accepted, durable) && compiles {
            e.script = Some(d.source.clone());
            e.routes = Some(d.spec.copy());
            e.accepted = Some(d.copy());
        }
    }
}

fn propose(e: &mut Entry, candidate: &Accepted, offer: &Offer) -> (r: Verdict)
    ensures
        (final(e)@, r@) == proposed(old(e)@, candidate@, offer@),
{
    let kept = match &offer.durable {
        Some(d) => d.same(candidate),
        None => false,
    };
    if offer.preview || kept {
        e.script = Some(candidate.source.clone());
        e.accepted = Some(candidate.copy());
        e.proposal = None;
        e.revoked = false;
        Verdict {
            script: Some(candidate.source.clone()),
            invalid: false,
            reuse: false,
            reasons: Vec::new(),
        }
    } else {
        e.proposal = Some(candidate.copy());
        let script = copy_opt(&e.script);
        let invalid = script.is_none();
        let mut reasons: Vec<Reason> = Vec::new();
        reasons.push(
            if invalid {
                Reason::UnrecoverablePlugin
            } else {
                Reason::PendingCheckpoint
            },
        );
        let r = Verdict { script, invalid, reuse: !invalid, reasons };
        assert(r@ =~= proposed(old(e)@, candidate@, offer@).1);
        r
    }
}

fn refuse(e: &mut Entry) -> (r: Verdict)
    ensures
        (final(e)@, r@) == refused(old(e)@),
{
    e.proposal = None;
    let script = copy_opt(&e.script);
    let invalid = script.is_none();
    let mut reasons: Vec<Reason> = Vec::new();
    reasons.push(Reason::InvalidPlugin);
    if invalid {
        reasons.push(Reason::UnrecoverablePlugin);
    }
    let r = Verdict { script, invalid, reuse: !invalid, reasons };
    assert(r@ =~= refused(old(e)@).1);
    r
}

/// What is served of an Ingress; what is known of it changes with that.
pub fn decide(e: &mut Entry, offer: &Offer) -> (r: Verdict)
    ensures
        (final(e)@, r@) == ruled(old(e)@, offer@),
{
    let mut verdict = if offer.reference.is_none() {
        e.script = None;
        e.accepted = None;
        e.proposal = None;
        e.revoked = true;
        Verdict { script: None, invalid: false, reuse: false, reasons: Vec::new() }
    } else {
        match &offer.found {
            None => {
                e.script = None;
                e.accepted = None;
                e.proposal = None;
                e.revoked = true;
                let mut reasons: Vec<Reason> = Vec::new();
                reasons.push(Reason::UnrecoverablePlugin);
                reasons.push(Reason::MissingPlugin);
                assert(reasons@ =~= seq![Reason::UnrecoverablePlugin, Reason::MissingPlugin]);
                Verdict { script: None, invalid: true, reuse: false, reasons }
            },
            Some((_, plugin)) => {
                replace(e, plugin.as_str());
                recover(e, &offer.durable, offer.durable_compiles);
                match &offer.candidate {
                    Some(c) => propose(e, c, offer),
                    None => refuse(e),
                }
            },
        }
    };
    let builtin = match &e.accepted {
        Some(a) => a.reference.as_str().is_empty(),
        None => false,
    };
    if builtin {
        verdict.script = None;
    }
    verdict
}

/// The routes that are served.
pub open spec fn routing_of(p: Past, reuse: bool, spec: Shape) -> Shape {
    if reuse && p.routes is Some {
        p.routes->0
    } else {
        spec
    }
}

/// The routes that are served, which from then on are those from before unless they are disabled.
pub fn settle_routes(e: &mut Entry, reuse: bool, invalid: bool, spec: &IngressSpec) -> (r: IngressSpec)
    ensures
        r@ == routing_of(old(e)@, reuse, spec@),
        final(e)@ == (Past {
            routes: if invalid {
                None
            } else {
                Some(routing_of(old(e)@, reuse, spec@))
            },
            ..old(e)@
        }),
{
    let routing = match (&e.routes, reuse) {
        (Some(r), true) => r.copy(),
        _ => spec.copy(),
    };
    e.routes = if invalid {
        None
    } else {
        Some(routing.copy())
    };
    routing
}

// ---------------------------------------------------------------------------
// Laws
// ---------------------------------------------------------------------------

/// A version that begins to be served has its checkpoint: what is accepted is what was accepted before, or
/// what is kept for replicas to come.
pub proof fn law_served_versions_are_durable(p: Past, w: Wish)
    requires
        !w.preview,
    ensures
        ({
            let (q, r) = ruled(p, w);
            &&& q.accepted is Some ==> q.accepted == p.accepted || q.accepted == w.durable
        }),
{
}

/// Nothing that was accepted with another script object is served.
pub proof fn law_replaced_plugins_are_not_served(p: Past, w: Wish)
    requires
        w.reference is Some,
        w.durable is Some && w.plugin is Some ==> w.durable->0.plugin_uid == w.plugin->0,
        w.candidate is Some && w.plugin is Some ==> w.candidate->0.plugin_uid == w.plugin->0,
    ensures
        ({
            let (q, r) = ruled(p, w);
            q.accepted is Some ==> w.plugin is Some && q.accepted->0.plugin_uid == w.plugin->0
        }),
{
}

/// A script that is withdrawn disables the routes, and what was served does not come back by itself.
pub proof fn law_withdrawn_plugins_disable_routes(p: Past, w: Wish)
    requires
        w.reference is Some,
        w.plugin is None,
    ensures
        ({
            let (q, r) = ruled(p, w);
            r.invalid && q.revoked && q.accepted is None && q.script is None
        }),
{
}

/// The script that is served belongs to what is accepted.
pub open spec fn matched(p: Past) -> bool {
    (p.script is Some <==> p.accepted is Some) && (p.script is Some ==> p.script->0
        == p.accepted->0.source)
}

/// The script that is served always belongs to what is accepted.
pub proof fn law_scripts_match_what_is_accepted(p: Past, w: Wish)
    requires
        matched(p),
    ensures
        matched(ruled(p, w).0),
{
}

/// A configuration that its checkpoint holds is served with its script.
pub proof fn law_durable_versions_are_served(p: Past, w: Wish, c: Grant)
    requires
        w.reference is Some,
        w.plugin is Some,
        w.candidate == Some(c),
        w.durable == Some(c) || w.preview,
        c.reference.len() > 0,
    ensures
        ({
            let (q, r) = ruled(p, w);
            &&& q.accepted == Some(c) && q.script == Some(c.source) && q.proposal is None && !q.revoked
            &&& r.script == Some(c.source) && !r.invalid && !r.reuse && r.reasons.len() == 0
        }),
{
}

/// A new configuration waits for its checkpoint: until then what was served is served, or nothing where nothing
/// was.
pub proof fn law_new_versions_wait(p: Past, w: Wish, c: Grant)
    requires
        w.reference is Some,
        w.plugin is Some,
        w.candidate == Some(c),
        w.durable is None,
        !w.preview,
        p.accepted is Some ==> p.accepted->0.plugin_uid == w.plugin->0,
    ensures
        ({
            let (q, r) = ruled(p, w);
            &&& q.proposal == Some(c) && q.accepted == p.accepted && q.script == p.script && q.routes == p.routes
            &&& p.script is Some ==> r.reuse && !r.invalid && r.reasons == seq![Reason::PendingCheckpoint]
            &&& p.script is None ==> r.invalid && !r.reuse && r.reasons == seq![Reason::UnrecoverablePlugin]
        }),
{
}

/// A configuration that does not hold leaves what was served, and is told.
pub proof fn law_bad_versions_are_not_served(p: Past, w: Wish)
    requires
        w.reference is Some,
        w.plugin is Some,
        w.candidate is None,
        w.durable is None,
        p.accepted is Some ==> p.accepted->0.plugin_uid == w.plugin->0,
    ensures
        ({
            let (q, r) = ruled(p, w);
            &&& q.accepted == p.accepted && q.script == p.script && q.proposal is None
            &&& r.reasons.len() > 0 && r.reasons[0] == Reason::InvalidPlugin
            &&& r.reuse <==> p.script is Some
            &&& r.invalid <==> p.script is None
        }),
{
}

/// Without a script there is none, and the routes stand.
pub proof fn law_ingresses_without_a_script_are_served(p: Past, w: Wish)
    requires
        w.reference is None,
    ensures
        ({
            let (q, r) = ruled(p, w);
            &&& r.script is None && !r.invalid && !r.reuse && r.reasons.len() == 0
            &&& q.script is None && q.accepted is None
        }),
{
}

/// The script is that of the annotation; other annotations, or what was accepted, make it the built-in one.
pub proof fn law_scripts_are_named_by_the_annotation(s: Seq<char>, annotated: bool, accepted: bool)
    ensures
        reference_of(Some(s), annotated, accepted) == Some(s),
        reference_of(None, false, false) is None,
        reference_of(None, true, accepted) == Some(Seq::<char>::empty()),
        reference_of(None, annotated, true) == Some(Seq::<char>::empty()),
{
}

/// A checkpoint brings back what was served, where its script compiles and it was not revoked.
pub proof fn law_checkpoints_bring_back(p: Past, g: Grant)
    ensures
        !p.revoked && p.accepted != Some(g) ==> recovered(p, Some(g), true) == (Past {
            script: Some(g.source),
            routes: Some(g.spec),
            accepted: Some(g),
            ..p
        }),
        recovered(p, Some(g), false) == p,
        p.revoked ==> recovered(p, Some(g), true) == p,
        recovered(p, None, true) == p,
{
}

/// Where what was served is used again, its routes are; else those of now.
pub proof fn law_routes_go_with_their_version(p: Past, spec: Shape, old_routes: Shape)
    ensures
        p.routes == Some(old_routes) ==> routing_of(p, true, spec) == old_routes,
        routing_of(p, false, spec) == spec,
        p.routes is None ==> routing_of(p, true, spec) == spec,
{
}

} // verus!
