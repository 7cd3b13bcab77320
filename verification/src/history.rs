//! The configurations that were active, as they are kept.
use crate::config::bundle::{total, Bundle};
use crate::text;
use vstd::prelude::*;

verus! {

/// The most configurations that are kept.
pub const MAX_REVISIONS: usize = 9;

/// The most bytes of files, and of directives, that are kept.
pub const MAX_ASSETS: usize = 33554432;

pub const MAX_CONFIG: usize = 8388608;

/// The longest record that is read.
pub const MAX_RECORD: u64 = 67108864;

/// A configuration that was active; `config_bytes` is the length of its directives as JSON.
#[derive(Debug)]
pub struct Revision {
    pub version: u64,
    pub bundle: Bundle,
    pub config_bytes: usize,
}

/// The configurations that were active, the oldest first, and the file that they are of.
#[derive(Debug)]
pub struct Journal {
    pub source: String,
    pub revisions: Vec<Revision>,
}

#[derive(Clone, Copy, Debug, PartialEq, Eq, Structural)]
pub enum HistoryError {
    TooLong,
    TooManyRevisions,
    ForeignSource,
    NoBundle,
    NotRetained,
}

/// Whether a record of some length is read.
pub fn check_length(len: u64) -> (r: Result<(), HistoryError>)
    ensures
        r == if len <= MAX_RECORD {
            Ok::<(), HistoryError>(())
        } else {
            Err(HistoryError::TooLong)
        },
{
    if len <= MAX_RECORD {
        Ok(())
    } else {
        Err(HistoryError::TooLong)
    }
}

/// The bytes of the files of all configurations.
pub open spec fn asset_bytes(v: Seq<Revision>) -> nat
    decreases v.len(),
{
    if v.len() == 0 {
        0
    } else {
        asset_bytes(v.drop_last()) + total(v.last().bundle.assets@)
    }
}

/// The bytes of the directives of all configurations.
pub open spec fn config_bytes(v: Seq<Revision>) -> nat
    decreases v.len(),
{
    if v.len() == 0 {
        0
    } else {
        config_bytes(v.drop_last()) + v.last().config_bytes as nat
    }
}

/// Whether configurations are few enough to be kept.
pub open spec fn fits(v: Seq<Revision>) -> bool {
    v.len() <= MAX_REVISIONS && asset_bytes(v) <= MAX_ASSETS && config_bytes(v) <= MAX_CONFIG
}

/// The configurations that are kept: the oldest are left out until the rest fits.
pub open spec fn kept(v: Seq<Revision>) -> Seq<Revision>
    decreases v.len(),
{
    if fits(v) || v.len() == 0 {
        v
    } else {
        kept(v.drop_first())
    }
}

/// The configurations that are kept after another one was active.
pub open spec fn recorded(v: Seq<Revision>, r: Revision) -> Seq<Revision> {
    if v.len() > 0 && v.last().version == r.version {
        v
    } else {
        kept(v.push(r))
    }
}

/// The bytes of files, or as many as a number holds.
fn sum_assets(v: &Vec<(String, Vec<u8>)>) -> (n: usize)
    ensures
        n == if total(v@) <= usize::MAX {
            total(v@)
        } else {
            usize::MAX as nat
        },
{
    let mut n: usize = 0;
    let mut i: usize = 0;
    while i < v.len()
        invariant
            i <= v.len(),
            n == if total(v@.take(i as int)) <= usize::MAX {
                total(v@.take(i as int))
            } else {
                usize::MAX as nat
            },
        decreases v.len() - i,
    {
        assert(v@.take(i + 1).drop_last() =~= v@.take(i as int));
        assert(v@.take(i + 1).last() == v@[i as int]);
        n = n.saturating_add(v[i].1.len());
        i += 1;
    }
    assert(v@.take(i as int) =~= v@);
    n
}

fn does_fit(v: &Vec<Revision>) -> (r: bool)
    ensures
        r == fits(v@),
{
    let mut a: usize = 0;
    let mut c: usize = 0;
    let mut i: usize = 0;
    while i < v.len()
        invariant
            i <= v.len(),
            a == if asset_bytes(v@.take(i as int)) <= usize::MAX {
                asset_bytes(v@.take(i as int))
            } else {
                usize::MAX as nat
            },
            c == if config_bytes(v@.take(i as int)) <= usize::MAX {
                config_bytes(v@.take(i as int))
            } else {
                usize::MAX as nat
            },
        decreases v.len() - i,
    {
        assert(v@.take(i + 1).drop_last() =~= v@.take(i as int));
        assert(v@.take(i + 1).last() == v@[i as int]);
        a = a.saturating_add(sum_assets(&v[i].bundle.assets));
        c = c.saturating_add(v[i].config_bytes);
        i += 1;
    }
    assert(v@.take(i as int) =~= v@);
    v.len() <= MAX_REVISIONS && a <= MAX_ASSETS && c <= MAX_CONFIG
}

/// The place of the first configuration of a version.
pub open spec fn place_of(v: Seq<Revision>, version: u64) -> Option<int>
    decreases v.len(),
{
    if v.len() == 0 {
        None
    } else if v[0].version == version {
        Some(0)
    } else {
        match place_of(v.drop_first(), version) {
            Some(i) => Some(i + 1),
            None => None,
        }
    }
}

impl Journal {
    /// Whether a record can be used for a file.
    pub open spec fn usable(&self, source: Seq<char>) -> Result<(), HistoryError> {
        if self.revisions@.len() > MAX_REVISIONS {
            Err(HistoryError::TooManyRevisions)
        } else if self.source@ != source {
            Err(HistoryError::ForeignSource)
        } else {
            Ok(())
        }
    }

    /// A record, which is a new one where there was none.
    pub fn open(found: Option<Journal>, source: &str) -> (r: Result<Journal, HistoryError>)
        ensures
            match found {
                None => r is Ok && r->Ok_0.source@ == source@ && r->Ok_0.revisions@
                    == Seq::<Revision>::empty(),
                Some(j) => r == match j.usable(source@) {
                    Ok(_) => Ok::<Journal, HistoryError>(j),
                    Err(e) => Err(e),
                },
            },
    {
        match found {
            None => Ok(Journal { source: source.to_owned(), revisions: Vec::new() }),
            Some(j) => {
                if j.revisions.len() > MAX_REVISIONS {
                    return Err(HistoryError::TooManyRevisions);
                }
                if !text::same(j.source.as_str(), source) {
                    return Err(HistoryError::ForeignSource);
                }
                Ok(j)
            },
        }
    }

    /// The configuration to begin with: the last one that was active.
    pub fn latest(&self) -> (r: Option<&Revision>)
        ensures
            match r {
                Some(x) => self.revisions@.len() > 0 && *x == self.revisions@.last(),
                None => self.revisions@.len() == 0,
            },
    {
        let n = self.revisions.len();
        if n == 0 {
            None
        } else {
            Some(&self.revisions[n - 1])
        }
    }

    /// The versions that are kept.
    pub fn versions(&self) -> (out: Vec<u64>)
        ensures
            out@ == Seq::new(self.revisions@.len(), |i: int| self.revisions@[i].version),
    {
        let mut out: Vec<u64> = Vec::new();
        let mut i: usize = 0;
        while i < self.revisions.len()
            invariant
                i <= self.revisions.len(),
                out@ == Seq::new(i as nat, |j: int| self.revisions@[j].version),
            decreases self.revisions.len() - i,
        {
            out.push(self.revisions[i].version);
            i += 1;
        }
        out
    }

    /// The configuration of a version.
    pub fn restore(&self, version: u64) -> (r: Result<&Revision, HistoryError>)
        ensures
            match r {
                Ok(x) => place_of(self.revisions@, version) is Some && *x
                    == self.revisions@[place_of(self.revisions@, version)->0],
                Err(e) => e == HistoryError::NotRetained && place_of(
                    self.revisions@,
                    version,
                ) is None,
            },
    {
        let ghost v = self.revisions@;
        let mut i: usize = 0;
        assert(v.skip(0) =~= v);
        while i < self.revisions.len()
            invariant
                i <= self.revisions.len(),
                v == self.revisions@,
                place_of(v, version) == match place_of(v.skip(i as int), version) {
                    Some(k) => Some(k + i),
                    None => None,
                },
            decreases self.revisions.len() - i,
        {
            assert(v.skip(i as int).drop_first() =~= v.skip(i + 1));
            assert(v.skip(i as int)[0] == v[i as int]);
            if self.revisions[i].version == version {
                return Ok(&self.revisions[i]);
            }
            i += 1;
        }
        Err(HistoryError::NotRetained)
    }

    /// Notes a configuration that is active; `true` where the record changes.
    pub fn record(&mut self, version: u64, bundle: Option<Bundle>, config_bytes: usize) -> (r: Result<
        bool,
        HistoryError,
    >)
        ensures
            final(self).source@ == old(self).source@,
            match bundle {
                None => r == Err::<bool, HistoryError>(HistoryError::NoBundle)
                    && final(self).revisions@ == old(self).revisions@,
                Some(b) => final(self).revisions@ == recorded(
                    old(self).revisions@,
                    Revision { version, bundle: b, config_bytes },
                ) && r == Ok::<bool, HistoryError>(
                    !(old(self).revisions@.len() > 0 && old(self).revisions@.last().version
                        == version),
                ),
            },
    {
        let bundle = match bundle {
            None => return Err(HistoryError::NoBundle),
            Some(b) => b,
        };
        let n = self.revisions.len();
        if n > 0 && self.revisions[n - 1].version == version {
            return Ok(false);
        }
        self.revisions.push(Revision { version, bundle, config_bytes });
        let ghost all = self.revisions@;
        let ghost source = self.source@;
        let mut done = does_fit(&self.revisions);
        while !done && self.revisions.len() > 0
            invariant
                done == fits(self.revisions@),
                kept(self.revisions@) == kept(all),
                self.source@ == source,
            decreases self.revisions.len(),
        {
            let ghost before = self.revisions@;
            self.revisions.remove(0);
            assert(self.revisions@ =~= before.drop_first());
            done = does_fit(&self.revisions);
        }
        Ok(true)
    }
}

// ---------------------------------------------------------------------------
// Laws
// ---------------------------------------------------------------------------

/// What is kept is few enough.
pub proof fn law_records_are_bounded(v: Seq<Revision>)
    ensures
        fits(kept(v)),
    decreases v.len(),
{
    if !fits(v) && v.len() > 0 {
        law_records_are_bounded(v.drop_first());
    }
}

/// What is kept is the newest: only the oldest are left out.
pub proof fn law_the_newest_are_kept(v: Seq<Revision>)
    ensures
        kept(v).len() <= v.len(),
        kept(v) == v.skip(v.len() - kept(v).len()),
    decreases v.len(),
{
    if fits(v) || v.len() == 0 {
        assert(v.skip(0) =~= v);
    } else {
        law_the_newest_are_kept(v.drop_first());
        let k = kept(v.drop_first());
        assert(v.drop_first().skip(v.drop_first().len() - k.len()) =~= v.skip(v.len() - k.len()));
    }
}

/// A configuration that is small enough on its own can be restored after it was active, unless its
/// version was kept before.
pub proof fn law_active_versions_are_kept(v: Seq<Revision>, r: Revision)
    requires
        fits(seq![r]),
        place_of(v, r.version) is None,
    ensures
        ({
            let w = recorded(v, r);
            &&& w.len() > 0
            &&& w.last() == r
            &&& place_of(w, r.version) == Some(w.len() - 1)
        }),
{
    lemma_absent(v, r.version);
    let w = v.push(r);
    lemma_last_is_kept(w, r);
    law_the_newest_are_kept(w);
    let k = kept(w);
    assert(k.last() == w.last());
    assert forall|i: int| 0 <= i < k.len() - 1 implies (#[trigger] k[i]).version != r.version by {
        assert(k[i] == w[w.len() - k.len() + i]);
        assert(k[i] == v[w.len() - k.len() + i]);
    }
    lemma_place(k, r.version, k.len() - 1);
}

proof fn lemma_absent(v: Seq<Revision>, version: u64)
    requires
        place_of(v, version) is None,
    ensures
        forall|i: int| 0 <= i < v.len() ==> (#[trigger] v[i]).version != version,
    decreases v.len(),
{
    if v.len() > 0 {
        lemma_absent(v.drop_first(), version);
        assert forall|i: int| 0 <= i < v.len() implies (#[trigger] v[i]).version != version by {
            if i > 0 {
                assert(v[i] == v.drop_first()[i - 1]);
            }
        }
    }
}

proof fn lemma_place(v: Seq<Revision>, version: u64, at: int)
    requires
        0 <= at < v.len(),
        v[at].version == version,
        forall|i: int| 0 <= i < at ==> (#[trigger] v[i]).version != version,
    ensures
        place_of(v, version) == Some(at),
    decreases v.len(),
{
    if at > 0 {
        let w = v.drop_first();
        assert forall|i: int| 0 <= i < at - 1 implies (#[trigger] w[i]).version != version by {
            assert(w[i] == v[i + 1]);
        }
        lemma_place(w, version, at - 1);
    }
}

proof fn lemma_last_is_kept(v: Seq<Revision>, r: Revision)
    requires
        v.len() > 0,
        v.last() == r,
        fits(seq![r]),
    ensures
        kept(v).len() > 0,
    decreases v.len(),
{
    if !fits(v) {
        if v.len() == 1 {
            assert(v =~= seq![r]);
        } else {
            lemma_last_is_kept(v.drop_first(), r);
        }
    }
}

/// A version that is the latest is not noted again; another is, and the oldest go where there are too many.
pub proof fn law_versions_are_noted_once(v: Seq<Revision>, r: Revision)
    ensures
        v.len() > 0 && v.last().version == r.version ==> recorded(v, r) == v,
        (v.len() == 0 || v.last().version != r.version) && fits(v.push(r)) ==> recorded(v, r) == v.push(r),
        v.len() > 9 ==> !fits(v),
        asset_bytes(v) > 33554432 ==> !fits(v),
        config_bytes(v) > 8388608 ==> !fits(v),
        v.len() <= 9 && asset_bytes(v) <= 33554432 && config_bytes(v) <= 8388608 ==> fits(v),
{
}

/// A version is found where it stands first.
pub proof fn law_versions_are_found(v: Seq<Revision>, version: u64, i: int)
    requires
        0 <= i < v.len(),
        v[i].version == version,
        forall|j: int| 0 <= j < i ==> (#[trigger] v[j]).version != version,
    ensures
        place_of(v, version) == Some(i),
    decreases v.len(),
{
    if i > 0 {
        let t = v.drop_first();
        assert(v[0].version != version);
        assert(t[i - 1] == v[i]);
        assert(forall|j: int| 0 <= j < i - 1 ==> t[j] == v[j + 1]);
        law_versions_are_found(t, version, i - 1);
    }
}

/// A journal of another source is not used, nor one that is too long.
pub proof fn law_journals_are_of_their_source(j: Journal, source: Seq<char>)
    ensures
        j.revisions@.len() > 9 ==> j.usable(source) == Err::<(), HistoryError>(HistoryError::TooManyRevisions),
        j.revisions@.len() <= 9 && j.source@ != source ==> j.usable(source) == Err::<(), HistoryError>(
            HistoryError::ForeignSource,
        ),
        j.revisions@.len() <= 9 && j.source@ == source ==> j.usable(source) == Ok::<(), HistoryError>(()),
{
}

} // verus!
