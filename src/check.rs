//! Deciding whether a target must be regenerated from its source, from the
//! two files' modification times and the time of the last synchronized run.

use vstd::prelude::*;
use crate::timestamp::Timestamp;

verus! {

/// The modification time of a file that may not exist.
#[derive(Clone, Copy, PartialEq, Eq, Structural, Debug)]
pub enum MtimeResult {
    NonExistant,
    Modified(Timestamp),
}

/// Whether a transform has to run.
#[derive(Clone, Copy, PartialEq, Eq, Structural, Debug)]
pub enum TransformNeed {
    Needed,
    Unneeded,
}

/// The outcome of reconciling one source/target pair, conflicts included.
pub enum Reconciled {
    Needed,
    Unneeded,
    /// Both files exist, the target is older, and no run was recorded.
    NoStamp,
    /// The target changed after the last recorded run.
    StampOlder,
}

/// A path that can be shown as text.
pub trait PathText {
    spec fn path_view(&self) -> Seq<char>;

    fn path_string(&self) -> (r: String)
        ensures
            r@ == self.path_view(),
    ;
}

impl PathText for String {
    open spec fn path_view(&self) -> Seq<char> {
        self@
    }

    fn path_string(&self) -> (r: String) {
        self.clone()
    }
}

/// The decision for a source written at `source`, a target in state
/// `target`, and the recorded run `stamp`, if any.
pub open spec fn reconcile(source: Timestamp, target: MtimeResult, stamp: Option<Timestamp>) -> Reconciled {
    match target {
        MtimeResult::NonExistant => Reconciled::Needed,
        MtimeResult::Modified(t) => {
            if source.spec_lt(t) {
                Reconciled::Unneeded
            } else if source.spec_to_ms() == t.spec_to_ms() {
                Reconciled::Unneeded
            } else {
                match stamp {
                    None => Reconciled::NoStamp,
                    Some(s) => if s.spec_to_ms() < t.spec_to_ms() {
                        Reconciled::StampOlder
                    } else {
                        Reconciled::Needed
                    },
                }
            }
        },
    }
}

/// The policy in full: a missing target is generated; a target newer than
/// its source, or of the same millisecond, is left alone; an older target is
/// regenerated only when a recorded run exists that is not older than the
/// target at millisecond precision, and otherwise the pair is a conflict of
/// the kind that matches: no recorded run, or a recorded run older than the
/// target.
pub proof fn reconciliation_policy(source: Timestamp, target: MtimeResult, stamp: Option<Timestamp>)
    requires
        source.wf(),
        mtime_wf(target),
        stamp_wf(stamp),
    ensures
        target is NonExistant ==> reconcile(source, target, stamp) is Needed,
        forall|t: Timestamp|
            target == MtimeResult::Modified(t) ==> {
                &&& (source.spec_lt(t) || source.spec_to_ms() == t.spec_to_ms()) <==> reconcile(
                    source,
                    target,
                    stamp,
                ) is Unneeded
                &&& reconcile(source, target, stamp) is Needed <==> (t.spec_to_ms()
                    < source.spec_to_ms() && stamp is Some && t.spec_to_ms()
                    <= stamp->0.spec_to_ms())
                &&& reconcile(source, target, stamp) is NoStamp <==> (t.spec_to_ms()
                    < source.spec_to_ms() && stamp is None)
                &&& reconcile(source, target, stamp) is StampOlder <==> (t.spec_to_ms()
                    < source.spec_to_ms() && stamp is Some && stamp->0.spec_to_ms()
                    < t.spec_to_ms())
            },
{
    assert forall|t: Timestamp|
        target == MtimeResult::Modified(t) && source.spec_lt(t) implies source.spec_to_ms()
        <= t.spec_to_ms() by {
        crate::timestamp::lemma_lt_ms(source, t);
    }
}

pub open spec fn mtime_wf(m: MtimeResult) -> bool {
    match m {
        MtimeResult::NonExistant => true,
        MtimeResult::Modified(t) => t.wf(),
    }
}

pub open spec fn stamp_wf(s: Option<Timestamp>) -> bool {
    match s {
        None => true,
        Some(t) => t.wf(),
    }
}

/// Why a transform cannot run safely.
#[derive(Debug)]
pub enum ErrorKind {
    TargetYoungerThanOriginal { tgt: String, src: String },
    NoTangoStampExists { tgt: String, src: String },
    TangoStampOlderThanTarget { tgt: String },
}

/// A conflict, with the transform that ran into it.
#[derive(Debug)]
pub struct Error(pub ErrorKind, pub PathTransform);

pub type PathTransform = Transform<String, String>;

/// Generating `generate` from `original`, with the times seen when the pair
/// was gathered.
#[derive(Debug)]
pub struct Transform<X, Y> {
    pub source_time: Timestamp,
    pub target_time: MtimeResult,
    pub original: X,
    pub generate: Y,
}

impl<X: PathText, Y: PathText> Transform<X, Y> {
    pub fn new(original: X, generate: Y, source_time: Timestamp, target_time: MtimeResult) -> (r:
        Self)
        ensures
            r.original == original,
            r.generate == generate,
            r.source_time == source_time,
            r.target_time == target_time,
    {
        Transform { source_time, target_time, original, generate }
    }

    /// The conflict `kind` on this transform, with both paths as text.
    pub fn error(&self, kind: ErrorKind) -> (r: Error)
        ensures
            r.0 == kind,
            r.1.original@ == self.original.path_view(),
            r.1.generate@ == self.generate.path_view(),
            r.1.source_time == self.source_time,
            r.1.target_time == self.target_time,
    {
        let t = Transform {
            original: self.original.path_string(),
            generate: self.generate.path_string(),
            source_time: self.source_time,
            target_time: self.target_time,
        };
        Error(kind, t)
    }

    /// Whether this transform must run, given the recorded run `stamp`.
    pub fn check(&self, stamp: Option<Timestamp>) -> (r: Result<TransformNeed, Error>)
        requires
            self.source_time.wf(),
            mtime_wf(self.target_time),
            stamp_wf(stamp),
        ensures
            match reconcile(self.source_time, self.target_time, stamp) {
                Reconciled::Needed => r == Ok::<TransformNeed, Error>(TransformNeed::Needed),
                Reconciled::Unneeded => r == Ok::<TransformNeed, Error>(TransformNeed::Unneeded),
                Reconciled::NoStamp => r matches Err(e) && e.0 matches ErrorKind::NoTangoStampExists {
                    tgt,
                    src,
                } && tgt@ == self.generate.path_view() && src@ == self.original.path_view()
                    && e.1.original@ == self.original.path_view() && e.1.generate@
                    == self.generate.path_view(),
                Reconciled::StampOlder => r matches Err(e)
                    && e.0 matches ErrorKind::TangoStampOlderThanTarget { tgt }
                    && tgt@ == self.generate.path_view() && e.1.original@
                    == self.original.path_view() && e.1.generate@ == self.generate.path_view(),
            },
    {
        let t_mod = match self.target_time {
            MtimeResult::Modified(t) => t,
            MtimeResult::NonExistant => {
                return Ok(TransformNeed::Needed);
            },
        };
        let s_mod = self.source_time;
        if s_mod.is_before(&t_mod) {
            // The target is newer than its source: keep it.
            return Ok(TransformNeed::Unneeded);
        }
        if s_mod.same_ms(&t_mod) {
            // Equal once truncated to milliseconds: file systems that keep
            // coarser times make such pairs look different, so they count
            // as in sync.
            return Ok(TransformNeed::Unneeded);
        }
        match stamp {
            None => {
                let kind = ErrorKind::NoTangoStampExists {
                    src: self.original.path_string(),
                    tgt: self.generate.path_string(),
                };
                Err(self.error(kind))
            },
            Some(stamp_time) => {
                if stamp_time.ms_before(&t_mod) {
                    // Both sides changed since the last run.
                    let kind = ErrorKind::TangoStampOlderThanTarget {
                        tgt: self.generate.path_string(),
                    };
                    Err(self.error(kind))
                } else {
                    Ok(TransformNeed::Needed)
                }
            },
        }
    }
}

} // verus!
