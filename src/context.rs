//! The bookkeeping of one run: the transforms to apply, the newest input
//! time seen, and the checks made after generation.

use vstd::prelude::*;
use crate::check::{
    reconcile, mtime_wf, stamp_wf, MtimeResult, PathText, Reconciled, Transform, TransformNeed,
};
use crate::errors::Error;
use crate::paths::{MdPath, RsPath};
use crate::timestamp::Timestamp;

verus! {

/// `newest` after seeing an input written at `t`.
pub open spec fn newer_of(newest: Option<Timestamp>, t: Timestamp) -> Option<Timestamp> {
    match newest {
        None => Some(t),
        Some(s) => if s.spec_lt(t) {
            Some(t)
        } else {
            Some(s)
        },
    }
}

/// Whether an input gathered at `old_time` shows a different time now.
pub open spec fn changed(old_time: Timestamp, now: MtimeResult) -> bool {
    match now {
        MtimeResult::Modified(t) => t != old_time,
        MtimeResult::NonExistant => false,
    }
}

/// The first index at which an input of `times` shows another time in `now`.
#[verifier::opaque]
pub open spec fn first_change(times: Seq<Timestamp>, now: Seq<MtimeResult>) -> Option<int> {
    if exists|i: int| 0 <= i < times.len() && changed(times[i], now[i]) {
        Some(
            choose|i: int|
                0 <= i < times.len() && changed(times[i], now[i]) && forall|j: int|
                    0 <= j < i ==> !changed(times[j], now[j]),
        )
    } else {
        None
    }
}

proof fn lemma_first_change_is(times: Seq<Timestamp>, now: Seq<MtimeResult>, i: int)
    requires
        0 <= i < times.len(),
        changed(times[i], now[i]),
        forall|j: int| 0 <= j < i ==> !changed(times[j], now[j]),
    ensures
        first_change(times, now) == Some(i),
{
    reveal(first_change);
    let c = choose|c: int|
        0 <= c < times.len() && changed(times[c], now[c]) && forall|j: int|
            0 <= j < c ==> !changed(times[j], now[j]);
    assert(0 <= c < times.len() && changed(times[c], now[c]) && forall|j: int|
        0 <= j < c ==> !changed(times[j], now[j]));
    if c < i {
        assert(!changed(times[c], now[c]));
    } else if c > i {
        assert(!changed(times[i], now[i]));
    }
}

proof fn lemma_no_change(times: Seq<Timestamp>, now: Seq<MtimeResult>)
    requires
        forall|j: int| 0 <= j < times.len() ==> !changed(times[j], now[j]),
    ensures
        first_change(times, now) is None,
{
    reveal(first_change);
}

/// The state of one run.
pub struct Context {
    /// The time of the last recorded run, if there was one.
    pub orig_stamp: Option<Timestamp>,
    pub src_inputs: Vec<Transform<RsPath, MdPath>>,
    pub lit_inputs: Vec<Transform<MdPath, RsPath>>,
    /// The newest time among the sources scheduled so far.
    pub newest_stamp: Option<Timestamp>,
    pub emit_rerun_if: bool,
}

impl Context {
    pub open spec fn src_times(&self) -> Seq<Timestamp> {
        self.src_inputs@.map_values(|t: Transform<RsPath, MdPath>| t.source_time)
    }

    pub open spec fn lit_times(&self) -> Seq<Timestamp> {
        self.lit_inputs@.map_values(|t: Transform<MdPath, RsPath>| t.source_time)
    }

    /// A run whose last recorded run was at `orig_stamp`, if any.
    pub fn new(orig_stamp: Option<Timestamp>) -> (r: Context)
        ensures
            r.orig_stamp == orig_stamp,
            r.src_inputs@.len() == 0,
            r.lit_inputs@.len() == 0,
            r.newest_stamp is None,
            r.emit_rerun_if,
    {
        Context {
            orig_stamp,
            src_inputs: Vec::new(),
            lit_inputs: Vec::new(),
            newest_stamp: None,
            emit_rerun_if: true,
        }
    }

    /// Remembers `new_time` if it is the newest seen.
    pub fn update_newest_time(&mut self, new_time: Timestamp)
        ensures
            final(self).newest_stamp == newer_of(old(self).newest_stamp, new_time),
            final(self).orig_stamp == old(self).orig_stamp,
            final(self).src_inputs == old(self).src_inputs,
            final(self).lit_inputs == old(self).lit_inputs,
            final(self).emit_rerun_if == old(self).emit_rerun_if,
    {
        match self.newest_stamp {
            Some(stamp) => {
                if stamp.is_before(&new_time) {
                    self.newest_stamp = Some(new_time);
                }
            },
            None => {
                self.newest_stamp = Some(new_time);
            },
        }
    }

    pub fn push_src(&mut self, t: Transform<RsPath, MdPath>)
        ensures
            final(self).src_inputs@ == old(self).src_inputs@.push(t),
            final(self).newest_stamp == newer_of(old(self).newest_stamp, t.source_time),
            final(self).orig_stamp == old(self).orig_stamp,
            final(self).lit_inputs == old(self).lit_inputs,
            final(self).emit_rerun_if == old(self).emit_rerun_if,
    {
        self.update_newest_time(t.source_time);
        self.src_inputs.push(t);
    }

    pub fn push_lit(&mut self, t: Transform<MdPath, RsPath>)
        ensures
            final(self).lit_inputs@ == old(self).lit_inputs@.push(t),
            final(self).newest_stamp == newer_of(old(self).newest_stamp, t.source_time),
            final(self).orig_stamp == old(self).orig_stamp,
            final(self).src_inputs == old(self).src_inputs,
            final(self).emit_rerun_if == old(self).emit_rerun_if,
    {
        self.update_newest_time(t.source_time);
        self.lit_inputs.push(t);
    }

    /// Checks the times that the inputs show after generation, `src_now` for
    /// the sources and `lit_now` for the markdown files, in the order they
    /// were scheduled, against the times seen when they were gathered. The
    /// first input that changed meanwhile is reported.
    pub fn check_input_timestamps(&self, src_now: &Vec<MtimeResult>, lit_now: &Vec<MtimeResult>) -> (r:
        Result<(), Error>)
        requires
            src_now.len() == self.src_inputs.len(),
            lit_now.len() == self.lit_inputs.len(),
        ensures
            (first_change(self.src_times(), src_now@) is None && first_change(
                self.lit_times(),
                lit_now@,
            ) is None) ==> r is Ok,
            first_change(self.src_times(), src_now@) matches Some(i) ==> (r matches Err(
                Error::ConcurrentUpdate { path_buf, old_time, new_time },
            ) && path_buf@ == self.src_inputs@[i].original.path_view() && old_time
                == self.src_times()[i] && src_now@[i] == MtimeResult::Modified(new_time)),
            first_change(self.src_times(), src_now@) is None ==> (first_change(
                self.lit_times(),
                lit_now@,
            ) matches Some(i) ==> r matches Err(
                Error::ConcurrentUpdate { path_buf, old_time, new_time },
            ) && path_buf@ == self.lit_inputs@[i].original.path_view() && old_time
                == self.lit_times()[i] && lit_now@[i] == MtimeResult::Modified(new_time)),
    {
        let mut i: usize = 0;
        while i < self.src_inputs.len()
            invariant
                i <= self.src_inputs.len(),
                src_now.len() == self.src_inputs.len(),
                forall|j: int| 0 <= j < i ==> !changed(self.src_times()[j], src_now@[j]),
            decreases self.src_inputs.len() - i,
        {
            let t = &self.src_inputs[i];
            if let MtimeResult::Modified(new_time) = src_now[i] {
                if new_time != t.source_time {
                    proof {
                        lemma_first_change_is(self.src_times(), src_now@, i as int);
                    }
                    return Err(
                        Error::ConcurrentUpdate {
                            path_buf: t.original.path_string(),
                            old_time: t.source_time,
                            new_time,
                        },
                    );
                }
            }
            i = i + 1;
        }
        proof {
            lemma_no_change(self.src_times(), src_now@);
        }
        let mut k: usize = 0;
        while k < self.lit_inputs.len()
            invariant
                k <= self.lit_inputs.len(),
                lit_now.len() == self.lit_inputs.len(),
                first_change(self.src_times(), src_now@) is None,
                forall|j: int| 0 <= j < k ==> !changed(self.lit_times()[j], lit_now@[j]),
            decreases self.lit_inputs.len() - k,
        {
            let t = &self.lit_inputs[k];
            if let MtimeResult::Modified(new_time) = lit_now[k] {
                if new_time != t.source_time {
                    proof {
                        lemma_first_change_is(self.lit_times(), lit_now@, k as int);
                    }
                    return Err(
                        Error::ConcurrentUpdate {
                            path_buf: t.original.path_string(),
                            old_time: t.source_time,
                            new_time,
                        },
                    );
                }
            }
            k = k + 1;
        }
        proof {
            lemma_no_change(self.lit_times(), lit_now@);
        }
        Ok(())
    }

    /// Schedules the source-to-markdown transform `t` if it is needed; a
    /// conflict stops the run.
    pub fn gather_src(&mut self, t: Transform<RsPath, MdPath>) -> (r: Result<(), Error>)
        requires
            t.source_time.wf(),
            mtime_wf(t.target_time),
            stamp_wf(old(self).orig_stamp),
        ensures
            final(self).orig_stamp == old(self).orig_stamp,
            final(self).lit_inputs == old(self).lit_inputs,
            reconcile(t.source_time, t.target_time, old(self).orig_stamp) is Needed ==> r is Ok
                && final(self).src_inputs@ == old(self).src_inputs@.push(t)
                && final(self).newest_stamp == newer_of(old(self).newest_stamp, t.source_time),
            reconcile(t.source_time, t.target_time, old(self).orig_stamp) is Unneeded ==> r is Ok
                && final(self).src_inputs == old(self).src_inputs && final(self).newest_stamp
                == old(self).newest_stamp,
            reconcile(t.source_time, t.target_time, old(self).orig_stamp) is NoStamp ==> (r matches Err(
                Error::CheckInputError { error },
            ) && error.0 is NoTangoStampExists),
            reconcile(t.source_time, t.target_time, old(self).orig_stamp) is StampOlder ==> (r matches Err(
                Error::CheckInputError { error },
            ) && error.0 is TangoStampOlderThanTarget),
    {
        match t.check(self.orig_stamp) {
            Ok(TransformNeed::Needed) => {
                self.push_src(t);
                Ok(())
            },
            Ok(TransformNeed::Unneeded) => Ok(()),
            Err(e) => Err(Error::CheckInputError { error: e }),
        }
    }

    /// Schedules the markdown-to-source transform `t` if it is needed; a
    /// conflict stops the run.
    pub fn gather_lit(&mut self, t: Transform<MdPath, RsPath>) -> (r: Result<(), Error>)
        requires
            t.source_time.wf(),
            mtime_wf(t.target_time),
            stamp_wf(old(self).orig_stamp),
        ensures
            final(self).orig_stamp == old(self).orig_stamp,
            final(self).src_inputs == old(self).src_inputs,
            reconcile(t.source_time, t.target_time, old(self).orig_stamp) is Needed ==> r is Ok
                && final(self).lit_inputs@ == old(self).lit_inputs@.push(t)
                && final(self).newest_stamp == newer_of(old(self).newest_stamp, t.source_time),
            reconcile(t.source_time, t.target_time, old(self).orig_stamp) is Unneeded ==> r is Ok
                && final(self).lit_inputs == old(self).lit_inputs && final(self).newest_stamp
                == old(self).newest_stamp,
            reconcile(t.source_time, t.target_time, old(self).orig_stamp) is NoStamp ==> (r matches Err(
                Error::CheckInputError { error },
            ) && error.0 is NoTangoStampExists),
            reconcile(t.source_time, t.target_time, old(self).orig_stamp) is StampOlder ==> (r matches Err(
                Error::CheckInputError { error },
            ) && error.0 is TangoStampOlderThanTarget),
    {
        match t.check(self.orig_stamp) {
            Ok(TransformNeed::Needed) => {
                self.push_lit(t);
                Ok(())
            },
            Ok(TransformNeed::Unneeded) => Ok(()),
            Err(e) => Err(Error::CheckInputError { error: e }),
        }
    }
}

} // verus!
