//! Lightweight performance stage recorder for the hot paths.
//!
//! Each pipeline stage owns a bounded sample buffer; `begin`/`end` pairs
//! record elapsed nanoseconds, and `record` stores an externally measured
//! duration.  Once a stage's buffer is full, further samples are dropped.

use vstd::prelude::*;
use crate::clock::now_ns;

verus! {

/// The instrumented stages of the publish and consume pipelines.
#[derive(Clone, Copy, Debug, PartialEq, Eq, Structural)]
pub enum PerfStage {
    ParseJson,
    ParseNumeric,
    BuildTob,
    TimestampEvent,
    Publish,
    TryRead,
    ProcessEvent,
    PrefetchNext,
    ObsidianTotal,
    OnyxTotal,
}

/// Number of instrumented stages.
pub const NUM_STAGES: usize = 10;

/// Capacity of each stage's sample buffer.
pub const MAX_SAMPLES: usize = 262144;

/// The buffer index of a stage.
pub open spec fn spec_stage_index(s: PerfStage) -> int {
    match s {
        PerfStage::ParseJson => 0,
        PerfStage::ParseNumeric => 1,
        PerfStage::BuildTob => 2,
        PerfStage::TimestampEvent => 3,
        PerfStage::Publish => 4,
        PerfStage::TryRead => 5,
        PerfStage::ProcessEvent => 6,
        PerfStage::PrefetchNext => 7,
        PerfStage::ObsidianTotal => 8,
        PerfStage::OnyxTotal => 9,
    }
}

/// Maps a stage to its buffer index.
pub fn stage_index(s: PerfStage) -> (i: usize)
    ensures
        i == spec_stage_index(s),
        i < NUM_STAGES,
{
    match s {
        PerfStage::ParseJson => 0,
        PerfStage::ParseNumeric => 1,
        PerfStage::BuildTob => 2,
        PerfStage::TimestampEvent => 3,
        PerfStage::Publish => 4,
        PerfStage::TryRead => 5,
        PerfStage::ProcessEvent => 6,
        PerfStage::PrefetchNext => 7,
        PerfStage::ObsidianTotal => 8,
        PerfStage::OnyxTotal => 9,
    }
}

/// One stage's sample storage and the start mark of an open measurement.
#[derive(Debug)]
pub struct StageBuf {
    /// Recorded durations, oldest first, at most [`MAX_SAMPLES`].
    pub samples: Vec<u64>,
    /// Start timestamp of the measurement currently open, if any.
    pub pending: u64,
}

impl StageBuf {
    /// An empty buffer with no open measurement.
    pub fn new() -> (b: Self)
        ensures
            b.samples@ == Seq::<u64>::empty(),
            b.pending == 0,
    {
        StageBuf { samples: Vec::new(), pending: 0 }
    }
}

/// A per-stage recorder of elapsed-nanosecond samples.
#[derive(Debug)]
pub struct PerfRecorder {
    /// One buffer per stage, indexed by [`spec_stage_index`].
    pub stages: Vec<StageBuf>,
}

impl PerfRecorder {
    /// One bounded buffer per stage.
    pub open spec fn wf(&self) -> bool {
        &&& self.stages@.len() == NUM_STAGES
        &&& forall|j: int|
            0 <= j < NUM_STAGES ==> (#[trigger] self.stages@[j]).samples@.len() <= MAX_SAMPLES
    }

    /// The samples recorded so far for a stage.
    pub open spec fn spec_samples(&self, s: PerfStage) -> Seq<u64> {
        self.stages@[spec_stage_index(s)].samples@
    }

    /// A recorder with every stage empty.
    pub fn new() -> (r: Self)
        ensures
            r.wf(),
            forall|j: int| 0 <= j < NUM_STAGES ==> (#[trigger] r.stages@[j]).samples@.len() == 0,
    {
        let mut stages: Vec<StageBuf> = Vec::new();
        let mut i: usize = 0;
        while i < NUM_STAGES
            invariant
                stages@.len() == i,
                i <= NUM_STAGES,
                forall|k: int| 0 <= k < i ==> (#[trigger] stages@[k]).samples@.len() == 0,
            decreases NUM_STAGES - i,
        {
            stages.push(StageBuf::new());
            i = i + 1;
        }
        PerfRecorder { stages }
    }

    /// Opens a measurement for a stage by marking the current time.
    /// Recorded samples of every stage are untouched.
    #[inline(always)]
    pub fn begin(&mut self, stage: PerfStage)
        requires
            old(self).wf(),
        ensures
            final(self).wf(),
            forall|j: int|
                0 <= j < NUM_STAGES ==> (#[trigger] final(self).stages@[j]).samples@ == old(self).stages@[j].samples@,
    {
        let i = stage_index(stage);
        let buf = &mut self.stages[i];
        buf.pending = now_ns();
    }

    /// Closes the open measurement of a stage, storing the elapsed time
    /// since its `begin` — a clock-dependent value, so only the buffer
    /// shapes are pinned: the stage gains one sample while it has room,
    /// every other stage is untouched.
    #[inline(always)]
    pub fn end(&mut self, stage: PerfStage)
        requires
            old(self).wf(),
        ensures
            final(self).wf(),
            forall|j: int|
                0 <= j < NUM_STAGES && j != spec_stage_index(stage) ==> (#[trigger] final(self).stages@[j]).samples@ == old(self).stages@[j].samples@,
            old(self).spec_samples(stage).len() < MAX_SAMPLES ==> {
                &&& final(self).spec_samples(stage).len() == old(self).spec_samples(stage).len()
                    + 1
                &&& final(self).spec_samples(stage).drop_last() == old(self).spec_samples(stage)
            },
            old(self).spec_samples(stage).len() >= MAX_SAMPLES ==> final(self).spec_samples(
                stage,
            ) == old(self).spec_samples(stage),
    {
        let t = now_ns();
        let i = stage_index(stage);
        let buf = &mut self.stages[i];
        let elapsed = if t >= buf.pending {
            t - buf.pending
        } else {
            0
        };
        if buf.samples.len() < MAX_SAMPLES {
            let ghost pre = buf.samples@;
            buf.samples.push(elapsed);
            proof {
                assert(buf.samples@.drop_last() =~= pre);
            }
        }
    }

    /// Stores one externally measured duration for a stage, while the
    /// stage has room.
    #[inline(always)]
    pub fn record(&mut self, stage: PerfStage, duration_ns: u64)
        requires
            old(self).wf(),
        ensures
            final(self).wf(),
            forall|j: int|
                0 <= j < NUM_STAGES && j != spec_stage_index(stage) ==> (#[trigger] final(self).stages@[j]).samples@ == old(self).stages@[j].samples@,
            old(self).spec_samples(stage).len() < MAX_SAMPLES ==> final(self).spec_samples(stage)
                == old(self).spec_samples(stage).push(duration_ns),
            old(self).spec_samples(stage).len() >= MAX_SAMPLES ==> final(self).spec_samples(
                stage,
            ) == old(self).spec_samples(stage),
    {
        let i = stage_index(stage);
        let buf = &mut self.stages[i];
        if buf.samples.len() < MAX_SAMPLES {
            buf.samples.push(duration_ns);
        }
    }

    /// The samples recorded so far for a stage.
    pub fn samples(&self, stage: PerfStage) -> (r: &[u64])
        requires
            self.wf(),
        ensures
            r@ == self.spec_samples(stage),
    {
        let i = stage_index(stage);
        self.stages[i].samples.as_slice()
    }

    /// How many samples a stage holds.
    pub fn count(&self, stage: PerfStage) -> (n: usize)
        requires
            self.wf(),
        ensures
            n == self.spec_samples(stage).len(),
    {
        let i = stage_index(stage);
        self.stages[i].samples.len()
    }

    /// Discards the samples of one stage.
    pub fn drain(&mut self, stage: PerfStage)
        requires
            old(self).wf(),
        ensures
            final(self).wf(),
            final(self).spec_samples(stage).len() == 0,
            forall|j: int|
                0 <= j < NUM_STAGES && j != spec_stage_index(stage) ==> (#[trigger] final(self).stages@[j]).samples@ == old(self).stages@[j].samples@,
    {
        let i = stage_index(stage);
        let buf = &mut self.stages[i];
        buf.samples.clear();
    }

    /// Discards the samples of every stage.
    pub fn reset(&mut self)
        requires
            old(self).wf(),
        ensures
            final(self).wf(),
            forall|j: int|
                0 <= j < NUM_STAGES ==> (#[trigger] final(self).stages@[j]).samples@.len() == 0,
    {
        let mut i: usize = 0;
        while i < NUM_STAGES
            invariant
                old(self).wf(),
                self.stages@.len() == NUM_STAGES,
                i <= NUM_STAGES,
                forall|k: int| 0 <= k < i ==> (#[trigger] self.stages@[k]).samples@.len() == 0,
                forall|k: int|
                    i <= k < NUM_STAGES ==> (#[trigger] self.stages@[k]).samples@.len()
                        <= MAX_SAMPLES,
            decreases NUM_STAGES - i,
        {
            let buf = &mut self.stages[i];
            buf.samples.clear();
            i = i + 1;
        }
    }
}

} // verus!
