//! The worker of the capture: it starts the engine, then enhances what was captured.

use crate::capture::ring::block_samples;
use crate::capture::ring::law_block_is_the_oldest;
use crate::capture::ring::take_block;
use crate::capture::ring::take_effect;
use crate::capture::ring::unread;
use crate::capture::ring::RbCons;
use crate::capture::DfControl;
use crate::engine::EngineSetting;
use crate::single::Single;
use vstd::arithmetic::div_mod::lemma_fundamental_div_mod_converse;
use vstd::prelude::*;
use vstd::string::StringExecFns;

verus! {

/// The error that a worker reports, if its engine did not start or could not process a first,
/// silent frame.
pub open spec fn startup_error(engine: Result<(), String>, first: Result<(), String>) -> Option<
    Seq<char>,
> {
    match engine {
        Err(e) => Some("Could not initialize DeepFilter runtime: "@ + e@),
        Ok(_) => match first {
            Err(e) => Some("Failed to run DeepFilterNet: "@ + e@),
            Ok(_) => None,
        },
    }
}

/// What a worker reports once it has tried to start its engine and, where that went well, to
/// process a first frame.
pub fn startup_report(engine: Result<(), String>, first: Result<(), String>) -> (report: Result<
    (),
    String,
>)
    ensures
        match startup_error(engine, first) {
            None => report is Ok,
            Some(text) => report matches Err(e) && e@ == text,
        },
{
    match engine {
        Err(e) => {
            let mut text: String = String::from_str("Could not initialize DeepFilter runtime: ");
            text.append(e.as_str());
            Err(text)
        },
        Ok(_) => match first {
            Err(e) => {
                let mut text: String = String::from_str("Failed to run DeepFilterNet: ");
                text.append(e.as_str());
                Err(text)
            },
            Ok(_) => Ok(()),
        },
    }
}

/// The rates between which a stream is to be resampled.
#[derive(Clone, Copy, Debug, PartialEq, Eq, Structural)]
pub struct Resampling {
    pub from: usize,
    pub to: usize,
}

/// The resampling in front of and behind the engine.
pub fn resampling(input_sr: usize, output_sr: usize, engine_sr: usize) -> (r: (
    Option<Resampling>,
    Option<Resampling>,
))
    ensures
        r.0 == if input_sr == engine_sr {
            None::<Resampling>
        } else {
            Some(Resampling { from: input_sr, to: engine_sr })
        },
        r.1 == if output_sr == engine_sr {
            None::<Resampling>
        } else {
            Some(Resampling { from: engine_sr, to: output_sr })
        },
        r.0 is Some <==> input_sr != engine_sr,
        r.0 matches Some(x) ==> x.from == input_sr && x.to == engine_sr,
        r.1 is Some <==> output_sr != engine_sr,
        r.1 matches Some(x) ==> x.from == engine_sr && x.to == output_sr,
{
    let input: Option<Resampling> = if input_sr != engine_sr {
        Some(Resampling { from: input_sr, to: engine_sr })
    } else {
        None
    };
    let output: Option<Resampling> = if output_sr != engine_sr {
        Some(Resampling { from: engine_sr, to: output_sr })
    } else {
        None
    };
    (input, output)
}

/// What a worker does next.
pub enum WorkerStep {
    /// Stop for good.
    Stop,
    /// Sleep for half a frame, then step again.
    Sleep,
    /// Enhance a block of samples.
    Process(Vec<u32>),
}

impl WorkerStep {
    /// The block to enhance, if there is one.
    pub open spec fn block(self) -> Option<Seq<u32>> {
        match self {
            WorkerStep::Process(b) => Some(b@),
            _ => None,
        }
    }
}

/// One step of a worker. A block has as many samples as the resampler asks for, or as a frame of
/// the engine without one; it is taken as soon as it is there.
pub fn worker_step(should_stop: bool, resampler_next: Option<usize>, hop_size: usize, rb: &mut RbCons) -> (
step: WorkerStep)
    ensures
        step is Stop <==> should_stop,
        should_stop ==> *final(rb) == *old(rb),
        !should_stop ==> exists|arrived: Seq<u32>| #[trigger]
            take_effect(
                unread(*old(rb)),
                arrived,
                block_len(resampler_next, hop_size),
                step.block(),
                unread(*final(rb)),
            ),
        resampler_next matches Some(n) ==> {
            &&& step matches WorkerStep::Process(b) ==> b@.len() == n
            &&& !should_stop && unread(*old(rb)).len() >= n ==> step is Process
            &&& step is Sleep ==> unread(*final(rb)).len() < n
        },
        resampler_next is None ==> {
            &&& step matches WorkerStep::Process(b) ==> b@.len() == hop_size
            &&& !should_stop && unread(*old(rb)).len() >= hop_size ==> step is Process
            &&& step is Sleep ==> unread(*final(rb)).len() < hop_size
        },
{
    if should_stop {
        return WorkerStep::Stop;
    }
    let n_in: usize = resampler_next.unwrap_or(hop_size);
    let ghost start = unread(*rb);
    let taken: Option<Vec<u32>> = take_block(rb, n_in);
    let ghost got = block_samples(taken);
    let step: WorkerStep = match taken {
        Some(block) => WorkerStep::Process(block),
        None => WorkerStep::Sleep,
    };
    proof {
        let arrived = choose|arrived: Seq<u32>| #[trigger]
            take_effect(start, arrived, n_in as nat, got, unread(*rb));
        assert(take_effect(
            start,
            arrived,
            block_len(resampler_next, hop_size),
            step.block(),
            unread(*rb),
        ));
        law_block_is_the_oldest(start, arrived, n_in as nat, got, unread(*rb));
    }
    step
}

/// What a step of a worker found and left: the samples that arrived meanwhile, the length of a
/// block, the block if there was one, and what stayed in the buffer.
pub struct Taking {
    pub arrived: Seq<u32>,
    pub n: nat,
    pub block: Option<Seq<u32>>,
    pub after: Seq<u32>,
}

/// What a series of steps leaves in a buffer with `before` in it.
pub open spec fn left_by(before: Seq<u32>, steps: Seq<Taking>) -> Seq<u32> {
    if steps.len() == 0 {
        before
    } else {
        steps.last().after
    }
}

/// Whether each of a series of steps does what a step does to the buffer that those before it left.
pub open spec fn steps_follow(before: Seq<u32>, steps: Seq<Taking>) -> bool
    decreases steps.len(),
{
    steps.len() == 0 || (steps_follow(before, steps.drop_last()) && take_effect(
        left_by(before, steps.drop_last()),
        steps.last().arrived,
        steps.last().n,
        steps.last().block,
        steps.last().after,
    ))
}

/// All samples that arrived during a series of steps.
pub open spec fn all_arrived(steps: Seq<Taking>) -> Seq<u32>
    decreases steps.len(),
{
    if steps.len() == 0 {
        Seq::empty()
    } else {
        all_arrived(steps.drop_last()) + steps.last().arrived
    }
}

/// The blocks of a series of steps, joined.
pub open spec fn all_blocks(steps: Seq<Taking>) -> Seq<u32>
    decreases steps.len(),
{
    if steps.len() == 0 {
        Seq::empty()
    } else {
        all_blocks(steps.drop_last()) + match steps.last().block {
            Some(b) => b,
            None => Seq::empty(),
        }
    }
}

/// The number of blocks of a series of steps.
pub open spec fn block_count(steps: Seq<Taking>) -> nat
    decreases steps.len(),
{
    if steps.len() == 0 {
        0
    } else if steps.last().block is Some {
        block_count(steps.drop_last()) + 1
    } else {
        block_count(steps.drop_last())
    }
}

/// The blocks of a series of steps, joined, and what stays in the buffer are what was in the buffer
/// and what arrived: in order, with nothing lost, doubled or changed.
pub proof fn law_blocks_join(before: Seq<u32>, steps: Seq<Taking>)
    requires
        steps_follow(before, steps),
    ensures
        all_blocks(steps) + left_by(before, steps) == before + all_arrived(steps),
    decreases steps.len(),
{
    if steps.len() == 0 {
        assert(all_blocks(steps) + before =~= before + all_arrived(steps));
    } else {
        let fewer = steps.drop_last();
        law_blocks_join(before, fewer);
        let here = left_by(before, fewer);
        let step = steps.last();
        let blocks = all_blocks(fewer);
        let joined = (blocks + here) + step.arrived;
        assert(joined =~= blocks + (here + step.arrived));
        assert(joined =~= before + all_arrived(steps));
        assert(all_blocks(steps) + step.after =~= joined);
    }
}

/// As many blocks come out as whole frames went in, once a step finds too few samples.
pub proof fn law_whole_blocks_come_out(before: Seq<u32>, steps: Seq<Taking>, hop: nat)
    requires
        steps_follow(before, steps),
        steps.len() > 0,
        steps.last().block is None,
        forall|k: int| 0 <= k < steps.len() ==> (#[trigger] steps[k]).n == hop,
    ensures
        block_count(steps) == (before.len() + all_arrived(steps).len()) / hop,
{
    law_blocks_join(before, steps);
    lemma_blocks_are_whole(before, steps, hop);
    let total = before.len() + all_arrived(steps).len();
    let rest = left_by(before, steps).len();
    assert((all_blocks(steps) + left_by(before, steps)).len() == total);
    assert(steps[steps.len() - 1].n == hop);
    lemma_fundamental_div_mod_converse(
        total as int,
        hop as int,
        block_count(steps) as int,
        rest as int,
    );
}

proof fn lemma_blocks_are_whole(before: Seq<u32>, steps: Seq<Taking>, hop: nat)
    requires
        steps_follow(before, steps),
        forall|k: int| 0 <= k < steps.len() ==> (#[trigger] steps[k]).n == hop,
    ensures
        all_blocks(steps).len() == block_count(steps) * hop,
    decreases steps.len(),
{
    if steps.len() > 0 {
        let fewer = steps.drop_last();
        assert forall|k: int| 0 <= k < fewer.len() implies (#[trigger] fewer[k]).n == hop by {
            assert(fewer[k] == steps[k]);
        }
        lemma_blocks_are_whole(before, fewer, hop);
        assert(steps[steps.len() - 1].n == hop);
        let c = block_count(fewer);
        assert((c + 1) * hop == c * hop + hop) by (nonlinear_arith);
    } else {
        assert(0 * hop == 0) by (nonlinear_arith);
    }
}

/// The number of samples in a block.
pub open spec fn block_len(resampler_next: Option<usize>, hop_size: usize) -> nat {
    match resampler_next {
        Some(n) => n as nat,
        None => hop_size as nat,
    }
}

/// The engine setting that a control changes.
pub open spec fn setting_of(c: DfControl, v: Single) -> EngineSetting {
    match c {
        DfControl::AttenLim => EngineSetting::AttenLim(v),
        DfControl::PostFilterBeta => EngineSetting::PfBeta(v),
        DfControl::MinThreshDb => EngineSetting::MinDbThresh(v),
        DfControl::MaxErbThreshDb => EngineSetting::MaxDbErbThresh(v),
        DfControl::MaxDfThreshDb => EngineSetting::MaxDbDfThresh(v),
    }
}

/// The engine setting that a control changes.
pub fn engine_setting(c: DfControl, v: Single) -> (s: EngineSetting)
    ensures
        s == setting_of(c, v),
        s.value() == v,
{
    match c {
        DfControl::AttenLim => EngineSetting::AttenLim(v),
        DfControl::PostFilterBeta => EngineSetting::PfBeta(v),
        DfControl::MinThreshDb => EngineSetting::MinDbThresh(v),
        DfControl::MaxErbThreshDb => EngineSetting::MaxDbErbThresh(v),
        DfControl::MaxDfThreshDb => EngineSetting::MaxDbDfThresh(v),
    }
}

/// Where a resampler asks for `n` samples, a step hands out a block exactly where so many are there,
/// whether `n` is less or more than the frame of the engine. The block is the oldest `n` samples, and
/// the others stay in order.
pub proof fn law_resampler_gets_what_it_asks_for(
    n: usize,
    hop_size: usize,
    before: Seq<u32>,
    arrived: Seq<u32>,
    block: Option<Seq<u32>>,
    after: Seq<u32>,
)
    requires
        take_effect(before, arrived, block_len(Some(n), hop_size), block, after),
    ensures
        block is Some <==> before.len() + arrived.len() >= n,
        block matches Some(b) ==> b.len() == n && b == (before + arrived).take(n as int) && after == (
        before + arrived).skip(n as int),
{
    law_block_is_the_oldest(before, arrived, n as nat, block, after);
}

/// Without a resampler, a step hands out a block exactly where the frame of the engine is there. The
/// block is that frame, and the other samples stay in order.
pub proof fn law_engine_gets_frames(
    hop_size: usize,
    before: Seq<u32>,
    arrived: Seq<u32>,
    block: Option<Seq<u32>>,
    after: Seq<u32>,
)
    requires
        take_effect(before, arrived, block_len(None, hop_size), block, after),
    ensures
        block is Some <==> before.len() + arrived.len() >= hop_size,
        block matches Some(b) ==> b.len() == hop_size && b == (before + arrived).take(
            hop_size as int,
        ) && after == (before + arrived).skip(hop_size as int),
{
    law_block_is_the_oldest(before, arrived, hop_size as nat, block, after);
}

/// The block of a step is what it is to process; a step that stops or sleeps has none.
pub proof fn law_block_of_a_step(step: WorkerStep)
    ensures
        step matches WorkerStep::Process(b) ==> step.block() == Some(b@),
        step is Process <==> step.block() is Some,
{
}

/// Every control sets the engine setting of the same name to the very value that was sent, bit for
/// bit.
pub proof fn law_controls_set_their_settings(v: Single)
    ensures
        setting_of(DfControl::AttenLim, v) == EngineSetting::AttenLim(v),
        setting_of(DfControl::PostFilterBeta, v) == EngineSetting::PfBeta(v),
        setting_of(DfControl::MinThreshDb, v) == EngineSetting::MinDbThresh(v),
        setting_of(DfControl::MaxErbThreshDb, v) == EngineSetting::MaxDbErbThresh(v),
        setting_of(DfControl::MaxDfThreshDb, v) == EngineSetting::MaxDbDfThresh(v),
{
}

/// The engine tells apart whatever the user tells apart: two changes that lead to the same setting
/// are the same change.
pub proof fn law_settings_tell_changes_apart(c: DfControl, v: Single, d: DfControl, w: Single)
    requires
        setting_of(c, v) == setting_of(d, w),
    ensures
        c == d,
        v.bits == w.bits,
{
}

/// A worker reports no error exactly where its engine started and a first frame went through. The
/// words of an engine that did not start come before those of the first frame.
pub proof fn law_startup_is_told_truly(engine: Result<(), String>, first: Result<(), String>)
    ensures
        startup_error(engine, first) is None <==> engine is Ok && first is Ok,
        engine matches Err(e) ==> startup_error(engine, first) == Some(
            "Could not initialize DeepFilter runtime: "@ + e@,
        ),
        engine is Ok ==> (first matches Err(e) ==> startup_error(engine, first) == Some(
            "Failed to run DeepFilterNet: "@ + e@,
        )),
{
}

} // verus!
