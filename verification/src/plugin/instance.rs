//! The state of a plugin instance, and how it reacts to its worker and to its load.

use crate::plugin::control::DfControl;
use crate::plugin::control::DfControlHistory;
use crate::plugin::queue::aligned;
use crate::plugin::queue::padded;
use crate::plugin::queue::without_oldest;
use crate::plugin::queue::SampleQueue;
use crate::single::lemma_named_values;
use crate::single::lemma_whole_is_natural;
use crate::single::unit;
use crate::single::Single;
use crate::single::HALF;
use crate::single::HUNDRED;
use crate::single::ONE;
use vstd::arithmetic::div_mod::lemma_fundamental_div_mod;
use vstd::arithmetic::div_mod::lemma_mod_add_multiples_vanish;
use vstd::arithmetic::div_mod::lemma_mod_bound;
use vstd::arithmetic::div_mod::lemma_mod_self_0;
use vstd::arithmetic::div_mod::lemma_mod_sub_multiples_vanish;
use vstd::arithmetic::power2::lemma_pow2_pos;
use vstd::prelude::*;

verus! {

/// Number of frames that the worker may be late before it counts as stalled.
pub const WORKER_STALL_FRAMES: u32 = 10;

/// Number of sleeps in the time of one frame.
pub const SLEEPS_PER_FRAME: u32 = 5;

/// The longest time span that can be told, in nanoseconds.
pub const MAX_NANOS: u128 = 18446744073709551615999999999;

/// What came of handing a control change to the worker.
#[derive(Clone, Copy, Debug, PartialEq, Eq, Structural)]
pub enum SendOutcome {
    Sent,
    Full,
    Disconnected,
}

/// What a control port asks for.
#[derive(Clone, Copy, Debug, PartialEq, Eq, Structural)]
pub struct ControlStep {
    /// The inputs are to be handed through to the outputs.
    pub pass_through: bool,
    /// The value is to be handed to the worker.
    pub send: bool,
}

/// What to do when too few processed samples are there.
#[derive(Clone, Copy, Debug, PartialEq, Eq, Structural)]
pub enum Miss {
    /// The worker has terminated.
    WorkerTerminated,
    /// The worker has missed its deadline.
    DeadlineMissed,
    /// Sleep, then look again.
    Wait,
}

/// How a run has changed the latency.
#[derive(Clone, Copy, Debug, PartialEq, Eq, Structural)]
pub enum LatencyChange {
    Increased,
    Decreased,
    Unchanged,
}

/// A plugin instance.
#[derive(Clone, Copy, Debug)]
pub struct DfPlugin {
    /// Number of audio channels.
    pub ch: usize,
    /// Sample rate in Hz.
    pub sr: usize,
    /// Number of samples that the worker processes at a time.
    pub frame_size: usize,
    /// The latency in samples.
    pub proc_delay: usize,
    /// Number of runs since the latency last changed.
    pub t_proc_change: usize,
    /// How long to sleep between two looks at the output queue, in nanoseconds.
    pub sleep_nanos: u128,
    /// The control values that the worker has.
    pub control_hist: DfControlHistory,
    /// The worker was told to stop.
    pub cancelled: bool,
    /// The worker is no longer used: the inputs are handed through.
    pub worker_failed: bool,
}

impl DfPlugin {
    /// The state of an instance that can run: the latency is a whole number of frames and less
    /// than a second and a frame.
    pub open spec fn wf(self) -> bool {
        &&& self.frame_size > 0
        &&& self.proc_delay % self.frame_size == 0
        &&& self.proc_delay < self.sr + self.frame_size
        &&& self.sr + self.frame_size <= usize::MAX
        &&& 10 * self.sr <= usize::MAX
        &&& self.sleep_nanos * (WORKER_STALL_FRAMES * SLEEPS_PER_FRAME) <= MAX_NANOS
    }

    /// The same instance with its worker given up.
    pub open spec fn failed(self) -> DfPlugin {
        DfPlugin { cancelled: true, worker_failed: true, ..self }
    }

    /// Whether the last change of the latency is long enough ago, the load `rtf` low enough and
    /// the latency high enough, given the number of frames to keep, to reduce the latency.
    pub open spec fn may_shrink(self, rtf: Single) -> bool {
        &&& self.settled(rtf)
        &&& self.proc_delay >= self.frame_size * (1 + self.control_hist.min_buffer_frames.whole())
    }

    /// Whether the last change of the latency is long enough ago and the load low enough.
    pub open spec fn settled(self, rtf: Single) -> bool {
        &&& self.t_proc_change > (10 * self.sr) / (self.frame_size as int)
        &&& rtf.is_below(Single { bits: HALF })
    }

    /// Whether processing takes at least as long as the audio lasts.
    pub open spec fn overloaded(rtf: Single) -> bool {
        rtf.not_below(Single { bits: ONE })
    }

    /// What the value of a control port asks for: an attenuation limit of at least 100 dB hands
    /// the inputs through, and a value other than the one that the worker has is sent.
    pub open spec fn asks_for(self, c: DfControl, v: Single) -> ControlStep {
        ControlStep {
            pass_through: c == DfControl::AttenLim && v.not_below(Single { bits: HUNDRED }),
            send: !v.same_number(self.control_hist.value(c)),
        }
    }

    /// The instance after a control value was handed to the worker with the given outcome.
    pub open spec fn noted(self, c: DfControl, v: Single, outcome: SendOutcome) -> DfPlugin {
        match outcome {
            SendOutcome::Sent => DfPlugin { control_hist: self.control_hist.updated(c, v), ..self },
            SendOutcome::Full => self,
            SendOutcome::Disconnected => self.failed(),
        }
    }

    /// What to do when too few processed samples are there.
    pub open spec fn reaction(self, worker_finished: bool, elapsed_nanos: u128) -> Miss {
        if worker_finished {
            Miss::WorkerTerminated
        } else if elapsed_nanos >= self.sleep_nanos * (WORKER_STALL_FRAMES * SLEEPS_PER_FRAME) {
            Miss::DeadlineMissed
        } else {
            Miss::Wait
        }
    }

    /// How a run with load `rtf` changes the latency, when the output queue holds `backlog`
    /// samples at its end.
    pub open spec fn change_under(self, rtf: Single, backlog: nat) -> LatencyChange {
        if DfPlugin::overloaded(rtf) {
            LatencyChange::Increased
        } else if self.may_shrink(rtf) && backlog >= self.frame_size {
            LatencyChange::Decreased
        } else {
            LatencyChange::Unchanged
        }
    }

    /// The instance after a run that changes the latency as given.
    pub open spec fn adapted(self, change: LatencyChange) -> DfPlugin {
        match change {
            LatencyChange::Increased => DfPlugin {
                proc_delay: (self.proc_delay + self.frame_size) as usize,
                t_proc_change: 1,
                ..self
            },
            LatencyChange::Decreased => DfPlugin {
                proc_delay: (self.proc_delay - self.frame_size) as usize,
                t_proc_change: 1,
                ..self
            },
            LatencyChange::Unchanged => DfPlugin {
                t_proc_change: (self.t_proc_change + 1) as usize,
                ..self
            },
        }
    }

    /// A new instance for a model with the given sample rate and frame size. The host runs at
    /// the rate of the model.
    pub fn new(
        channels: usize,
        model_sr: usize,
        hop: usize,
        sample_rate: u64,
        sleep_nanos: u128,
        worker_failed: bool,
    ) -> (p: DfPlugin)
        requires
            model_sr == sample_rate,
            hop > 0,
            model_sr > 0,
            model_sr + hop <= usize::MAX,
            10 * model_sr <= usize::MAX,
            sleep_nanos * (WORKER_STALL_FRAMES * SLEEPS_PER_FRAME) <= MAX_NANOS,
        ensures
            p.wf(),
            p.ch == channels,
            p.sr == model_sr,
            p.frame_size == hop,
            p.proc_delay == hop,
            p.t_proc_change == 0,
            p.sleep_nanos == sleep_nanos,
            p.control_hist == DfControlHistory::starting(),
            p.cancelled == worker_failed,
            p.worker_failed == worker_failed,
    {
        proof {
            lemma_mod_self_0(hop as int);
        }
        DfPlugin {
            ch: channels,
            sr: model_sr,
            frame_size: hop,
            proc_delay: hop,
            t_proc_change: 0,
            sleep_nanos,
            control_hist: DfControlHistory::default(),
            cancelled: worker_failed,
            worker_failed,
        }
    }

    /// Gives the worker up. Tells whether it was in use until now.
    pub fn fail_worker(&mut self) -> (first: bool)
        ensures
            *final(self) == old(self).failed(),
            first == !old(self).worker_failed,
    {
        let first: bool = !self.worker_failed;
        if first {
            self.worker_failed = true;
        }
        self.cancelled = true;
        first
    }

    /// Decides at the start of a run whether the inputs are handed through, because the worker
    /// was given up or has terminated.
    pub fn begin_run(&mut self, worker_finished: bool) -> (bypass: bool)
        ensures
            bypass == (old(self).worker_failed || worker_finished),
            *final(self) == if !old(self).worker_failed && worker_finished {
                old(self).failed()
            } else {
                *old(self)
            },
    {
        if self.worker_failed || worker_finished {
            if !self.worker_failed {
                self.fail_worker();
            }
            return true;
        }
        false
    }

    /// What the value of a control port asks for.
    pub fn control_step(&self, c: &DfControl, v: Single) -> (s: ControlStep)
        ensures
            s == self.asks_for(*c, v),
    {
        let limit: Single = Single::from_bits(HUNDRED);
        ControlStep {
            pass_through: *c == DfControl::AttenLim && v.at_least(limit),
            send: !v.equals(self.control_hist.get(c)),
        }
    }

    /// Takes note of what came of sending a control value. Tells whether the worker was given
    /// up now.
    pub fn control_sent(&mut self, c: &DfControl, v: Single, outcome: SendOutcome) -> (first: bool)
        ensures
            *final(self) == old(self).noted(*c, v, outcome),
            first == (outcome == SendOutcome::Disconnected && !old(self).worker_failed),
    {
        match outcome {
            SendOutcome::Sent => {
                self.control_hist.set(c, v);
                false
            },
            SendOutcome::Full => false,
            SendOutcome::Disconnected => self.fail_worker(),
        }
    }

    /// Decides what to do when too few processed samples are there: a terminated worker, or one
    /// that is late by the time of several frames, is given up.
    pub fn missed(&mut self, worker_finished: bool, elapsed_nanos: u128) -> (m: Miss)
        requires
            old(self).wf(),
        ensures
            m == old(self).reaction(worker_finished, elapsed_nanos),
            worker_finished ==> m == Miss::WorkerTerminated,
            !worker_finished ==> (m == Miss::Wait <==> elapsed_nanos < 50 * old(self).sleep_nanos),
            *final(self) == if m == Miss::Wait {
                *old(self)
            } else {
                old(self).failed()
            },
    {
        proof {
            lemma_fifty_sleeps(self.sleep_nanos);
        }
        if worker_finished {
            self.fail_worker();
            return Miss::WorkerTerminated;
        }
        if elapsed_nanos >= self.sleep_nanos * ((WORKER_STALL_FRAMES * SLEEPS_PER_FRAME) as u128) {
            self.fail_worker();
            return Miss::DeadlineMissed;
        }
        Miss::Wait
    }

    /// Adapts the latency to the load `rtf`, the time that a run took in relation to the time
    /// that its audio lasts.
    ///
    /// Under overload the latency grows by a frame, and a frame of silence joins the output
    /// queue. When the load has been low for long enough, the latency shrinks by a frame and the
    /// oldest frame leaves the queue, provided that the queue holds one.
    pub fn adapt<T: Copy>(&mut self, out: &mut SampleQueue<T>, rtf: Single, silence: T) -> (change:
        LatencyChange)
        requires
            old(self).wf(),
            old(out)@.len() > 0,
            aligned(old(out)@),
            DfPlugin::overloaded(rtf) ==> old(self).proc_delay < old(self).sr,
            old(self).t_proc_change < usize::MAX,
            old(self).settled(rtf) ==> old(self).frame_size * (1 + old(
                self,
            ).control_hist.min_buffer_frames.whole()) <= usize::MAX,
        ensures
            final(self).wf(),
            change == old(self).change_under(rtf, old(out)@[0].len()),
            *final(self) == old(self).adapted(change),
            final(out)@ == match change {
                LatencyChange::Increased => padded(old(out)@, old(self).frame_size as nat, silence),
                LatencyChange::Decreased => without_oldest(old(out)@, old(self).frame_size as nat),
                LatencyChange::Unchanged => old(out)@,
            },
    {
        let one: Single = Single::from_bits(ONE);
        let half: Single = Single::from_bits(HALF);
        let mut change: LatencyChange = LatencyChange::Unchanged;
        let frame: usize = self.frame_size;
        proof {
            let d = self.proc_delay as int;
            let f = frame as int;
            lemma_mod_add_multiples_vanish(d, f);
            lemma_mod_sub_multiples_vanish(d, f);
        }
        if rtf.at_least(one) {
            self.proc_delay = self.proc_delay + frame;
            self.t_proc_change = 0;
            out.pad(frame, silence);
            change = LatencyChange::Increased;
        } else if self.t_proc_change > 10 * self.sr / frame && rtf.below(half) {
            let keep: usize = self.control_hist.min_buffer_frames.to_whole();
            proof {
                let k = keep as int;
                let f = frame as int;
                assert(f * (1 + k) >= 1 + k && f * (1 + k) >= f) by (nonlinear_arith)
                    requires
                        f >= 1,
                        k >= 0,
                ;
            }
            if self.proc_delay >= frame * (1 + keep) && out.backlog() >= frame {
                assert forall|i: int| 0 <= i < out@.len() implies #[trigger] out@[i].len() >= frame by {
                    assert(out@[i].len() == out@[0].len());
                }
                out.drop_oldest(frame);
                self.proc_delay = self.proc_delay - frame;
                self.t_proc_change = 0;
                change = LatencyChange::Decreased;
            }
        }
        self.t_proc_change = self.t_proc_change + 1;
        change
    }
}

/// A value that was sent is not sent again as long as it stays, unless it is not a number; what
/// the other controls ask for is not touched.
pub proof fn law_sent_value_is_not_resent(
    p: DfPlugin,
    c: DfControl,
    v: Single,
    d: DfControl,
    w: Single,
)
    ensures
        !v.is_nan() ==> !p.noted(c, v, SendOutcome::Sent).asks_for(c, v).send,
        v.is_nan() ==> p.noted(c, v, SendOutcome::Sent).asks_for(c, v).send,
        d != c ==> p.noted(c, v, SendOutcome::Sent).asks_for(d, w) == p.asks_for(d, w),
{
}

/// A value that the worker could not take is asked for again.
pub proof fn law_unsent_value_is_asked_again(p: DfPlugin, c: DfControl, v: Single)
    ensures
        p.noted(c, v, SendOutcome::Full).asks_for(c, v) == p.asks_for(c, v),
        p.noted(c, v, SendOutcome::Disconnected).asks_for(c, v) == p.asks_for(c, v),
{
}

/// A worker that was given up stays given up, whatever follows.
pub proof fn law_failure_is_final(
    p: DfPlugin,
    c: DfControl,
    v: Single,
    outcome: SendOutcome,
    change: LatencyChange,
)
    requires
        p.worker_failed,
    ensures
        p.failed().worker_failed,
        p.noted(c, v, outcome).worker_failed,
        p.adapted(change).worker_failed,
{
}

/// The worker is told to stop exactly when it was given up: every step of a run keeps this.
pub proof fn law_cancelled_means_failed(
    p: DfPlugin,
    c: DfControl,
    v: Single,
    outcome: SendOutcome,
    change: LatencyChange,
)
    requires
        p.cancelled == p.worker_failed,
    ensures
        p.failed().cancelled == p.failed().worker_failed,
        p.noted(c, v, outcome).cancelled == p.noted(c, v, outcome).worker_failed,
        p.adapted(change).cancelled == p.adapted(change).worker_failed,
{
}

/// A reduced latency still holds the frames that the user asked to keep.
pub proof fn law_shrinking_keeps_buffer(p: DfPlugin, rtf: Single, backlog: nat)
    requires
        p.wf(),
        p.change_under(rtf, backlog) == LatencyChange::Decreased,
    ensures
        p.adapted(LatencyChange::Decreased).proc_delay >= p.frame_size
            * p.control_hist.min_buffer_frames.whole(),
{
    let f = p.frame_size as int;
    let k = p.control_hist.min_buffer_frames.whole();
    lemma_whole_is_natural(p.control_hist.min_buffer_frames);
    assert(f * (1 + k) == f + f * k && f * k >= 0) by (nonlinear_arith)
        requires
            f >= 0,
            k >= 0,
    ;
}

/// The instance after a series of runs, each with its load and backlog.
pub open spec fn after_runs(p: DfPlugin, loads: Seq<(Single, nat)>) -> DfPlugin
    decreases loads.len(),
{
    if loads.len() == 0 {
        p
    } else {
        let before = after_runs(p, loads.drop_last());
        before.adapted(before.change_under(loads.last().0, loads.last().1))
    }
}

/// The latency is not reduced again before ten seconds worth of frames have been run since it
/// last changed.
pub proof fn law_latency_rests_after_change(
    p: DfPlugin,
    loads: Seq<(Single, nat)>,
    rtf: Single,
    backlog: nat,
)
    requires
        p.frame_size > 0,
        p.t_proc_change <= 1,
        loads.len() < usize::MAX,
        1 + loads.len() <= (10 * p.sr) / (p.frame_size as int),
    ensures
        after_runs(p, loads).change_under(rtf, backlog) != LatencyChange::Decreased,
{
    lemma_runs_are_counted(p, loads);
}

proof fn lemma_runs_are_counted(p: DfPlugin, loads: Seq<(Single, nat)>)
    requires
        p.t_proc_change <= 1,
        loads.len() < usize::MAX,
    ensures
        after_runs(p, loads).t_proc_change <= 1 + loads.len(),
        after_runs(p, loads).sr == p.sr,
        after_runs(p, loads).frame_size == p.frame_size,
    decreases loads.len(),
{
    if loads.len() > 0 {
        lemma_runs_are_counted(p, loads.drop_last());
    }
}

/// A running worker is waited for until the time of ten frames is up, which is fifty sleeps, and a
/// terminated one not at all.
pub proof fn law_running_worker_is_waited_for(p: DfPlugin, elapsed_nanos: u128)
    ensures
        p.reaction(false, elapsed_nanos) == Miss::Wait <==> elapsed_nanos < 50 * p.sleep_nanos,
        p.reaction(false, elapsed_nanos) == Miss::DeadlineMissed <==> elapsed_nanos >= 50
            * p.sleep_nanos,
        p.reaction(true, elapsed_nanos) == Miss::WorkerTerminated,
{
    lemma_fifty_sleeps(p.sleep_nanos);
}

/// The time of the frames that the worker may be late is that of fifty sleeps.
proof fn lemma_fifty_sleeps(sleep_nanos: u128)
    ensures
        sleep_nanos * (WORKER_STALL_FRAMES * SLEEPS_PER_FRAME) == 50 * sleep_nanos,
{
    let n = WORKER_STALL_FRAMES * SLEEPS_PER_FRAME;
    assert(n == 50) by (nonlinear_arith)
        requires
            n == WORKER_STALL_FRAMES * SLEEPS_PER_FRAME,
            WORKER_STALL_FRAMES == 10,
            SLEEPS_PER_FRAME == 5,
    ;
    assert(sleep_nanos * n == 50 * sleep_nanos) by (nonlinear_arith)
        requires
            n == 50,
    ;
}

/// Waiting longer never turns a missed deadline into more waiting, and a longer sleep never turns
/// waiting into a missed deadline.
pub proof fn law_deadline_is_monotone(p: DfPlugin, q: DfPlugin, earlier: u128, later: u128)
    requires
        earlier <= later,
        p.sleep_nanos <= q.sleep_nanos,
    ensures
        p.reaction(false, later) == Miss::Wait ==> q.reaction(false, earlier) == Miss::Wait,
{
    lemma_fifty_sleeps(p.sleep_nanos);
    lemma_fifty_sleeps(q.sleep_nanos);
}

/// What the value of a control port asks for, in numbers: an attenuation limit of 100 dB or more,
/// and no other control, hands the inputs through; a value is sent unless it is the number that
/// the worker has.
pub proof fn law_ports_ask_by_number(p: DfPlugin, c: DfControl, v: Single)
    ensures
        p.asks_for(c, v).pass_through <==> (c == DfControl::AttenLim && !v.is_nan() && v.units()
            >= 100 * unit()),
        p.asks_for(c, v).send <==> (v.is_nan() || p.control_hist.value(c).is_nan() || v.units()
            != p.control_hist.value(c).units()),
{
    lemma_named_values();
}

/// When a run changes the latency, in numbers: it grows where processing took at least as long as
/// the audio lasts. Otherwise it shrinks where processing took less than half of that, more runs
/// than make up ten seconds of frames have gone by since the last change, the latency holds a
/// frame more than the user asked to keep, and the queue holds a frame. It stays in all other
/// cases.
pub proof fn law_change_by_number(p: DfPlugin, rtf: Single, backlog: nat)
    requires
        p.frame_size > 0,
    ensures
        p.change_under(rtf, backlog) == LatencyChange::Increased <==> (!rtf.is_nan() && rtf.units()
            >= unit()),
        p.change_under(rtf, backlog) == LatencyChange::Decreased <==> {
            &&& !rtf.is_nan()
            &&& 2 * rtf.units() < unit()
            &&& p.t_proc_change * p.frame_size > 10 * p.sr
            &&& p.proc_delay >= p.frame_size + p.frame_size
                * p.control_hist.min_buffer_frames.whole()
            &&& backlog >= p.frame_size
        },
{
    lemma_named_values();
    lemma_pow2_pos(149);
    let t = p.t_proc_change as int;
    let f = p.frame_size as int;
    let x = 10 * p.sr;
    let q = x / f;
    let k = p.control_hist.min_buffer_frames.whole();
    lemma_fundamental_div_mod(x, f);
    lemma_mod_bound(x, f);
    let rem = x % f;
    assert(t > q <==> t * f > x) by (nonlinear_arith)
        requires
            x == f * q + rem,
            0 <= rem < f,
    ;
    assert(f * (1 + k) == f + f * k) by (nonlinear_arith);
}

/// What a change of the latency does: it moves the latency by a frame and starts the count of runs
/// anew, or counts a run; nothing else changes.
pub proof fn law_adaptation_by_fields(p: DfPlugin, change: LatencyChange)
    requires
        p.proc_delay + p.frame_size <= usize::MAX,
        p.frame_size <= p.proc_delay,
        p.t_proc_change < usize::MAX,
    ensures
        p.adapted(LatencyChange::Increased).proc_delay == p.proc_delay + p.frame_size,
        p.adapted(LatencyChange::Decreased).proc_delay == p.proc_delay - p.frame_size,
        p.adapted(LatencyChange::Unchanged).proc_delay == p.proc_delay,
        p.adapted(LatencyChange::Increased).t_proc_change == 1,
        p.adapted(LatencyChange::Decreased).t_proc_change == 1,
        p.adapted(LatencyChange::Unchanged).t_proc_change == p.t_proc_change + 1,
        p.adapted(change).ch == p.ch,
        p.adapted(change).sr == p.sr,
        p.adapted(change).frame_size == p.frame_size,
        p.adapted(change).sleep_nanos == p.sleep_nanos,
        p.adapted(change).control_hist == p.control_hist,
        p.adapted(change).cancelled == p.cancelled,
        p.adapted(change).worker_failed == p.worker_failed,
{
}

/// A latency that grew and then shrank is what it was.
pub proof fn law_shrinking_undoes_growth(p: DfPlugin)
    requires
        p.proc_delay + p.frame_size <= usize::MAX,
    ensures
        p.adapted(LatencyChange::Increased).adapted(LatencyChange::Decreased).proc_delay
            == p.proc_delay,
{
}

/// Giving a worker up sets both of its flags, and changes nothing else.
pub proof fn law_giving_up_by_fields(p: DfPlugin)
    ensures
        p.failed().worker_failed,
        p.failed().cancelled,
        p.failed().ch == p.ch,
        p.failed().sr == p.sr,
        p.failed().frame_size == p.frame_size,
        p.failed().proc_delay == p.proc_delay,
        p.failed().t_proc_change == p.t_proc_change,
        p.failed().sleep_nanos == p.sleep_nanos,
        p.failed().control_hist == p.control_hist,
        p.failed().failed() == p.failed(),
{
}

/// What comes of sending a value: the worker is given up exactly where it is gone, the history of
/// the control takes the value exactly where the worker took it, and nothing else changes.
pub proof fn law_outcomes_by_fields(
    p: DfPlugin,
    c: DfControl,
    v: Single,
    outcome: SendOutcome,
    d: DfControl,
)
    ensures
        p.noted(c, v, outcome).worker_failed <==> (p.worker_failed || outcome
            == SendOutcome::Disconnected),
        p.noted(c, v, outcome).cancelled <==> (p.cancelled || outcome == SendOutcome::Disconnected),
        p.noted(c, v, outcome).control_hist.value(d) == if outcome == SendOutcome::Sent && d == c {
            v
        } else {
            p.control_hist.value(d)
        },
        p.noted(c, v, outcome).ch == p.ch,
        p.noted(c, v, outcome).sr == p.sr,
        p.noted(c, v, outcome).frame_size == p.frame_size,
        p.noted(c, v, outcome).proc_delay == p.proc_delay,
        p.noted(c, v, outcome).t_proc_change == p.t_proc_change,
        p.noted(c, v, outcome).sleep_nanos == p.sleep_nanos,
{
}

/// What an instance that can run is: its latency is a whole number of frames and less than a
/// second and a frame.
pub proof fn law_valid_instance(p: DfPlugin)
    requires
        p.wf(),
    ensures
        p.frame_size > 0,
        exists|k: int| p.proc_delay == #[trigger] (p.frame_size * k),
        p.proc_delay < p.sr + p.frame_size,
{
    let f = p.frame_size as int;
    lemma_fundamental_div_mod(p.proc_delay as int, f);
    assert(p.proc_delay == f * (p.proc_delay as int / f));
}

} // verus!
