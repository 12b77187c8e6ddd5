//! One run of the plugin: a block of audio in, a block of audio out.

use crate::plugin::control::DfControl;
use crate::plugin::instance::law_ports_ask_by_number;
use crate::plugin::instance::law_sent_value_is_not_resent;
use crate::plugin::instance::DfPlugin;
use crate::plugin::instance::LatencyChange;
use crate::plugin::instance::Miss;
use crate::plugin::instance::SendOutcome;
use crate::plugin::queue::aligned;
use crate::plugin::queue::filled_block;
use crate::plugin::queue::padded;
use crate::plugin::queue::samples_of;
use crate::plugin::queue::with_block;
use crate::plugin::queue::without_block;
use crate::plugin::queue::without_oldest;
use crate::plugin::queue::SampleQueue;
use crate::single::unit;
use crate::single::Single;
use std::sync::mpsc::SyncSender;
use std::sync::mpsc::TrySendError;
use vstd::prelude::*;

verus! {

/// Rows of outputs with the inputs written over their beginnings.
pub open spec fn overlaid<T>(inputs: Seq<Seq<T>>, outputs: Seq<Seq<T>>) -> Seq<Seq<T>> {
    Seq::new(
        outputs.len(),
        |i: int|
            if i < inputs.len() {
                overlaid_row(inputs[i], outputs[i])
            } else {
                outputs[i]
            },
    )
}

/// A row of outputs with a row of inputs written over its beginning.
pub open spec fn overlaid_row<T>(input: Seq<T>, output: Seq<T>) -> Seq<T> {
    Seq::new(
        output.len(),
        |k: int|
            if k < input.len() {
                input[k]
            } else {
                output[k]
            },
    )
}

/// Writes the inputs over the beginnings of the outputs, channel by channel.
pub fn copy_through<T: Copy>(inputs: &Vec<Vec<T>>, outputs: &mut Vec<Vec<T>>)
    ensures
        samples_of(final(outputs)@) == overlaid(samples_of(inputs@), samples_of(old(outputs)@)),
{
    let ghost start = outputs@;
    let n: usize = outputs.len();
    let mut c: usize = 0;
    while c < n && c < inputs.len()
        invariant
            c <= n,
            c <= inputs@.len(),
            n == start.len(),
            outputs@.len() == n,
            forall|i: int|
                0 <= i < c ==> #[trigger] outputs@[i]@ == overlaid_row(inputs@[i]@, start[i]@),
            forall|i: int| c <= i < n ==> #[trigger] outputs@[i] == start[i],
        decreases n - c,
    {
        let len: usize = outputs[c].len();
        let row: &Vec<T> = &inputs[c];
        let mut k: usize = 0;
        while k < len && k < row.len()
            invariant
                k <= len,
                k <= row@.len(),
                c < n,
                c < inputs@.len(),
                n == start.len(),
                outputs@.len() == n,
                row@ == inputs@[c as int]@,
                len == start[c as int]@.len(),
                outputs@[c as int]@.len() == len,
                forall|j: int| 0 <= j < k ==> #[trigger] outputs@[c as int]@[j] == row@[j],
                forall|j: int|
                    k <= j < len ==> #[trigger] outputs@[c as int]@[j] == start[c as int]@[j],
                forall|i: int|
                    0 <= i < c ==> #[trigger] outputs@[i]@ == overlaid_row(inputs@[i]@, start[i]@),
                forall|i: int| c < i < n ==> #[trigger] outputs@[i] == start[i],
            decreases len - k,
        {
            let ghost before = outputs@;
            outputs[c][k] = row[k];
            assert forall|i: int| 0 <= i < n && i != c implies #[trigger] outputs@[i] == before[i] by {}
            k = k + 1;
        }
        assert(outputs@[c as int]@ =~= overlaid_row(row@, start[c as int]@));
        c = c + 1;
    }
    assert(samples_of(outputs@) =~= overlaid(samples_of(inputs@), samples_of(start)));
}

/// How far a run has come.
#[derive(Clone, Copy, Debug, PartialEq, Eq, Structural)]
pub enum Phase {
    /// The control ports are walked.
    Controls,
    /// The inputs wait to be appended to the input queue.
    Enqueue,
    /// The outputs wait for processed samples.
    Deliver,
    /// The outputs are filled; the load is still to be accounted for.
    Measure,
    /// The outputs are final.
    Done,
}

/// A run in progress.
pub struct Run<T> {
    pub inputs: Vec<Vec<T>>,
    pub outputs: Vec<Vec<T>>,
    /// The control ports with their values.
    pub ports: Vec<(DfControl, Single)>,
    /// The port that comes next.
    pub next: usize,
    pub phase: Phase,
}

/// Whether one of the ports from `from` up to, but without, `to` hands the inputs through.
pub open spec fn hands_through(
    p: DfPlugin,
    ports: Seq<(DfControl, Single)>,
    from: int,
    to: int,
) -> bool {
    exists|i: int|
        from <= i < to && 0 <= i < ports.len() && #[trigger] p.asks_for(
            ports[i].0,
            ports[i].1,
        ).pass_through
}

/// An instance after the control ports were walked, given what came of sending the value of each
/// port that asked for it.
pub open spec fn after_controls(
    p: DfPlugin,
    ports: Seq<(DfControl, Single)>,
    outcomes: Seq<SendOutcome>,
) -> DfPlugin
    decreases ports.len(),
{
    if ports.len() == 0 {
        p
    } else {
        let before = after_controls(p, ports.drop_last(), outcomes);
        let (c, v) = ports.last();
        if before.asks_for(c, v).send {
            before.noted(c, v, outcomes[ports.len() - 1])
        } else {
            before
        }
    }
}

/// What is offered to the worker when the control ports are walked, in order: the value of each
/// port that asks for it, with what came of it.
pub open spec fn offered(
    p: DfPlugin,
    ports: Seq<(DfControl, Single)>,
    outcomes: Seq<SendOutcome>,
) -> Seq<(DfControl, Single, SendOutcome)>
    decreases ports.len(),
{
    if ports.len() == 0 {
        Seq::empty()
    } else {
        let rest = offered(p, ports.drop_last(), outcomes);
        let (c, v) = ports.last();
        if after_controls(p, ports.drop_last(), outcomes).asks_for(c, v).send {
            rest.push((c, v, outcomes[ports.len() - 1]))
        } else {
            rest
        }
    }
}

/// The sending end of a channel of the standard library.
#[verifier::external_type_specification]
#[verifier::external_body]
#[verifier::reject_recursive_types(T)]
pub struct ExSyncSender<T>(std::sync::mpsc::SyncSender<T>);

/// The control values that were offered through a sending end with [`SyncSender::try_send`], in
/// order, each with what came of it.
pub uninterp spec fn offers(tx: SyncSender<(DfControl, Single)>) -> Seq<
    (DfControl, Single, SendOutcome),
>;

/// Calls [`SyncSender::try_send`], which hands a message to a channel that has room for it. The
/// value and what came of it join the offers. Which outcome it is rests on the other side of the
/// channel, and nothing is claimed of that.
#[verifier::external_body]
fn offer(tx: &mut SyncSender<(DfControl, Single)>, c: DfControl, v: Single) -> (outcome: SendOutcome)
    ensures
        offers(*final(tx)) == offers(*old(tx)).push((c, v, outcome)),
{
    match tx.try_send((c, v)) {
        Ok(()) => SendOutcome::Sent,
        Err(TrySendError::Full(_)) => SendOutcome::Full,
        Err(TrySendError::Disconnected(_)) => SendOutcome::Disconnected,
    }
}

impl<T> Run<T> {
    /// The shape of a run: every input has an output of the same length.
    pub open spec fn wf(self) -> bool {
        &&& self.inputs@.len() == self.outputs@.len()
        &&& forall|i: int|
            0 <= i < self.inputs@.len() ==> #[trigger] self.inputs@[i]@.len()
                == self.outputs@[i]@.len()
        &&& self.next <= self.ports@.len()
    }

    /// Whether the outputs are the inputs.
    pub open spec fn bypassed(self) -> bool {
        samples_of(self.outputs@) == samples_of(self.inputs@)
    }

    /// What no step of a run changes.
    pub open spec fn same_task(self, other: Run<T>) -> bool {
        &&& self.inputs@ == other.inputs@
        &&& self.ports@ == other.ports@
    }
}

impl<T: Copy> Run<T> {
    /// Starts a run. It is done at once, with the inputs handed through, if the worker was given
    /// up or has terminated.
    pub fn begin(
        plugin: &mut DfPlugin,
        worker_finished: bool,
        inputs: Vec<Vec<T>>,
        outputs: Vec<Vec<T>>,
        ports: Vec<(DfControl, Single)>,
    ) -> (run: Run<T>)
        requires
            inputs@.len() == outputs@.len(),
            forall|i: int|
                0 <= i < inputs@.len() ==> #[trigger] inputs@[i]@.len() == outputs@[i]@.len(),
        ensures
            run.wf(),
            run.inputs@ == inputs@,
            run.ports@ == ports@,
            run.next == 0,
            if old(plugin).worker_failed || worker_finished {
                &&& run.phase == Phase::Done
                &&& run.bypassed()
                &&& *final(plugin) == if old(plugin).worker_failed {
                    *old(plugin)
                } else {
                    old(plugin).failed()
                }
            } else {
                &&& run.phase == Phase::Controls
                &&& run.outputs@ == outputs@
                &&& *final(plugin) == *old(plugin)
            },
    {
        let bypass: bool = plugin.begin_run(worker_finished);
        let mut run: Run<T> = Run { inputs, outputs, ports, next: 0, phase: Phase::Controls };
        if bypass {
            run.hand_through();
            run.phase = Phase::Done;
        }
        run
    }

    /// Hands the inputs through.
    fn hand_through(&mut self)
        requires
            old(self).wf(),
        ensures
            final(self).wf(),
            final(self).bypassed(),
            final(self).same_task(*old(self)),
            final(self).next == old(self).next,
            final(self).phase == old(self).phase,
    {
        let ghost start = self.outputs@;
        copy_through(&self.inputs, &mut self.outputs);
        proof {
            let a = samples_of(self.inputs@);
            let b = samples_of(start);
            assert forall|i: int| 0 <= i < a.len() implies overlaid(a, b)[i] == a[i] by {
                assert(self.inputs@[i]@.len() == start[i]@.len());
                assert(overlaid_row(a[i], b[i]) =~= a[i]);
            }
            assert(overlaid(a, b) =~= a);
            assert forall|i: int| 0 <= i < self.inputs@.len() implies #[trigger] self.inputs@[i]@.len()
                == self.outputs@[i]@.len() by {
                assert(samples_of(self.outputs@)[i] == samples_of(self.inputs@)[i]);
            }
        }
    }

    /// Walks the control ports up to the first one whose value is to be sent to the worker, and
    /// returns it. After the last port the run goes on to queue its inputs, or is done with the
    /// inputs handed through if the worker was given up meanwhile.
    pub fn next_control(&mut self, plugin: &DfPlugin) -> (offer: Option<(DfControl, Single)>)
        requires
            old(self).wf(),
            old(self).phase == Phase::Controls,
        ensures
            final(self).wf(),
            final(self).same_task(*old(self)),
            final(self).next >= old(self).next,
            forall|i: int|
                old(self).next <= i < final(self).next ==> !(#[trigger] plugin.asks_for(
                    old(self).ports@[i].0,
                    old(self).ports@[i].1,
                )).send,
            match offer {
                Some(port) => {
                    &&& final(self).next < old(self).ports@.len()
                    &&& port == old(self).ports@[final(self).next as int]
                    &&& plugin.asks_for(port.0, port.1).send
                    &&& final(self).phase == Phase::Controls
                    &&& if hands_through(
                        *plugin,
                        old(self).ports@,
                        old(self).next as int,
                        final(self).next + 1,
                    ) {
                        final(self).bypassed()
                    } else {
                        final(self).outputs@ == old(self).outputs@
                    }
                },
                None => {
                    &&& final(self).next == old(self).ports@.len()
                    &&& final(self).phase == if plugin.worker_failed {
                        Phase::Done
                    } else {
                        Phase::Enqueue
                    }
                    &&& if plugin.worker_failed || hands_through(
                        *plugin,
                        old(self).ports@,
                        old(self).next as int,
                        final(self).next as int,
                    ) {
                        final(self).bypassed()
                    } else {
                        final(self).outputs@ == old(self).outputs@
                    }
                },
            },
    {
        let ghost start = self.outputs@;
        let ghost first = self.next;
        let ghost task = *self;
        while self.next < self.ports.len()
            invariant
                self.wf(),
                task == *old(self),
                self.same_task(task),
                self.phase == Phase::Controls,
                first <= self.next,
                first == task.next,
                start == task.outputs@,
                forall|i: int|
                    first <= i < self.next ==> !(#[trigger] plugin.asks_for(
                        task.ports@[i].0,
                        task.ports@[i].1,
                    )).send,
                if hands_through(*plugin, task.ports@, first as int, self.next as int) {
                    self.bypassed()
                } else {
                    self.outputs@ == start
                },
            decreases self.ports@.len() - self.next,
        {
            let (c, v) = self.ports[self.next];
            let step = plugin.control_step(&c, v);
            let ghost at = self.next as int;
            let ghost ports = task.ports@;
            assert(ports[at] == (c, v));
            if step.pass_through {
                self.hand_through();
                assert(plugin.asks_for(ports[at].0, ports[at].1).pass_through);
                assert(hands_through(*plugin, ports, first as int, at + 1));
            } else {
                proof {
                    assert(hands_through(*plugin, ports, first as int, at + 1) == hands_through(
                        *plugin,
                        ports,
                        first as int,
                        at,
                    )) by {
                        if hands_through(*plugin, ports, first as int, at + 1) {
                            let i = choose|i: int|
                                first <= i < at + 1 && 0 <= i < ports.len()
                                    && #[trigger] plugin.asks_for(
                                    ports[i].0,
                                    ports[i].1,
                                ).pass_through;
                            assert(i != at);
                            assert(plugin.asks_for(ports[i].0, ports[i].1).pass_through);
                        }
                        if hands_through(*plugin, ports, first as int, at) {
                            let i = choose|i: int|
                                first <= i < at && 0 <= i < ports.len() && #[trigger] plugin.asks_for(
                                    ports[i].0,
                                    ports[i].1,
                                ).pass_through;
                            assert(plugin.asks_for(ports[i].0, ports[i].1).pass_through);
                        }
                    }
                }
            }
            if step.send {
                return Some((c, v));
            }
            self.next = self.next + 1;
        }
        if plugin.worker_failed {
            self.hand_through();
            self.phase = Phase::Done;
        } else {
            self.phase = Phase::Enqueue;
        }
        None
    }

    /// Takes note of what came of sending the value of the current port, and moves on to the
    /// next one. Tells whether the worker was given up now.
    pub fn control_sent(&mut self, plugin: &mut DfPlugin, outcome: SendOutcome) -> (first: bool)
        requires
            old(self).wf(),
            old(self).phase == Phase::Controls,
            old(self).next < old(self).ports@.len(),
        ensures
            final(self).wf(),
            final(self).same_task(*old(self)),
            final(self).outputs@ == old(self).outputs@,
            final(self).next == old(self).next + 1,
            final(self).phase == Phase::Controls,
            *final(plugin) == old(plugin).noted(
                old(self).ports@[old(self).next as int].0,
                old(self).ports@[old(self).next as int].1,
                outcome,
            ),
            first == (outcome == SendOutcome::Disconnected && !old(plugin).worker_failed),
    {
        let (c, v) = self.ports[self.next];
        assert(self.next < self.ports.len());
        self.next = self.next + 1;
        plugin.control_sent(&c, v, outcome)
    }

    /// Walks all control ports, and offers the values that the worker does not have yet to it, in
    /// the order of the ports and each once.
    ///
    /// Whether the worker takes a value is decided elsewhere; [`Run::control_sent`] says what
    /// becomes of each outcome. Even after the worker turned out to be gone the walk goes on.
    pub fn walk_controls(&mut self, plugin: &mut DfPlugin, tx: &mut SyncSender<(DfControl, Single)>)
        requires
            old(self).wf(),
            old(self).phase == Phase::Controls,
            old(self).next == 0,
        ensures
            final(self).wf(),
            final(self).same_task(*old(self)),
            final(self).next == old(self).ports@.len(),
            exists|outcomes: Seq<SendOutcome>|
                outcomes.len() == old(self).ports@.len() && *final(plugin)
                    == #[trigger] after_controls(*old(plugin), old(self).ports@, outcomes)
                    && offers(*final(tx)) == offers(*old(tx)) + offered(
                    *old(plugin),
                    old(self).ports@,
                    outcomes,
                ),
            final(self).phase == if final(plugin).worker_failed {
                Phase::Done
            } else {
                Phase::Enqueue
            },
            if final(plugin).worker_failed || hands_through(
                *old(plugin),
                old(self).ports@,
                0,
                old(self).ports@.len() as int,
            ) {
                final(self).bypassed()
            } else {
                final(self).outputs@ == old(self).outputs@
            },
    {
        let ghost task = *self;
        let ghost start = *plugin;
        let ghost earlier = offers(*tx);
        let ghost ports = self.ports@;
        let ghost mut outcomes: Seq<SendOutcome> = Seq::new(
            ports.len(),
            |i: int| SendOutcome::Full,
        );
        let mut more: bool = true;
        assert(ports.take(0) =~= Seq::<(DfControl, Single)>::empty());
        while more
            invariant
                task == *old(self),
                start == *old(plugin),
                ports == task.ports@,
                self.wf(),
                self.same_task(task),
                outcomes.len() == ports.len(),
                *plugin == after_controls(start, ports.take(self.next as int), outcomes),
                earlier == offers(*old(tx)),
                offers(*tx) == earlier + offered(start, ports.take(self.next as int), outcomes),
                more ==> self.phase == Phase::Controls,
                !more ==> self.next == ports.len(),
                !more ==> self.phase == if plugin.worker_failed {
                    Phase::Done
                } else {
                    Phase::Enqueue
                },
                if (!more && plugin.worker_failed) || hands_through(
                    start,
                    ports,
                    0,
                    self.next as int,
                ) {
                    self.bypassed()
                } else {
                    self.outputs@ == task.outputs@
                },
            decreases ports.len() - self.next + if more {
                1int
            } else {
                0int
            },
        {
            let ghost from = self.next as int;
            let ghost before = *plugin;
            match self.next_control(plugin) {
                Some((c, v)) => {
                    let ghost at = self.next as int;
                    proof {
                        lemma_walk_past(start, before, ports, outcomes, from, at);
                        lemma_hands_through_joins(start, before, ports, from, at + 1);
                    }
                    let outcome: SendOutcome = offer(tx, c, v);
                    self.control_sent(plugin, outcome);
                    proof {
                        let later = outcomes.update(at, outcome);
                        lemma_outcomes_beyond(start, ports.take(at), outcomes, later);
                        outcomes = later;
                        assert(ports.take(at + 1).drop_last() =~= ports.take(at));
                        assert(offers(*tx) =~= earlier + offered(
                            start,
                            ports.take(at + 1),
                            outcomes,
                        ));
                    }
                },
                None => {
                    more = false;
                    proof {
                        lemma_walk_past(start, before, ports, outcomes, from, self.next as int);
                        lemma_hands_through_joins(start, before, ports, from, self.next as int);
                    }
                },
            }
        }
        assert(ports.take(ports.len() as int) =~= ports);
    }

    /// Appends the inputs to the input queue.
    pub fn enqueue(&mut self, input_queue: &mut SampleQueue<T>)
        requires
            old(self).phase == Phase::Enqueue,
        ensures
            final(self).same_task(*old(self)),
            final(self).outputs@ == old(self).outputs@,
            final(self).next == old(self).next,
            final(self).phase == Phase::Deliver,
            final(input_queue)@ == with_block(old(input_queue)@, samples_of(old(self).inputs@)),
    {
        input_queue.push_block(&self.inputs);
        self.phase = Phase::Deliver;
    }

    /// Fills the outputs with processed samples, if the output queue holds `sample_count` of
    /// them.
    pub fn deliver(&mut self, output_queue: &mut SampleQueue<T>, sample_count: usize) -> (done: bool)
        requires
            old(self).wf(),
            old(self).phase == Phase::Deliver,
            old(output_queue)@.len() > 0,
            aligned(old(output_queue)@),
            forall|i: int|
                0 <= i < old(self).outputs@.len() ==> #[trigger] old(self).outputs@[i]@.len()
                    == sample_count,
        ensures
            final(self).wf(),
            final(self).same_task(*old(self)),
            final(self).next == old(self).next,
            done == (old(output_queue)@[0].len() >= sample_count),
            if done {
                &&& final(self).phase == Phase::Measure
                &&& samples_of(final(self).outputs@) == filled_block(
                    old(output_queue)@,
                    samples_of(old(self).outputs@),
                )
                &&& final(output_queue)@ == without_block(
                    old(output_queue)@,
                    samples_of(old(self).outputs@),
                )
            } else {
                &&& final(self).phase == Phase::Deliver
                &&& final(self).outputs@ == old(self).outputs@
                &&& final(output_queue)@ == old(output_queue)@
            },
    {
        if output_queue.backlog() < sample_count {
            return false;
        }
        let ghost start = self.outputs@;
        let ghost q = output_queue@;
        proof {
            assert forall|i: int| 0 <= i < start.len() && i < q.len() implies #[trigger] start[i]@.len()
                <= q[i].len() by {
                assert(q[i].len() == q[0].len());
            }
        }
        output_queue.pop_block(&mut self.outputs);
        proof {
            assert(samples_of(self.outputs@).len() == start.len());
            assert forall|i: int| 0 <= i < self.inputs@.len() implies #[trigger] self.inputs@[i]@.len()
                == self.outputs@[i]@.len() by {
                assert(samples_of(self.outputs@)[i] == filled_block(q, samples_of(start))[i]);
                assert(start[i]@.len() == sample_count);
                if i < q.len() {
                    assert(q[i].len() == q[0].len());
                }
            }
        }
        self.phase = Phase::Measure;
        true
    }

    /// Reacts to missing output samples. The run is done, with the inputs handed through, if the
    /// worker is given up.
    pub fn missed(&mut self, plugin: &mut DfPlugin, worker_finished: bool, elapsed_nanos: u128) -> (m:
        Miss)
        requires
            old(self).wf(),
            old(plugin).wf(),
            old(self).phase == Phase::Deliver,
        ensures
            final(self).wf(),
            final(self).same_task(*old(self)),
            final(self).next == old(self).next,
            m == old(plugin).reaction(worker_finished, elapsed_nanos),
            if m == Miss::Wait {
                &&& *final(plugin) == *old(plugin)
                &&& final(self).outputs@ == old(self).outputs@
                &&& final(self).phase == Phase::Deliver
            } else {
                &&& *final(plugin) == old(plugin).failed()
                &&& final(self).bypassed()
                &&& final(self).phase == Phase::Done
            },
    {
        let m: Miss = plugin.missed(worker_finished, elapsed_nanos);
        match m {
            Miss::Wait => {},
            _ => {
                self.hand_through();
                self.phase = Phase::Done;
            },
        }
        m
    }

    /// Adapts the latency to the load of the run, and ends it.
    pub fn finish(
        &mut self,
        plugin: &mut DfPlugin,
        output_queue: &mut SampleQueue<T>,
        rtf: Single,
        silence: T,
    ) -> (change: LatencyChange)
        requires
            old(self).phase == Phase::Measure,
            old(plugin).wf(),
            old(output_queue)@.len() > 0,
            aligned(old(output_queue)@),
            DfPlugin::overloaded(rtf) ==> old(plugin).proc_delay < old(plugin).sr,
            old(plugin).t_proc_change < usize::MAX,
            old(plugin).settled(rtf) ==> old(plugin).frame_size * (1 + old(
                plugin,
            ).control_hist.min_buffer_frames.whole()) <= usize::MAX,
        ensures
            final(self).same_task(*old(self)),
            final(self).outputs@ == old(self).outputs@,
            final(self).next == old(self).next,
            final(self).phase == Phase::Done,
            final(plugin).wf(),
            change == old(plugin).change_under(rtf, old(output_queue)@[0].len()),
            *final(plugin) == old(plugin).adapted(change),
            final(output_queue)@ == match change {
                LatencyChange::Increased => padded(
                    old(output_queue)@,
                    old(plugin).frame_size as nat,
                    silence,
                ),
                LatencyChange::Decreased => without_oldest(
                    old(output_queue)@,
                    old(plugin).frame_size as nat,
                ),
                LatencyChange::Unchanged => old(output_queue)@,
            },
    {
        self.phase = Phase::Done;
        plugin.adapt(output_queue, rtf, silence)
    }
}

/// Ports that do not ask for their value to be sent leave an instance as it is.
proof fn lemma_walk_past(
    start: DfPlugin,
    here: DfPlugin,
    ports: Seq<(DfControl, Single)>,
    outcomes: Seq<SendOutcome>,
    from: int,
    to: int,
)
    requires
        0 <= from <= to <= ports.len(),
        here == after_controls(start, ports.take(from), outcomes),
        forall|i: int|
            from <= i < to ==> !(#[trigger] here.asks_for(ports[i].0, ports[i].1)).send,
    ensures
        here == after_controls(start, ports.take(to), outcomes),
        offered(start, ports.take(to), outcomes) == offered(start, ports.take(from), outcomes),
    decreases to - from,
{
    if from < to {
        lemma_walk_past(start, here, ports, outcomes, from, to - 1);
        assert(ports.take(to).drop_last() =~= ports.take(to - 1));
        assert(!here.asks_for(ports[to - 1].0, ports[to - 1].1).send);
    }
}

/// Whether a port hands the inputs through does not depend on the instance, and two walks, one
/// after the other, find what one walk finds.
proof fn lemma_hands_through_joins(
    p: DfPlugin,
    q: DfPlugin,
    ports: Seq<(DfControl, Single)>,
    mid: int,
    to: int,
)
    requires
        0 <= mid <= to,
    ensures
        hands_through(p, ports, 0, to) == (hands_through(p, ports, 0, mid) || hands_through(
            q,
            ports,
            mid,
            to,
        )),
{
    if hands_through(p, ports, 0, to) {
        let i = choose|i: int|
            0 <= i < to && 0 <= i < ports.len() && #[trigger] p.asks_for(
                ports[i].0,
                ports[i].1,
            ).pass_through;
        assert(q.asks_for(ports[i].0, ports[i].1).pass_through);
    }
    if hands_through(p, ports, 0, mid) {
        let i = choose|i: int|
            0 <= i < mid && 0 <= i < ports.len() && #[trigger] p.asks_for(
                ports[i].0,
                ports[i].1,
            ).pass_through;
        assert(p.asks_for(ports[i].0, ports[i].1).pass_through);
    }
    if hands_through(q, ports, mid, to) {
        let i = choose|i: int|
            mid <= i < to && 0 <= i < ports.len() && #[trigger] q.asks_for(
                ports[i].0,
                ports[i].1,
            ).pass_through;
        assert(p.asks_for(ports[i].0, ports[i].1).pass_through);
    }
}

/// The values of the ports, each with what comes of offering it.
pub open spec fn attempts(
    ports: Seq<(DfControl, Single)>,
    outcomes: Seq<SendOutcome>,
) -> Seq<(DfControl, Single, SendOutcome)> {
    Seq::new(ports.len(), |i: int| (ports[i].0, ports[i].1, outcomes[i]))
}

/// The values that a channel has taken.
pub open spec fn sent(offers: Seq<(DfControl, Single, SendOutcome)>) -> Seq<(DfControl, Single)> {
    offers.filter(|o: (DfControl, Single, SendOutcome)| o.2 == SendOutcome::Sent).map_values(
        |o: (DfControl, Single, SendOutcome)| (o.0, o.1),
    )
}

/// Whether no two ports belong to one control.
pub open spec fn one_port_each(ports: Seq<(DfControl, Single)>) -> bool {
    forall|k: int, m: int|
        0 <= k < m < ports.len() ==> (#[trigger] ports[k]).0 != (#[trigger] ports[m]).0
}

/// Where no two ports belong to one control, the values that are offered are those that differ
/// from what the worker had at the start, in the order of the ports and each once.
pub proof fn law_changes_are_offered_in_order(
    p: DfPlugin,
    ports: Seq<(DfControl, Single)>,
    outcomes: Seq<SendOutcome>,
)
    requires
        outcomes.len() == ports.len(),
        one_port_each(ports),
    ensures
        offered(p, ports, outcomes) == attempts(ports, outcomes).filter(
            |o: (DfControl, Single, SendOutcome)| !o.1.same_number(p.control_hist.value(o.0)),
        ),
    decreases ports.len(),
{
    let differs = |o: (DfControl, Single, SendOutcome)|
        !o.1.same_number(p.control_hist.value(o.0));
    reveal(Seq::filter);
    if ports.len() > 0 {
        let less = ports.drop_last();
        let (c, v) = ports.last();
        lemma_outcomes_beyond(p, less, outcomes, outcomes.drop_last());
        law_changes_are_offered_in_order(p, less, outcomes.drop_last());
        law_only_ports_change_history(p, less, outcomes.drop_last(), c);
        assert(attempts(ports, outcomes).drop_last() =~= attempts(less, outcomes.drop_last()));
        assert(attempts(ports, outcomes).last() == (c, v, outcomes[ports.len() - 1]));
    } else {
        assert(attempts(ports, outcomes) =~= Seq::empty());
    }
}

/// Where no two ports belong to one control, the values that reach the worker are those that
/// differ from what it had at the start and are taken, in the order of the ports and each once.
pub proof fn law_changes_are_sent_in_order(
    p: DfPlugin,
    ports: Seq<(DfControl, Single)>,
    outcomes: Seq<SendOutcome>,
)
    requires
        outcomes.len() == ports.len(),
        one_port_each(ports),
    ensures
        sent(offered(p, ports, outcomes)) == attempts(ports, outcomes).filter(
            |o: (DfControl, Single, SendOutcome)|
                !o.1.same_number(p.control_hist.value(o.0)) && o.2 == SendOutcome::Sent,
        ).map_values(|o: (DfControl, Single, SendOutcome)| (o.0, o.1)),
{
    let differs = |o: (DfControl, Single, SendOutcome)|
        !o.1.same_number(p.control_hist.value(o.0));
    let taken = |o: (DfControl, Single, SendOutcome)| o.2 == SendOutcome::Sent;
    law_changes_are_offered_in_order(p, ports, outcomes);
    lemma_filters_join(attempts(ports, outcomes), differs, taken);
    let both = |o: (DfControl, Single, SendOutcome)|
        !o.1.same_number(p.control_hist.value(o.0)) && o.2 == SendOutcome::Sent;
    assert(both =~= |o: (DfControl, Single, SendOutcome)| differs(o) && taken(o));
}

/// A walk changes the history of no control without a port.
pub proof fn law_only_ports_change_history(
    p: DfPlugin,
    ports: Seq<(DfControl, Single)>,
    outcomes: Seq<SendOutcome>,
    d: DfControl,
)
    requires
        outcomes.len() == ports.len(),
        forall|k: int| 0 <= k < ports.len() ==> (#[trigger] ports[k]).0 != d,
    ensures
        after_controls(p, ports, outcomes).control_hist.value(d) == p.control_hist.value(d),
    decreases ports.len(),
{
    if ports.len() > 0 {
        let less = ports.drop_last();
        lemma_outcomes_beyond(p, less, outcomes, outcomes.drop_last());
        law_only_ports_change_history(p, less, outcomes.drop_last(), d);
        assert(ports[ports.len() - 1].0 != d);
    }
}

/// Where no two ports belong to one control, the history of a control holds the value of its port
/// if that differed and was taken, and what it held before otherwise.
pub proof fn law_history_follows_the_worker(
    p: DfPlugin,
    ports: Seq<(DfControl, Single)>,
    outcomes: Seq<SendOutcome>,
    i: int,
)
    requires
        outcomes.len() == ports.len(),
        one_port_each(ports),
        0 <= i < ports.len(),
    ensures
        after_controls(p, ports, outcomes).control_hist.value(ports[i].0) == if p.asks_for(
            ports[i].0,
            ports[i].1,
        ).send && outcomes[i] == SendOutcome::Sent {
            ports[i].1
        } else {
            p.control_hist.value(ports[i].0)
        },
    decreases ports.len(),
{
    let less = ports.drop_last();
    let before = after_controls(p, less, outcomes);
    let (c, v) = ports.last();
    lemma_outcomes_beyond(p, less, outcomes, outcomes.drop_last());
    lemma_noted_history(before, c, v, outcomes[ports.len() - 1], ports[i].0);
    if i < ports.len() - 1 {
        law_history_follows_the_worker(p, less, outcomes.drop_last(), i);
        assert(ports[i].0 != ports[ports.len() - 1].0);
    } else {
        law_only_ports_change_history(p, less, outcomes.drop_last(), c);
        assert(before.asks_for(c, v) == p.asks_for(c, v));
    }
}

/// What an outcome makes of the history of a control.
proof fn lemma_noted_history(
    p: DfPlugin,
    c: DfControl,
    v: Single,
    outcome: SendOutcome,
    d: DfControl,
)
    ensures
        p.noted(c, v, outcome).control_hist.value(d) == if d == c && outcome == SendOutcome::Sent {
            v
        } else {
            p.control_hist.value(d)
        },
{
}

/// Two filters, one after the other, keep what passes both.
proof fn lemma_filters_join<A>(s: Seq<A>, a: spec_fn(A) -> bool, b: spec_fn(A) -> bool)
    ensures
        s.filter(a).filter(b) == s.filter(|x: A| a(x) && b(x)),
    decreases s.len(),
{
    reveal(Seq::filter);
    if s.len() > 0 {
        lemma_filters_join(s.drop_last(), a, b);
        let rest = s.drop_last().filter(a);
        assert(rest.push(s.last()).drop_last() =~= rest);
    }
}

/// An instance whose worker is told to stop exactly when it was given up is still one after the
/// control ports were walked.
pub proof fn law_controls_keep_failure_told(
    p: DfPlugin,
    ports: Seq<(DfControl, Single)>,
    outcomes: Seq<SendOutcome>,
)
    requires
        outcomes.len() == ports.len(),
        p.cancelled == p.worker_failed,
    ensures
        after_controls(p, ports, outcomes).cancelled == after_controls(
            p,
            ports,
            outcomes,
        ).worker_failed,
    decreases ports.len(),
{
    if ports.len() > 0 {
        let less = ports.drop_last();
        lemma_outcomes_beyond(p, less, outcomes, outcomes.drop_last());
        law_controls_keep_failure_told(p, less, outcomes.drop_last());
    }
}

/// Once the worker has taken every value that was offered to it, no port asks again, unless its
/// value is not a number or two ports belong to one control.
pub proof fn law_controls_settle(
    p: DfPlugin,
    ports: Seq<(DfControl, Single)>,
    outcomes: Seq<SendOutcome>,
    i: int,
)
    requires
        outcomes.len() == ports.len(),
        forall|k: int| 0 <= k < ports.len() ==> #[trigger] outcomes[k] == SendOutcome::Sent,
        one_port_each(ports),
        0 <= i < ports.len(),
        !ports[i].1.is_nan(),
    ensures
        !after_controls(p, ports, outcomes).asks_for(ports[i].0, ports[i].1).send,
    decreases ports.len(),
{
    let less = ports.drop_last();
    let before = after_controls(p, less, outcomes);
    let (c, v) = ports.last();
    lemma_outcomes_beyond(p, less, outcomes, outcomes.drop_last());
    if i < ports.len() - 1 {
        law_controls_settle(p, less, outcomes.drop_last(), i);
        assert(ports[i].0 != ports[ports.len() - 1].0);
        law_sent_value_is_not_resent(before, c, v, ports[i].0, ports[i].1);
    } else {
        law_sent_value_is_not_resent(before, c, v, c, v);
    }
}

/// The outcomes of later ports do not matter yet.
proof fn lemma_outcomes_beyond(
    p: DfPlugin,
    ports: Seq<(DfControl, Single)>,
    a: Seq<SendOutcome>,
    b: Seq<SendOutcome>,
)
    requires
        ports.len() <= a.len(),
        ports.len() <= b.len(),
        forall|k: int| 0 <= k < ports.len() ==> #[trigger] a[k] == b[k],
    ensures
        after_controls(p, ports, a) == after_controls(p, ports, b),
        offered(p, ports, a) == offered(p, ports, b),
    decreases ports.len(),
{
    if ports.len() > 0 {
        lemma_outcomes_beyond(p, ports.drop_last(), a, b);
    }
}

/// Handing through, sample by sample: an output has the sample of the input where the input has one,
/// and keeps its own elsewhere.
pub proof fn law_handing_through_by_sample<T>(
    inputs: Seq<Seq<T>>,
    outputs: Seq<Seq<T>>,
    i: int,
    k: int,
)
    requires
        0 <= i < outputs.len(),
    ensures
        overlaid(inputs, outputs).len() == outputs.len(),
        overlaid(inputs, outputs)[i].len() == outputs[i].len(),
        0 <= k < outputs[i].len() ==> overlaid(inputs, outputs)[i][k] == if i < inputs.len() && k
            < inputs[i].len() {
            inputs[i][k]
        } else {
            outputs[i][k]
        },
{
}

/// The outputs of a run that is bypassed are its inputs, sample by sample.
pub proof fn law_bypass_by_sample<T>(run: Run<T>, i: int, k: int)
    requires
        run.bypassed(),
    ensures
        run.outputs@.len() == run.inputs@.len(),
        0 <= i < run.inputs@.len() ==> run.outputs@[i]@.len() == run.inputs@[i]@.len(),
        0 <= i < run.inputs@.len() && 0 <= k < run.inputs@[i]@.len() ==> run.outputs@[i]@[k]
            == run.inputs@[i]@[k],
{
    assert(samples_of(run.outputs@).len() == samples_of(run.inputs@).len());
    if 0 <= i < run.inputs@.len() {
        assert(samples_of(run.outputs@)[i] == samples_of(run.inputs@)[i]);
    }
}

/// The shape of a run, and what its steps keep.
pub proof fn law_shape_of_a_run<T>(run: Run<T>, other: Run<T>, i: int)
    ensures
        run.wf() && 0 <= i < run.inputs@.len() ==> run.inputs@[i]@.len() == run.outputs@[i]@.len(),
        run.wf() ==> run.inputs@.len() == run.outputs@.len() && run.next <= run.ports@.len(),
        run.same_task(other) <==> (run.inputs@ == other.inputs@ && run.ports@ == other.ports@),
{
}

/// Some ports hand the inputs through exactly where one of them is an attenuation limit of 100 dB or
/// more.
pub proof fn law_attenuation_hands_through(
    p: DfPlugin,
    ports: Seq<(DfControl, Single)>,
    from: int,
    to: int,
)
    requires
        0 <= from <= to <= ports.len(),
    ensures
        hands_through(p, ports, from, to) <==> exists|i: int|
            from <= i < to && (#[trigger] ports[i]).0 == DfControl::AttenLim && !ports[i].1.is_nan()
                && ports[i].1.units() >= 100 * unit(),
{
    if hands_through(p, ports, from, to) {
        let i = choose|i: int|
            from <= i < to && 0 <= i < ports.len() && #[trigger] p.asks_for(
                ports[i].0,
                ports[i].1,
            ).pass_through;
        law_ports_ask_by_number(p, ports[i].0, ports[i].1);
    }
    if exists|i: int|
        from <= i < to && (#[trigger] ports[i]).0 == DfControl::AttenLim && !ports[i].1.is_nan()
            && ports[i].1.units() >= 100 * unit() {
        let i = choose|i: int|
            from <= i < to && (#[trigger] ports[i]).0 == DfControl::AttenLim && !ports[i].1.is_nan()
                && ports[i].1.units() >= 100 * unit();
        law_ports_ask_by_number(p, ports[i].0, ports[i].1);
        assert(p.asks_for(ports[i].0, ports[i].1).pass_through);
    }
}

/// A walk past one port offers its value exactly where that is not the number that the worker has,
/// and takes note of what came of it.
pub proof fn law_walk_past_one_port(p: DfPlugin, c: DfControl, v: Single, outcome: SendOutcome)
    ensures
        ({
            let differs = v.is_nan() || p.control_hist.value(c).is_nan() || v.units()
                != p.control_hist.value(c).units();
            &&& after_controls(p, seq![(c, v)], seq![outcome]) == if differs {
                p.noted(c, v, outcome)
            } else {
                p
            }
            &&& offered(p, seq![(c, v)], seq![outcome]) == if differs {
                seq![(c, v, outcome)]
            } else {
                Seq::empty()
            }
        }),
{
    let ports = seq![(c, v)];
    law_ports_ask_by_number(p, c, v);
    reveal_with_fuel(after_controls, 2);
    reveal_with_fuel(offered, 2);
    assert(ports.drop_last().len() == 0);
    assert(Seq::<(DfControl, Single, SendOutcome)>::empty().push((c, v, outcome)) =~= seq![
        (c, v, outcome),
    ]);
}

/// Two walks join to one: walking some ports and then others is walking all of them.
pub proof fn law_walks_join(
    p: DfPlugin,
    a: Seq<(DfControl, Single)>,
    x: Seq<SendOutcome>,
    b: Seq<(DfControl, Single)>,
    y: Seq<SendOutcome>,
)
    requires
        x.len() == a.len(),
        y.len() == b.len(),
    ensures
        after_controls(p, a + b, x + y) == after_controls(after_controls(p, a, x), b, y),
        offered(p, a + b, x + y) == offered(p, a, x) + offered(after_controls(p, a, x), b, y),
    decreases b.len(),
{
    let mid = after_controls(p, a, x);
    if b.len() == 0 {
        assert(a + b =~= a);
        assert(x + y =~= x);
        assert(offered(p, a, x) + offered(mid, b, y) =~= offered(p, a, x));
    } else {
        let less = b.drop_last();
        let fewer = y.drop_last();
        law_walks_join(p, a, x, less, fewer);
        assert((a + b).drop_last() =~= a + less);
        assert((a + b).last() == b.last());
        lemma_outcomes_beyond(p, a + less, x + y, x + fewer);
        lemma_outcomes_beyond(mid, less, y, fewer);
        assert((x + y)[(a + b).len() - 1] == y[b.len() - 1]);
        let (c, v) = b.last();
        let before = after_controls(mid, less, y);
        assert(after_controls(p, (a + b).drop_last(), x + y) == before);
        assert(offered(p, a + b, x + y) =~= offered(p, a, x) + offered(mid, b, y));
    }
}

/// A walk of the control ports gives the worker up exactly where one of the values was offered to a
/// worker that is gone, and touches nothing but the worker and the history.
pub proof fn law_walk_by_fields(
    p: DfPlugin,
    ports: Seq<(DfControl, Single)>,
    outcomes: Seq<SendOutcome>,
)
    requires
        outcomes.len() == ports.len(),
    ensures
        after_controls(p, ports, outcomes).worker_failed <==> (p.worker_failed || exists|i: int|
            0 <= i < offered(p, ports, outcomes).len() && (#[trigger] offered(p, ports, outcomes)[i]).2
                == SendOutcome::Disconnected),
        after_controls(p, ports, outcomes).ch == p.ch,
        after_controls(p, ports, outcomes).sr == p.sr,
        after_controls(p, ports, outcomes).frame_size == p.frame_size,
        after_controls(p, ports, outcomes).proc_delay == p.proc_delay,
        after_controls(p, ports, outcomes).t_proc_change == p.t_proc_change,
        after_controls(p, ports, outcomes).sleep_nanos == p.sleep_nanos,
    decreases ports.len(),
{
    if ports.len() > 0 {
        let less = ports.drop_last();
        let (c, v) = ports.last();
        lemma_outcomes_beyond(p, less, outcomes, outcomes.drop_last());
        law_walk_by_fields(p, less, outcomes.drop_last());
        let before = after_controls(p, less, outcomes);
        let rest = offered(p, less, outcomes);
        let all = offered(p, ports, outcomes);
        if before.asks_for(c, v).send {
            let last = outcomes[ports.len() - 1];
            assert(all == rest.push((c, v, last)));
            assert(all[rest.len() as int].2 == last);
            assert forall|i: int| 0 <= i < rest.len() implies #[trigger] rest[i] == all[i] by {}
            if exists|i: int| 0 <= i < rest.len() && (#[trigger] rest[i]).2
                == SendOutcome::Disconnected {
                let i = choose|i: int|
                    0 <= i < rest.len() && (#[trigger] rest[i]).2 == SendOutcome::Disconnected;
                assert(all[i].2 == SendOutcome::Disconnected);
            }
        }
    }
}

} // verus!
