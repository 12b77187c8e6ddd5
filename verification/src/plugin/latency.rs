//! The latency that an instance tells, and the samples that are under way between its inputs and
//! its outputs.

use crate::plugin::instance::DfPlugin;
use crate::plugin::instance::LatencyChange;
use crate::plugin::queue::aligned;
use crate::plugin::queue::filled_block;
use crate::plugin::queue::padded;
use crate::plugin::queue::repeated;
use crate::plugin::queue::with_block;
use crate::plugin::queue::without_block;
use crate::plugin::queue::without_oldest;
use crate::plugin::queue::SampleQueue;
use vstd::prelude::*;

verus! {

/// The queues of a new instance: no input yet, and a frame of silence to play while the first
/// frame is processed.
pub fn new_queues<T: Copy>(channels: usize, hop: usize, silence: T) -> (queues: (
    SampleQueue<T>,
    SampleQueue<T>,
))
    ensures
        queues.0@ == Seq::new(channels as nat, |i: int| Seq::<T>::empty()),
        queues.1@ == Seq::new(channels as nat, |i: int| repeated(hop as nat, silence)),
        aligned(queues.0@),
        aligned(queues.1@),
{
    let input: SampleQueue<T> = SampleQueue::new(channels, 0, silence);
    let output: SampleQueue<T> = SampleQueue::new(channels, hop, silence);
    proof {
        assert forall|i: int| 0 <= i < channels implies #[trigger] input@[i] == Seq::<T>::empty() by {
            assert(input@[i] =~= Seq::<T>::empty());
        }
        assert(input@ =~= Seq::new(channels as nat, |i: int| Seq::<T>::empty()));
        assert(output@ =~= Seq::new(channels as nat, |i: int| repeated(hop as nat, silence)));
    }
    (input, output)
}

/// Whether, on every channel, the samples in the input queue, the `held` ones in the hands of the
/// worker and those in the output queue are `surplus` more than the latency that the instance
/// tells.
pub open spec fn under_way<T>(
    p: DfPlugin,
    input: Seq<Seq<T>>,
    held: nat,
    output: Seq<Seq<T>>,
    surplus: int,
) -> bool {
    &&& input.len() == p.ch
    &&& output.len() == p.ch
    &&& forall|i: int|
        0 <= i < p.ch ==> (#[trigger] input[i]).len() + held + (#[trigger] output[i]).len()
            == p.proc_delay + surplus
}

/// Whether a block has a row of `n` samples for every channel of an instance.
pub open spec fn is_block<T>(p: DfPlugin, block: Seq<Seq<T>>, n: nat) -> bool {
    block.len() == p.ch && forall|i: int| 0 <= i < p.ch ==> (#[trigger] block[i]).len() == n
}

/// A new instance tells its latency truly.
pub proof fn law_new_instance_tells_latency<T>(p: DfPlugin, hop: nat, silence: T)
    requires
        p.proc_delay == hop,
    ensures
        under_way(
            p,
            Seq::new(p.ch as nat, |i: int| Seq::<T>::empty()),
            0,
            Seq::new(p.ch as nat, |i: int| repeated(hop, silence)),
            0,
        ),
{
}

/// A run keeps the latency: the samples that it queues add to those under way, and the samples
/// that it then delivers take as many away, whatever the worker does meanwhile.
pub proof fn law_run_keeps_latency<T>(
    p: DfPlugin,
    input: Seq<Seq<T>>,
    held: nat,
    output: Seq<Seq<T>>,
    surplus: int,
    block: Seq<Seq<T>>,
    n: nat,
)
    requires
        under_way(p, input, held, output, surplus),
        is_block(p, block, n),
    ensures
        under_way(p, with_block(input, block), held, output, surplus + n),
        (forall|i: int| 0 <= i < p.ch ==> (#[trigger] output[i]).len() >= n) ==> under_way(
            p,
            input,
            held,
            without_block(output, block),
            surplus - n,
        ),
{
    let more = with_block(input, block);
    assert forall|i: int| 0 <= i < p.ch implies (#[trigger] more[i]).len() + held + (
    #[trigger] output[i]).len() == p.proc_delay + surplus + n by {
        assert(input[i].len() + held + output[i].len() == p.proc_delay + surplus);
        assert(block[i].len() == n);
    }
    if forall|i: int| 0 <= i < p.ch ==> (#[trigger] output[i]).len() >= n {
        let less = without_block(output, block);
        assert forall|i: int| 0 <= i < p.ch implies (#[trigger] input[i]).len() + held + (
        #[trigger] less[i]).len() == p.proc_delay + surplus - n by {
            assert(input[i].len() + held + output[i].len() == p.proc_delay + surplus);
            assert(block[i].len() == n);
            assert(output[i].len() >= n);
        }
    }
}

/// The worker keeps the samples under way: a frame that it takes is in its hands until it appends
/// one of the same length to the output queue.
pub proof fn law_worker_keeps_latency<T>(
    p: DfPlugin,
    input: Seq<Seq<T>>,
    held: nat,
    output: Seq<Seq<T>>,
    surplus: int,
    frame: Seq<Seq<T>>,
    hop: nat,
)
    requires
        under_way(p, input, held, output, surplus),
        is_block(p, frame, hop),
    ensures
        (forall|i: int| 0 <= i < p.ch ==> (#[trigger] input[i]).len() >= hop) ==> under_way(
            p,
            Seq::new(input.len(), |i: int| input[i].skip(hop as int)),
            held + hop,
            output,
            surplus,
        ),
        held >= hop ==> under_way(
            p,
            input,
            (held - hop) as nat,
            with_block(output, frame),
            surplus,
        ),
{
    if forall|i: int| 0 <= i < p.ch ==> (#[trigger] input[i]).len() >= hop {
        let less = Seq::new(input.len(), |i: int| input[i].skip(hop as int));
        assert forall|i: int| 0 <= i < p.ch implies (#[trigger] less[i]).len() + (held + hop) + (
        #[trigger] output[i]).len() == p.proc_delay + surplus by {
            assert(input[i].len() + held + output[i].len() == p.proc_delay + surplus);
            assert(input[i].len() >= hop);
        }
    }
    let more = with_block(output, frame);
    if held >= hop {
        assert forall|i: int| 0 <= i < p.ch implies (#[trigger] input[i]).len() + (held - hop) + (
        #[trigger] more[i]).len() == p.proc_delay + surplus by {
            assert(input[i].len() + held + output[i].len() == p.proc_delay + surplus);
            assert(frame[i].len() == hop);
        }
    }
}

/// A raised latency is told truly: the silence that joins the output queue is as long as the
/// frame by which the latency grows.
pub proof fn law_growth_is_told_truly<T>(
    p: DfPlugin,
    input: Seq<Seq<T>>,
    held: nat,
    output: Seq<Seq<T>>,
    surplus: int,
    silence: T,
)
    requires
        under_way(p, input, held, output, surplus),
        p.proc_delay + p.frame_size <= usize::MAX,
    ensures
        under_way(
            p.adapted(LatencyChange::Increased),
            input,
            held,
            padded(output, p.frame_size as nat, silence),
            surplus,
        ),
{
    let more = padded(output, p.frame_size as nat, silence);
    assert forall|i: int| 0 <= i < p.ch implies (#[trigger] input[i]).len() + held + (
    #[trigger] more[i]).len() == p.proc_delay + p.frame_size + surplus by {
        assert(input[i].len() + held + output[i].len() == p.proc_delay + surplus);
    }
}

/// A reduced latency is told truly: the samples that leave the output queue are as many as the
/// frame by which the latency shrinks.
pub proof fn law_shrinking_is_told_truly<T>(
    p: DfPlugin,
    input: Seq<Seq<T>>,
    held: nat,
    output: Seq<Seq<T>>,
    surplus: int,
)
    requires
        under_way(p, input, held, output, surplus),
        p.frame_size <= p.proc_delay,
        forall|i: int| 0 <= i < p.ch ==> (#[trigger] output[i]).len() >= p.frame_size,
    ensures
        under_way(
            p.adapted(LatencyChange::Decreased),
            input,
            held,
            without_oldest(output, p.frame_size as nat),
            surplus,
        ),
{
    let less = without_oldest(output, p.frame_size as nat);
    assert forall|i: int| 0 <= i < p.ch implies (#[trigger] input[i]).len() + held + (
    #[trigger] less[i]).len() == p.proc_delay - p.frame_size + surplus by {
        assert(input[i].len() + held + output[i].len() == p.proc_delay + surplus);
        assert(output[i].len() >= p.frame_size);
    }
}

/// The queues of an instance, with all that has gone through them.
pub struct Passage<T> {
    pub input: Seq<Seq<T>>,
    pub output: Seq<Seq<T>>,
    /// What the host gave.
    pub given: Seq<Seq<T>>,
    /// What the worker took.
    pub taken: Seq<Seq<T>>,
    /// What the worker made.
    pub made: Seq<Seq<T>>,
    /// What the host heard.
    pub heard: Seq<Seq<T>>,
    /// What came into the output queue; what was made is marked, silence is not.
    pub entered: Seq<Seq<(T, bool)>>,
    /// What left the output queue; what was heard is marked, what was dropped is not.
    pub left: Seq<Seq<(T, bool)>>,
}

/// What moves samples.
pub enum Move<T> {
    /// A run queues a block.
    Queue(Seq<Seq<T>>),
    /// The worker takes a frame of some length, and makes another of it.
    Process(nat, Seq<Seq<T>>),
    /// A run delivers into a block of some shape.
    Deliver(Seq<Seq<T>>),
    /// The latency grows: silence of some length joins the output queue.
    Grow(nat, T),
    /// The latency shrinks: the oldest samples, as many as given, leave the output queue.
    Shrink(nat),
}

/// Samples with a mark on each, or on none.
pub open spec fn marked<T>(s: Seq<T>, mark: bool) -> Seq<(T, bool)> {
    s.map_values(|x: T| (x, mark))
}

/// The samples without their marks.
pub open spec fn unmarked<T>(s: Seq<(T, bool)>) -> Seq<T> {
    s.map_values(|x: (T, bool)| x.0)
}

/// The samples that have a mark.
pub open spec fn with_mark<T>(s: Seq<(T, bool)>) -> Seq<T>
    decreases s.len(),
{
    if s.len() == 0 {
        Seq::empty()
    } else if s.last().1 {
        with_mark(s.drop_last()).push(s.last().0)
    } else {
        with_mark(s.drop_last())
    }
}

/// Each row with a mark on each of its samples, or on none.
pub open spec fn marked_rows<T>(rows: Seq<Seq<T>>, mark: bool) -> Seq<Seq<(T, bool)>> {
    rows.map_values(|row: Seq<T>| marked(row, mark))
}

/// The first `n` samples of each row.
pub open spec fn oldest<T>(rows: Seq<Seq<T>>, n: nat) -> Seq<Seq<T>> {
    rows.map_values(|row: Seq<T>| row.take(n as int))
}

impl<T> Passage<T> {
    /// Nothing has moved yet; the output queue holds `delay` samples of silence.
    pub open spec fn start(channels: nat, delay: nat, silence: T) -> Passage<T> {
        let none = Seq::new(channels, |i: int| Seq::<T>::empty());
        let quiet = Seq::new(channels, |i: int| repeated(delay, silence));
        Passage {
            input: none,
            output: quiet,
            given: none,
            taken: none,
            made: none,
            heard: none,
            entered: marked_rows(quiet, false),
            left: marked_rows(none, false),
        }
    }

    /// Whether a move can take place: a block has a row per channel, and no more is taken than is
    /// there.
    pub open spec fn allows(self, m: Move<T>) -> bool {
        match m {
            Move::Queue(block) => block.len() == self.input.len(),
            Move::Process(hop, frame) => {
                &&& frame.len() == self.input.len()
                &&& forall|i: int| 0 <= i < self.input.len() ==> (#[trigger] self.input[i]).len() >= hop
            },
            Move::Deliver(block) => {
                &&& block.len() == self.input.len()
                &&& forall|i: int|
                    0 <= i < self.input.len() ==> (#[trigger] block[i]).len() <= self.output[i].len()
            },
            Move::Grow(n, x) => true,
            Move::Shrink(n) => forall|i: int|
                0 <= i < self.input.len() ==> (#[trigger] self.output[i]).len() >= n,
        }
    }

    /// Whether a channel keeps its samples: what was taken and what still waits is what was given;
    /// what left and what still waits is what entered; of that, what was heard is what left with a
    /// mark, and what was made is what entered with one.
    pub open spec fn keeps(self, i: int) -> bool {
        &&& self.taken[i] + self.input[i] == self.given[i]
        &&& unmarked(self.left[i]) + self.output[i] == unmarked(self.entered[i])
        &&& with_mark(self.left[i]) == self.heard[i]
        &&& with_mark(self.entered[i]) == self.made[i]
    }

    /// The queues and what has gone through them, after a move.
    pub open spec fn moved(self, m: Move<T>) -> Passage<T> {
        match m {
            Move::Queue(block) => Passage {
                input: with_block(self.input, block),
                given: with_block(self.given, block),
                ..self
            },
            Move::Process(hop, frame) => Passage {
                input: Seq::new(self.input.len(), |i: int| self.input[i].skip(hop as int)),
                taken: with_block(self.taken, oldest(self.input, hop)),
                output: with_block(self.output, frame),
                made: with_block(self.made, frame),
                entered: with_block(self.entered, marked_rows(frame, true)),
                ..self
            },
            Move::Deliver(block) => Passage {
                output: without_block(self.output, block),
                heard: with_block(self.heard, filled_block(self.output, block)),
                left: with_block(self.left, marked_rows(filled_block(self.output, block), true)),
                ..self
            },
            Move::Grow(n, x) => Passage {
                output: padded(self.output, n, x),
                entered: padded(self.entered, n, (x, false)),
                ..self
            },
            Move::Shrink(n) => Passage {
                output: without_oldest(self.output, n),
                left: with_block(self.left, marked_rows(oldest(self.output, n), false)),
                ..self
            },
        }
    }
}

/// The queues and what has gone through them, after a series of moves.
pub open spec fn after_moves<T>(start: Passage<T>, moves: Seq<Move<T>>) -> Passage<T>
    decreases moves.len(),
{
    if moves.len() == 0 {
        start
    } else {
        after_moves(start, moves.drop_last()).moved(moves.last())
    }
}

/// Whether each of a series of moves can take place after those before it.
pub open spec fn can_follow<T>(start: Passage<T>, moves: Seq<Move<T>>) -> bool
    decreases moves.len(),
{
    moves.len() == 0 || (can_follow(start, moves.drop_last()) && after_moves(
        start,
        moves.drop_last(),
    ).allows(moves.last()))
}

/// The worker takes what the host gave. The host hears what the worker made, among the silence of
/// the start and of a growing latency, and less what a shrinking latency drops: in order, with
/// nothing else lost, doubled or changed, however runs and worker alternate.
pub proof fn law_passage_keeps_samples<T>(
    channels: nat,
    delay: nat,
    silence: T,
    moves: Seq<Move<T>>,
    i: int,
)
    requires
        can_follow(Passage::start(channels, delay, silence), moves),
        0 <= i < channels,
    ensures
        after_moves(Passage::start(channels, delay, silence), moves).keeps(i),
{
    lemma_passage(channels, delay, silence, moves);
}

/// As long as the latency stays, the host hears what the worker made, behind the silence of the
/// start.
pub proof fn law_steady_passage<T>(
    channels: nat,
    delay: nat,
    silence: T,
    moves: Seq<Move<T>>,
    i: int,
)
    requires
        can_follow(Passage::start(channels, delay, silence), moves),
        forall|k: int|
            0 <= k < moves.len() ==> !(#[trigger] moves[k] is Grow) && !(moves[k] is Shrink),
        0 <= i < channels,
    ensures
        ({
            let p = after_moves(Passage::start(channels, delay, silence), moves);
            p.heard[i] + p.output[i] == repeated(delay, silence) + p.made[i]
        }),
    decreases moves.len(),
{
    let start = Passage::start(channels, delay, silence);
    if moves.len() == 0 {
        assert(start.heard[i] + start.output[i] =~= repeated(delay, silence) + start.made[i]);
    } else {
        let fewer = moves.drop_last();
        assert forall|k: int| 0 <= k < fewer.len() implies !(#[trigger] fewer[k] is Grow) && !(
        fewer[k] is Shrink) by {
            assert(fewer[k] == moves[k]);
        }
        law_steady_passage(channels, delay, silence, fewer, i);
        lemma_passage(channels, delay, silence, fewer);
        let before = after_moves(start, fewer);
        let m = moves[moves.len() - 1];
        let p = before.moved(m);
        assert(!(m is Grow) && !(m is Shrink));
        match m {
            Move::Process(hop, frame) => {
                assert(p.heard[i] + p.output[i] =~= (before.heard[i] + before.output[i])
                    + frame[i]);
                assert(repeated(delay, silence) + p.made[i] =~= (repeated(delay, silence)
                    + before.made[i]) + frame[i]);
            },
            Move::Deliver(block) => {
                assert(block[i].len() <= before.output[i].len());
                assert(p.heard[i] + p.output[i] =~= before.heard[i] + before.output[i]);
            },
            _ => {},
        }
    }
}

proof fn lemma_passage<T>(channels: nat, delay: nat, silence: T, moves: Seq<Move<T>>)
    requires
        can_follow(Passage::start(channels, delay, silence), moves),
    ensures
        ({
            let p = after_moves(Passage::start(channels, delay, silence), moves);
            &&& p.input.len() == channels
            &&& p.output.len() == channels
            &&& p.given.len() == channels
            &&& p.taken.len() == channels
            &&& p.made.len() == channels
            &&& p.heard.len() == channels
            &&& p.entered.len() == channels
            &&& p.left.len() == channels
            &&& forall|i: int| 0 <= i < channels ==> #[trigger] p.keeps(i)
        }),
    decreases moves.len(),
{
    let start = Passage::start(channels, delay, silence);
    if moves.len() == 0 {
        assert forall|i: int| 0 <= i < channels implies #[trigger] start.keeps(i) by {
            let none = Seq::<(T, bool)>::empty();
            assert(start.taken[i] + start.input[i] =~= start.given[i]);
            assert(start.left[i] =~= none);
            assert(unmarked(start.left[i]) + start.output[i] =~= unmarked(start.entered[i]));
            lemma_marks_join(none, repeated(delay, silence), false);
            assert(none + marked(repeated(delay, silence), false) =~= start.entered[i]);
        }
    } else {
        lemma_passage(channels, delay, silence, moves.drop_last());
        let before = after_moves(start, moves.drop_last());
        let m = moves.last();
        let p = before.moved(m);
        assert forall|i: int| 0 <= i < channels implies #[trigger] p.keeps(i) by {
            assert(before.keeps(i));
            match m {
                Move::Queue(block) => {
                    assert(p.taken[i] + p.input[i] =~= (before.taken[i] + before.input[i]) + block[i]);
                },
                Move::Process(hop, frame) => {
                    assert(before.input[i].len() >= hop);
                    assert(p.taken[i] + p.input[i] =~= before.taken[i] + before.input[i]);
                    lemma_marks_join(before.entered[i], frame[i], true);
                    assert(unmarked(p.left[i]) + p.output[i] =~= (unmarked(before.left[i])
                        + before.output[i]) + frame[i]);
                },
                Move::Deliver(block) => {
                    assert(block[i].len() <= before.output[i].len());
                    let got = filled_block(before.output, block)[i];
                    lemma_marks_join(before.left[i], got, true);
                    assert(unmarked(p.left[i]) + p.output[i] =~= unmarked(before.left[i])
                        + before.output[i]);
                },
                Move::Grow(n, x) => {
                    lemma_marks_join(before.entered[i], repeated(n, x), false);
                    assert(repeated(n, (x, false)) =~= marked(repeated(n, x), false));
                    assert(unmarked(p.left[i]) + p.output[i] =~= (unmarked(before.left[i])
                        + before.output[i]) + repeated(n, x));
                },
                Move::Shrink(n) => {
                    assert(before.output[i].len() >= n);
                    lemma_marks_join(before.left[i], before.output[i].take(n as int), false);
                    assert(unmarked(p.left[i]) + p.output[i] =~= unmarked(before.left[i])
                        + before.output[i]);
                },
            }
        }
    }
}

/// What samples with one mark add to a sequence.
proof fn lemma_marks_join<T>(a: Seq<(T, bool)>, s: Seq<T>, mark: bool)
    ensures
        unmarked(a + marked(s, mark)) == unmarked(a) + s,
        with_mark(a + marked(s, mark)) == if mark {
            with_mark(a) + s
        } else {
            with_mark(a)
        },
    decreases s.len(),
{
    assert(unmarked(a + marked(s, mark)) =~= unmarked(a) + s);
    if s.len() == 0 {
        assert(a + marked(s, mark) =~= a);
        assert(with_mark(a) + s =~= with_mark(a));
    } else {
        lemma_marks_join(a, s.drop_last(), mark);
        assert((a + marked(s, mark)).drop_last() =~= a + marked(s.drop_last(), mark));
        assert((a + marked(s, mark)).last() == (s.last(), mark));
        assert((with_mark(a) + s.drop_last()).push(s.last()) =~= with_mark(a) + s);
    }
}

} // verus!
