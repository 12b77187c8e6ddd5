//! The queues that carry samples between the host and the worker, one per channel.

use std::collections::VecDeque;
use vstd::prelude::*;

verus! {

/// `n` copies of a sample.
pub open spec fn repeated<T>(n: nat, x: T) -> Seq<T> {
    Seq::new(n, |i: int| x)
}

/// Whether all channels hold the same number of samples.
pub open spec fn aligned<T>(q: Seq<Seq<T>>) -> bool {
    forall|i: int, j: int| 0 <= i < q.len() && 0 <= j < q.len() ==> #[trigger] q[i].len() == #[trigger] q[j].len()
}

/// The samples of a block of channels.
pub open spec fn samples_of<T>(block: Seq<Vec<T>>) -> Seq<Seq<T>> {
    Seq::new(block.len(), |i: int| block[i]@)
}

/// Each channel with the samples of a block behind it; a channel that the block lacks stays as
/// it is.
pub open spec fn with_block<T>(q: Seq<Seq<T>>, block: Seq<Seq<T>>) -> Seq<Seq<T>> {
    Seq::new(
        q.len(),
        |i: int|
            if i < block.len() {
                q[i] + block[i]
            } else {
                q[i]
            },
    )
}

/// Each channel without as many of its oldest samples as the block holds for it.
pub open spec fn without_block<T>(q: Seq<Seq<T>>, block: Seq<Seq<T>>) -> Seq<Seq<T>> {
    Seq::new(
        q.len(),
        |i: int|
            if i < block.len() {
                q[i].skip(block[i].len() as int)
            } else {
                q[i]
            },
    )
}

/// A block filled with the oldest samples of each channel; a row without a channel stays as it
/// is.
pub open spec fn filled_block<T>(q: Seq<Seq<T>>, block: Seq<Seq<T>>) -> Seq<Seq<T>> {
    Seq::new(
        block.len(),
        |i: int|
            if i < q.len() {
                q[i].take(block[i].len() as int)
            } else {
                block[i]
            },
    )
}

/// Each channel with `n` copies of a sample behind it.
pub open spec fn padded<T>(q: Seq<Seq<T>>, n: nat, x: T) -> Seq<Seq<T>> {
    Seq::new(q.len(), |i: int| q[i] + repeated(n, x))
}

/// Each channel without its `n` oldest samples.
pub open spec fn without_oldest<T>(q: Seq<Seq<T>>, n: nat) -> Seq<Seq<T>> {
    Seq::new(q.len(), |i: int| q[i].skip(n as int))
}

/// First-in-first-out queues of samples, one per channel.
pub struct SampleQueue<T> {
    channels: Vec<VecDeque<T>>,
}

impl<T> View for SampleQueue<T> {
    type V = Seq<Seq<T>>;

    closed spec fn view(&self) -> Seq<Seq<T>> {
        Seq::new(self.channels@.len(), |i: int| self.channels@[i]@)
    }
}

impl<T: Copy> SampleQueue<T> {
    /// Queues that hold `delay` samples of silence on each channel.
    pub fn new(channels: usize, delay: usize, silence: T) -> (q: SampleQueue<T>)
        ensures
            q@.len() == channels,
            forall|i: int| 0 <= i < channels ==> #[trigger] q@[i] == repeated(delay as nat, silence),
            aligned(q@),
    {
        let mut all: Vec<VecDeque<T>> = Vec::new();
        let mut c: usize = 0;
        while c < channels
            invariant
                c <= channels,
                all@.len() == c,
                forall|i: int| 0 <= i < c ==> #[trigger] all@[i]@ == repeated(delay as nat, silence),
            decreases channels - c,
        {
            let mut one: VecDeque<T> = VecDeque::new();
            let mut k: usize = 0;
            while k < delay
                invariant
                    k <= delay,
                    one@ == repeated(k as nat, silence),
                decreases delay - k,
            {
                one.push_back(silence);
                k = k + 1;
                assert(one@ =~= repeated(k as nat, silence));
            }
            all.push(one);
            c = c + 1;
        }
        SampleQueue { channels: all }
    }

    /// The number of samples that wait on the first channel.
    pub fn backlog(&self) -> (n: usize)
        requires
            self@.len() > 0,
        ensures
            n == self@[0].len(),
    {
        self.channels[0].len()
    }

    /// Appends a block of samples, channel by channel.
    pub fn push_block(&mut self, block: &Vec<Vec<T>>)
        ensures
            final(self)@ == with_block(old(self)@, samples_of(block@)),
    {
        let ghost start = self@;
        let n: usize = self.channels.len();
        let mut c: usize = 0;
        while c < n && c < block.len()
            invariant
                c <= n,
                c <= block@.len(),
                n == start.len(),
                self@.len() == n,
                self.channels@.len() == n,
                forall|i: int| 0 <= i < c ==> #[trigger] self@[i] == start[i] + block@[i]@,
                forall|i: int| c <= i < n ==> #[trigger] self@[i] == start[i],
            decreases n - c,
        {
            let row: &Vec<T> = &block[c];
            let mut k: usize = 0;
            assert(self@[c as int] =~= start[c as int] + row@.take(0));
            while k < row.len()
                invariant
                    k <= row@.len(),
                    c < n,
                    c < block@.len(),
                    n == start.len(),
                    row@ == block@[c as int]@,
                    self@.len() == n,
                    self.channels@.len() == n,
                    self@[c as int] == start[c as int] + row@.take(k as int),
                    forall|i: int| 0 <= i < c ==> #[trigger] self@[i] == start[i] + block@[i]@,
                    forall|i: int| c < i < n ==> #[trigger] self@[i] == start[i],
                decreases row@.len() - k,
            {
                let ghost before = self.channels@;
                let ghost seen = self@;
                self.channels[c].push_back(row[k]);
                assert forall|i: int| 0 <= i < n && i != c implies #[trigger] self@[i] == seen[i] by {
                    assert(self.channels@[i] == before[i]);
                }
                k = k + 1;
                assert(self@[c as int] =~= start[c as int] + row@.take(k as int));
            }
            assert(row@.take(k as int) =~= row@);
            c = c + 1;
        }
        assert(self@ =~= with_block(start, samples_of(block@)));
    }

    /// Overwrites every row of a block with the oldest samples of its channel, and removes them.
    pub fn pop_block(&mut self, block: &mut Vec<Vec<T>>)
        requires
            forall|i: int|
                0 <= i < old(block)@.len() && i < old(self)@.len() ==> #[trigger] old(block)@[i]@.len()
                    <= old(self)@[i].len(),
        ensures
            samples_of(final(block)@) == filled_block(old(self)@, samples_of(old(block)@)),
            final(self)@ == without_block(old(self)@, samples_of(old(block)@)),
    {
        let ghost start = self@;
        let ghost rows = block@;
        let n: usize = self.channels.len();
        let mut c: usize = 0;
        while c < n && c < block.len()
            invariant
                c <= n,
                c <= rows.len(),
                n == start.len(),
                self@.len() == n,
                self.channels@.len() == n,
                block@.len() == rows.len(),
                forall|i: int|
                    0 <= i < rows.len() && i < n ==> #[trigger] rows[i]@.len() <= start[i].len(),
                forall|i: int|
                    0 <= i < c ==> #[trigger] self@[i] == start[i].skip(rows[i]@.len() as int),
                forall|i: int|
                    0 <= i < c ==> #[trigger] block@[i]@ == start[i].take(rows[i]@.len() as int),
                forall|i: int| c <= i < n ==> #[trigger] self@[i] == start[i],
                forall|i: int| c <= i < rows.len() ==> #[trigger] block@[i] == rows[i],
            decreases n - c,
        {
            let len: usize = block[c].len();
            let mut k: usize = 0;
            assert(self@[c as int] =~= start[c as int].skip(0));
            assert(block@[c as int]@ =~= start[c as int].take(0) + rows[c as int]@.skip(0));
            while k < len
                invariant
                    k <= len,
                    c < n,
                    c < rows.len(),
                    n == start.len(),
                    self@.len() == n,
                    self.channels@.len() == n,
                    block@.len() == rows.len(),
                    len == rows[c as int]@.len(),
                    len <= start[c as int].len(),
                    self@[c as int] == start[c as int].skip(k as int),
                    block@[c as int]@ == start[c as int].take(k as int) + rows[c as int]@.skip(k as int),
                    forall|i: int|
                        0 <= i < c ==> #[trigger] self@[i] == start[i].skip(rows[i]@.len() as int),
                    forall|i: int|
                        0 <= i < c ==> #[trigger] block@[i]@ == start[i].take(rows[i]@.len() as int),
                    forall|i: int| c < i < n ==> #[trigger] self@[i] == start[i],
                    forall|i: int| c < i < rows.len() ==> #[trigger] block@[i] == rows[i],
                decreases len - k,
            {
                let ghost before = self.channels@;
                let ghost seen = self@;
                let ghost drawn = block@;
                let x: T = self.channels[c].pop_front().unwrap();
                assert forall|i: int| 0 <= i < n && i != c implies #[trigger] self@[i] == seen[i] by {
                    assert(self.channels@[i] == before[i]);
                }
                block[c][k] = x;
                assert forall|i: int| 0 <= i < rows.len() && i != c implies #[trigger] block@[i]
                    == drawn[i] by {}
                k = k + 1;
                assert(self@[c as int] =~= start[c as int].skip(k as int));
                assert(block@[c as int]@ =~= start[c as int].take(k as int) + rows[c as int]@.skip(
                    k as int,
                ));
            }
            assert(block@[c as int]@ =~= start[c as int].take(len as int));
            c = c + 1;
        }
        assert(self@ =~= without_block(start, samples_of(rows)));
        assert(samples_of(block@) =~= filled_block(start, samples_of(rows)));
    }

    /// Removes a frame of `hop` samples from every channel, if the first channel holds one.
    pub fn take_frame(&mut self, hop: usize) -> (frame: Option<Vec<Vec<T>>>)
        requires
            old(self)@.len() > 0,
            aligned(old(self)@),
        ensures
            frame is Some <==> old(self)@[0].len() >= hop,
            frame matches Some(f) ==> {
                &&& samples_of(f@) == Seq::new(
                    old(self)@.len(),
                    |i: int| old(self)@[i].take(hop as int),
                )
                &&& final(self)@ == Seq::new(
                    old(self)@.len(),
                    |i: int| old(self)@[i].skip(hop as int),
                )
            },
            frame is None ==> final(self)@ == old(self)@,
            aligned(final(self)@),
            frame matches Some(f) ==> {
                &&& f@.len() == old(self)@.len()
                &&& final(self)@.len() == old(self)@.len()
                &&& forall|i: int|
                    0 <= i < f@.len() ==> (#[trigger] f@[i])@.len() == hop && f@[i]@ + final(self)@[i]
                        == old(self)@[i]
            },
    {
        if self.backlog() < hop {
            return None;
        }
        let ghost start = self@;
        let n: usize = self.channels.len();
        let mut frame: Vec<Vec<T>> = Vec::new();
        let mut c: usize = 0;
        while c < n
            invariant
                c <= n,
                n == start.len(),
                n > 0,
                self@.len() == n,
                self.channels@.len() == n,
                aligned(start),
                start[0].len() >= hop,
                frame@.len() == c,
                forall|i: int| 0 <= i < c ==> #[trigger] self@[i] == start[i].skip(hop as int),
                forall|i: int| 0 <= i < c ==> #[trigger] frame@[i]@ == start[i].take(hop as int),
                forall|i: int| c <= i < n ==> #[trigger] self@[i] == start[i],
            decreases n - c,
        {
            let mut row: Vec<T> = Vec::new();
            let mut k: usize = 0;
            assert(start[c as int].len() == start[0].len());
            assert(self@[c as int] =~= start[c as int].skip(0));
            while k < hop
                invariant
                    k <= hop,
                    c < n,
                    n == start.len(),
                    self@.len() == n,
                    self.channels@.len() == n,
                    start[c as int].len() >= hop,
                    row@ == start[c as int].take(k as int),
                    self@[c as int] == start[c as int].skip(k as int),
                    forall|i: int| 0 <= i < c ==> #[trigger] self@[i] == start[i].skip(hop as int),
                    forall|i: int| c < i < n ==> #[trigger] self@[i] == start[i],
                decreases hop - k,
            {
                let ghost before = self.channels@;
                let ghost seen = self@;
                let x: T = self.channels[c].pop_front().unwrap();
                assert forall|i: int| 0 <= i < n && i != c implies #[trigger] self@[i] == seen[i] by {
                    assert(self.channels@[i] == before[i]);
                }
                row.push(x);
                k = k + 1;
                assert(row@ =~= start[c as int].take(k as int));
                assert(self@[c as int] =~= start[c as int].skip(k as int));
            }
            frame.push(row);
            c = c + 1;
        }
        assert(self@ =~= Seq::new(start.len(), |i: int| start[i].skip(hop as int)));
        assert(samples_of(frame@) =~= Seq::new(start.len(), |i: int| start[i].take(hop as int)));
        proof {
            assert forall|i: int| 0 <= i < frame@.len() implies (#[trigger] frame@[i])@.len() == hop
                && frame@[i]@ + self@[i] == start[i] by {
                assert(start[i].len() == start[0].len());
                assert(frame@[i]@ + self@[i] =~= start[i]);
            }
        }
        Some(frame)
    }

    /// Appends `n` samples of silence to every channel.
    pub fn pad(&mut self, n: usize, silence: T)
        ensures
            final(self)@ == padded(old(self)@, n as nat, silence),
    {
        let ghost start = self@;
        let count: usize = self.channels.len();
        let mut c: usize = 0;
        while c < count
            invariant
                c <= count,
                count == start.len(),
                self@.len() == count,
                self.channels@.len() == count,
                forall|i: int|
                    0 <= i < c ==> #[trigger] self@[i] == start[i] + repeated(n as nat, silence),
                forall|i: int| c <= i < count ==> #[trigger] self@[i] == start[i],
            decreases count - c,
        {
            let mut k: usize = 0;
            assert(self@[c as int] =~= start[c as int] + repeated(0, silence));
            while k < n
                invariant
                    k <= n,
                    c < count,
                    count == start.len(),
                    self@.len() == count,
                    self.channels@.len() == count,
                    self@[c as int] == start[c as int] + repeated(k as nat, silence),
                    forall|i: int|
                        0 <= i < c ==> #[trigger] self@[i] == start[i] + repeated(n as nat, silence),
                    forall|i: int| c < i < count ==> #[trigger] self@[i] == start[i],
                decreases n - k,
            {
                let ghost before = self.channels@;
                let ghost seen = self@;
                self.channels[c].push_back(silence);
                assert forall|i: int| 0 <= i < count && i != c implies #[trigger] self@[i]
                    == seen[i] by {
                    assert(self.channels@[i] == before[i]);
                }
                k = k + 1;
                assert(self@[c as int] =~= start[c as int] + repeated(k as nat, silence));
            }
            c = c + 1;
        }
        assert(self@ =~= padded(start, n as nat, silence));
    }

    /// Removes the `n` oldest samples of every channel.
    pub fn drop_oldest(&mut self, n: usize)
        requires
            forall|i: int| 0 <= i < old(self)@.len() ==> #[trigger] old(self)@[i].len() >= n,
        ensures
            final(self)@ == without_oldest(old(self)@, n as nat),
    {
        let ghost start = self@;
        let count: usize = self.channels.len();
        let mut c: usize = 0;
        while c < count
            invariant
                c <= count,
                count == start.len(),
                self@.len() == count,
                self.channels@.len() == count,
                forall|i: int| 0 <= i < count ==> #[trigger] start[i].len() >= n,
                forall|i: int| 0 <= i < c ==> #[trigger] self@[i] == start[i].skip(n as int),
                forall|i: int| c <= i < count ==> #[trigger] self@[i] == start[i],
            decreases count - c,
        {
            let mut k: usize = 0;
            assert(start[c as int].len() >= n);
            assert(self@[c as int] =~= start[c as int].skip(0));
            while k < n
                invariant
                    k <= n,
                    c < count,
                    count == start.len(),
                    self@.len() == count,
                    self.channels@.len() == count,
                    start[c as int].len() >= n,
                    self@[c as int] == start[c as int].skip(k as int),
                    forall|i: int| 0 <= i < c ==> #[trigger] self@[i] == start[i].skip(n as int),
                    forall|i: int| c < i < count ==> #[trigger] self@[i] == start[i],
                decreases n - k,
            {
                let ghost before = self.channels@;
                let ghost seen = self@;
                let dropped: Option<T> = self.channels[c].pop_front();
                assert forall|i: int| 0 <= i < count && i != c implies #[trigger] self@[i]
                    == seen[i] by {
                    assert(self.channels@[i] == before[i]);
                }
                k = k + 1;
                assert(self@[c as int] =~= start[c as int].skip(k as int));
            }
            c = c + 1;
        }
        assert(self@ =~= without_oldest(start, n as nat));
    }
}

/// What a pop hands out and what it leaves make up, in order, what was there: no sample is lost,
/// doubled or moved.
pub proof fn law_pop_keeps_order<T>(q: Seq<Seq<T>>, block: Seq<Seq<T>>, i: int)
    requires
        0 <= i < q.len(),
        i < block.len(),
        block[i].len() <= q[i].len(),
    ensures
        filled_block(q, block)[i] + without_block(q, block)[i] == q[i],
{
    assert(q[i].take(block[i].len() as int) + q[i].skip(block[i].len() as int) =~= q[i]);
}

/// Appending two blocks one after the other appends their samples in that order.
pub proof fn law_pushes_join<T>(q: Seq<Seq<T>>, a: Seq<Seq<T>>, b: Seq<Seq<T>>, i: int)
    requires
        0 <= i < q.len(),
        i < a.len(),
        i < b.len(),
    ensures
        with_block(with_block(q, a), b)[i] == q[i] + (a[i] + b[i]),
{
    assert(q[i] + a[i] + b[i] =~= q[i] + (a[i] + b[i]));
}

/// The backlog is the delay: when a block is appended and as many samples are taken, the backlog
/// stays, and the samples taken are the block behind the old backlog, cut to its length.
pub proof fn law_backlog_is_delay<T>(q: Seq<Seq<T>>, block: Seq<Seq<T>>, i: int)
    requires
        0 <= i < q.len(),
        i < block.len(),
    ensures
        without_block(with_block(q, block), block)[i].len() == q[i].len(),
        filled_block(with_block(q, block), block)[i] == (q[i] + block[i]).take(block[i].len() as int),
        q[i].len() == 0 ==> filled_block(with_block(q, block), block)[i] == block[i],
{
    if q[i].len() == 0 {
        assert((q[i] + block[i]).take(block[i].len() as int) =~= block[i]);
    }
}

/// Every operation on aligned queues leaves them aligned, given blocks with rows of one length
/// for all channels, and samples enough to drop.
pub proof fn law_queues_stay_aligned<T>(q: Seq<Seq<T>>, block: Seq<Seq<T>>, n: nat, x: T)
    requires
        aligned(q),
        aligned(block),
        block.len() == q.len(),
        forall|i: int| 0 <= i < q.len() ==> #[trigger] block[i].len() <= q[i].len(),
    ensures
        aligned(with_block(q, block)),
        aligned(without_block(q, block)),
        aligned(padded(q, n, x)),
        (forall|i: int| 0 <= i < q.len() ==> #[trigger] q[i].len() >= n) ==> aligned(
            without_oldest(q, n),
        ),
{
}

/// Dropping undoes padding in length: a queue that is padded, and later loses as many of its
/// oldest samples, is as long as before.
pub proof fn law_dropping_undoes_padding<T>(q: Seq<Seq<T>>, n: nat, x: T, i: int)
    requires
        0 <= i < q.len(),
    ensures
        without_oldest(padded(q, n, x), n)[i].len() == q[i].len(),
{
}

/// Appending, sample by sample: what was there stays in front, and the samples of the block follow.
/// A channel that the block lacks stays as it is.
pub proof fn law_appending_by_sample<T>(q: Seq<Seq<T>>, block: Seq<Seq<T>>, i: int, k: int)
    requires
        0 <= i < q.len(),
    ensures
        with_block(q, block).len() == q.len(),
        i >= block.len() ==> with_block(q, block)[i] == q[i],
        i < block.len() ==> with_block(q, block)[i].len() == q[i].len() + block[i].len(),
        i < block.len() && 0 <= k < q[i].len() ==> with_block(q, block)[i][k] == q[i][k],
        i < block.len() && 0 <= k < block[i].len() ==> with_block(q, block)[i][q[i].len() + k]
            == block[i][k],
{
}

/// Taking, sample by sample: the block is filled with the oldest samples, and the others move up
/// by its length. A channel that the block lacks, and a row without a channel, stay as they are.
pub proof fn law_taking_by_sample<T>(q: Seq<Seq<T>>, block: Seq<Seq<T>>, i: int, k: int)
    ensures
        filled_block(q, block).len() == block.len(),
        without_block(q, block).len() == q.len(),
        q.len() <= i < block.len() ==> filled_block(q, block)[i] == block[i],
        block.len() <= i < q.len() ==> without_block(q, block)[i] == q[i],
        0 <= i < q.len() && i < block.len() && block[i].len() <= q[i].len() ==> {
            &&& filled_block(q, block)[i].len() == block[i].len()
            &&& without_block(q, block)[i].len() == q[i].len() - block[i].len()
            &&& 0 <= k < block[i].len() ==> filled_block(q, block)[i][k] == q[i][k]
            &&& block[i].len() <= k < q[i].len() ==> without_block(q, block)[i][k - block[i].len()]
                == q[i][k]
        },
{
}

/// Padding, sample by sample: what was there stays in front, and `n` samples of silence follow on
/// every channel.
pub proof fn law_padding_by_sample<T>(q: Seq<Seq<T>>, n: nat, x: T, i: int, k: int)
    requires
        0 <= i < q.len(),
    ensures
        padded(q, n, x).len() == q.len(),
        padded(q, n, x)[i].len() == q[i].len() + n,
        0 <= k < q[i].len() ==> padded(q, n, x)[i][k] == q[i][k],
        q[i].len() <= k < q[i].len() + n ==> padded(q, n, x)[i][k] == x,
{
}

/// Dropping, sample by sample: the other samples of every channel move up by `n`.
pub proof fn law_dropping_by_sample<T>(q: Seq<Seq<T>>, n: nat, i: int, k: int)
    requires
        0 <= i < q.len(),
        n <= q[i].len(),
    ensures
        without_oldest(q, n).len() == q.len(),
        without_oldest(q, n)[i].len() == q[i].len() - n,
        n <= k < q[i].len() ==> without_oldest(q, n)[i][k - n] == q[i][k],
{
}

/// The samples of a block are those of its rows, and a repeated sample is the same throughout.
pub proof fn law_blocks_by_sample<T>(block: Seq<Vec<T>>, i: int, n: nat, x: T, k: int)
    ensures
        samples_of(block).len() == block.len(),
        0 <= i < block.len() ==> samples_of(block)[i] == block[i]@,
        repeated(n, x).len() == n,
        0 <= k < n ==> repeated(n, x)[k] == x,
{
}

/// Queues are aligned exactly where every channel holds as many samples as the first one.
pub proof fn law_aligned_with_the_first<T>(q: Seq<Seq<T>>)
    ensures
        aligned(q) <==> forall|i: int| 0 <= i < q.len() ==> (#[trigger] q[i]).len() == q[0].len(),
{
    if forall|i: int| 0 <= i < q.len() ==> (#[trigger] q[i]).len() == q[0].len() {
        assert forall|i: int, j: int| 0 <= i < q.len() && 0 <= j < q.len() implies #[trigger] q[i].len()
            == #[trigger] q[j].len() by {
            assert(q[i].len() == q[0].len());
            assert(q[j].len() == q[0].len());
        }
    }
}

} // verus!
