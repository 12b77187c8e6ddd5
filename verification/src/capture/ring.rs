//! The ring buffers between the audio callbacks and the worker.
//!
//! A ring buffer holds samples by their bit patterns. Its two ends are used by different threads:
//! while one end is idle, the other may have moved on. What an end holds is therefore what its
//! last operation left; the next operation finds that and what the other end did meanwhile. That
//! what arrives at the reading end is what was written at the other end is not stated: no operation
//! holds both ends.

use ringbuf::traits::Consumer;
use ringbuf::traits::Observer;
use ringbuf::traits::Producer;
use ringbuf::traits::Split;
use ringbuf::HeapCons;
use ringbuf::HeapProd;
use ringbuf::HeapRb;
use vstd::arithmetic::div_mod::lemma_div_is_ordered;
use vstd::arithmetic::div_mod::lemma_div_multiples_vanish;
use vstd::arithmetic::div_mod::lemma_fundamental_div_mod;
use vstd::arithmetic::div_mod::lemma_fundamental_div_mod_converse;
use vstd::arithmetic::div_mod::lemma_mod_bound;
use vstd::arithmetic::div_mod::lemma_multiply_divide_lt;
use vstd::prelude::*;

verus! {

/// The writing end of a ring buffer.
#[verifier::external_body]
pub struct RbProd {
    inner: HeapProd<u32>,
}

/// The reading end of a ring buffer.
#[verifier::external_body]
pub struct RbCons {
    inner: HeapCons<u32>,
}

/// The samples that the last operation of the writing end left in the buffer.
pub uninterp spec fn written(rb: RbProd) -> Seq<u32>;

/// The number of samples that the buffer can hold.
pub uninterp spec fn capacity(rb: RbProd) -> nat;

/// The samples that the last operation of the reading end left in the buffer.
pub uninterp spec fn unread(rb: RbCons) -> Seq<u32>;

/// What reading at most `room` samples does to a buffer with `before` in it, when `arrived` was
/// written meanwhile: `got` is handed out in order, `after` stays, and no sample that there is
/// room for stays behind.
pub open spec fn read_effect(
    before: Seq<u32>,
    arrived: Seq<u32>,
    room: int,
    got: Seq<u32>,
    after: Seq<u32>,
) -> bool {
    &&& got + after == before + arrived
    &&& got.len() <= room
    &&& after.len() > 0 ==> got.len() == room
}

/// What writing the samples `data` does to a buffer with `before` in it, when `gone` samples were
/// read meanwhile: the first `n` samples join the buffer, and no free place is left unless all of
/// them did.
pub open spec fn write_effect(
    before: Seq<u32>,
    gone: nat,
    size: nat,
    data: Seq<u32>,
    n: int,
    after: Seq<u32>,
) -> bool {
    &&& gone <= before.len()
    &&& 0 <= n <= data.len()
    &&& after == before.skip(gone as int) + data.take(n)
    &&& after.len() <= size
    &&& n < data.len() ==> after.len() == size
}

/// Makes a ring buffer with [`HeapRb::new`] and splits it into its ends, which both find it empty.
#[verifier::external_body]
pub(crate) fn ring(size: usize) -> (ends: (RbProd, RbCons))
    requires
        size > 0,
        size * 4 <= isize::MAX,
    ensures
        written(ends.0).len() == 0,
        capacity(ends.0) == size,
        unread(ends.1).len() == 0,
{
    let (prod, cons) = HeapRb::<u32>::new(size).split();
    (RbProd { inner: prod }, RbCons { inner: cons })
}

/// Counts the samples in the buffer with [`Observer::occupied_len`], and takes note of those that
/// arrived since the last operation.
#[verifier::external_body]
pub(crate) fn occupied(rb: &mut RbCons) -> (n: usize)
    ensures
        exists|arrived: Seq<u32>| unread(*final(rb)) == #[trigger] (unread(*old(rb)) + arrived),
        n == unread(*final(rb)).len(),
{
    rb.inner.occupied_len()
}

/// Reads samples into a slice from position `from` on with [`Consumer::pop_slice`]: as many as
/// there are, up to the end of the slice.
#[verifier::external_body]
pub(crate) fn read_into(rb: &mut RbCons, data: &mut [u32], from: usize) -> (n: usize)
    requires
        from <= old(data)@.len(),
    ensures
        from + n <= old(data)@.len(),
        final(data)@.len() == old(data)@.len(),
        final(data)@.take(from as int) == old(data)@.take(from as int),
        final(data)@.skip(from + n) == old(data)@.skip(from + n),
        exists|arrived: Seq<u32>| #[trigger]
            read_effect(
                unread(*old(rb)),
                arrived,
                old(data)@.len() - from,
                final(data)@.subrange(from as int, from + n),
                unread(*final(rb)),
            ),
{
    rb.inner.pop_slice(&mut data[from..])
}

/// Reads samples with [`Consumer::pop_iter`]: as many as there are, up to `limit`.
#[verifier::external_body]
pub(crate) fn read_up_to(rb: &mut RbCons, limit: usize) -> (got: Vec<u32>)
    ensures
        exists|arrived: Seq<u32>| #[trigger]
            read_effect(unread(*old(rb)), arrived, limit as int, got@, unread(*final(rb))),
{
    rb.inner.pop_iter().take(limit).collect()
}

/// Writes the samples of a slice from position `from` on with [`Producer::push_slice`]: as many
/// as there is room for.
#[verifier::external_body]
pub(crate) fn write_from(rb: &mut RbProd, data: &[u32], from: usize) -> (n: usize)
    requires
        from <= data@.len(),
    ensures
        from + n <= data@.len(),
        capacity(*final(rb)) == capacity(*old(rb)),
        exists|gone: nat| #[trigger]
            write_effect(
                written(*old(rb)),
                gone,
                capacity(*old(rb)),
                data@.skip(from as int),
                n as int,
                written(*final(rb)),
            ),
{
    rb.inner.push_slice(&data[from..])
}

/// Makes the buffer for a stream: it holds a hundred frames.
pub fn stream_ring(frame_size: usize) -> (ends: (RbProd, RbCons))
    requires
        frame_size > 0,
        frame_size * 400 <= isize::MAX,
    ensures
        written(ends.0).len() == 0,
        capacity(ends.0) == 100 * frame_size,
        unread(ends.1).len() == 0,
{
    ring(frame_size * 100)
}

/// What taking a block of exactly `n` samples does to a buffer with `before` in it, when `arrived`
/// was written meanwhile: the oldest samples are the block and `after` stays, or there are too few
/// and all of them stay.
pub open spec fn take_effect(
    before: Seq<u32>,
    arrived: Seq<u32>,
    n: nat,
    block: Option<Seq<u32>>,
    after: Seq<u32>,
) -> bool {
    match block {
        Some(b) => b.len() == n && b + after == before + arrived,
        None => after.len() < n && after == before + arrived,
    }
}

/// The samples of a block that may be there.
pub open spec fn block_samples(block: Option<Vec<u32>>) -> Option<Seq<u32>> {
    match block {
        Some(b) => Some(b@),
        None => None,
    }
}

/// Takes a block of exactly `n_in` samples, if there are as many.
pub fn take_block(rb: &mut RbCons, n_in: usize) -> (block: Option<Vec<u32>>)
    ensures
        exists|arrived: Seq<u32>| #[trigger]
            take_effect(
                unread(*old(rb)),
                arrived,
                n_in as nat,
                block_samples(block),
                unread(*final(rb)),
            ),
{
    let ghost start = unread(*rb);
    if occupied(rb) < n_in {
        proof {
            let first = choose|arrived: Seq<u32>| unread(*rb) == #[trigger] (start + arrived);
            assert(take_effect(start, first, n_in as nat, None, unread(*rb)));
        }
        return None;
    }
    let ghost first = choose|arrived: Seq<u32>| unread(*rb) == #[trigger] (start + arrived);
    let ghost seen = unread(*rb);
    let mut b: Vec<u32> = vec![0u32; n_in];
    let n: usize = read_into(rb, b.as_mut_slice(), 0);
    proof {
        let got = b@.subrange(0, n as int);
        let second = choose|arrived: Seq<u32>| #[trigger]
            read_effect(seen, arrived, n_in as int, got, unread(*rb));
        assert(got.len() + unread(*rb).len() == (seen + second).len());
        assert(b@ =~= got);
        assert(start + (first + second) =~= seen + second);
        assert(take_effect(start, first + second, n_in as nat, Some(b@), unread(*rb)));
    }
    Some(b)
}

/// The number of chunks of `ch` samples in `len` samples, a shorter one at the end included.
pub open spec fn chunks_of(len: nat, ch: nat) -> nat {
    if len % ch == 0 {
        len / ch
    } else {
        len / ch + 1
    }
}

/// The number of the chunk that a position is in.
pub open spec fn chunk_at(i: int, ch: nat) -> int {
    i / (ch as int)
}

/// Chunks of `ch` samples, where those from number `n` on are filled with one sample of `got`
/// each.
pub open spec fn upmixed(data: Seq<u32>, ch: nat, n: nat, got: Seq<u32>) -> Seq<u32> {
    Seq::new(
        data.len(),
        |i: int|
            if n <= chunk_at(i, ch) < n + got.len() {
                got[chunk_at(i, ch) - n]
            } else {
                data[i]
            },
    )
}

/// The number of chunks of `ch` samples, a shorter one at the end included.
fn chunks(len: usize, ch: usize) -> (n: usize)
    requires
        ch > 0,
    ensures
        n == chunks_of(len as nat, ch as nat),
{
    proof {
        lemma_fundamental_div_mod(len as int, ch as int);
        let q = len as int / ch as int;
        let c = ch as int;
        assert(q <= c * q) by (nonlinear_arith)
            requires
                c >= 1,
                q >= 0,
        ;
    }
    if len % ch == 0 {
        len / ch
    } else {
        len / ch + 1
    }
}

/// Fills chunks of `ch` samples, from number `n` on, with one sample of `got` each. Samples for
/// which no chunk is left are not used. Returns the number of the next chunk.
pub fn upmix(data: &mut [u32], ch: usize, n: usize, got: &Vec<u32>) -> (next: usize)
    requires
        ch > 0,
        n <= chunks_of(old(data)@.len(), ch as nat),
    ensures
        next == if n + got@.len() <= chunks_of(old(data)@.len(), ch as nat) {
            n + got@.len()
        } else {
            chunks_of(old(data)@.len(), ch as nat) as int
        },
        final(data)@ == upmixed(old(data)@, ch as nat, n as nat, got@),
        forall|f: nat, c: nat|
            n <= f < n + got@.len() && c < ch && f * ch + c < old(data)@.len()
                ==> #[trigger] final(data)@[(f * ch + c) as int] == got@[f - n],
{
    let ghost start = data@;
    let len: usize = data.len();
    let total: usize = chunks(len, ch);
    let used: usize = if got.len() < total - n {
        got.len()
    } else {
        total - n
    };
    if n == total {
        proof {
            assert forall|i: int| 0 <= i < len implies #[trigger] chunk_at(i, ch as nat) < total by {
                lemma_in_chunks(i, len as int, ch as int);
            }
        }
        assert(data@ =~= upmixed(start, ch as nat, n as nat, got@));
        proof {
            assert forall|f: nat, c: nat|
                n <= f < n + got@.len() && c < ch && f * ch + c < start.len() implies #[trigger] data@[(f * ch
                + c) as int] == got@[f - n] by {
                law_every_channel_gets_the_sample(start, ch as nat, n as nat, got@, f, c);
            }
        }
        return n;
    }
    proof {
        lemma_chunk_starts_inside(n as int, len as int, ch as int);
    }
    let mut i: usize = n * ch;
    proof {
        assert forall|j: int| 0 <= j < i implies #[trigger] chunk_at(j, ch as nat) < n by {
            lemma_multiply_divide_lt(j, ch as int, n as int);
        }
    }
    while i < len && i / ch < n + used
        invariant
            n * ch <= i <= len,
            ch > 0,
            n + used <= total,
            n < total,
            total == chunks_of(len as nat, ch as nat),
            used <= got@.len(),
            len == start.len(),
            data@.len() == len,
            forall|j: int| 0 <= j < i ==> #[trigger] chunk_at(j, ch as nat) < n + used,
            forall|j: int|
                0 <= j < i ==> #[trigger] data@[j] == upmixed(start, ch as nat, n as nat, got@)[j],
            forall|j: int| i <= j < len ==> #[trigger] data@[j] == start[j],
        decreases len - i,
    {
        proof {
            assert((n * ch) / (ch as int) == n) by {
                lemma_div_multiples_vanish(n as int, ch as int);
                assert(n * ch == ch * n) by (nonlinear_arith);
            }
            lemma_div_is_ordered(n * ch, i as int, ch as int);
        }
        let x: u32 = got[i / ch - n];
        data[i] = x;
        i = i + 1;
    }
    proof {
        assert forall|j: int| i <= j < len implies #[trigger] start[j] == upmixed(
            start,
            ch as nat,
            n as nat,
            got@,
        )[j] by {
            lemma_div_is_ordered(i as int, j, ch as int);
            lemma_in_chunks(j, len as int, ch as int);
        }
    }
    assert(data@ =~= upmixed(start, ch as nat, n as nat, got@));
    proof {
        assert forall|f: nat, c: nat|
            n <= f < n + got@.len() && c < ch && f * ch + c < start.len() implies #[trigger] data@[(f * ch
            + c) as int] == got@[f - n] by {
            law_every_channel_gets_the_sample(start, ch as nat, n as nat, got@, f, c);
        }
    }
    n + used
}

/// How many samples a pass of playback may read once `n` frames are filled. With several channels
/// it is one more than there are frames to fill.
pub open spec fn playback_room(len: nat, ch: nat, n: nat) -> int {
    if ch > 1 {
        chunks_of(len, ch) - n + 1
    } else {
        len - n
    }
}

/// One pass of playback: fills frames of `ch` samples, from number `n` on, with what the buffer
/// holds, the same sample on every channel. Returns the number of the next frame.
///
/// With several channels a sample is read before it is known that no frame is left for it; it is
/// then lost.
pub fn playback_pass(rb: &mut RbCons, data: &mut [u32], ch: usize, n: usize) -> (next: usize)
    requires
        ch > 0,
        n <= chunks_of(old(data)@.len(), ch as nat),
    ensures
        exists|arrived: Seq<u32>, got: Seq<u32>|
            {
                &&& #[trigger] read_effect(
                    unread(*old(rb)),
                    arrived,
                    playback_room(old(data)@.len(), ch as nat, n as nat),
                    got,
                    unread(*final(rb)),
                )
                &&& final(data)@ == upmixed(old(data)@, ch as nat, n as nat, got)
                &&& next == if n + got.len() <= chunks_of(old(data)@.len(), ch as nat) {
                    n + got.len()
                } else {
                    chunks_of(old(data)@.len(), ch as nat) as int
                }
            },
{
    let ghost start = data@;
    let ghost before = unread(*rb);
    let ghost room = playback_room(start.len(), ch as nat, n as nat);
    let len: usize = data.len();
    if ch > 1 {
        let total: usize = chunks(len, ch);
        proof {
            lemma_fundamental_div_mod(len as int, ch as int);
            let q = len as int / (ch as int);
            let c = ch as int;
            assert(2 * q <= c * q) by (nonlinear_arith)
                requires
                    c >= 2,
                    q >= 0,
            ;
        }
        let got: Vec<u32> = read_up_to(rb, total - n + 1);
        let next: usize = upmix(data, ch, n, &got);
        proof {
            let arrived = choose|arrived: Seq<u32>| #[trigger]
                read_effect(before, arrived, room, got@, unread(*rb));
            assert(read_effect(before, arrived, room, got@, unread(*rb)));
        }
        next
    } else {
        assert(chunks_of(data@.len(), 1) == data@.len());
        let k: usize = read_into(rb, data, n);
        proof {
            let got = data@.subrange(n as int, n + k);
            let mixed = upmixed(start, 1, n as nat, got);
            assert forall|i: int| 0 <= i < data@.len() implies data@[i] == mixed[i] by {
                if i < n {
                    assert(data@.take(n as int)[i] == start.take(n as int)[i]);
                } else if i >= n + k {
                    assert(data@.skip(n + k)[i - n - k] == start.skip(n + k)[i - n - k]);
                }
            }
            assert(data@ =~= mixed);
            let arrived = choose|arrived: Seq<u32>| #[trigger]
                read_effect(before, arrived, start.len() - n, got, unread(*rb));
            assert(read_effect(before, arrived, room, got, unread(*rb)));
        }
        n + k
    }
}

/// One pass of capture: writes samples from position `n` on, as many as there is room for.
/// Returns the position of the next sample.
pub fn capture_pass(rb: &mut RbProd, data: &[u32], n: usize) -> (next: usize)
    requires
        n <= data@.len(),
    ensures
        n <= next <= data@.len(),
        capacity(*final(rb)) == capacity(*old(rb)),
        exists|gone: nat| #[trigger]
            write_effect(
                written(*old(rb)),
                gone,
                capacity(*old(rb)),
                data@.skip(n as int),
                next - n,
                written(*final(rb)),
            ),
{
    let ghost before = written(*rb);
    let ghost size = capacity(*rb);
    let len: usize = data.len();
    let k: usize = write_from(rb, data, n);
    assert(n + k <= len);
    proof {
        let gone = choose|gone: nat| #[trigger]
            write_effect(before, gone, size, data@.skip(n as int), k as int, written(*rb));
        assert(write_effect(before, gone, size, data@.skip(n as int), (n + k) - n, written(*rb)));
    }
    n + k
}

/// Two reads, one after the other, hand out the samples in the order in which they were there and
/// arrived.
pub proof fn law_reads_keep_order(
    before: Seq<u32>,
    arrived1: Seq<u32>,
    room1: int,
    got1: Seq<u32>,
    between: Seq<u32>,
    arrived2: Seq<u32>,
    room2: int,
    got2: Seq<u32>,
    after: Seq<u32>,
)
    requires
        read_effect(before, arrived1, room1, got1, between),
        read_effect(between, arrived2, room2, got2, after),
    ensures
        got1 + got2 + after == before + arrived1 + arrived2,
{
    assert(got1 + got2 + after =~= got1 + (got2 + after));
    assert(got1 + (between + arrived2) =~= (got1 + between) + arrived2);
}

/// Two writes, one after the other, leave their samples in order behind those that were there,
/// less what was read from the front meanwhile.
pub proof fn law_writes_keep_order(
    before: Seq<u32>,
    gone1: nat,
    size: nat,
    data1: Seq<u32>,
    n1: int,
    between: Seq<u32>,
    gone2: nat,
    data2: Seq<u32>,
    n2: int,
    after: Seq<u32>,
)
    requires
        write_effect(before, gone1, size, data1, n1, between),
        write_effect(between, gone2, size, data2, n2, after),
    ensures
        after == (before + data1.take(n1) + data2.take(n2)).skip((gone1 + gone2) as int),
{
    assert(after =~= (before + data1.take(n1) + data2.take(n2)).skip((gone1 + gone2) as int));
}

/// Two passes of playback, one after the other, fill the frames that one pass with the samples of
/// both would fill.
pub proof fn law_passes_join(data: Seq<u32>, ch: nat, n: nat, got1: Seq<u32>, got2: Seq<u32>)
    ensures
        upmixed(upmixed(data, ch, n, got1), ch, n + got1.len(), got2) == upmixed(
            data,
            ch,
            n,
            got1 + got2,
        ),
{
    assert(upmixed(upmixed(data, ch, n, got1), ch, n + got1.len(), got2) =~= upmixed(
        data,
        ch,
        n,
        got1 + got2,
    ));
}

proof fn lemma_in_chunks(i: int, len: int, ch: int)
    requires
        0 <= i < len,
        ch > 0,
    ensures
        i / ch < chunks_of(len as nat, ch as nat),
{
    lemma_fundamental_div_mod(len, ch);
    lemma_div_is_ordered(i, len, ch);
    if len % ch == 0 {
        let q = len / ch;
        assert(ch * q == q * ch) by (nonlinear_arith);
        lemma_multiply_divide_lt(i, ch, q);
    }
}

proof fn lemma_chunk_starts_inside(n: int, len: int, ch: int)
    requires
        0 <= n < chunks_of(len as nat, ch as nat),
        len >= 0,
        ch > 0,
    ensures
        0 <= n * ch < len,
{
    lemma_fundamental_div_mod(len, ch);
    let q = len / ch;
    let r = len % ch;
    assert(n * ch >= 0) by (nonlinear_arith)
        requires
            n >= 0,
            ch > 0,
    ;
    if r == 0 {
        assert(n * ch < ch * q) by (nonlinear_arith)
            requires
                n < q,
                ch > 0,
        ;
    } else {
        assert(n * ch <= ch * q) by (nonlinear_arith)
            requires
                n <= q,
                ch > 0,
        ;
    }
}

/// All channels of a frame that is filled hold the sample of the frame: with `ch` channels, the
/// sample on channel `c` of frame `f` is the one that was got for that frame.
pub proof fn law_every_channel_gets_the_sample(
    data: Seq<u32>,
    ch: nat,
    n: nat,
    got: Seq<u32>,
    f: nat,
    c: nat,
)
    requires
        c < ch,
        n <= f < n + got.len(),
        f * ch + c < data.len(),
    ensures
        upmixed(data, ch, n, got)[(f * ch + c) as int] == got[f - n],
{
    lemma_fundamental_div_mod_converse((f * ch + c) as int, ch as int, f as int, c as int);
}

/// A pass leaves the frames before and behind those that it fills as they are, and the buffer as
/// long as it is.
pub proof fn law_other_frames_stay(
    data: Seq<u32>,
    ch: nat,
    n: nat,
    got: Seq<u32>,
    f: nat,
    c: nat,
)
    requires
        c < ch,
        f < n || n + got.len() <= f,
        f * ch + c < data.len(),
    ensures
        upmixed(data, ch, n, got)[(f * ch + c) as int] == data[(f * ch + c) as int],
        upmixed(data, ch, n, got).len() == data.len(),
{
    lemma_fundamental_div_mod_converse((f * ch + c) as int, ch as int, f as int, c as int);
}

/// The frames of a buffer are as many as are needed to hold all of its samples, and no more.
pub proof fn law_frames_cover_the_buffer(len: nat, ch: nat)
    requires
        ch > 0,
    ensures
        chunks_of(len, ch) * ch >= len,
        len > 0 ==> (chunks_of(len, ch) - 1) * ch < len,
        len == 0 ==> chunks_of(len, ch) == 0,
{
    let l = len as int;
    let c = ch as int;
    let q = l / c;
    let r = l % c;
    lemma_fundamental_div_mod(l, c);
    lemma_mod_bound(l, c);
    if len == 0 {
        lemma_fundamental_div_mod_converse(0, c, 0, 0);
    }
    assert(q * c == c * q && (q + 1) * c == c * q + c && (q - 1) * c == c * q - c) by (nonlinear_arith);
    assert(q >= 0) by (nonlinear_arith)
        requires
            l == c * q + r,
            l >= 0,
            0 <= r < c,
    ;
}

/// A pass of playback reads no more than it can play, but for one sample where there are several
/// channels.
pub proof fn law_playback_reads_what_it_plays(len: nat, ch: nat, n: nat)
    requires
        ch > 0,
    ensures
        ch == 1 ==> n + playback_room(len, ch, n) == len,
        ch > 1 ==> (n + playback_room(len, ch, n) - 1) * ch >= len,
        ch > 1 && len > 0 ==> (n + playback_room(len, ch, n) - 2) * ch < len,
        ch > 1 && len == 0 ==> n + playback_room(len, ch, n) == 1,
{
    law_frames_cover_the_buffer(len, ch);
}

/// A block of `n` samples is handed out exactly where so many are there, and then it is the oldest
/// `n` of them; the others stay in order. Otherwise all of them stay.
pub proof fn law_block_is_the_oldest(
    before: Seq<u32>,
    arrived: Seq<u32>,
    n: nat,
    block: Option<Seq<u32>>,
    after: Seq<u32>,
)
    requires
        take_effect(before, arrived, n, block, after),
    ensures
        block is Some <==> before.len() + arrived.len() >= n,
        block matches Some(b) ==> b.len() == n && b == (before + arrived).take(n as int) && after == (
        before + arrived).skip(n as int),
        block is None ==> after == before + arrived,
{
    let all = before + arrived;
    match block {
        Some(b) => {
            assert((b + after).len() == all.len());
            assert(b =~= (b + after).take(n as int));
            assert(after =~= (b + after).skip(n as int));
        },
        None => {
            assert(after.len() == all.len());
        },
    }
}

/// A read hands out the oldest samples, as many as there are and there is room for; the others stay
/// in order.
pub proof fn law_read_is_the_oldest(
    before: Seq<u32>,
    arrived: Seq<u32>,
    room: int,
    got: Seq<u32>,
    after: Seq<u32>,
)
    requires
        room >= 0,
        read_effect(before, arrived, room, got, after),
    ensures
        got.len() == if before.len() + arrived.len() <= room {
            before.len() + arrived.len()
        } else {
            room as nat
        },
        got == (before + arrived).take(got.len() as int),
        after == (before + arrived).skip(got.len() as int),
{
    let all = before + arrived;
    assert((got + after).len() == all.len());
    assert(got =~= (got + after).take(got.len() as int));
    assert(after =~= (got + after).skip(got.len() as int));
}

/// A write takes the first samples, as many as there are and there is room for, and puts them behind
/// those in the buffer.
pub proof fn law_write_fills_the_room(
    before: Seq<u32>,
    gone: nat,
    size: nat,
    data: Seq<u32>,
    n: int,
    after: Seq<u32>,
)
    requires
        before.len() <= size,
        write_effect(before, gone, size, data, n, after),
    ensures
        n == if data.len() <= size - (before.len() - gone) {
            data.len() as int
        } else {
            size - (before.len() - gone)
        },
        after.len() == before.len() - gone + n,
        forall|i: int| 0 <= i < before.len() - gone ==> #[trigger] after[i] == before[gone + i],
        forall|i: int|
            0 <= i < n ==> after[before.len() - gone + i] == #[trigger] data[i],
{
}

/// The samples of a block are those of its vector, and no block has none.
pub proof fn law_block_samples(block: Option<Vec<u32>>)
    ensures
        block is None <==> block_samples(block) is None,
        block matches Some(b) ==> block_samples(block) == Some(b@),
{
}

} // verus!
