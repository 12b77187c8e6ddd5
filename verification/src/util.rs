//! Random numbers that can be repeated: a generator per thread, to be seeded before use.

pub mod number;

use crate::util::number::Number;
use rand::Rng;
use rand_xoshiro::rand_core::SeedableRng;
use rand_xoshiro::Xoshiro256PlusPlus;
use vstd::arithmetic::power::pow;
use vstd::prelude::*;

verus! {

/// The error of installing a logger.
#[verifier::external_type_specification]
#[verifier::external_body]
pub struct ExSetLoggerError(log::SetLoggerError);

/// An error of the utilities.
#[derive(Debug)]
pub enum UtilsError {
    SeedNotInitialized,
    SetLoggerError(log::SetLoggerError),
}

impl UtilsError {
    /// What went wrong.
    pub fn message(&self) -> (text: &'static str)
        ensures
            text@ == match *self {
                UtilsError::SeedNotInitialized =>
                    "Random seed is not initialized using seed_from_u64(x)"@,
                UtilsError::SetLoggerError(_) => "Could not inititalize logger"@,
            },
    {
        match self {
            UtilsError::SeedNotInitialized => "Random seed is not initialized using seed_from_u64(x)",
            UtilsError::SetLoggerError(_) => "Could not inititalize logger",
        }
    }
}

impl From<log::SetLoggerError> for UtilsError {
    fn from(e: log::SetLoggerError) -> (r: UtilsError) {
        UtilsError::SetLoggerError(e)
    }
}

impl vstd::std_specs::convert::FromSpecImpl<log::SetLoggerError> for UtilsError {
    open spec fn obeys_from_spec() -> bool {
        true
    }

    open spec fn from_spec(e: log::SetLoggerError) -> UtilsError {
        UtilsError::SetLoggerError(e)
    }
}

/// The state of the generator that [`Xoshiro256PlusPlus`] makes of a seed.
pub uninterp spec fn seeded_state(seed: u64) -> Seq<u8>;

/// The word that the generator draws in a state, and the state that it is in afterwards.
pub uninterp spec fn next_word(state: Seq<u8>) -> (u64, Seq<u8>);

/// The bytes of a word, the lowest one first.
pub open spec fn word_bytes(w: u64) -> Seq<u8> {
    Seq::new(8, |i: int| ((w as int / pow(256, i as nat)) % 256) as u8)
}

/// The `n` bytes that a generator in a state draws, a word at a time, the last one cut off, and
/// the state that it is in afterwards.
pub open spec fn filled_bytes(state: Seq<u8>, n: nat) -> (Seq<u8>, Seq<u8>)
    decreases n,
{
    if n == 0 {
        (Seq::empty(), state)
    } else if n <= 8 {
        (word_bytes(next_word(state).0).take(n as int), next_word(state).1)
    } else {
        let rest = filled_bytes(next_word(state).1, (n - 8) as nat);
        (word_bytes(next_word(state).0) + rest.0, rest.1)
    }
}

/// Seeds a generator with `Xoshiro256PlusPlus::seed_from_u64` and hands out its state.
#[verifier::external_body]
fn seed(x: u64) -> (state: [u8; 32])
    ensures
        state@ == seeded_state(x),
{
    Xoshiro256PlusPlus::seed_from_u64(x).state()
}

/// Draws a word with `Rng::next_u64`.
#[verifier::external_body]
fn draw_u64(state: [u8; 32]) -> (r: (u64, [u8; 32]))
    ensures
        (r.0, r.1@) == next_word(state@),
{
    let mut rng = Xoshiro256PlusPlus::from_seed(state);
    (rng.next_u64(), rng.state())
}

/// Draws half a word with `Rng::next_u32`: the upper half of the next word.
#[verifier::external_body]
fn draw_u32(state: [u8; 32]) -> (r: (u32, [u8; 32]))
    ensures
        r.0 == next_word(state@).0 / 0x1_0000_0000,
        r.1@ == next_word(state@).1,
{
    let mut rng = Xoshiro256PlusPlus::from_seed(state);
    (rng.next_u32(), rng.state())
}

/// Draws bytes with `Rng::fill_bytes`.
#[verifier::external_body]
fn draw_bytes(state: [u8; 32], dest: &mut [u8]) -> (after: [u8; 32])
    ensures
        final(dest)@ == filled_bytes(state@, old(dest)@.len()).0,
        after@ == filled_bytes(state@, old(dest)@.len()).1,
{
    let mut rng = Xoshiro256PlusPlus::from_seed(state);
    rng.fill_bytes(dest);
    rng.state()
}

/// A seeded random number generator.
pub struct SeededRng {
    state: [u8; 32],
}

impl View for SeededRng {
    type V = Seq<u8>;

    closed spec fn view(&self) -> Seq<u8> {
        self.state@
    }
}

impl SeededRng {
    /// A generator in the state that a seed leads to.
    fn from_seed(x: u64) -> (rng: SeededRng)
        ensures
            rng@ == seeded_state(x),
    {
        SeededRng { state: seed(x) }
    }

    /// Draws half a word.
    pub fn try_next_u32(&mut self) -> (r: u32)
        ensures
            r == next_word(old(self)@).0 / 0x1_0000_0000,
            final(self)@ == next_word(old(self)@).1,
    {
        let (r, after) = draw_u32(self.state);
        self.state = after;
        r
    }

    /// Draws a word.
    pub fn try_next_u64(&mut self) -> (r: u64)
        ensures
            (r, final(self)@) == next_word(old(self)@),
    {
        let (r, after) = draw_u64(self.state);
        self.state = after;
        r
    }

    /// Fills a slice with random bytes.
    pub fn try_fill_bytes(&mut self, slice: &mut [u8])
        ensures
            (final(slice)@, final(self)@) == filled_bytes(old(self)@, old(slice)@.len()),
    {
        let after: [u8; 32] = draw_bytes(self.state, slice);
        self.state = after;
    }

    /// Draws a number from `low` on and under `high`. An empty range yields `low`, and nothing is
    /// drawn.
    pub fn uniform<T: Number>(&mut self, low: T, high: T) -> (r: T)
        ensures
            low.value() >= high.value() ==> r == low && final(self)@ == old(self)@,
            low.value() < high.value() ==> {
                &&& (r.value(), final(self)@) == T::ranged_in(
                    old(self)@,
                    low.value(),
                    high.value() - 1,
                    high.value(),
                )
                &&& low.value() <= r.value() < high.value()
            },
    {
        if low.at_least(high) {
            low
        } else {
            let (r, after) = T::draw_range(self.state, low, high);
            self.state = after;
            r
        }
    }

    /// Draws a number from `low` on and up to `high`. A range without a number above `low` yields
    /// `low`, and nothing is drawn.
    pub fn uniform_inclusive<T: Number>(&mut self, low: T, high: T) -> (r: T)
        ensures
            low.value() >= high.value() ==> r == low && final(self)@ == old(self)@,
            low.value() < high.value() ==> {
                &&& (r.value(), final(self)@) == T::ranged_in(
                    old(self)@,
                    low.value(),
                    high.value(),
                    high.value(),
                )
                &&& low.value() <= r.value() <= high.value()
            },
    {
        if low.at_least(high) {
            low
        } else {
            let (r, after) = T::draw_range_inclusive(self.state, low, high);
            self.state = after;
            r
        }
    }
}

/// The generator of a thread. It is to be seeded before it is used.
pub struct ThreadSeed {
    pub seeded: bool,
    pub rng: SeededRng,
}

impl ThreadSeed {
    /// A generator that is not seeded yet.
    pub fn new() -> (t: ThreadSeed)
        ensures
            !t.seeded,
            t.rng@ == seeded_state(0),
    {
        ThreadSeed { seeded: false, rng: SeededRng::from_seed(0) }
    }
}

/// Seeds the generator of a thread. Whatever was drawn before, it then draws what the seed leads
/// to.
pub fn seed_from_u64(thread: &mut ThreadSeed, x: u64)
    ensures
        final(thread).seeded,
        final(thread).rng@ == seeded_state(x),
{
    thread.seeded = true;
    thread.rng = SeededRng::from_seed(x);
}

/// The generator of a thread, if it was seeded. Draws from it go on where the last ones left off.
pub fn thread_rng(thread: &mut ThreadSeed) -> (r: Result<&mut SeededRng, UtilsError>)
    ensures
        match r {
            Ok(rng) => {
                &&& old(thread).seeded
                &&& *rng == old(thread).rng
                &&& final(thread).seeded
                &&& final(thread).rng == *final(rng)
            },
            Err(e) => {
                &&& !old(thread).seeded
                &&& e == UtilsError::SeedNotInitialized
                &&& *final(thread) == *old(thread)
            },
        },
{
    if !thread.seeded {
        return Err(UtilsError::SeedNotInitialized);
    }
    Ok(&mut thread.rng)
}

/// The `n` integers from `low` to `high` that a uniform distribution of a type draws from a
/// generator in a state, and the state that it is in afterwards.
pub open spec fn samples<T: Number>(state: Seq<u8>, low: int, high: int, n: nat) -> (
    Seq<int>,
    Seq<u8>,
)
    decreases n,
{
    if n == 0 {
        (Seq::empty(), state)
    } else {
        let (first, mid) = samples::<T>(state, low, high, (n - 1) as nat);
        let (x, after) = T::sampled_in(mid, low, high);
        (first.push(x), after)
    }
}

/// The integers that stand for a sequence of values.
pub open spec fn values_of<T: Number>(v: Seq<T>) -> Seq<int> {
    v.map_values(|x: T| x.value())
}

/// Draws `n` numbers from `low` up to `high` from the generator of a thread.
pub fn rng_uniform<T: Number>(thread: &mut ThreadSeed, n: usize, low: T, high: T) -> (r: Result<
    Vec<T>,
    UtilsError,
>)
    requires
        old(thread).seeded ==> low.value() <= high.value(),
    ensures
        final(thread).seeded == old(thread).seeded,
        match r {
            Ok(v) => {
                &&& old(thread).seeded
                &&& (values_of(v@), final(thread).rng@) == samples::<T>(
                    old(thread).rng@,
                    low.value(),
                    high.value(),
                    n as nat,
                )
                &&& v@.len() == n
                &&& forall|i: int|
                    0 <= i < n ==> low.value() <= (#[trigger] v@[i]).value() <= high.value()
            },
            Err(e) => {
                &&& !old(thread).seeded
                &&& e == UtilsError::SeedNotInitialized
                &&& final(thread).rng@ == old(thread).rng@
            },
        },
{
    match thread_rng(thread) {
        Err(e) => Err(e),
        Ok(rng) => {
            let ghost start = rng@;
            let mut v: Vec<T> = Vec::new();
            assert(values_of(v@) =~= Seq::<int>::empty());
            let mut i: usize = 0;
            while i < n
                invariant
                    i <= n,
                    low.value() <= high.value(),
                    v@.len() == i,
                    (values_of(v@), rng@) == samples::<T>(
                        start,
                        low.value(),
                        high.value(),
                        i as nat,
                    ),
                    forall|k: int|
                        0 <= k < i ==> low.value() <= (#[trigger] v@[k]).value() <= high.value(),
                decreases n - i,
            {
                let (x, after) = T::sample(rng.state, low, high);
                let ghost before = v@;
                v.push(x);
                assert(values_of(v@) =~= values_of(before).push(x.value()));
                rng.state = after;
                i = i + 1;
            }
            Ok(v)
        },
    }
}

/// Asking for more numbers changes none of the first ones.
pub proof fn law_more_samples_keep_the_first<T: Number>(
    state: Seq<u8>,
    low: int,
    high: int,
    n: nat,
    more: nat,
)
    ensures
        samples::<T>(state, low, high, n).0.len() == n,
        samples::<T>(state, low, high, n + more).0.take(n as int) == samples::<T>(
            state,
            low,
            high,
            n,
        ).0,
{
    lemma_samples_len::<T>(state, low, high, n);
    law_draws_join::<T>(state, low, high, n, more);
    let (first, mid) = samples::<T>(state, low, high, n);
    assert((first + samples::<T>(mid, low, high, more).0).take(n as int) =~= first);
}

/// Two draws join to one: numbers that are drawn in two goes, and the state after them, are those
/// of one go.
pub proof fn law_draws_join<T: Number>(state: Seq<u8>, low: int, high: int, n: nat, more: nat)
    ensures
        ({
            let (first, mid) = samples::<T>(state, low, high, n);
            let (then, after) = samples::<T>(mid, low, high, more);
            samples::<T>(state, low, high, n + more) == (first + then, after)
        }),
    decreases more,
{
    let (first, mid) = samples::<T>(state, low, high, n);
    let (then, after) = samples::<T>(mid, low, high, more);
    if more == 0 {
        assert(first + then =~= first);
    } else {
        let less = (more - 1) as nat;
        law_draws_join::<T>(state, low, high, n, less);
        let (rest, last) = samples::<T>(mid, low, high, less);
        let x = T::sampled_in(last, low, high).0;
        assert((n + more - 1) as nat == n + less);
        assert(first + rest.push(x) =~= (first + rest).push(x));
    }
}

proof fn lemma_samples_len<T: Number>(state: Seq<u8>, low: int, high: int, n: nat)
    ensures
        samples::<T>(state, low, high, n).0.len() == n,
    decreases n,
{
    if n > 0 {
        lemma_samples_len::<T>(state, low, high, (n - 1) as nat);
    }
}

/// Two fills join to one, where the first one ends with a whole word.
pub proof fn law_fills_join(state: Seq<u8>, n: nat, more: nat)
    requires
        n % 8 == 0,
    ensures
        ({
            let (first, mid) = filled_bytes(state, n);
            let (then, after) = filled_bytes(mid, more);
            filled_bytes(state, n + more) == (first + then, after)
        }),
    decreases n,
{
    let (first, mid) = filled_bytes(state, n);
    let (then, after) = filled_bytes(mid, more);
    if n == 0 {
        assert(first + then =~= then);
    } else {
        let word = word_bytes(next_word(state).0);
        let next = next_word(state).1;
        law_fills_join(next, (n - 8) as nat, more);
        let (head, same) = filled_bytes(next, (n - 8) as nat);
        assert(word.take(8) =~= word);
        if n == 8 {
            assert(first =~= word + head);
        }
        assert(same == mid);
        if more == 0 && n == 8 {
            assert(then =~= Seq::empty());
            assert(first + then =~= word.take(8));
        } else {
            assert((n + more - 8) as nat == (n - 8) as nat + more);
            assert(first + then =~= word + (head + then));
        }
    }
}

/// The state of a generator after `n` words were drawn.
pub open spec fn after_words(state: Seq<u8>, n: nat) -> Seq<u8>
    decreases n,
{
    if n == 0 {
        state
    } else {
        after_words(next_word(state).1, (n - 1) as nat)
    }
}

/// Filling draws whole words: as many bytes as asked for come out, and the generator moves on by
/// one word for every eight of them, or part of eight.
pub proof fn law_filling_draws_whole_words(state: Seq<u8>, n: nat)
    ensures
        filled_bytes(state, n).0.len() == n,
        filled_bytes(state, n).1 == after_words(state, (n + 7) / 8),
    decreases n,
{
    reveal_with_fuel(after_words, 2);
    if n > 8 {
        law_filling_draws_whole_words(next_word(state).1, (n - 8) as nat);
        assert((n + 7) / 8 == ((n - 8) as nat + 7) / 8 + 1);
    } else if n > 0 {
        assert((n + 7) / 8 == 1);
    }
}

/// The numbers drawn are, one after the other, what the distribution draws in the state that the one
/// before has left.
pub proof fn law_samples_follow_each_other<T: Number>(
    state: Seq<u8>,
    low: int,
    high: int,
    n: nat,
    i: nat,
)
    requires
        i < n,
    ensures
        samples::<T>(state, low, high, 0) == (Seq::<int>::empty(), state),
        samples::<T>(state, low, high, n).0[i as int] == T::sampled_in(
            samples::<T>(state, low, high, i).1,
            low,
            high,
        ).0,
        samples::<T>(state, low, high, i + 1).1 == T::sampled_in(
            samples::<T>(state, low, high, i).1,
            low,
            high,
        ).1,
{
    let more = (n - i - 1) as nat;
    law_more_samples_keep_the_first::<T>(state, low, high, i + 1, more);
    lemma_samples_len::<T>(state, low, high, i);
    lemma_samples_len::<T>(state, low, high, n);
    assert((i + 1) + more == n);
    let first = samples::<T>(state, low, high, i + 1).0;
    assert(samples::<T>(state, low, high, n).0.take((i + 1) as int)[i as int] == first[i as int]);
}

/// The integers of a sequence are those of its values.
pub proof fn law_values_by_item<T: Number>(v: Seq<T>, i: int)
    requires
        0 <= i < v.len(),
    ensures
        values_of(v).len() == v.len(),
        values_of(v)[i] == v[i].value(),
{
}

} // verus!
