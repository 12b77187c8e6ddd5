//! The choice of a stream configuration and of an audio device.

use crate::text::contains;
use crate::text::law_occurrence_has_surroundings;
use crate::text::lowercase;
use crate::text::lowercase_of;
use crate::text::occurs_in;
use vstd::arithmetic::div_mod::lemma_fundamental_div_mod;
use vstd::arithmetic::div_mod::lemma_mod_bound;
use vstd::prelude::*;

verus! {

/// The direction of an audio stream.
#[derive(Clone, Copy, Debug, PartialEq, Eq, Structural)]
pub enum StreamDirection {
    Input,
    Output,
}

impl StreamDirection {
    /// The direction as a word.
    pub fn name(&self) -> (r: &'static str)
        ensures
            r@ == match *self {
                StreamDirection::Input => "input"@,
                StreamDirection::Output => "output"@,
            },
    {
        match self {
            StreamDirection::Input => "input",
            StreamDirection::Output => "output",
        }
    }
}

/// A range of configurations that a device offers.
#[derive(Clone, Copy, Debug, PartialEq, Eq, Structural)]
pub struct ConfigRange {
    pub channels: u16,
    pub min_sample_rate: u32,
    pub max_sample_rate: u32,
    /// Samples are single-precision numbers.
    pub is_single: bool,
}

/// The configuration of a stream.
#[derive(Clone, Copy, Debug, PartialEq, Eq, Structural)]
pub struct StreamConfig {
    pub channels: u16,
    pub sample_rate: u32,
    /// Number of frames in a buffer.
    pub buffer_size: u32,
}

impl ConfigRange {
    /// Whether the range has one channel of the right sample format.
    pub open spec fn is_mono(self) -> bool {
        self.channels == 1 && self.is_single
    }

    /// Whether the range has several channels of the right sample format.
    pub open spec fn is_multi(self) -> bool {
        self.channels >= 2 && self.is_single
    }

    /// Whether the range holds a sample rate.
    pub open spec fn holds(self, rate: u32) -> bool {
        self.min_sample_rate <= rate <= self.max_sample_rate
    }
}

/// The usable ranges, in order: those with one channel or, if there are none, those with more.
pub open spec fn candidates(all: Seq<ConfigRange>) -> Seq<ConfigRange> {
    let monos = all.filter(|c: ConfigRange| c.is_mono());
    let multis = all.filter(|c: ConfigRange| c.is_multi());
    if monos.len() > 0 {
        monos
    } else {
        multis
    }
}

/// The position of the first range that holds a sample rate; the number of ranges if there is
/// none.
pub open spec fn first_holding(ranges: Seq<ConfigRange>, rate: u32) -> nat
    decreases ranges.len(),
{
    if ranges.len() == 0 {
        0
    } else if ranges[0].holds(rate) {
        0
    } else {
        1 + first_holding(ranges.skip(1), rate)
    }
}

/// The configuration for a range that holds the sample rate: it is used as it is.
pub open spec fn matching_config(c: ConfigRange, rate: u32, frame_size: usize) -> StreamConfig {
    StreamConfig { channels: c.channels, sample_rate: rate, buffer_size: frame_size as u32 }
}

/// The configuration for a range that does not hold the sample rate: its highest rate, with a
/// buffer that lasts as long as a frame.
pub open spec fn nearest_config(c: ConfigRange, rate: u32, frame_size: usize) -> StreamConfig {
    StreamConfig {
        channels: c.channels,
        sample_rate: c.max_sample_rate,
        buffer_size: ((frame_size as u32) * c.max_sample_rate / (rate as int)) as u32,
    }
}

/// The best configuration that a list of ranges allows.
pub open spec fn best_config(all: Seq<ConfigRange>, rate: u32, frame_size: usize) -> StreamConfig {
    let usable = candidates(all);
    let at = first_holding(usable, rate);
    if at < usable.len() {
        matching_config(usable[at as int], rate, frame_size)
    } else {
        nearest_config(usable[0], rate, frame_size)
    }
}

/// Chooses the configuration of a stream from what a device offers. Ranges with several channels
/// are used only if there is none with one, and a range that holds the sample rate comes before
/// one that does not.
pub fn get_stream_config(all: &Vec<ConfigRange>, sample_rate: u32, frame_size: usize) -> (config:
    Option<StreamConfig>)
    requires
        candidates(all@).len() > 0,
        first_holding(candidates(all@), sample_rate) == candidates(all@).len() ==> {
            &&& sample_rate > 0
            &&& (frame_size as u32) * candidates(all@)[0].max_sample_rate <= u32::MAX
        },
    ensures
        config == Some(best_config(all@, sample_rate, frame_size)),
{
    let mut configs: Vec<ConfigRange> = Vec::new();
    let ghost mono = |c: ConfigRange| c.is_mono();
    let ghost multi = |c: ConfigRange| c.is_multi();
    let mut i: usize = 0;
    assert(all@.take(0).filter(mono) =~= Seq::<ConfigRange>::empty()) by {
        reveal(Seq::filter);
    }
    while i < all.len()
        invariant
            i <= all@.len(),
            mono == |c: ConfigRange| c.is_mono(),
            configs@ == all@.take(i as int).filter(mono),
        decreases all@.len() - i,
    {
        let c: ConfigRange = all[i];
        proof {
            reveal(Seq::filter);
            assert(all@.take(i + 1).drop_last() =~= all@.take(i as int));
        }
        if c.channels == 1 && c.is_single {
            configs.push(c);
        }
        i = i + 1;
    }
    assert(all@.take(i as int) =~= all@);
    if configs.len() == 0 {
        let mut k: usize = 0;
        assert(all@.take(0).filter(multi) =~= Seq::<ConfigRange>::empty()) by {
            reveal(Seq::filter);
        }
        while k < all.len()
            invariant
                k <= all@.len(),
                multi == |c: ConfigRange| c.is_multi(),
                configs@ == all@.take(k as int).filter(multi),
            decreases all@.len() - k,
        {
            let c: ConfigRange = all[k];
            proof {
                reveal(Seq::filter);
                assert(all@.take(k + 1).drop_last() =~= all@.take(k as int));
            }
            if c.channels >= 2 && c.is_single {
                configs.push(c);
            }
            k = k + 1;
        }
        assert(all@.take(k as int) =~= all@);
    }
    assert(configs@ == candidates(all@));
    let mut j: usize = 0;
    assert(configs@.skip(0) =~= configs@);
    while j < configs.len()
        invariant
            j <= configs@.len(),
            configs@ == candidates(all@),
            first_holding(configs@, sample_rate) == j + first_holding(
                configs@.skip(j as int),
                sample_rate,
            ),
        decreases configs@.len() - j,
    {
        let c: ConfigRange = configs[j];
        assert(configs@.skip(j as int)[0] == c);
        if sample_rate >= c.min_sample_rate && sample_rate <= c.max_sample_rate {
            return Some(
                StreamConfig {
                    channels: c.channels,
                    sample_rate,
                    buffer_size: frame_size as u32,
                },
            );
        }
        assert(configs@.skip(j as int).skip(1) =~= configs@.skip(j + 1));
        j = j + 1;
    }
    let c: ConfigRange = configs[0];
    Some(
        StreamConfig {
            channels: c.channels,
            sample_rate: c.max_sample_rate,
            buffer_size: frame_size as u32 * c.max_sample_rate / sample_rate,
        },
    )
}

/// The position found is that of the first range that holds the rate, and a range that holds it
/// is found if there is one.
pub proof fn law_first_holding(ranges: Seq<ConfigRange>, rate: u32)
    ensures
        first_holding(ranges, rate) <= ranges.len(),
        first_holding(ranges, rate) < ranges.len() ==> ranges[first_holding(
            ranges,
            rate,
        ) as int].holds(rate),
        forall|i: int|
            0 <= i < first_holding(ranges, rate) ==> !(#[trigger] ranges[i]).holds(rate),
    decreases ranges.len(),
{
    if ranges.len() > 0 && !ranges[0].holds(rate) {
        let rest = ranges.skip(1);
        law_first_holding(rest, rate);
        assert forall|i: int| 0 <= i < first_holding(ranges, rate) implies !(
        #[trigger] ranges[i]).holds(rate) by {
            if i > 0 {
                assert(rest[i - 1] == ranges[i]);
            }
        }
    }
}

/// A chosen configuration comes from a range on offer that has the right sample format and a
/// channel.
pub proof fn law_config_is_on_offer(all: Seq<ConfigRange>, rate: u32, frame_size: usize)
    requires
        candidates(all).len() > 0,
    ensures
        exists|i: int|
            0 <= i < all.len() && (#[trigger] all[i]).is_single && all[i].channels >= 1
                && all[i].channels == best_config(all, rate, frame_size).channels,
        best_config(all, rate, frame_size).sample_rate == rate || forall|i: int|
            0 <= i < candidates(all).len() ==> !(#[trigger] candidates(all)[i]).holds(rate),
{
    let usable = candidates(all);
    law_first_holding(usable, rate);
    let at = first_holding(usable, rate) as int;
    let pick = if at < usable.len() {
        usable[at]
    } else {
        usable[0]
    };
    let place: int = if at < usable.len() {
        at
    } else {
        0
    };
    let mono = |c: ConfigRange| c.is_mono();
    let multi = |c: ConfigRange| c.is_multi();
    if all.filter(mono).len() > 0 {
        all.lemma_filter_pred(mono, place);
        all.lemma_filter_contains_rev(mono, pick);
    } else {
        all.lemma_filter_pred(multi, place);
        all.lemma_filter_contains_rev(multi, pick);
    }
    let i = choose|i: int| 0 <= i < all.len() && all[i] == pick;
    assert(all[i].is_single);
}

/// A range with one channel is preferred: where one is on offer, the chosen configuration has one
/// channel, whether or not it holds the sample rate.
pub proof fn law_mono_is_preferred(all: Seq<ConfigRange>, rate: u32, frame_size: usize, i: int)
    requires
        0 <= i < all.len(),
        all[i].is_mono(),
    ensures
        candidates(all).len() > 0,
        best_config(all, rate, frame_size).channels == 1,
{
    let mono = |c: ConfigRange| c.is_mono();
    all.lemma_filter_contains(mono, i);
    let monos = all.filter(mono);
    assert(monos.contains(all[i]));
    assert(monos.len() > 0);
    law_first_holding(monos, rate);
    let at = first_holding(monos, rate) as int;
    all.lemma_filter_pred(mono, if at < monos.len() {
        at
    } else {
        0
    });
}

/// Whether a device name fits what was asked for, whatever the case of its letters.
pub open spec fn name_fits(name: Seq<char>, wanted: Seq<char>) -> bool {
    occurs_in(lowercase_of(name), lowercase_of(wanted))
}

/// Chooses a device by its name: the last one whose name holds the wanted text. Without a wanted
/// text, or a name that holds it, no device is chosen and the default one stays.
pub fn find_device(names: &Vec<String>, wanted: &Option<String>) -> (found: Option<usize>)
    ensures
        match *wanted {
            None => found is None,
            Some(w) => match found {
                Some(i) => {
                    &&& i < names@.len()
                    &&& name_fits(names@[i as int]@, w@)
                    &&& forall|j: int| i < j < names@.len() ==> !name_fits(#[trigger] names@[j]@, w@)
                },
                None => forall|j: int|
                    0 <= j < names@.len() ==> !name_fits(#[trigger] names@[j]@, w@),
            },
        },
{
    let mut found: Option<usize> = None;
    if let Some(w) = wanted {
        let part: String = lowercase(w.as_str());
        let mut i: usize = 0;
        while i < names.len()
            invariant
                i <= names@.len(),
                part@ == lowercase_of(w@),
                match found {
                    Some(f) => {
                        &&& f < i
                        &&& name_fits(names@[f as int]@, w@)
                        &&& forall|j: int| f < j < i ==> !name_fits(#[trigger] names@[j]@, w@)
                    },
                    None => forall|j: int| 0 <= j < i ==> !name_fits(#[trigger] names@[j]@, w@),
                },
            decreases names@.len() - i,
        {
            let name: String = lowercase(names[i].as_str());
            if contains(name.as_str(), part.as_str()) {
                found = Some(i);
            }
            i = i + 1;
        }
    }
    found
}

/// Whether a range on offer can be used: samples are single-precision numbers, and there is one
/// channel, or there are several and no such range has one.
pub open spec fn can_be_used(all: Seq<ConfigRange>, c: ConfigRange) -> bool {
    &&& c.is_single
    &&& c.channels == 1 || (c.channels >= 2 && forall|k: int|
        0 <= k < all.len() ==> !((#[trigger] all[k]).is_single && all[k].channels == 1))
}

/// Where ranges that can be used hold the sample rate, the first of them is chosen, with the rate and
/// the number of frames as asked for.
pub proof fn law_first_matching_range_is_chosen(
    all: Seq<ConfigRange>,
    rate: u32,
    frame_size: usize,
    i: int,
)
    requires
        0 <= i < all.len(),
        can_be_used(all, all[i]),
        all[i].min_sample_rate <= rate <= all[i].max_sample_rate,
        forall|j: int|
            0 <= j < i && can_be_used(all, #[trigger] all[j]) ==> !(all[j].min_sample_rate <= rate
                <= all[j].max_sample_rate),
        frame_size <= u32::MAX,
    ensures
        candidates(all).len() > 0,
        best_config(all, rate, frame_size).channels == all[i].channels,
        best_config(all, rate, frame_size).sample_rate == rate,
        best_config(all, rate, frame_size).buffer_size == frame_size,
{
    lemma_candidates_split(all, i);
    let usable = candidates(all);
    law_first_holding(usable, rate);
    let front = candidates_before(all, i);
    let at = front.len() as int;
    assert(usable[at] == all[i]);
    assert forall|k: int| 0 <= k < at implies !(#[trigger] usable[k]).holds(rate) by {
        assert(usable[k] == front[k]);
        lemma_candidates_before(all, i, k);
    }
    assert(first_holding(usable, rate) == at);
}

/// Where no range that can be used holds the sample rate, the first of them is chosen, with its
/// highest rate and a buffer that lasts as long as a frame, rounded down.
pub proof fn law_first_range_is_chosen_otherwise(
    all: Seq<ConfigRange>,
    rate: u32,
    frame_size: usize,
    i: int,
)
    requires
        0 <= i < all.len(),
        can_be_used(all, all[i]),
        forall|j: int| 0 <= j < i ==> !can_be_used(all, #[trigger] all[j]),
        forall|j: int|
            0 <= j < all.len() && can_be_used(all, #[trigger] all[j]) ==> !(all[j].min_sample_rate
                <= rate <= all[j].max_sample_rate),
        rate > 0,
        frame_size * all[i].max_sample_rate <= u32::MAX,
        frame_size <= u32::MAX,
    ensures
        candidates(all).len() > 0,
        best_config(all, rate, frame_size).channels == all[i].channels,
        best_config(all, rate, frame_size).sample_rate == all[i].max_sample_rate,
        best_config(all, rate, frame_size).buffer_size * rate <= frame_size * all[i].max_sample_rate,
        frame_size * all[i].max_sample_rate < (best_config(all, rate, frame_size).buffer_size + 1)
            * rate,
{
    lemma_candidates_split(all, i);
    let usable = candidates(all);
    law_first_holding(usable, rate);
    let front = candidates_before(all, i);
    if front.len() > 0 {
        lemma_candidates_before(all, i, 0);
    }
    assert(usable[0] == all[i]);
    assert forall|k: int| 0 <= k < usable.len() implies !(#[trigger] usable[k]).holds(rate) by {
        assert(all.take(all.len() as int) =~= all);
        lemma_candidates_before(all, all.len() as int, k);
    }
    let total = frame_size * all[i].max_sample_rate;
    let r = rate as int;
    let q = total / r;
    lemma_fundamental_div_mod(total, r);
    lemma_mod_bound(total, r);
    let rest = total % r;
    assert(0 <= q <= total && q * r == r * q && (q + 1) * r == r * q + r) by (nonlinear_arith)
        requires
            total == r * q + rest,
            0 <= rest < r,
            total >= 0,
    ;
    assert(total >= 0) by (nonlinear_arith)
        requires
            total == frame_size * all[i].max_sample_rate,
    ;
}

/// Those among the first `i` ranges that are candidates.
spec fn candidates_before(all: Seq<ConfigRange>, i: int) -> Seq<ConfigRange> {
    if all.filter(|c: ConfigRange| c.is_mono()).len() > 0 {
        all.take(i).filter(|c: ConfigRange| c.is_mono())
    } else {
        all.take(i).filter(|c: ConfigRange| c.is_multi())
    }
}

proof fn lemma_has_mono(all: Seq<ConfigRange>)
    ensures
        all.filter(|c: ConfigRange| c.is_mono()).len() > 0 <==> exists|k: int|
            0 <= k < all.len() && (#[trigger] all[k]).is_single && all[k].channels == 1,
{
    let mono = |c: ConfigRange| c.is_mono();
    if all.filter(mono).len() > 0 {
        all.lemma_filter_pred(mono, 0);
        all.lemma_filter_contains_rev(mono, all.filter(mono)[0]);
        let k = choose|k: int| 0 <= k < all.len() && all[k] == all.filter(mono)[0];
        assert(all[k].is_mono());
    }
    if exists|k: int| 0 <= k < all.len() && (#[trigger] all[k]).is_single && all[k].channels == 1 {
        let k = choose|k: int|
            0 <= k < all.len() && (#[trigger] all[k]).is_single && all[k].channels == 1;
        all.lemma_filter_contains(mono, k);
    }
}

proof fn lemma_candidates_split(all: Seq<ConfigRange>, i: int)
    requires
        0 <= i < all.len(),
        can_be_used(all, all[i]),
    ensures
        candidates_before(all, i).len() < candidates(all).len(),
        candidates(all)[candidates_before(all, i).len() as int] == all[i],
        forall|k: int|
            0 <= k < candidates_before(all, i).len() ==> #[trigger] candidates(all)[k]
                == candidates_before(all, i)[k],
{
    lemma_has_mono(all);
    let mono = |c: ConfigRange| c.is_mono();
    let multi = |c: ConfigRange| c.is_multi();
    if all.filter(mono).len() > 0 {
        lemma_filter_splits(all, mono, i);
    } else {
        lemma_filter_splits(all, multi, i);
    }
}

proof fn lemma_filter_splits(all: Seq<ConfigRange>, keep: spec_fn(ConfigRange) -> bool, i: int)
    requires
        0 <= i < all.len(),
        keep(all[i]),
    ensures
        all.filter(keep) == all.take(i).filter(keep) + (seq![all[i]] + all.skip(i + 1).filter(keep)),
{
    let one = seq![all[i]];
    assert(all =~= all.take(i) + (one + all.skip(i + 1)));
    Seq::filter_distributes_over_add(all.take(i), one + all.skip(i + 1), keep);
    Seq::filter_distributes_over_add(one, all.skip(i + 1), keep);
    assert(one.filter(keep) =~= one) by {
        reveal(Seq::filter);
        assert(one.drop_last() =~= Seq::<ConfigRange>::empty());
        assert(one.drop_last().filter(keep) =~= Seq::<ConfigRange>::empty());
    }
}

proof fn lemma_candidates_before(all: Seq<ConfigRange>, i: int, k: int)
    requires
        0 <= i <= all.len(),
        0 <= k < candidates_before(all, i).len(),
    ensures
        exists|j: int|
            0 <= j < i && can_be_used(all, #[trigger] all[j]) && all[j] == candidates_before(all, i)[k],
{
    lemma_has_mono(all);
    let front = all.take(i);
    let mono = |c: ConfigRange| c.is_mono();
    let multi = |c: ConfigRange| c.is_multi();
    let pick = candidates_before(all, i)[k];
    if all.filter(mono).len() > 0 {
        front.lemma_filter_pred(mono, k);
        front.lemma_filter_contains_rev(mono, pick);
    } else {
        front.lemma_filter_pred(multi, k);
        front.lemma_filter_contains_rev(multi, pick);
    }
    let j = choose|j: int| 0 <= j < front.len() && front[j] == pick;
    assert(all[j] == pick);
    assert(can_be_used(all, all[j]));
}

/// A name fits exactly where, in lower case, it is some text, the wanted text and some more text.
pub proof fn law_fitting_name_holds_the_text(name: Seq<char>, wanted: Seq<char>)
    ensures
        name_fits(name, wanted) <==> exists|a: Seq<char>, b: Seq<char>|
            lowercase_of(name) == #[trigger] (a + lowercase_of(wanted) + b),
{
    law_occurrence_has_surroundings(lowercase_of(name), lowercase_of(wanted));
}

} // verus!
