//! The demo's view: sliders for the controls, and spectrograms that scroll.

pub mod spectrogram;

use crate::capture::DfControl;
use crate::plugin::descriptor::MINUS_FIFTEEN;
use crate::plugin::descriptor::THIRTY_FIVE;
use crate::single::lemma_denotes;
use crate::single::lemma_named_values;
use crate::single::unit;
use crate::single::Single;
use crate::single::HUNDRED;
use crate::single::ONE;
use vstd::arithmetic::div_mod::lemma_fundamental_div_mod;
use vstd::arithmetic::div_mod::lemma_mod_bound;
use vstd::arithmetic::power2::lemma2_to64;
use vstd::arithmetic::power2::lemma_pow2_adds;
use vstd::arithmetic::power2::lemma_pow2_pos;
use vstd::arithmetic::power2::lemma_pow2_unfold;
use vstd::arithmetic::power2::pow2;
use vstd::prelude::*;

verus! {

/// What happens to the view.
#[derive(Clone, Copy, Debug, PartialEq, Eq, Structural)]
pub enum Message {
    Tick,
    AttenLimChanged(Single),
    PostFilterChanged(Single),
    MinThreshDbChanged(Single),
    MaxErbThreshDbChanged(Single),
    MaxDfThreshDbChanged(Single),
    Exit,
}

/// What the view does upon a message.
#[derive(Clone, Copy, Debug, PartialEq, Eq, Structural)]
pub enum Action {
    /// Show what has arrived from the worker.
    Refresh,
    /// Send a control change to the worker.
    Send(DfControl, Single),
    /// Stop the worker and exit.
    Quit,
}

/// The positions of the sliders.
#[derive(Clone, Copy, Debug, PartialEq, Eq, Structural)]
pub struct SpecView {
    pub atten_lim: Single,
    pub post_filter_beta: Single,
    pub min_threshdb: Single,
    pub max_erbthreshdb: Single,
    pub max_dfthreshdb: Single,
}

impl SpecView {
    /// The position of the slider of a control.
    pub open spec fn value(self, c: DfControl) -> Single {
        match c {
            DfControl::AttenLim => self.atten_lim,
            DfControl::PostFilterBeta => self.post_filter_beta,
            DfControl::MinThreshDb => self.min_threshdb,
            DfControl::MaxErbThreshDb => self.max_erbthreshdb,
            DfControl::MaxDfThreshDb => self.max_dfthreshdb,
        }
    }

    /// The view after a message.
    pub open spec fn updated(self, message: Message) -> SpecView {
        match message {
            Message::AttenLimChanged(v) => SpecView { atten_lim: v, ..self },
            Message::PostFilterChanged(v) => SpecView { post_filter_beta: v, ..self },
            Message::MinThreshDbChanged(v) => SpecView { min_threshdb: v, ..self },
            Message::MaxErbThreshDbChanged(v) => SpecView { max_erbthreshdb: v, ..self },
            Message::MaxDfThreshDbChanged(v) => SpecView { max_dfthreshdb: v, ..self },
            _ => self,
        }
    }

    /// The sliders at the start.
    pub open spec fn starting() -> SpecView {
        SpecView {
            atten_lim: Single { bits: HUNDRED },
            post_filter_beta: Single { bits: 0 },
            min_threshdb: Single { bits: MINUS_FIFTEEN },
            max_erbthreshdb: Single { bits: THIRTY_FIVE },
            max_dfthreshdb: Single { bits: THIRTY_FIVE },
        }
    }

    /// The sliders at the start.
    pub fn new() -> (v: SpecView)
        ensures
            v == SpecView::starting(),
    {
        SpecView {
            atten_lim: Single { bits: HUNDRED },
            post_filter_beta: Single { bits: 0 },
            min_threshdb: Single { bits: MINUS_FIFTEEN },
            max_erbthreshdb: Single { bits: THIRTY_FIVE },
            max_dfthreshdb: Single { bits: THIRTY_FIVE },
        }
    }

    /// The title of the window.
    pub fn title(&self) -> (r: &'static str)
        ensures
            r@ == "DeepFilterNet Demo"@,
    {
        "DeepFilterNet Demo"
    }

    /// Moves a slider, and tells what is to be done.
    pub fn update(&mut self, message: Message) -> (action: Action)
        ensures
            *final(self) == old(self).updated(message),
            action == action_for(message),
    {
        match message {
            Message::Exit => Action::Quit,
            Message::Tick => Action::Refresh,
            Message::AttenLimChanged(v) => {
                self.atten_lim = v;
                Action::Send(DfControl::AttenLim, v)
            },
            Message::PostFilterChanged(v) => {
                self.post_filter_beta = v;
                Action::Send(DfControl::PostFilterBeta, v)
            },
            Message::MinThreshDbChanged(v) => {
                self.min_threshdb = v;
                Action::Send(DfControl::MinThreshDb, v)
            },
            Message::MaxErbThreshDbChanged(v) => {
                self.max_erbthreshdb = v;
                Action::Send(DfControl::MaxErbThreshDb, v)
            },
            Message::MaxDfThreshDbChanged(v) => {
                self.max_dfthreshdb = v;
                Action::Send(DfControl::MaxDfThreshDb, v)
            },
        }
    }
}

/// The message of a slider that was moved.
pub open spec fn message_of(c: DfControl, v: Single) -> Message {
    match c {
        DfControl::AttenLim => Message::AttenLimChanged(v),
        DfControl::PostFilterBeta => Message::PostFilterChanged(v),
        DfControl::MinThreshDb => Message::MinThreshDbChanged(v),
        DfControl::MaxErbThreshDb => Message::MaxErbThreshDbChanged(v),
        DfControl::MaxDfThreshDb => Message::MaxDfThreshDbChanged(v),
    }
}

/// The message of a slider that was moved.
pub fn slider_message(c: DfControl, v: Single) -> (m: Message)
    ensures
        m == message_of(c, v),
{
    match c {
        DfControl::AttenLim => Message::AttenLimChanged(v),
        DfControl::PostFilterBeta => Message::PostFilterChanged(v),
        DfControl::MinThreshDb => Message::MinThreshDbChanged(v),
        DfControl::MaxErbThreshDb => Message::MaxErbThreshDbChanged(v),
        DfControl::MaxDfThreshDb => Message::MaxDfThreshDbChanged(v),
    }
}

/// Bit pattern of three.
pub const THREE: u32 = 0x4040_0000;

/// Bit pattern of 0.001, rounded.
pub const THOUSANDTH: u32 = 0x3a83_126f;

/// A slider of the view.
#[derive(Clone, Copy, Debug)]
pub struct Slider {
    pub title: &'static str,
    pub control: DfControl,
    /// The position.
    pub value: Single,
    pub min: Single,
    pub max: Single,
    /// Number of decimal places that are shown.
    pub precision: usize,
    /// How far a step goes.
    pub step: Single,
}

/// A slider, with its title as a sequence of characters.
pub struct SliderModel {
    pub title: Seq<char>,
    pub control: DfControl,
    pub value: Single,
    pub min: Single,
    pub max: Single,
    pub precision: usize,
    pub step: Single,
}

impl View for Slider {
    type V = SliderModel;

    open spec fn view(&self) -> SliderModel {
        SliderModel {
            title: self.title@,
            control: self.control,
            value: self.value,
            min: self.min,
            max: self.max,
            precision: self.precision,
            step: self.step,
        }
    }
}

/// The slider of a control in a view: thresholds from -15 to 35 dB and the attenuation from 0 to
/// 100 dB in steps of three, the post filter from 0 to 1 in steps of a thousandth.
pub open spec fn slider_of(view: SpecView, c: DfControl) -> SliderModel {
    let title = match c {
        DfControl::AttenLim => "Noise Attenuation [dB]"@,
        DfControl::PostFilterBeta => "Post Filter Beta"@,
        DfControl::MinThreshDb => "Threshold Min [dB]"@,
        DfControl::MaxErbThreshDb => "Threshold ERB Max [dB]"@,
        DfControl::MaxDfThreshDb => "Threshold DF  Max [dB]"@,
    };
    let (min, max): (u32, u32) = match c {
        DfControl::AttenLim => (0, HUNDRED),
        DfControl::PostFilterBeta => (0, ONE),
        _ => (MINUS_FIFTEEN, THIRTY_FIVE),
    };
    SliderModel {
        title,
        control: c,
        value: view.value(c),
        min: Single { bits: min },
        max: Single { bits: max },
        precision: if c == DfControl::PostFilterBeta {
            3
        } else {
            0
        },
        step: Single {
            bits: if c == DfControl::PostFilterBeta {
                THOUSANDTH
            } else {
                THREE
            },
        },
    }
}

/// The controls that have a slider, from top to bottom. Those of the thresholds are optional.
pub open spec fn slider_order(thresholds: bool) -> Seq<DfControl> {
    if thresholds {
        seq![
            DfControl::MinThreshDb,
            DfControl::MaxErbThreshDb,
            DfControl::MaxDfThreshDb,
            DfControl::AttenLim,
            DfControl::PostFilterBeta,
        ]
    } else {
        seq![DfControl::AttenLim, DfControl::PostFilterBeta]
    }
}

impl SpecView {
    /// The slider of a control.
    fn slider(&self, c: DfControl) -> (s: Slider)
        ensures
            s@ == slider_of(*self, c),
    {
        let threshold = |title: &'static str, value: Single| -> (s: Slider)
            ensures
                s.title@ == title@,
                s.control == c,
                s.value == value,
                s.min.bits == MINUS_FIFTEEN,
                s.max.bits == THIRTY_FIVE,
                s.precision == 0,
                s.step.bits == THREE,
            {
                Slider {
                    title,
                    control: c,
                    value,
                    min: Single { bits: MINUS_FIFTEEN },
                    max: Single { bits: THIRTY_FIVE },
                    precision: 0,
                    step: Single { bits: THREE },
                }
            };
        match c {
            DfControl::AttenLim => Slider {
                title: "Noise Attenuation [dB]",
                control: c,
                value: self.atten_lim,
                min: Single { bits: 0 },
                max: Single { bits: HUNDRED },
                precision: 0,
                step: Single { bits: THREE },
            },
            DfControl::PostFilterBeta => Slider {
                title: "Post Filter Beta",
                control: c,
                value: self.post_filter_beta,
                min: Single { bits: 0 },
                max: Single { bits: ONE },
                precision: 3,
                step: Single { bits: THOUSANDTH },
            },
            DfControl::MinThreshDb => threshold("Threshold Min [dB]", self.min_threshdb),
            DfControl::MaxErbThreshDb => threshold("Threshold ERB Max [dB]", self.max_erbthreshdb),
            DfControl::MaxDfThreshDb => threshold("Threshold DF  Max [dB]", self.max_dfthreshdb),
        }
    }

    /// The sliders from top to bottom. Those of the thresholds are optional.
    pub fn sliders(&self, thresholds: bool) -> (all: Vec<Slider>)
        ensures
            all@.len() == slider_order(thresholds).len(),
            forall|i: int|
                0 <= i < all@.len() ==> (#[trigger] all@[i])@ == slider_of(
                    *self,
                    slider_order(thresholds)[i],
                ),
    {
        let mut all: Vec<Slider> = Vec::new();
        if thresholds {
            all.push(self.slider(DfControl::MinThreshDb));
            all.push(self.slider(DfControl::MaxErbThreshDb));
            all.push(self.slider(DfControl::MaxDfThreshDb));
        }
        all.push(self.slider(DfControl::AttenLim));
        all.push(self.slider(DfControl::PostFilterBeta));
        all
    }
}

/// A slider that is moved shows where it was moved to, and the worker is sent the same.
pub proof fn law_slider_follows(view: SpecView, c: DfControl, v: Single)
    ensures
        slider_of(view.updated(message_of(c, v)), c) == (SliderModel {
            value: v,
            ..slider_of(view, c)
        }),
        action_for(message_of(c, v)) == Action::Send(c, v),
{
}

/// Every slider starts within its range.
pub proof fn law_sliders_start_in_range(c: DfControl)
    ensures
        slider_of(SpecView::starting(), c).value.not_below(slider_of(SpecView::starting(), c).min),
        slider_of(SpecView::starting(), c).max.not_below(slider_of(SpecView::starting(), c).value),
{
    lemma2_to64();
    lemma_named_values();
    lemma_denotes(MINUS_FIFTEEN, 15, 20);
    lemma_denotes(THIRTY_FIVE, 35, 18);
    lemma_pow2_pos(149);
}

/// What is to be done upon a message.
pub open spec fn action_for(message: Message) -> Action {
    match message {
        Message::Exit => Action::Quit,
        Message::Tick => Action::Refresh,
        Message::AttenLimChanged(v) => Action::Send(DfControl::AttenLim, v),
        Message::PostFilterChanged(v) => Action::Send(DfControl::PostFilterBeta, v),
        Message::MinThreshDbChanged(v) => Action::Send(DfControl::MinThreshDb, v),
        Message::MaxErbThreshDbChanged(v) => Action::Send(DfControl::MaxErbThreshDb, v),
        Message::MaxDfThreshDbChanged(v) => Action::Send(DfControl::MaxDfThreshDb, v),
    }
}

/// The worker is sent what the slider shows: a change that goes to the worker sets the slider of
/// the same control to the same value, and moves no other slider.
pub proof fn law_view_shows_what_is_sent(view: SpecView, message: Message, d: DfControl)
    ensures
        match action_for(message) {
            Action::Send(c, v) => {
                &&& view.updated(message).value(c) == v
                &&& d != c ==> view.updated(message).value(d) == view.value(d)
            },
            _ => view.updated(message) == view,
        },
{
}

/// The width and height of the spectrograms in pixels, given the sample rate, the frame size and
/// the number of frequencies of a spectrum: ten seconds, and frequencies up to 8 kHz.
pub fn spectrogram_size(sr: usize, frame_size: usize, freq_size: usize) -> (size: (u32, u32))
    requires
        frame_size > 0,
        freq_size > 1,
        sr / frame_size * 10 <= usize::MAX,
        sr / 2 / ((freq_size - 1) as usize) > 0,
    ensures
        size.0 == (sr / frame_size * 10) as u32,
        size.1 == 8000usize / (sr / 2 / ((freq_size - 1) as usize)),
        sr / frame_size * 10 <= u32::MAX ==> {
            &&& size.0 % 10 == 0
            &&& (size.0 / 10) * frame_size <= sr
            &&& sr < (size.0 / 10 + 1) * frame_size
        },
        size.1 * (sr / 2 / ((freq_size - 1) as usize)) <= 8000,
        8000 < (size.1 + 1) * (sr / 2 / ((freq_size - 1) as usize)),
{
    let w: u32 = (sr / frame_size * 10) as u32;
    let freq_res: usize = sr / 2 / (freq_size - 1);
    proof {
        vstd::arithmetic::div_mod::lemma_div_is_ordered_by_denominator(
            8000,
            1,
            freq_res as int,
        );
        let x = sr as int;
        let f = frame_size as int;
        let q = x / f;
        let rest = x % f;
        lemma_fundamental_div_mod(x, f);
        lemma_mod_bound(x, f);
        assert(q * f <= x < (q + 1) * f) by (nonlinear_arith)
            requires
                x == f * q + rest,
                0 <= rest < f,
        ;
        let res = freq_res as int;
        let n = 8000int / res;
        let over = 8000int % res;
        lemma_fundamental_div_mod(8000, res);
        lemma_mod_bound(8000, res);
        assert(n * res <= 8000 < (n + 1) * res) by (nonlinear_arith)
            requires
                8000 == res * n + over,
                0 <= over < res,
        ;
        if sr / frame_size * 10 <= u32::MAX {
            assert(w == q * 10);
            assert(w / 10 == q);
        }
    }
    let h: u32 = (8000 / freq_res) as u32;
    (w, h)
}

/// How much is logged.
#[derive(Clone, Copy, Debug, PartialEq, Eq, Structural)]
pub enum LevelFilter {
    Error,
    Warn,
    Info,
    Debug,
    Trace,
}

/// How much is logged when verbosity was asked for `verbose` times.
pub fn log_level(verbose: u8) -> (level: LevelFilter)
    ensures
        level == if verbose == 0 {
            LevelFilter::Warn
        } else if verbose == 1 {
            LevelFilter::Info
        } else if verbose == 2 {
            LevelFilter::Debug
        } else {
            LevelFilter::Trace
        },
        level == LevelFilter::Trace <==> verbose >= 3,
        level != LevelFilter::Error,
{
    match verbose {
        0 => LevelFilter::Warn,
        1 => LevelFilter::Info,
        2 => LevelFilter::Debug,
        _ => LevelFilter::Trace,
    }
}

/// How much the inference library logs when verbosity was asked for `verbose` times.
pub fn tract_level(verbose: u8) -> (level: LevelFilter)
    ensures
        level == if verbose <= 3 {
            LevelFilter::Error
        } else if verbose == 4 {
            LevelFilter::Info
        } else if verbose == 5 {
            LevelFilter::Debug
        } else {
            LevelFilter::Trace
        },
        level == LevelFilter::Trace <==> verbose >= 6,
        level == LevelFilter::Error <==> verbose < 4,
        level != LevelFilter::Warn,
{
    match verbose {
        0..=3 => LevelFilter::Error,
        4 => LevelFilter::Info,
        5 => LevelFilter::Debug,
        _ => LevelFilter::Trace,
    }
}

/// Every message of a slider sends the very value to the control of the same name, bit for bit.
pub proof fn law_messages_send_their_values(v: Single)
    ensures
        action_for(Message::AttenLimChanged(v)) == Action::Send(DfControl::AttenLim, v),
        action_for(Message::PostFilterChanged(v)) == Action::Send(DfControl::PostFilterBeta, v),
        action_for(Message::MinThreshDbChanged(v)) == Action::Send(DfControl::MinThreshDb, v),
        action_for(Message::MaxErbThreshDbChanged(v)) == Action::Send(DfControl::MaxErbThreshDb, v),
        action_for(Message::MaxDfThreshDbChanged(v)) == Action::Send(DfControl::MaxDfThreshDb, v),
        action_for(Message::Tick) == Action::Refresh,
        action_for(Message::Exit) == Action::Quit,
{
}

/// The view has a position for each slider.
pub proof fn law_view_has_a_field_each(view: SpecView)
    ensures
        view.value(DfControl::AttenLim) == view.atten_lim,
        view.value(DfControl::PostFilterBeta) == view.post_filter_beta,
        view.value(DfControl::MinThreshDb) == view.min_threshdb,
        view.value(DfControl::MaxErbThreshDb) == view.max_erbthreshdb,
        view.value(DfControl::MaxDfThreshDb) == view.max_dfthreshdb,
{
}

/// Moving a slider twice leaves it where it was moved last, and moving two sliders moves both, in
/// either order.
pub proof fn law_moves_join(view: SpecView, c: DfControl, v: Single, d: DfControl, w: Single)
    ensures
        view.updated(message_of(c, v)).updated(message_of(c, w)) == view.updated(message_of(c, w)),
        c != d ==> view.updated(message_of(c, v)).updated(message_of(d, w)) == view.updated(
            message_of(d, w),
        ).updated(message_of(c, v)),
        view.updated(message_of(c, view.value(c))) == view,
{
}

/// The sliders of two views differ in their positions alone, and a slider shows the position of its
/// control.
pub proof fn law_sliders_differ_in_position(a: SpecView, b: SpecView, c: DfControl)
    ensures
        slider_of(a, c) == (SliderModel { value: a.value(c), ..slider_of(b, c) }),
        slider_of(a, c).control == c,
{
}

/// The ranges of the sliders in numbers: the attenuation from 0 to 100 dB, the post filter from 0 to
/// 1, the thresholds from -15 to 35 dB; all but the post filter move in steps of three.
pub proof fn law_slider_ranges(view: SpecView, c: DfControl)
    ensures
        slider_of(view, c).min.denotes(
            match c {
                DfControl::AttenLim | DfControl::PostFilterBeta => 0,
                _ => -15,
            },
        ),
        slider_of(view, c).max.denotes(
            match c {
                DfControl::AttenLim => 100,
                DfControl::PostFilterBeta => 1,
                _ => 35,
            },
        ),
        c != DfControl::PostFilterBeta ==> slider_of(view, c).step.denotes(3) && slider_of(
            view,
            c,
        ).precision == 0,
        c == DfControl::PostFilterBeta ==> slider_of(view, c).precision == 3,
{
    lemma2_to64();
    lemma_named_values();
    lemma_denotes(MINUS_FIFTEEN, 15, 20);
    lemma_denotes(THIRTY_FIVE, 35, 18);
    lemma_denotes(THREE, 3, 22);
}

/// The post filter moves in steps of the number nearest to a thousandth.
pub proof fn law_post_filter_steps(view: SpecView)
    ensures
        ({
            let step = slider_of(view, DfControl::PostFilterBeta).step;
            let above = step.units();
            let below = (Single { bits: (step.bits - 1) as u32 }).units();
            1000 * below < unit() < 1000 * above && 1000 * above - unit() < unit() - 1000 * below
        }),
{
    lemma2_to64();
    let p = pow2(116) as int;
    lemma_pow2_unfold(33);
    lemma_pow2_adds(33, 116);
    lemma_pow2_pos(116);
    assert(unit() == 0x2_0000_0000 * p);
    assert((Single { bits: THOUSANDTH }).units() == 0x83_126f * p);
    assert((Single { bits: 0x3a83_126e }).units() == 0x83_126e * p);
}

/// Every control has one slider where the thresholds are shown; where they are not, the attenuation
/// and the post filter have.
pub proof fn law_sliders_shown(c: DfControl, i: int, j: int)
    ensures
        slider_order(true).len() == 5,
        slider_order(true).contains(c),
        0 <= i < j < 5 ==> slider_order(true)[i] != slider_order(true)[j],
        slider_order(false) == slider_order(true).skip(3),
        slider_order(false).contains(c) <==> (c == DfControl::AttenLim || c
            == DfControl::PostFilterBeta),
{
    let all = slider_order(true);
    let few = slider_order(false);
    assert(all[0] == DfControl::MinThreshDb && all[1] == DfControl::MaxErbThreshDb && all[2]
        == DfControl::MaxDfThreshDb && all[3] == DfControl::AttenLim && all[4]
        == DfControl::PostFilterBeta);
    assert(few[0] == DfControl::AttenLim && few[1] == DfControl::PostFilterBeta);
    assert(few =~= all.skip(3));
}

/// Where the sliders start, in numbers: full attenuation, no post filter, and the thresholds at the
/// ends of their ranges.
pub proof fn law_view_starts(c: DfControl)
    ensures
        SpecView::starting().value(c).denotes(
            match c {
                DfControl::AttenLim => 100,
                DfControl::PostFilterBeta => 0,
                DfControl::MinThreshDb => -15,
                DfControl::MaxErbThreshDb => 35,
                DfControl::MaxDfThreshDb => 35,
            },
        ),
{
    lemma2_to64();
    lemma_named_values();
    lemma_denotes(MINUS_FIFTEEN, 15, 20);
    lemma_denotes(THIRTY_FIVE, 35, 18);
}

} // verus!
