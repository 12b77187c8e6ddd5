//! What the plugin tells a host about itself.

use crate::plugin::control::DfControl;
use crate::plugin::control::DfControlHistory;
use crate::plugin::control::MINUS_TEN;
use crate::plugin::control::THIRTY;
use crate::plugin::control::TWENTY;
use crate::single::lemma_denotes;
use crate::single::lemma_named_values;
use crate::single::unit;
use crate::single::Single;
use crate::single::HUNDRED;
use vstd::arithmetic::power2::lemma2_to64;
use vstd::arithmetic::power2::lemma_pow2_adds;
use vstd::arithmetic::power2::lemma_pow2_pos;
use vstd::arithmetic::power2::pow2;
use vstd::prelude::*;

verus! {

/// Identifies the plugin with one channel.
pub const ID_MONO: u64 = 7843795;

/// Identifies the plugin with two channels.
pub const ID_STEREO: u64 = 7843796;

/// Bit pattern of 0.05, rounded.
pub const FIVE_HUNDREDTHS: u32 = 0x3d4c_cccd;

/// Bit pattern of minus fifteen.
pub const MINUS_FIFTEEN: u32 = 0xc170_0000;

/// Bit pattern of thirty-five.
pub const THIRTY_FIVE: u32 = 0x420c_0000;

/// Bit pattern of ten.
pub const TEN: u32 = 0x4120_0000;

/// The kind of a port.
#[derive(Clone, Copy, Debug, PartialEq, Eq, Structural)]
pub enum PortDescriptor {
    AudioInput,
    AudioOutput,
    ControlInput,
}

/// Where in its range a control starts.
#[derive(Clone, Copy, Debug, PartialEq, Eq, Structural)]
pub enum DefaultValue {
    Minimum,
    Maximum,
}

/// A port of the plugin.
#[derive(Clone, Copy, Debug)]
pub struct Port {
    pub name: &'static str,
    pub desc: PortDescriptor,
    pub default: Option<DefaultValue>,
    pub lower_bound: Option<Single>,
    pub upper_bound: Option<Single>,
}

/// A port, with its name as a sequence of characters.
pub struct PortModel {
    pub name: Seq<char>,
    pub desc: PortDescriptor,
    pub default: Option<DefaultValue>,
    pub lower_bound: Option<Single>,
    pub upper_bound: Option<Single>,
}

impl View for Port {
    type V = PortModel;

    open spec fn view(&self) -> PortModel {
        PortModel {
            name: self.name@,
            desc: self.desc,
            default: self.default,
            lower_bound: self.lower_bound,
            upper_bound: self.upper_bound,
        }
    }
}

/// A plugin as a host sees it. It has no special properties, and its ports carry no hints.
#[derive(Debug)]
pub struct PluginDescriptor {
    pub unique_id: u64,
    pub label: &'static str,
    pub name: &'static str,
    pub maker: &'static str,
    pub copyright: &'static str,
    pub ports: Vec<Port>,
    /// Number of audio channels of an instance.
    pub channels: usize,
}

/// An audio port.
pub open spec fn audio_port_model(name: Seq<char>, desc: PortDescriptor) -> PortModel {
    PortModel { name, desc, default: None, lower_bound: None, upper_bound: None }
}

/// The start and the range of a control, as bit patterns.
pub open spec fn range_of(c: DfControl) -> (DefaultValue, u32, u32) {
    match c {
        DfControl::AttenLim => (DefaultValue::Maximum, 0, HUNDRED),
        DfControl::PfBeta => (DefaultValue::Minimum, 0, FIVE_HUNDREDTHS),
        DfControl::MinThreshDb => (DefaultValue::Minimum, MINUS_FIFTEEN, THIRTY_FIVE),
        DfControl::MaxErbThreshDb => (DefaultValue::Maximum, MINUS_FIFTEEN, THIRTY_FIVE),
        DfControl::MaxDfThreshDb => (DefaultValue::Maximum, MINUS_FIFTEEN, THIRTY_FIVE),
        DfControl::MinBufferFrames => (DefaultValue::Minimum, 0, TEN),
    }
}

/// The port of a control.
pub open spec fn control_port_model(c: DfControl) -> PortModel {
    PortModel {
        name: c.port_name(),
        desc: PortDescriptor::ControlInput,
        default: Some(range_of(c).0),
        lower_bound: Some(Single { bits: range_of(c).1 }),
        upper_bound: Some(Single { bits: range_of(c).2 }),
    }
}

/// The controls in the order of their ports.
pub open spec fn control_order() -> Seq<DfControl> {
    seq![
        DfControl::AttenLim,
        DfControl::MinThreshDb,
        DfControl::MaxErbThreshDb,
        DfControl::MaxDfThreshDb,
        DfControl::MinBufferFrames,
        DfControl::PfBeta,
    ]
}

/// The audio ports: first the inputs, then the outputs.
pub open spec fn audio_ports(channels: nat) -> Seq<PortModel> {
    if channels == 1 {
        seq![
            audio_port_model("Audio In"@, PortDescriptor::AudioInput),
            audio_port_model("Audio Out"@, PortDescriptor::AudioOutput),
        ]
    } else {
        seq![
            audio_port_model("Audio In L"@, PortDescriptor::AudioInput),
            audio_port_model("Audio In R"@, PortDescriptor::AudioInput),
            audio_port_model("Audio Out L"@, PortDescriptor::AudioOutput),
            audio_port_model("Audio Out R"@, PortDescriptor::AudioOutput),
        ]
    }
}

/// The ports of a plugin with one or two channels.
pub open spec fn all_ports(channels: nat) -> Seq<PortModel> {
    audio_ports(channels) + control_order().map_values(|c: DfControl| control_port_model(c))
}

impl PluginDescriptor {
    /// The ports of the plugin.
    pub open spec fn port_models(self) -> Seq<PortModel> {
        self.ports@.map_values(|p: Port| p@)
    }

    /// What both plugins have in common.
    pub open spec fn common(self) -> bool {
        &&& self.maker@ == "Hendrik Schröter"@
        &&& self.copyright@ == "MIT/Apache"@
        &&& self.port_models() == all_ports(self.channels as nat)
    }
}

/// An audio port.
fn audio_port(name: &'static str, desc: PortDescriptor) -> (p: Port)
    ensures
        p@ == audio_port_model(name@, desc),
{
    Port { name, desc, default: None, lower_bound: None, upper_bound: None }
}

/// The start and the range of a control, as bit patterns.
fn range(c: DfControl) -> (r: (DefaultValue, u32, u32))
    ensures
        r == range_of(c),
{
    match c {
        DfControl::AttenLim => (DefaultValue::Maximum, 0, HUNDRED),
        DfControl::PfBeta => (DefaultValue::Minimum, 0, FIVE_HUNDREDTHS),
        DfControl::MinThreshDb => (DefaultValue::Minimum, MINUS_FIFTEEN, THIRTY_FIVE),
        DfControl::MaxErbThreshDb => (DefaultValue::Maximum, MINUS_FIFTEEN, THIRTY_FIVE),
        DfControl::MaxDfThreshDb => (DefaultValue::Maximum, MINUS_FIFTEEN, THIRTY_FIVE),
        DfControl::MinBufferFrames => (DefaultValue::Minimum, 0, TEN),
    }
}

/// The port of a control.
fn control_port(c: DfControl) -> (p: Port)
    ensures
        p@ == control_port_model(c),
{
    let (default, lower, upper) = range(c);
    Port {
        name: c.name(),
        desc: PortDescriptor::ControlInput,
        default: Some(default),
        lower_bound: Some(Single { bits: lower }),
        upper_bound: Some(Single { bits: upper }),
    }
}

/// Appends the control ports.
fn push_controls(ports: &mut Vec<Port>)
    ensures
        final(ports)@.map_values(|p: Port| p@) == old(ports)@.map_values(|p: Port| p@)
            + control_order().map_values(|c: DfControl| control_port_model(c)),
{
    let ghost start = ports@;
    ports.push(control_port(DfControl::AttenLim));
    ports.push(control_port(DfControl::MinThreshDb));
    ports.push(control_port(DfControl::MaxErbThreshDb));
    ports.push(control_port(DfControl::MaxDfThreshDb));
    ports.push(control_port(DfControl::MinBufferFrames));
    ports.push(control_port(DfControl::PfBeta));
    assert(ports@.map_values(|p: Port| p@) =~= start.map_values(|p: Port| p@)
        + control_order().map_values(|c: DfControl| control_port_model(c)));
}

/// The plugin with the given index: the first one has one channel, the second one two. There is
/// no other.
pub fn get_ladspa_descriptor(index: u64) -> (d: Option<PluginDescriptor>)
    ensures
        d is Some <==> index < 2,
        d matches Some(p) ==> p.common(),
        index == 0 ==> {
            &&& d->0.unique_id == ID_MONO
            &&& d->0.label@ == "deep_filter_mono"@
            &&& d->0.name@ == "DeepFilter Mono"@
            &&& d->0.channels == 1
        },
        index == 1 ==> {
            &&& d->0.unique_id == ID_STEREO
            &&& d->0.label@ == "deep_filter_stereo"@
            &&& d->0.name@ == "DeepFilter Stereo"@
            &&& d->0.channels == 2
        },
{
    let mut ports: Vec<Port> = Vec::new();
    match index {
        0 => {
            ports.push(audio_port("Audio In", PortDescriptor::AudioInput));
            ports.push(audio_port("Audio Out", PortDescriptor::AudioOutput));
            assert(ports@.map_values(|p: Port| p@) =~= audio_ports(1));
            push_controls(&mut ports);
            Some(
                PluginDescriptor {
                    unique_id: ID_MONO,
                    label: "deep_filter_mono",
                    name: "DeepFilter Mono",
                    maker: "Hendrik Schröter",
                    copyright: "MIT/Apache",
                    ports,
                    channels: 1,
                },
            )
        },
        1 => {
            ports.push(audio_port("Audio In L", PortDescriptor::AudioInput));
            ports.push(audio_port("Audio In R", PortDescriptor::AudioInput));
            ports.push(audio_port("Audio Out L", PortDescriptor::AudioOutput));
            ports.push(audio_port("Audio Out R", PortDescriptor::AudioOutput));
            assert(ports@.map_values(|p: Port| p@) =~= audio_ports(2));
            push_controls(&mut ports);
            Some(
                PluginDescriptor {
                    unique_id: ID_STEREO,
                    label: "deep_filter_stereo",
                    name: "DeepFilter Stereo",
                    maker: "Hendrik Schröter",
                    copyright: "MIT/Apache",
                    ports,
                    channels: 2,
                },
            )
        },
        _ => None,
    }
}

/// The ports of a plugin come in the order in which a run reads them: one audio input per
/// channel, then one audio output per channel, then control inputs only.
pub proof fn law_port_layout(channels: nat, i: int)
    requires
        1 <= channels <= 2,
        0 <= i < all_ports(channels).len(),
    ensures
        all_ports(channels)[i].desc == if i < channels {
            PortDescriptor::AudioInput
        } else if i < 2 * channels {
            PortDescriptor::AudioOutput
        } else {
            PortDescriptor::ControlInput
        },
{
}

/// Every control port has the name of a control, so that a run can tell them apart.
pub proof fn law_control_ports_are_known(channels: nat, i: int)
    requires
        1 <= channels <= 2,
        2 * channels <= i < all_ports(channels).len(),
    ensures
        DfControl::is_port_name(all_ports(channels)[i].name),
{
    let c = control_order()[i - 2 * channels];
    assert(all_ports(channels)[i] == control_port_model(c));
    assert(c.port_name() == all_ports(channels)[i].name);
}

/// Every control has exactly one port.
pub proof fn law_every_control_has_one_port(channels: nat, c: DfControl)
    requires
        1 <= channels <= 2,
    ensures
        exists|i: int|
            2 * channels <= i < all_ports(channels).len() && #[trigger] all_ports(channels)[i]
                == control_port_model(c),
        forall|i: int, j: int|
            2 * channels <= i < all_ports(channels).len() && 2 * channels <= j < all_ports(
                channels,
            ).len() && #[trigger] all_ports(channels)[i].name == c.port_name()
                && #[trigger] all_ports(channels)[j].name == c.port_name() ==> i == j,
{
    let order = control_order();
    let at: int = match c {
        DfControl::AttenLim => 0,
        DfControl::MinThreshDb => 1,
        DfControl::MaxErbThreshDb => 2,
        DfControl::MaxDfThreshDb => 3,
        DfControl::MinBufferFrames => 4,
        DfControl::PfBeta => 5,
    };
    assert(order[at] == c);
    assert(all_ports(channels)[2 * channels + at] == control_port_model(c));
    assert forall|i: int|
        2 * channels <= i < all_ports(channels).len() && #[trigger] all_ports(channels)[i].name
            == c.port_name() implies i == 2 * channels + at by {
        let d = order[i - 2 * channels];
        assert(all_ports(channels)[i] == control_port_model(d));
        crate::plugin::control::law_port_names_are_distinct(c, d);
    }
}

/// The ranges of the controls: 0 to 100 dB of attenuation, -15 to 35 dB for the thresholds, 0 to
/// 10 frames to buffer, and a post filter from 0 to the number nearest to 0.05.
pub proof fn law_control_ranges(c: DfControl)
    ensures
        (Single { bits: range_of(c).1 }).denotes(
            match c {
                DfControl::AttenLim | DfControl::PfBeta | DfControl::MinBufferFrames => 0,
                _ => -15,
            },
        ),
        match c {
            DfControl::AttenLim => (Single { bits: range_of(c).2 }).denotes(100),
            DfControl::PfBeta => {
                let above = (Single { bits: range_of(c).2 }).units();
                let below = (Single { bits: (range_of(c).2 - 1) as u32 }).units();
                20 * below < unit() < 20 * above && 20 * above - unit() < unit() - 20 * below
            },
            DfControl::MinBufferFrames => (Single { bits: range_of(c).2 }).denotes(10),
            _ => (Single { bits: range_of(c).2 }).denotes(35),
        },
{
    lemma2_to64();
    lemma_named_values();
    lemma_denotes(MINUS_FIFTEEN, 15, 20);
    lemma_denotes(THIRTY_FIVE, 35, 18);
    lemma_denotes(TEN, 10, 20);
    let p = pow2(121) as int;
    lemma_pow2_adds(28, 121);
    lemma_pow2_pos(121);
    assert(unit() == 0x1000_0000 * p);
    assert((Single { bits: FIVE_HUNDREDTHS }).units() == 0xcc_cccd * p);
    assert((Single { bits: 0x3d4c_cccc }).units() == 0xcc_cccc * p);
}

/// The values that a worker starts with lie in the ranges of their controls.
pub proof fn law_starting_values_are_in_range(c: DfControl)
    ensures
        DfControlHistory::starting().value(c).not_below(Single { bits: range_of(c).1 }),
        (Single { bits: range_of(c).2 }).not_below(DfControlHistory::starting().value(c)),
{
    lemma2_to64();
    lemma_named_values();
    law_control_ranges(c);
    lemma_denotes(MINUS_TEN, 10, 20);
    lemma_denotes(THIRTY, 30, 19);
    lemma_denotes(TWENTY, 20, 19);
    lemma_pow2_pos(149);
}

/// Where the controls start: the attenuation and the upper thresholds at the top of their ranges, the
/// others at the bottom.
pub proof fn law_control_starts(c: DfControl)
    ensures
        range_of(c).0 == DefaultValue::Maximum <==> (c == DfControl::AttenLim || c
            == DfControl::MaxErbThreshDb || c == DfControl::MaxDfThreshDb),
        range_of(c).0 == DefaultValue::Minimum <==> (c == DfControl::PfBeta || c
            == DfControl::MinThreshDb || c == DfControl::MinBufferFrames),
{
}

/// A control port has the name and the range of its control, and an audio port has neither a start
/// nor a range.
pub proof fn law_ports_by_field(c: DfControl, name: Seq<char>, desc: PortDescriptor)
    ensures
        control_port_model(c).name == c.port_name(),
        control_port_model(c).desc == PortDescriptor::ControlInput,
        control_port_model(c).default == Some(range_of(c).0),
        control_port_model(c).lower_bound == Some(Single { bits: range_of(c).1 }),
        control_port_model(c).upper_bound == Some(Single { bits: range_of(c).2 }),
        audio_port_model(name, desc).name == name,
        audio_port_model(name, desc).desc == desc,
        audio_port_model(name, desc).default is None,
        audio_port_model(name, desc).lower_bound is None,
        audio_port_model(name, desc).upper_bound is None,
{
}

/// A plugin has an input and an output per channel, and a port for each of the six controls.
pub proof fn law_port_count(channels: nat)
    requires
        1 <= channels <= 2,
    ensures
        all_ports(channels).len() == 2 * channels + 6,
{
}

/// What a host finds in either plugin: its maker, its copyright, and its ports in order.
pub proof fn law_common_parts(d: PluginDescriptor, i: int)
    requires
        d.common(),
        1 <= d.channels <= 2,
    ensures
        d.maker@ == "Hendrik Schröter"@,
        d.copyright@ == "MIT/Apache"@,
        d.ports@.len() == 2 * d.channels + 6,
        0 <= i < d.ports@.len() ==> d.ports@[i].name@ == all_ports(d.channels as nat)[i].name
            && d.ports@[i].desc == all_ports(d.channels as nat)[i].desc && d.ports@[i].default
            == all_ports(d.channels as nat)[i].default && d.ports@[i].lower_bound == all_ports(
            d.channels as nat,
        )[i].lower_bound && d.ports@[i].upper_bound == all_ports(d.channels as nat)[i].upper_bound,
{
    assert(d.port_models().len() == all_ports(d.channels as nat).len());
    if 0 <= i < d.ports@.len() {
        assert(d.port_models()[i] == d.ports@[i]@);
    }
}

/// The names of the ports in order: the audio ports, then those of the controls.
pub proof fn law_port_names_in_order(channels: nat)
    requires
        1 <= channels <= 2,
    ensures
        all_ports(1)[0].name == "Audio In"@,
        all_ports(1)[1].name == "Audio Out"@,
        all_ports(2)[0].name == "Audio In L"@,
        all_ports(2)[1].name == "Audio In R"@,
        all_ports(2)[2].name == "Audio Out L"@,
        all_ports(2)[3].name == "Audio Out R"@,
        all_ports(channels)[(2 * channels) as int].name == "Attenuation Limit (dB)"@,
        all_ports(channels)[(2 * channels + 1) as int].name == "Min processing threshold (dB)"@,
        all_ports(channels)[(2 * channels + 2) as int].name == "Max ERB processing threshold (dB)"@,
        all_ports(channels)[(2 * channels + 3) as int].name == "Max DF processing threshold (dB)"@,
        all_ports(channels)[(2 * channels + 4) as int].name == "Min Processing Buffer (frames)"@,
        all_ports(channels)[(2 * channels + 5) as int].name == "Post Filter Beta"@,
{
}

} // verus!
