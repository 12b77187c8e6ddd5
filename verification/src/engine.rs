//! The settings of the noise suppression engine that a worker drives.

use crate::single::Single;
use vstd::prelude::*;

verus! {

/// A change to a setting of the engine.
#[derive(Clone, Copy, Debug, PartialEq, Eq, Structural)]
pub enum EngineSetting {
    /// The attenuation limit in dB.
    AttenLim(Single),
    /// The strength of the post filter.
    PfBeta(Single),
    /// The level under which a frame is not processed, in dB.
    MinDbThresh(Single),
    /// The level above which a frame gets no gain mask, in dB.
    MaxDbErbThresh(Single),
    /// The level above which a frame is not deep filtered, in dB.
    MaxDbDfThresh(Single),
}

impl EngineSetting {
    /// The value that a setting is changed to.
    pub open spec fn value(self) -> Single {
        match self {
            EngineSetting::AttenLim(v) => v,
            EngineSetting::PfBeta(v) => v,
            EngineSetting::MinDbThresh(v) => v,
            EngineSetting::MaxDbErbThresh(v) => v,
            EngineSetting::MaxDbDfThresh(v) => v,
        }
    }
}

/// A change to a setting carries its value as it is, whatever the setting.
pub proof fn law_settings_carry_values(v: Single)
    ensures
        EngineSetting::AttenLim(v).value() == v,
        EngineSetting::PfBeta(v).value() == v,
        EngineSetting::MinDbThresh(v).value() == v,
        EngineSetting::MaxDbErbThresh(v).value() == v,
        EngineSetting::MaxDbDfThresh(v).value() == v,
{
}

} // verus!
