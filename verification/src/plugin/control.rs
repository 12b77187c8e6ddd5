//! The controls of the plugin and the values last handed to the worker.

use crate::single::lemma_denotes;
use crate::single::lemma_named_values;
use crate::single::Single;
use crate::single::HUNDRED;
use crate::text::same_text;
use vstd::arithmetic::power2::lemma2_to64;
use vstd::prelude::*;

verus! {

/// A control of the noise suppressor.
#[derive(Clone, Copy, Debug, PartialEq, Eq, Structural)]
pub enum DfControl {
    AttenLim,
    PfBeta,
    MinThreshDb,
    MaxErbThreshDb,
    MaxDfThreshDb,
    MinBufferFrames,
}

impl DfControl {
    /// The name of the port that carries the control.
    pub open spec fn port_name(self) -> Seq<char> {
        match self {
            DfControl::AttenLim => "Attenuation Limit (dB)"@,
            DfControl::PfBeta => "Post Filter Beta"@,
            DfControl::MinThreshDb => "Min processing threshold (dB)"@,
            DfControl::MaxErbThreshDb => "Max ERB processing threshold (dB)"@,
            DfControl::MaxDfThreshDb => "Max DF processing threshold (dB)"@,
            DfControl::MinBufferFrames => "Min Processing Buffer (frames)"@,
        }
    }

    /// Whether some control has this port name.
    pub open spec fn is_port_name(name: Seq<char>) -> bool {
        exists|c: DfControl| c.port_name() == name
    }

    /// The port name of the control.
    pub fn name(&self) -> (r: &'static str)
        ensures
            r@ == self.port_name(),
    {
        match self {
            DfControl::AttenLim => "Attenuation Limit (dB)",
            DfControl::PfBeta => "Post Filter Beta",
            DfControl::MinThreshDb => "Min processing threshold (dB)",
            DfControl::MaxErbThreshDb => "Max ERB processing threshold (dB)",
            DfControl::MaxDfThreshDb => "Max DF processing threshold (dB)",
            DfControl::MinBufferFrames => "Min Processing Buffer (frames)",
        }
    }

    /// The control whose port has the given name, if there is one.
    pub fn find_port_name(name: &str) -> (r: Option<DfControl>)
        ensures
            r is Some <==> DfControl::is_port_name(name@),
            r matches Some(c) ==> c.port_name() == name@,
    {
        if same_text(name, "Attenuation Limit (dB)") {
            assert(DfControl::AttenLim.port_name() == name@);
            Some(DfControl::AttenLim)
        } else if same_text(name, "Post Filter Beta") {
            assert(DfControl::PfBeta.port_name() == name@);
            Some(DfControl::PfBeta)
        } else if same_text(name, "Min processing threshold (dB)") {
            assert(DfControl::MinThreshDb.port_name() == name@);
            Some(DfControl::MinThreshDb)
        } else if same_text(name, "Max ERB processing threshold (dB)") {
            assert(DfControl::MaxErbThreshDb.port_name() == name@);
            Some(DfControl::MaxErbThreshDb)
        } else if same_text(name, "Max DF processing threshold (dB)") {
            assert(DfControl::MaxDfThreshDb.port_name() == name@);
            Some(DfControl::MaxDfThreshDb)
        } else if same_text(name, "Min Processing Buffer (frames)") {
            assert(DfControl::MinBufferFrames.port_name() == name@);
            Some(DfControl::MinBufferFrames)
        } else {
            None
        }
    }

    /// The control whose port has the given name.
    pub fn from_port_name(name: &str) -> (r: DfControl)
        requires
            DfControl::is_port_name(name@),
        ensures
            r.port_name() == name@,
            forall|c: DfControl| c.port_name() == name@ ==> c == r,
    {
        let found: Option<DfControl> = DfControl::find_port_name(name);
        proof {
            assert forall|c: DfControl| c.port_name() == name@ implies c == found->0 by {
                law_port_names_are_distinct(c, found->0);
            }
        }
        found.unwrap()
    }
}

/// No two controls share a port name, so the name of a control leads back to it.
pub proof fn law_port_names_are_distinct(a: DfControl, b: DfControl)
    requires
        a.port_name() == b.port_name(),
    ensures
        a == b,
{
    reveal_strlit("Attenuation Limit (dB)");
    reveal_strlit("Post Filter Beta");
    reveal_strlit("Min processing threshold (dB)");
    reveal_strlit("Max ERB processing threshold (dB)");
    reveal_strlit("Max DF processing threshold (dB)");
    reveal_strlit("Min Processing Buffer (frames)");
    let n = a.port_name();
    let m = b.port_name();
    assert(n.len() == m.len());
    assert(n[5] == m[5]);
    assert(n[4] == m[4]);
}

/// Bit pattern of minus ten.
pub const MINUS_TEN: u32 = 0xc120_0000;

/// Bit pattern of thirty.
pub const THIRTY: u32 = 0x41f0_0000;

/// Bit pattern of twenty.
pub const TWENTY: u32 = 0x41a0_0000;

/// The value of each control as the worker last got it.
#[derive(Clone, Copy, Debug)]
pub struct DfControlHistory {
    pub atten_lim: Single,
    pub pf_beta: Single,
    pub min_thresh_db: Single,
    pub max_erb_thresh_db: Single,
    pub max_df_thresh_db: Single,
    pub min_buffer_frames: Single,
}

impl DfControlHistory {
    /// The value held for a control.
    pub open spec fn value(self, c: DfControl) -> Single {
        match c {
            DfControl::AttenLim => self.atten_lim,
            DfControl::PfBeta => self.pf_beta,
            DfControl::MinThreshDb => self.min_thresh_db,
            DfControl::MaxErbThreshDb => self.max_erb_thresh_db,
            DfControl::MaxDfThreshDb => self.max_df_thresh_db,
            DfControl::MinBufferFrames => self.min_buffer_frames,
        }
    }

    /// The history with another value for one control.
    pub open spec fn updated(self, c: DfControl, v: Single) -> DfControlHistory {
        match c {
            DfControl::AttenLim => DfControlHistory { atten_lim: v, ..self },
            DfControl::PfBeta => DfControlHistory { pf_beta: v, ..self },
            DfControl::MinThreshDb => DfControlHistory { min_thresh_db: v, ..self },
            DfControl::MaxErbThreshDb => DfControlHistory { max_erb_thresh_db: v, ..self },
            DfControl::MaxDfThreshDb => DfControlHistory { max_df_thresh_db: v, ..self },
            DfControl::MinBufferFrames => DfControlHistory { min_buffer_frames: v, ..self },
        }
    }

    /// The values that the worker starts with.
    pub open spec fn starting() -> DfControlHistory {
        DfControlHistory {
            atten_lim: Single { bits: HUNDRED },
            pf_beta: Single { bits: 0 },
            min_thresh_db: Single { bits: MINUS_TEN },
            max_erb_thresh_db: Single { bits: THIRTY },
            max_df_thresh_db: Single { bits: TWENTY },
            min_buffer_frames: Single { bits: 0 },
        }
    }

    /// The value held for a control.
    pub fn get(&self, c: &DfControl) -> (v: Single)
        ensures
            v == self.value(*c),
    {
        match c {
            DfControl::AttenLim => self.atten_lim,
            DfControl::PfBeta => self.pf_beta,
            DfControl::MinThreshDb => self.min_thresh_db,
            DfControl::MaxErbThreshDb => self.max_erb_thresh_db,
            DfControl::MaxDfThreshDb => self.max_df_thresh_db,
            DfControl::MinBufferFrames => self.min_buffer_frames,
        }
    }

    /// Holds a new value for one control and leaves the others as they are.
    pub fn set(&mut self, c: &DfControl, v: Single)
        ensures
            *final(self) == old(self).updated(*c, v),
    {
        match c {
            DfControl::AttenLim => self.atten_lim = v,
            DfControl::PfBeta => self.pf_beta = v,
            DfControl::MinThreshDb => self.min_thresh_db = v,
            DfControl::MaxErbThreshDb => self.max_erb_thresh_db = v,
            DfControl::MaxDfThreshDb => self.max_df_thresh_db = v,
            DfControl::MinBufferFrames => self.min_buffer_frames = v,
        }
    }
}

impl Default for DfControlHistory {
    /// The values that the worker starts with: an attenuation limit of 100 dB, no post filter,
    /// thresholds of -10, 30 and 20 dB, and no extra buffering.
    fn default() -> (h: Self)
        ensures
            h.atten_lim.denotes(100),
            h.pf_beta.denotes(0),
            h.min_thresh_db.denotes(-10),
            h.max_erb_thresh_db.denotes(30),
            h.max_df_thresh_db.denotes(20),
            h.min_buffer_frames.denotes(0),
            h == DfControlHistory::starting(),
    {
        proof {
            lemma2_to64();
            lemma_named_values();
            lemma_denotes(MINUS_TEN, 10, 20);
            lemma_denotes(THIRTY, 30, 19);
            lemma_denotes(TWENTY, 20, 19);
        }
        DfControlHistory {
            atten_lim: Single { bits: HUNDRED },
            pf_beta: Single { bits: 0 },
            min_thresh_db: Single { bits: MINUS_TEN },
            max_erb_thresh_db: Single { bits: THIRTY },
            max_df_thresh_db: Single { bits: TWENTY },
            min_buffer_frames: Single { bits: 0 },
        }
    }
}

/// A value that was set is the one that is held, and the other controls keep theirs.
pub proof fn law_set_then_get(h: DfControlHistory, c: DfControl, d: DfControl, v: Single)
    ensures
        h.updated(c, v).value(c) == v,
        d != c ==> h.updated(c, v).value(d) == h.value(d),
{
}

/// The history has a field for each control.
pub proof fn law_history_has_a_field_each(h: DfControlHistory)
    ensures
        h.value(DfControl::AttenLim) == h.atten_lim,
        h.value(DfControl::PfBeta) == h.pf_beta,
        h.value(DfControl::MinThreshDb) == h.min_thresh_db,
        h.value(DfControl::MaxErbThreshDb) == h.max_erb_thresh_db,
        h.value(DfControl::MaxDfThreshDb) == h.max_df_thresh_db,
        h.value(DfControl::MinBufferFrames) == h.min_buffer_frames,
{
}

/// Setting a control twice leaves the second value, and setting two controls leaves both, in
/// either order.
pub proof fn law_settings_join(
    h: DfControlHistory,
    c: DfControl,
    v: Single,
    d: DfControl,
    w: Single,
)
    ensures
        h.updated(c, v).updated(c, w) == h.updated(c, w),
        c != d ==> h.updated(c, v).updated(d, w) == h.updated(d, w).updated(c, v),
        h.updated(c, h.value(c)) == h,
{
}

/// The values that a worker starts with, in numbers.
pub proof fn law_starting_values(c: DfControl)
    ensures
        DfControlHistory::starting().value(c).denotes(
            match c {
                DfControl::AttenLim => 100,
                DfControl::PfBeta => 0,
                DfControl::MinThreshDb => -10,
                DfControl::MaxErbThreshDb => 30,
                DfControl::MaxDfThreshDb => 20,
                DfControl::MinBufferFrames => 0,
            },
        ),
{
    lemma2_to64();
    lemma_named_values();
    lemma_denotes(MINUS_TEN, 10, 20);
    lemma_denotes(THIRTY, 30, 19);
    lemma_denotes(TWENTY, 20, 19);
}

/// The name of every control is a port name.
pub proof fn law_controls_have_port_names(c: DfControl)
    ensures
        DfControl::is_port_name(c.port_name()),
{
}

} // verus!
