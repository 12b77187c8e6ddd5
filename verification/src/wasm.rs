//! The state behind the interface for browsers: the frames that a page exchanges with the engine.

use crate::engine::EngineSetting;
use crate::single::Single;
use ndarray::ArrayView2;
use vstd::prelude::*;

verus! {

/// A frame of `hop` zeros.
pub open spec fn zeros<T>(hop: nat, zero: T) -> Seq<T> {
    Seq::new(hop, |i: int| zero)
}

/// Views a slice as one row of `hop` samples with `ArrayView2::from_shape`, and hands out the row.
/// A slice that is too short has no such view, nor has any for more samples than `isize` can
/// count. A longer slice is cut.
#[verifier::external_body]
fn row_view<T: Copy>(hop: usize, input: &[T]) -> (row: Option<Vec<T>>)
    ensures
        row is Some <==> (hop <= input@.len() && hop <= isize::MAX),
        row matches Some(r) ==> r@ == input@.take(hop as int),
{
    match ArrayView2::from_shape((1, hop), input) {
        Ok(view) => Some(view.iter().copied().collect()),
        Err(_) => None,
    }
}

/// The state of an engine for one channel: the length of its frames, and a frame each for input
/// and output that stay in place as long as the state does. That no operation moves them in memory
/// is not stated: contracts speak of what a frame holds, not of where.
pub struct DFState<T> {
    pub hop_size: usize,
    pub input_buf: Vec<T>,
    pub output_buf: Vec<T>,
}

/// A state, with its frames as sequences.
pub struct StateModel<T> {
    pub hop_size: nat,
    pub input_buf: Seq<T>,
    pub output_buf: Seq<T>,
}

impl<T> View for DFState<T> {
    type V = StateModel<T>;

    open spec fn view(&self) -> StateModel<T> {
        StateModel {
            hop_size: self.hop_size as nat,
            input_buf: self.input_buf@,
            output_buf: self.output_buf@,
        }
    }
}

impl<T> StateModel<T> {
    /// The frame that the engine is to process for an input of a page: the beginning of the input.
    pub open spec fn to_process(self, input: Seq<T>) -> Seq<T> {
        input.take(self.hop_size as int)
    }

    /// The state once a page has written a frame to the persistent input frame.
    pub open spec fn written(self, frame: Seq<T>) -> StateModel<T> {
        StateModel { input_buf: frame, ..self }
    }

    /// The state once a processed frame was taken over.
    pub open spec fn stored(self, frame: Seq<T>) -> StateModel<T> {
        StateModel { output_buf: frame, ..self }
    }
}

impl<T> DFState<T> {
    /// Both frames have the length of a frame.
    pub open spec fn wf(self) -> bool {
        &&& self.input_buf@.len() == self.hop_size
        &&& self.output_buf@.len() == self.hop_size
    }
}

impl<T: Copy> DFState<T> {
    /// A state with silent frames.
    fn new(hop_size: usize, zero: T) -> (st: DFState<T>)
        ensures
            st.wf(),
            st.hop_size == hop_size,
            st.input_buf@ == zeros(hop_size as nat, zero),
            st.output_buf@ == zeros(hop_size as nat, zero),
    {
        let mut input_buf: Vec<T> = Vec::new();
        let mut output_buf: Vec<T> = Vec::new();
        let mut i: usize = 0;
        while i < hop_size
            invariant
                i <= hop_size,
                input_buf@ == zeros(i as nat, zero),
                output_buf@ == zeros(i as nat, zero),
            decreases hop_size - i,
        {
            input_buf.push(zero);
            output_buf.push(zero);
            i = i + 1;
            assert(input_buf@ =~= zeros(i as nat, zero));
            assert(output_buf@ =~= zeros(i as nat, zero));
        }
        DFState { hop_size, input_buf, output_buf }
    }

    /// The state in a box of its own.
    fn boxed(self) -> (st: Box<DFState<T>>)
        ensures
            *st == self,
    {
        Box::new(self)
    }
}

/// Creates the state for an engine with frames of `hop_size` samples.
pub fn df_create<T: Copy>(hop_size: usize, zero: T) -> (st: Box<DFState<T>>)
    ensures
        st.wf(),
        st.hop_size == hop_size,
        st.input_buf@ == zeros(hop_size as nat, zero),
        st.output_buf@ == zeros(hop_size as nat, zero),
{
    DFState::new(hop_size, zero).boxed()
}

/// The number of samples in a frame.
pub fn df_get_frame_length<T>(st: &DFState<T>) -> (n: usize)
    ensures
        n == st.hop_size,
{
    st.hop_size
}

/// The engine setting for a new attenuation limit in dB.
pub fn df_set_atten_lim(lim_db: Single) -> (s: EngineSetting)
    ensures
        s == EngineSetting::AttenLim(lim_db),
{
    EngineSetting::AttenLim(lim_db)
}

/// The engine setting for a new post filter strength. Zero disables the post filter.
pub fn df_set_post_filter_beta(beta: Single) -> (s: EngineSetting)
    ensures
        s == EngineSetting::PfBeta(beta),
{
    EngineSetting::PfBeta(beta)
}

/// The frame that the engine is to process for an input of a page: the beginning of the input.
pub fn df_process_frame<T: Copy>(st: &DFState<T>, input: &[T]) -> (frame: Vec<T>)
    requires
        st.hop_size <= input@.len(),
        st.hop_size <= isize::MAX,
    ensures
        frame@ == st@.to_process(input@),
{
    row_view(st.hop_size, input).unwrap()
}

/// Takes over what the engine made of a frame into the persistent output frame. The input frame
/// stays as it is.
pub fn df_store_frame<T: Copy>(st: &mut DFState<T>, frame: &[T])
    requires
        old(st).wf(),
        frame@.len() == old(st).hop_size,
    ensures
        final(st).wf(),
        final(st)@ == old(st)@.stored(frame@),
{
    let mut i: usize = 0;
    let n: usize = st.hop_size;
    let ghost start = *st;
    while i < n
        invariant
            i <= n,
            n == frame@.len(),
            st.output_buf@.len() == n,
            st.hop_size == start.hop_size,
            st.input_buf@ == start.input_buf@,
            forall|k: int| 0 <= k < i ==> #[trigger] st.output_buf@[k] == frame@[k],
        decreases n - i,
    {
        st.output_buf[i] = frame[i];
        i = i + 1;
    }
    assert(st.output_buf@ =~= frame@);
}

/// Takes over what the engine made of the persistent input frame, a frame and its local
/// signal-to-noise ratio: the frame goes to the persistent output frame, and the ratio is handed
/// back.
pub fn df_process_frame_persistent<T: Copy>(st: &mut DFState<T>, frame: &[T], lsnr: Single) -> (r:
    Single)
    requires
        old(st).wf(),
        frame@.len() == old(st).hop_size,
    ensures
        r == lsnr,
        final(st).wf(),
        final(st)@ == old(st)@.stored(frame@),
{
    df_store_frame(st, frame);
    lsnr
}

/// An engine in some state and the state behind the interface, after a series of frames that a page
/// wrote to the persistent input frame, each processed from there.
pub open spec fn after_persistent<E, T>(
    engine: spec_fn(E, Seq<T>) -> (E, Seq<T>),
    e: E,
    st: StateModel<T>,
    frames: Seq<Seq<T>>,
) -> (E, StateModel<T>)
    decreases frames.len(),
{
    if frames.len() == 0 {
        (e, st)
    } else {
        let (mid, before) = after_persistent(engine, e, st, frames.drop_last());
        let filled = before.written(frames.last());
        let (next, out) = engine(mid, filled.input_buf);
        (next, filled.stored(out))
    }
}

/// An engine in some state and the state behind the interface, after a series of inputs that a page
/// handed over, each processed by itself.
pub open spec fn after_inputs<E, T>(
    engine: spec_fn(E, Seq<T>) -> (E, Seq<T>),
    e: E,
    st: StateModel<T>,
    inputs: Seq<Seq<T>>,
) -> (E, StateModel<T>)
    decreases inputs.len(),
{
    if inputs.len() == 0 {
        (e, st)
    } else {
        let (mid, before) = after_inputs(engine, e, st, inputs.drop_last());
        let (next, out) = engine(mid, before.to_process(inputs.last()));
        (next, before.stored(out))
    }
}

/// Both ways of processing agree, whatever the engine does: frames that go through the persistent
/// input frame leave the engine and the output frame as the same frames handed over do. The
/// persistent input frame holds the last frame written to it, and is not touched otherwise.
pub proof fn law_both_ways_agree<E, T>(
    engine: spec_fn(E, Seq<T>) -> (E, Seq<T>),
    e: E,
    st: StateModel<T>,
    frames: Seq<Seq<T>>,
)
    requires
        forall|k: int| 0 <= k < frames.len() ==> (#[trigger] frames[k]).len() == st.hop_size,
    ensures
        after_persistent(engine, e, st, frames).0 == after_inputs(engine, e, st, frames).0,
        after_persistent(engine, e, st, frames).1.output_buf == after_inputs(
            engine,
            e,
            st,
            frames,
        ).1.output_buf,
        after_persistent(engine, e, st, frames).1.input_buf == if frames.len() > 0 {
            frames.last()
        } else {
            st.input_buf
        },
        after_inputs(engine, e, st, frames).1.input_buf == st.input_buf,
        after_persistent(engine, e, st, frames).1.hop_size == st.hop_size,
        after_inputs(engine, e, st, frames).1.hop_size == st.hop_size,
    decreases frames.len(),
{
    if frames.len() > 0 {
        let fewer = frames.drop_last();
        assert forall|k: int| 0 <= k < fewer.len() implies (#[trigger] fewer[k]).len()
            == st.hop_size by {
            assert(fewer[k] == frames[k]);
        }
        law_both_ways_agree(engine, e, st, fewer);
        let x = frames[frames.len() - 1];
        assert(x.take(st.hop_size as int) =~= x);
    }
}

/// The frame to process is the beginning of the input, sample by sample and as long as a frame; what
/// the input holds beyond that has no part in it.
pub proof fn law_beginning_is_processed<T>(st: StateModel<T>, input: Seq<T>, i: int)
    requires
        st.hop_size <= input.len(),
    ensures
        st.to_process(input).len() == st.hop_size,
        0 <= i < st.hop_size ==> st.to_process(input)[i] == input[i],
{
}

/// A frame that is taken over is the output frame, and one that is written is the input frame;
/// nothing else changes.
pub proof fn law_frames_by_field<T>(st: StateModel<T>, frame: Seq<T>)
    ensures
        st.stored(frame).output_buf == frame,
        st.stored(frame).input_buf == st.input_buf,
        st.stored(frame).hop_size == st.hop_size,
        st.written(frame).input_buf == frame,
        st.written(frame).output_buf == st.output_buf,
        st.written(frame).hop_size == st.hop_size,
{
}

/// A silent frame is zero throughout.
pub proof fn law_silent_frame<T>(hop: nat, zero: T, i: int)
    ensures
        zeros(hop, zero).len() == hop,
        0 <= i < hop ==> zeros(hop, zero)[i] == zero,
{
}

/// The model of a state is what its fields hold, and a valid state has frames of the length that it
/// tells.
pub proof fn law_state_by_field<T>(st: DFState<T>)
    ensures
        st@.hop_size == st.hop_size,
        st@.input_buf == st.input_buf@,
        st@.output_buf == st.output_buf@,
        st.wf() <==> (st.input_buf@.len() == st.hop_size && st.output_buf@.len() == st.hop_size),
{
}

} // verus!
