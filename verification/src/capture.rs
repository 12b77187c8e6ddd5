//! Capturing, enhancing and playing back audio.

pub mod config;
pub mod ring;
pub mod worker;

use crate::capture::config::StreamConfig;
use crate::plugin::worker::waited_once;
use crate::plugin::worker::Report;
use crate::plugin::worker::ReportModel;
use crossbeam_channel::Receiver;
use crossbeam_channel::RecvTimeoutError;
use std::time::Duration;
use vstd::prelude::*;
use vstd::string::StringExecFns;

verus! {

/// A control of the noise suppressor.
#[derive(Clone, Copy, Debug, PartialEq, Eq, Structural)]
pub enum DfControl {
    AttenLim,
    PostFilterBeta,
    MinThreshDb,
    MaxErbThreshDb,
    MaxDfThreshDb,
}

/// The end of the audio path: where samples are played. `S` is a running stream, `D` a device.
pub struct AudioSink<S, D> {
    pub stream: Option<S>,
    pub config: StreamConfig,
    pub device: D,
}

impl<S, D> AudioSink<S, D> {
    /// A sink that is not started.
    pub fn new(config: StreamConfig, device: D) -> (s: Self)
        ensures
            s == (AudioSink::<S, D> { stream: None, config, device }),
    {
        AudioSink { stream: None, config, device }
    }

    /// The sample rate.
    pub fn sr(&self) -> (r: u32)
        ensures
            r == self.config.sample_rate,
    {
        self.config.sample_rate
    }
}

/// The start of the audio path: where samples are captured. `S` is a running stream, `D` a
/// device.
pub struct AudioSource<S, D> {
    pub stream: Option<S>,
    pub config: StreamConfig,
    pub device: D,
}

impl<S, D> AudioSource<S, D> {
    /// A source that is not started.
    pub fn new(config: StreamConfig, device: D) -> (s: Self)
        ensures
            s == (AudioSource::<S, D> { stream: None, config, device }),
    {
        AudioSource { stream: None, config, device }
    }

    /// The sample rate.
    pub fn sr(&self) -> (r: u32)
        ensures
            r == self.config.sample_rate,
    {
        self.config.sample_rate
    }
}

/// The flags that a worker shares with its owner, of type `F`.
pub struct AtomicControls<F> {
    pub has_init: F,
    pub should_stop: F,
}

impl<F> AtomicControls<F> {
    /// The flags themselves.
    pub fn into_inner(self) -> (r: (F, F))
        ensures
            r == (self.has_init, self.should_stop),
    {
        (self.has_init, self.should_stop)
    }
}

/// The channels between a worker and a user interface: the signal-to-noise ratio goes out by `L`,
/// the spectra before and after by a pair of `P`, and control changes come in by `C`.
pub struct GuiCom<L, P, C> {
    pub s_lsnr: Option<L>,
    pub s_spec: Option<(P, P)>,
    pub r_opt: Option<C>,
}

impl<L, P, C> GuiCom<L, P, C> {
    /// Channels for the parts that are there. Spectra are sent only where both are wanted.
    pub fn new(s_lsnr: Option<L>, s_noisy: Option<P>, s_enh: Option<P>, r_opt: Option<C>) -> (g: Self)
        ensures
            g.s_lsnr == s_lsnr,
            g.r_opt == r_opt,
            g.s_spec == match (s_noisy, s_enh) {
                (Some(n), Some(e)) => Some((n, e)),
                _ => None,
            },
            g.s_spec is Some <==> s_noisy is Some && s_enh is Some,
            g.s_spec matches Some(pair) ==> s_noisy == Some(pair.0) && s_enh == Some(pair.1),
    {
        let s_spec: Option<(P, P)> = match (s_noisy, s_enh) {
            (Some(n), Some(e)) => Some((n, e)),
            _ => None,
        };
        GuiCom { s_lsnr, s_spec, r_opt }
    }

    /// The channels themselves.
    pub fn into_inner(self) -> (r: (Option<L>, Option<(P, P)>, Option<C>))
        ensures
            r == (self.s_lsnr, self.s_spec, self.r_opt),
    {
        (self.s_lsnr, self.s_spec, self.r_opt)
    }
}

/// A running capture. `H` is what its worker is joined by.
pub struct DeepFilterCapture<H, I, O> {
    pub sr: usize,
    pub frame_size: usize,
    pub freq_size: usize,
    /// The worker was told to stop.
    pub stopping: bool,
    pub worker_handle: Option<H>,
    pub source: I,
    pub sink: O,
}

/// The error for a report of a starting worker, if any.
pub open spec fn start_error(report: ReportModel) -> Option<Seq<char>> {
    match report {
        ReportModel::Received(Ok(_)) => None,
        ReportModel::Received(Err(e)) => Some("DeepFilter worker failed to initialize: "@ + e),
        _ => Some("DeepFilter worker terminated or timed out during initialization"@),
    }
}

/// The receiving end of a crossbeam channel.
#[verifier::external_type_specification]
#[verifier::external_body]
#[verifier::reject_recursive_types(T)]
pub struct ExCrossbeamReceiver<T>(crossbeam_channel::Receiver<T>);

/// The times for which a receiving end was waited for with [`Receiver::recv_timeout`], in order,
/// each with what came of it.
pub uninterp spec fn waits(ready: Receiver<Result<(), String>>) -> Seq<(Duration, ReportModel)>;

/// Calls [`Receiver::recv_timeout`], which waits for a message until the time is up or no sender
/// is left. The time and what came of it join the waits. What comes rests on the other side of the
/// channel and on time, and nothing is claimed of that.
#[verifier::external_body]
fn receive(ready: &mut Receiver<Result<(), String>>, timeout: Duration) -> (report: Report)
    ensures
        waits(*final(ready)) == waits(*old(ready)).push((timeout, report@)),
{
    match ready.recv_timeout(timeout) {
        Ok(result) => Report::Received(result),
        Err(RecvTimeoutError::Disconnected) => Report::Disconnected,
        Err(RecvTimeoutError::Timeout) => Report::Timeout,
    }
}

impl<H, I, O> DeepFilterCapture<H, I, O> {
    /// The capture after it was stopped.
    pub open spec fn stopped(self) -> Self {
        DeepFilterCapture {
            worker_handle: None,
            stopping: self.stopping || self.worker_handle is Some,
            ..self
        }
    }

    /// A capture that runs.
    pub open spec fn running(
        sr: usize,
        frame_size: usize,
        freq_size: usize,
        worker: H,
        source: I,
        sink: O,
    ) -> Self {
        DeepFilterCapture {
            sr,
            frame_size,
            freq_size,
            stopping: false,
            worker_handle: Some(worker),
            source,
            sink,
        }
    }

    /// Whether a result is what a report leads to: a running capture, or the error of a worker
    /// that did not start.
    pub open spec fn follows(r: Result<Self, String>, report: ReportModel, running: Self) -> bool {
        match start_error(report) {
            None => r == Ok::<Self, String>(running),
            Some(text) => r matches Err(e) && e@ == text,
        }
    }

    /// A capture for a worker: waits once for the worker to report. Where it did not start within
    /// `timeout`, the error is handed back, and the worker is to be told to stop.
    pub fn new(
        sr: usize,
        frame_size: usize,
        freq_size: usize,
        worker: H,
        ready: &mut Receiver<Result<(), String>>,
        timeout: Duration,
        source: I,
        sink: O,
    ) -> (r: Result<Self, String>)
        ensures
            waited_once(waits(*old(ready)), waits(*final(ready)), timeout),
            DeepFilterCapture::follows(
                r,
                waits(*final(ready)).last().1,
                DeepFilterCapture::running(sr, frame_size, freq_size, worker, source, sink),
            ),
    {
        let report: Report = receive(ready, timeout);
        assert(waits(*ready).drop_last() =~= waits(*old(ready)));
        DeepFilterCapture::with_report(sr, frame_size, freq_size, worker, report, source, sink)
    }

    /// A capture whose worker has reported.
    pub fn with_report(
        sr: usize,
        frame_size: usize,
        freq_size: usize,
        worker: H,
        report: Report,
        source: I,
        sink: O,
    ) -> (r: Result<Self, String>)
        ensures
            DeepFilterCapture::follows(
                r,
                report@,
                DeepFilterCapture::running(sr, frame_size, freq_size, worker, source, sink),
            ),
    {
        match report {
            Report::Received(Ok(_)) => Ok(
                DeepFilterCapture {
                    sr,
                    frame_size,
                    freq_size,
                    stopping: false,
                    worker_handle: Some(worker),
                    source,
                    sink,
                },
            ),
            Report::Received(Err(e)) => {
                let mut text: String = String::from_str("DeepFilter worker failed to initialize: ");
                text.append(e.as_str());
                Err(text)
            },
            _ => Err(
                String::from_str("DeepFilter worker terminated or timed out during initialization"),
            ),
        }
    }

    /// Hands out the worker to be joined, the first time, and marks it as told to stop.
    pub fn should_stop(&mut self) -> (worker: Option<H>)
        ensures
            worker == old(self).worker_handle,
            *final(self) == old(self).stopped(),
    {
        let worker: Option<H> = self.worker_handle.take();
        if worker.is_some() {
            self.stopping = true;
        }
        worker
    }
}

/// A worker is joined once: a capture that was stopped has no worker to hand out, and stopping it
/// again changes nothing.
pub proof fn law_worker_is_joined_once<H, I, O>(c: DeepFilterCapture<H, I, O>)
    ensures
        c.stopped().worker_handle is None,
        c.stopped().stopped() == c.stopped(),
        c.worker_handle is Some ==> c.stopped().stopping,
{
}

/// A line for the log.
pub fn log_format(ts: &str, level: &str, module: Option<&str>, args: &str) -> (line: String)
    ensures
        line@ == ts@ + " | "@ + level@ + " | "@ + match module {
            Some(m) => m@,
            None => ""@,
        } + " "@ + args@ + "\n"@,
{
    let mut line: String = String::from_str(ts);
    line.append(" | ");
    line.append(level);
    line.append(" | ");
    line.append(module.unwrap_or(""));
    line.append(" ");
    line.append(args);
    line.append("\n");
    line
}

/// What a report of a starting worker means: no error exactly where it said that it is ready, its own
/// words where it failed, and one text for all else.
pub proof fn law_start_is_told_truly(report: ReportModel)
    ensures
        start_error(report) is None <==> report is Received && report->Received_0 is Ok,
        report matches ReportModel::Received(Err(e)) ==> start_error(report) == Some(
            "DeepFilter worker failed to initialize: "@ + e,
        ),
        report is Disconnected || report is Timeout ==> start_error(report) == Some(
            "DeepFilter worker terminated or timed out during initialization"@,
        ),
{
}

/// A capture comes of a report exactly where the worker said that it is ready, and it is the one that
/// was asked for.
pub proof fn law_capture_needs_a_ready_worker<H, I, O>(
    r: Result<DeepFilterCapture<H, I, O>, String>,
    report: ReportModel,
    running: DeepFilterCapture<H, I, O>,
)
    requires
        DeepFilterCapture::follows(r, report, running),
    ensures
        r is Ok <==> report is Received && report->Received_0 is Ok,
        r matches Ok(c) ==> c == running,
        r matches Err(e) ==> start_error(report) == Some(e@),
{
}

/// A capture that runs has what it was given, and is not stopping.
pub proof fn law_running_capture<H, I, O>(
    sr: usize,
    frame_size: usize,
    freq_size: usize,
    worker: H,
    source: I,
    sink: O,
)
    ensures
        ({
            let c = DeepFilterCapture::running(sr, frame_size, freq_size, worker, source, sink);
            &&& c.sr == sr
            &&& c.frame_size == frame_size
            &&& c.freq_size == freq_size
            &&& !c.stopping
            &&& c.worker_handle == Some(worker)
            &&& c.source == source
            &&& c.sink == sink
        }),
{
}

/// Stopping a capture takes its worker away and touches nothing else; one without a worker stays as
/// it is.
pub proof fn law_stopping_by_fields<H, I, O>(c: DeepFilterCapture<H, I, O>)
    ensures
        c.stopped().sr == c.sr,
        c.stopped().frame_size == c.frame_size,
        c.stopped().freq_size == c.freq_size,
        c.stopped().source == c.source,
        c.stopped().sink == c.sink,
        c.stopped().stopping <==> (c.stopping || c.worker_handle is Some),
        c.worker_handle is None ==> c.stopped() == c,
{
}

} // verus!
