//! The worker of a plugin instance: it starts the engine, then turns queued input frames into
//! output frames.

use crate::engine::EngineSetting;
use crate::plugin::control::DfControl;
use crate::plugin::queue::aligned;
use crate::plugin::queue::samples_of;
use crate::plugin::queue::SampleQueue;
use crate::single::Single;
use crate::text::seconds;
use crate::text::seconds_text;
use std::sync::mpsc::Receiver;
use std::sync::mpsc::RecvTimeoutError;
use std::time::Duration;
use vstd::prelude::*;
use vstd::string::StringExecFns;

verus! {

/// What a worker does once it has tried to start its engine.
pub enum Startup {
    /// Report the error and stop.
    Fail(String),
    /// Stop: nobody waits for it any more.
    Abandon,
    /// Go to work.
    Work,
}

/// Decides how a worker goes on once it has tried to start its engine. `reported` tells whether
/// its report that it is ready was taken.
pub fn startup(engine: Result<(), String>, cancelled: bool, reported: bool) -> (s: Startup)
    ensures
        match engine {
            Err(e) => s matches Startup::Fail(message) && message@ == e@,
            Ok(_) => if cancelled || !reported {
                s is Abandon
            } else {
                s is Work
            },
        },
{
    match engine {
        Err(e) => Startup::Fail(e),
        Ok(_) => if cancelled || !reported {
            Startup::Abandon
        } else {
            Startup::Work
        },
    }
}

/// The engine setting that a control changes. The number of frames to buffer is none of the
/// engine.
pub open spec fn setting_of(c: DfControl, v: Single) -> Option<EngineSetting> {
    match c {
        DfControl::AttenLim => Some(EngineSetting::AttenLim(v)),
        DfControl::PfBeta => Some(EngineSetting::PfBeta(v)),
        DfControl::MinThreshDb => Some(EngineSetting::MinDbThresh(v)),
        DfControl::MaxErbThreshDb => Some(EngineSetting::MaxDbErbThresh(v)),
        DfControl::MaxDfThreshDb => Some(EngineSetting::MaxDbDfThresh(v)),
        DfControl::MinBufferFrames => None,
    }
}

/// The engine setting that a control changes.
pub fn engine_setting(c: DfControl, v: Single) -> (s: Option<EngineSetting>)
    ensures
        s == setting_of(c, v),
        s is None <==> c == DfControl::MinBufferFrames,
        s matches Some(setting) ==> setting.value() == v,
{
    match c {
        DfControl::AttenLim => Some(EngineSetting::AttenLim(v)),
        DfControl::PfBeta => Some(EngineSetting::PfBeta(v)),
        DfControl::MinThreshDb => Some(EngineSetting::MinDbThresh(v)),
        DfControl::MaxErbThreshDb => Some(EngineSetting::MaxDbErbThresh(v)),
        DfControl::MaxDfThreshDb => Some(EngineSetting::MaxDbDfThresh(v)),
        _ => None,
    }
}

/// What a worker does next.
pub enum WorkerStep<T> {
    /// Stop for good.
    Stop,
    /// Sleep, then step again.
    Sleep,
    /// Process a frame and append the result to the output queue.
    Process(Vec<Vec<T>>),
}

/// One step of a worker that is not cancelled: a frame is taken from the input queue as soon as
/// it holds one.
pub fn worker_step<T: Copy>(cancelled: bool, input_queue: &mut SampleQueue<T>, hop: usize) -> (step:
    WorkerStep<T>)
    requires
        old(input_queue)@.len() > 0,
        aligned(old(input_queue)@),
    ensures
        step is Stop <==> cancelled,
        step is Process <==> !cancelled && old(input_queue)@[0].len() >= hop,
        step matches WorkerStep::Process(frame) ==> {
            &&& samples_of(frame@) == Seq::new(
                old(input_queue)@.len(),
                |i: int| old(input_queue)@[i].take(hop as int),
            )
            &&& final(input_queue)@ == Seq::new(
                old(input_queue)@.len(),
                |i: int| old(input_queue)@[i].skip(hop as int),
            )
        },
        !(step is Process) ==> final(input_queue)@ == old(input_queue)@,
        aligned(final(input_queue)@),
        step matches WorkerStep::Process(frame) ==> {
            &&& frame@.len() == old(input_queue)@.len()
            &&& final(input_queue)@.len() == old(input_queue)@.len()
            &&& forall|i: int|
                0 <= i < frame@.len() ==> (#[trigger] frame@[i])@.len() == hop && frame@[i]@
                    + final(input_queue)@[i] == old(input_queue)@[i]
        },
{
    if cancelled {
        return WorkerStep::Stop;
    }
    match input_queue.take_frame(hop) {
        Some(frame) => WorkerStep::Process(frame),
        None => WorkerStep::Sleep,
    }
}

/// The receiving end of a channel of the standard library.
#[verifier::external_type_specification]
#[verifier::external_body]
#[verifier::reject_recursive_types(T)]
pub struct ExReceiver<T>(std::sync::mpsc::Receiver<T>);

/// What came of waiting for a worker to report.
pub enum Report {
    /// The worker reported in time.
    Received(Result<(), String>),
    /// The worker is gone.
    Disconnected,
    /// The time is up.
    Timeout,
}

/// What came of waiting, with an error as a sequence of characters.
pub enum ReportModel {
    Received(Result<(), Seq<char>>),
    Disconnected,
    Timeout,
}

impl View for Report {
    type V = ReportModel;

    open spec fn view(&self) -> ReportModel {
        match *self {
            Report::Received(Ok(_)) => ReportModel::Received(Ok(())),
            Report::Received(Err(e)) => ReportModel::Received(Err(e@)),
            Report::Disconnected => ReportModel::Disconnected,
            Report::Timeout => ReportModel::Timeout,
        }
    }
}

/// Whether a receiving end was waited for once more, for the given time.
pub open spec fn waited_once(
    before: Seq<(Duration, ReportModel)>,
    after: Seq<(Duration, ReportModel)>,
    timeout: Duration,
) -> bool {
    &&& after.len() == before.len() + 1
    &&& after.drop_last() == before
    &&& after.last().0 == timeout
}

/// The text of a failure to start, if the report tells of one.
pub open spec fn failure_of(report: ReportModel, timeout: Duration) -> Option<Seq<char>> {
    match report {
        ReportModel::Received(Ok(_)) => None,
        ReportModel::Received(Err(e)) => Some(e),
        ReportModel::Disconnected => Some(
            "DeepFilter worker terminated before initialization completed"@,
        ),
        ReportModel::Timeout => Some(
            "DeepFilter worker initialization timed out after "@ + seconds_text(timeout) + "s"@,
        ),
    }
}

/// Whether a result tells what a report means: it is an error exactly where the report tells of a
/// failure, and then that failure.
pub open spec fn answers(
    r: Result<(), String>,
    report: ReportModel,
    timeout: Duration,
) -> bool {
    match failure_of(report, timeout) {
        None => r is Ok,
        Some(text) => r matches Err(e) && e@ == text,
    }
}

/// What a report means, given the time for which it was waited.
pub fn readiness(report: Report, timeout: Duration) -> (r: Result<(), String>)
    ensures
        answers(r, report@, timeout),
{
    match report {
        Report::Received(result) => result,
        Report::Disconnected => Err(
            String::from_str("DeepFilter worker terminated before initialization completed"),
        ),
        Report::Timeout => {
            let mut text: String = String::from_str(
                "DeepFilter worker initialization timed out after ",
            );
            let span: String = seconds(timeout);
            text.append(span.as_str());
            text.append("s");
            Err(text)
        },
    }
}

/// The times for which a receiving end was waited for with [`Receiver::recv_timeout`], in order,
/// each with what came of it.
pub uninterp spec fn waits(ready: Receiver<Result<(), String>>) -> Seq<(Duration, ReportModel)>;

/// Calls [`Receiver::recv_timeout`], which waits for a message until the time is up or no sender
/// is left. The time and what came of it join the waits. What comes rests on the other side of the
/// channel and on time, and nothing is claimed of that.
#[verifier::external_body]
pub(crate) fn receive(ready: &mut Receiver<Result<(), String>>, timeout: Duration) -> (report: Report)
    ensures
        waits(*final(ready)) == waits(*old(ready)).push((timeout, report@)),
{
    match ready.recv_timeout(timeout) {
        Ok(result) => Report::Received(result),
        Err(RecvTimeoutError::Disconnected) => Report::Disconnected,
        Err(RecvTimeoutError::Timeout) => Report::Timeout,
    }
}

/// Waits once for a worker to report, and tells what the report means: it is ready exactly where
/// it reported so in time.
pub fn wait_for_worker_ready(ready: &mut Receiver<Result<(), String>>, timeout: Duration) -> (r:
    Result<(), String>)
    ensures
        waited_once(waits(*old(ready)), waits(*final(ready)), timeout),
        answers(r, waits(*final(ready)).last().1, timeout),
{
    let report: Report = receive(ready, timeout);
    assert(waits(*ready).drop_last() =~= waits(*old(ready)));
    readiness(report, timeout)
}

/// Every control but the number of frames to buffer sets the engine setting of the same name to
/// the very value that was sent, bit for bit.
pub proof fn law_controls_set_their_settings(v: Single)
    ensures
        setting_of(DfControl::AttenLim, v) == Some(EngineSetting::AttenLim(v)),
        setting_of(DfControl::PfBeta, v) == Some(EngineSetting::PfBeta(v)),
        setting_of(DfControl::MinThreshDb, v) == Some(EngineSetting::MinDbThresh(v)),
        setting_of(DfControl::MaxErbThreshDb, v) == Some(EngineSetting::MaxDbErbThresh(v)),
        setting_of(DfControl::MaxDfThreshDb, v) == Some(EngineSetting::MaxDbDfThresh(v)),
        setting_of(DfControl::MinBufferFrames, v) is None,
{
}

/// The engine tells apart whatever the host tells apart: two changes that lead to the same setting
/// are the same change.
pub proof fn law_settings_tell_changes_apart(c: DfControl, v: Single, d: DfControl, w: Single)
    requires
        setting_of(c, v) is Some,
        setting_of(c, v) == setting_of(d, w),
    ensures
        c == d,
        v.bits == w.bits,
{
}

/// What a report means: success exactly where the worker said so, its own words where it failed,
/// and a text of the library otherwise, which tells the time that was waited.
pub proof fn law_reports_are_told_truly(e: Seq<char>, timeout: Duration)
    ensures
        failure_of(ReportModel::Received(Ok(())), timeout) is None,
        failure_of(ReportModel::Received(Err(e)), timeout) == Some(e),
        failure_of(ReportModel::Disconnected, timeout) == Some(
            "DeepFilter worker terminated before initialization completed"@,
        ),
        failure_of(ReportModel::Timeout, timeout) == Some(
            "DeepFilter worker initialization timed out after "@ + seconds_text(timeout) + "s"@,
        ),
{
}

/// A result that answers a report is a success exactly where the worker said that it is ready, and
/// otherwise holds the text of the failure.
pub proof fn law_success_needs_a_ready_worker(
    r: Result<(), String>,
    report: ReportModel,
    timeout: Duration,
)
    requires
        answers(r, report, timeout),
    ensures
        r is Ok <==> report is Received && report->Received_0 is Ok,
        r matches Err(e) ==> failure_of(report, timeout) == Some(e@),
{
}

/// One more wait adds one entry, with the time that was asked for, behind those that were there.
pub proof fn law_wait_is_logged(
    before: Seq<(Duration, ReportModel)>,
    timeout: Duration,
    report: ReportModel,
    after: Seq<(Duration, ReportModel)>,
)
    ensures
        waited_once(before, before.push((timeout, report)), timeout),
        waited_once(before, after, timeout) ==> after == before.push((timeout, after.last().1)),
{
    assert(before.push((timeout, report)).drop_last() =~= before);
    if waited_once(before, after, timeout) {
        assert(after =~= after.drop_last().push(after.last()));
    }
}

/// A report is what was received.
pub proof fn law_report_is_what_was_received(report: Report)
    ensures
        report is Received <==> report@ is Received,
        report is Received ==> (report->Received_0 is Ok <==> report@->Received_0 is Ok),
        report matches Report::Received(Err(e)) ==> report@ == ReportModel::Received(Err(e@)),
        report@ is Disconnected <==> report is Disconnected,
        report@ is Timeout <==> report is Timeout,
{
}

} // verus!
