//! Control of the plugin over D-Bus.

use crate::plugin::control::DfControl;
use crate::plugin::worker::receive;
use crate::plugin::worker::waited_once;
use crate::plugin::worker::waits;
use crate::plugin::worker::Report;
use crate::plugin::worker::ReportModel;
use crate::single::is_nearest;
use crate::single::Single;
use crate::text::seconds;
use crate::text::seconds_text;
use std::sync::mpsc::Receiver;
use std::time::Duration;
use vstd::prelude::*;
use vstd::string::StringExecFns;

verus! {

/// What becomes of a D-Bus thread once it was waited for.
pub struct Activation {
    /// The thread is waited for until it ends, before anything else.
    pub join: bool,
    /// The thread is told to stop.
    pub cancel: bool,
    /// The thread is kept, to be stopped later.
    pub keep: bool,
    /// The error to log, if any.
    pub error: Option<String>,
}

/// The error to log for a report of a D-Bus thread, if any.
pub open spec fn activation_error(report: ReportModel, timeout: Duration) -> Option<Seq<char>> {
    match report {
        ReportModel::Received(Ok(_)) => None,
        ReportModel::Received(Err(e)) => Some("Failed to init dbus session: "@ + e),
        ReportModel::Disconnected => Some("dbus thread terminated during initialization"@),
        ReportModel::Timeout => Some(
            "dbus initialization timed out after "@ + seconds_text(timeout) + "s"@,
        ),
    }
}

/// Whether a decision fits a report: a thread that is ready is kept, one that has ended is joined,
/// and one that is late is told to stop and kept until it does.
pub open spec fn fits(report: ReportModel, timeout: Duration, a: Activation) -> bool {
    &&& a.join == (report is Disconnected || (report is Received && report->Received_0 is Err))
    &&& a.cancel == (report is Timeout)
    &&& a.keep == !a.join
    &&& match activation_error(report, timeout) {
        None => a.error is None,
        Some(text) => a.error matches Some(e) && e@ == text,
    }
}

/// Decides what becomes of a D-Bus thread, given what it reported within `timeout`.
pub fn activation(report: Report, timeout: Duration) -> (a: Activation)
    ensures
        fits(report@, timeout, a),
{
    match report {
        Report::Received(Ok(_)) => Activation { join: false, cancel: false, keep: true, error: None },
        Report::Received(Err(e)) => {
            let mut text: String = String::from_str("Failed to init dbus session: ");
            text.append(e.as_str());
            Activation { join: true, cancel: false, keep: false, error: Some(text) }
        },
        Report::Disconnected => {
            let text: String = String::from_str("dbus thread terminated during initialization");
            Activation { join: true, cancel: false, keep: false, error: Some(text) }
        },
        Report::Timeout => {
            let mut text: String = String::from_str("dbus initialization timed out after ");
            let span: String = seconds(timeout);
            text.append(span.as_str());
            text.append("s");
            Activation { join: false, cancel: true, keep: true, error: Some(text) }
        },
    }
}

/// Waits once for a D-Bus thread to report, and decides by the report what becomes of it.
pub fn wait_for_dbus_ready(ready: &mut Receiver<Result<(), String>>, timeout: Duration) -> (a:
    Activation)
    ensures
        waited_once(waits(*old(ready)), waits(*final(ready)), timeout),
        fits(waits(*final(ready)).last().1, timeout, a),
{
    let report: Report = receive(ready, timeout);
    assert(waits(*ready).drop_last() =~= waits(*old(ready)));
    activation(report, timeout)
}

/// What a D-Bus thread does once it has tried to open its session.
pub enum Session {
    /// Report the error and stop.
    Fail(String),
    /// Release the name and stop.
    Release,
    /// Serve until told to stop, then release the name.
    Serve,
}

/// Decides how a D-Bus thread goes on once it has tried to open its session. `reported` tells
/// whether its report that it is ready was taken.
pub fn session(opened: Result<(), String>, cancelled: bool, reported: bool) -> (s: Session)
    ensures
        match opened {
            Err(e) => s matches Session::Fail(message) && message@ == e@,
            Ok(_) => if cancelled || !reported {
                s is Release
            } else {
                s is Serve
            },
        },
{
    match opened {
        Err(e) => Session::Fail(e),
        Ok(_) => if cancelled || !reported {
            Session::Release
        } else {
            Session::Serve
        },
    }
}

/// What a call of `atten_lim` over D-Bus asks of the worker.
pub fn atten_lim(lim: u32) -> (request: (DfControl, Single))
    ensures
        request.0 == DfControl::AttenLim,
        is_nearest(request.1, lim as int),
{
    (DfControl::AttenLim, Single::from_u32(lim))
}

/// What a call of `pf_beta` over D-Bus asks of the worker.
pub fn pf_beta(beta: Single) -> (request: (DfControl, Single))
    ensures
        request == (DfControl::PfBeta, beta),
{
    (DfControl::PfBeta, beta)
}

/// What a call of `min_processing_thresh` over D-Bus asks of the worker.
pub fn min_processing_thresh(thresh: i32) -> (request: (DfControl, Single))
    ensures
        request.0 == DfControl::MinThreshDb,
        is_nearest(request.1, thresh as int),
{
    (DfControl::MinThreshDb, Single::from_i32(thresh))
}

/// What a call of `max_erb_thresh` over D-Bus asks of the worker.
pub fn max_erb_thresh(thresh: i32) -> (request: (DfControl, Single))
    ensures
        request.0 == DfControl::MaxErbThreshDb,
        is_nearest(request.1, thresh as int),
{
    (DfControl::MaxErbThreshDb, Single::from_i32(thresh))
}

/// What a call of `max_df_thresh` over D-Bus asks of the worker.
pub fn max_df_thresh(thresh: i32) -> (request: (DfControl, Single))
    ensures
        request.0 == DfControl::MaxDfThreshDb,
        is_nearest(request.1, thresh as int),
{
    (DfControl::MaxDfThreshDb, Single::from_i32(thresh))
}

/// What becomes of a D-Bus thread: one that is ready is kept without an error, one that failed or
/// has ended is joined and not kept, and one that is late is told to stop and kept. Its own words
/// are in the error where it failed.
pub proof fn law_dbus_threads_are_accounted_for(
    report: ReportModel,
    timeout: Duration,
    a: Activation,
)
    requires
        fits(report, timeout, a),
    ensures
        a.keep != a.join,
        a.cancel ==> a.keep,
        a.error is None <==> report is Received && report->Received_0 is Ok,
        a.join <==> (report is Disconnected || (report is Received && report->Received_0 is Err)),
        a.cancel <==> report is Timeout,
        report matches ReportModel::Received(Err(e)) ==> a.error->0@
            == "Failed to init dbus session: "@ + e,
        report is Disconnected ==> a.error->0@ == "dbus thread terminated during initialization"@,
        report is Timeout ==> a.error->0@ == "dbus initialization timed out after "@ + seconds_text(
            timeout,
        ) + "s"@,
{
}

} // verus!
