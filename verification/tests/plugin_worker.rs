use deep_filter::engine::EngineSetting;
use deep_filter::plugin::control::DfControl;
use deep_filter::plugin::dbus::{
    activation, atten_lim, max_df_thresh, max_erb_thresh, min_processing_thresh, pf_beta, session,
    wait_for_dbus_ready, Session,
};
use deep_filter::plugin::queue::SampleQueue;
use deep_filter::plugin::worker::{
    engine_setting, readiness, startup, wait_for_worker_ready, worker_step, Report, Startup,
    WorkerStep,
};
use deep_filter::single::Single;
use std::sync::mpsc::sync_channel;
use std::time::Duration;

#[test]
fn worker_readiness_reports_success() {
    let (tx, mut rx) = sync_channel(1);
    tx.send(Ok(())).unwrap();

    assert_eq!(wait_for_worker_ready(&mut rx, Duration::from_secs(1)), Ok(()));
}

#[test]
fn worker_readiness_reports_initialization_error() {
    let (tx, mut rx) = sync_channel(1);
    tx.send(Err("invalid model".to_string())).unwrap();

    assert_eq!(
        wait_for_worker_ready(&mut rx, Duration::from_secs(1)),
        Err("invalid model".to_string())
    );
}

#[test]
fn worker_readiness_reports_early_termination() {
    let (tx, mut rx) = sync_channel::<Result<(), String>>(1);
    drop(tx);

    let error = wait_for_worker_ready(&mut rx, Duration::from_secs(1)).unwrap_err();
    assert!(error.contains("worker terminated before initialization completed"));
}

#[test]
fn worker_readiness_times_out() {
    let (_tx, mut rx) = sync_channel::<Result<(), String>>(1);

    let error = wait_for_worker_ready(&mut rx, Duration::from_millis(1)).unwrap_err();
    assert!(error.contains("initialization timed out"));
}

#[test]
fn readiness_tells_the_time_that_was_waited() {
    assert_eq!(
        readiness(Report::Timeout, Duration::from_secs(60)),
        Err("DeepFilter worker initialization timed out after 60.0s".to_string())
    );
    assert_eq!(
        readiness(Report::Timeout, Duration::from_millis(1250)),
        Err(format!(
            "DeepFilter worker initialization timed out after {:.1}s",
            Duration::from_millis(1250).as_secs_f32()
        ))
    );
    assert_eq!(
        readiness(Report::Disconnected, Duration::from_secs(60)),
        Err("DeepFilter worker terminated before initialization completed".to_string())
    );
    assert_eq!(readiness(Report::Received(Ok(())), Duration::from_secs(60)), Ok(()));
}

#[test]
fn worker_starts_only_while_someone_waits() {
    assert!(matches!(startup(Ok(()), false, true), Startup::Work));
    assert!(matches!(startup(Ok(()), true, true), Startup::Abandon));
    assert!(matches!(startup(Ok(()), false, false), Startup::Abandon));
    match startup(Err("no model".to_string()), false, true) {
        Startup::Fail(e) => assert_eq!(e, "no model"),
        _ => panic!("a failed engine must be reported"),
    }
}

#[test]
fn worker_applies_controls_to_the_engine() {
    let v = Single::from_u32(12);
    assert_eq!(engine_setting(DfControl::AttenLim, v), Some(EngineSetting::AttenLim(v)));
    assert_eq!(engine_setting(DfControl::PfBeta, v), Some(EngineSetting::PfBeta(v)));
    assert_eq!(engine_setting(DfControl::MinThreshDb, v), Some(EngineSetting::MinDbThresh(v)));
    assert_eq!(
        engine_setting(DfControl::MaxErbThreshDb, v),
        Some(EngineSetting::MaxDbErbThresh(v))
    );
    assert_eq!(engine_setting(DfControl::MaxDfThreshDb, v), Some(EngineSetting::MaxDbDfThresh(v)));
    assert_eq!(engine_setting(DfControl::MinBufferFrames, v), None);
}

#[test]
fn worker_takes_whole_frames() {
    let mut q: SampleQueue<i32> = SampleQueue::new(2, 0, 0);
    q.push_block(&vec![vec![1, 2, 3], vec![4, 5, 6]]);
    assert!(matches!(worker_step(true, &mut q, 2), WorkerStep::Stop));
    match worker_step(false, &mut q, 2) {
        WorkerStep::Process(frame) => assert_eq!(frame, vec![vec![1, 2], vec![4, 5]]),
        _ => panic!("a whole frame is there"),
    }
    assert!(matches!(worker_step(false, &mut q, 2), WorkerStep::Sleep));
    assert_eq!(q.backlog(), 1);
}

#[test]
fn dbus_thread_that_is_ready_is_kept() {
    let a = activation(Report::Received(Ok(())), Duration::from_secs(5));
    assert!(!a.join && !a.cancel && a.keep && a.error.is_none());
}

#[test]
fn dbus_thread_that_failed_is_joined() {
    let a = activation(Report::Received(Err("no bus".to_string())), Duration::from_secs(5));
    assert!(a.join && !a.cancel && !a.keep);
    assert_eq!(a.error, Some("Failed to init dbus session: no bus".to_string()));
    let a = activation(Report::Disconnected, Duration::from_secs(5));
    assert!(a.join && !a.cancel && !a.keep);
    assert_eq!(a.error, Some("dbus thread terminated during initialization".to_string()));
}

#[test]
fn dbus_thread_that_is_late_is_cancelled_and_kept() {
    let a = activation(Report::Timeout, Duration::from_secs(5));
    assert!(!a.join && a.cancel && a.keep);
    assert_eq!(a.error, Some("dbus initialization timed out after 5.0s".to_string()));
}

#[test]
fn dbus_readiness_is_received() {
    let (tx, mut rx) = sync_channel(1);
    tx.send(Err("no bus".to_string())).unwrap();
    let a = wait_for_dbus_ready(&mut rx, Duration::from_secs(1));
    assert_eq!(a.error, Some("Failed to init dbus session: no bus".to_string()));
    drop(tx);
    let a = wait_for_dbus_ready(&mut rx, Duration::from_secs(1));
    assert_eq!(a.error, Some("dbus thread terminated during initialization".to_string()));
}

#[test]
fn dbus_session_serves_or_releases() {
    assert!(matches!(session(Ok(()), false, true), Session::Serve));
    assert!(matches!(session(Ok(()), true, true), Session::Release));
    assert!(matches!(session(Ok(()), false, false), Session::Release));
    match session(Err("name taken".to_string()), false, true) {
        Session::Fail(e) => assert_eq!(e, "name taken"),
        _ => panic!("a session that did not open must fail"),
    }
}

#[test]
fn dbus_methods_set_their_controls() {
    let half = Single::from_bits(0.5f32.to_bits());
    assert_eq!(atten_lim(70), (DfControl::AttenLim, Single::from_bits(70f32.to_bits())));
    assert_eq!(pf_beta(half), (DfControl::PfBeta, half));
    assert_eq!(
        min_processing_thresh(-15),
        (DfControl::MinThreshDb, Single::from_bits((-15f32).to_bits()))
    );
    assert_eq!(
        max_erb_thresh(33),
        (DfControl::MaxErbThreshDb, Single::from_bits(33f32.to_bits()))
    );
    assert_eq!(max_df_thresh(0), (DfControl::MaxDfThreshDb, Single::from_bits(0)));
    assert_eq!(atten_lim(u32::MAX).1, Single::from_bits((u32::MAX as f32).to_bits()));
}
