use deep_filter::plugin::control::DfControl;
use deep_filter::plugin::instance::{DfPlugin, LatencyChange, Miss, SendOutcome};
use deep_filter::plugin::latency::new_queues;
use deep_filter::plugin::queue::SampleQueue;
use deep_filter::plugin::run::{copy_through, Phase, Run};
use deep_filter::plugin::worker::{worker_step, WorkerStep};
use deep_filter::single::Single;
use std::sync::mpsc::sync_channel;

fn single(v: f32) -> Single {
    Single::from_bits(v.to_bits())
}

/// An instance at 100 Hz with frames of 4 samples, which sleeps for 1000 ns.
fn plugin(channels: usize) -> DfPlugin {
    DfPlugin::new(channels, 100, 4, 100, 1000, false)
}

fn run_with(p: &mut DfPlugin, inputs: Vec<Vec<i32>>, ports: Vec<(DfControl, Single)>) -> Run<i32> {
    let outputs = inputs.iter().map(|row| vec![-1; row.len()]).collect();
    Run::begin(p, false, inputs, outputs, ports)
}

#[test]
fn new_instance() {
    let p = plugin(2);
    assert_eq!((p.ch, p.sr, p.frame_size, p.proc_delay, p.t_proc_change), (2, 100, 4, 4, 0));
    assert!(!p.cancelled && !p.worker_failed);
    let failed = DfPlugin::new(1, 100, 4, 100, 1000, true);
    assert!(failed.cancelled && failed.worker_failed);
}

#[test]
fn queues_start_with_a_frame_of_silence() {
    let (input, output) = new_queues(2, 4, 0);
    assert_eq!(input.backlog(), 0);
    assert_eq!(output.backlog(), 4);
    let mut output: SampleQueue<i32> = output;
    let mut block = vec![vec![7; 4], vec![7; 4]];
    output.pop_block(&mut block);
    assert_eq!(block, vec![vec![0; 4], vec![0; 4]]);
}

#[test]
fn queues_keep_order() {
    let mut q: SampleQueue<i32> = SampleQueue::new(1, 1, 0);
    q.push_block(&vec![vec![1, 2]]);
    q.push_block(&vec![vec![3]]);
    let mut block = vec![vec![9, 9]];
    q.pop_block(&mut block);
    assert_eq!(block, vec![vec![0, 1]]);
    q.pop_block(&mut block);
    assert_eq!(block, vec![vec![2, 3]]);
    assert_eq!(q.backlog(), 0);
}

#[test]
fn queue_padding_and_dropping() {
    let mut q: SampleQueue<i32> = SampleQueue::new(3, 0, 0);
    q.push_block(&vec![vec![1, 2], vec![3, 4], vec![5, 6]]);
    q.pad(2, 9);
    q.drop_oldest(1);
    assert_eq!(q.backlog(), 3);
    let mut block = vec![vec![0; 3], vec![0; 3], vec![0; 3]];
    q.pop_block(&mut block);
    assert_eq!(block, vec![vec![2, 9, 9], vec![4, 9, 9], vec![6, 9, 9]]);
}

#[test]
fn frames_are_taken_whole() {
    let mut q: SampleQueue<i32> = SampleQueue::new(2, 0, 0);
    assert_eq!(q.take_frame(2), None);
    q.push_block(&vec![vec![1, 2, 3], vec![4, 5, 6]]);
    assert_eq!(q.take_frame(2), Some(vec![vec![1, 2], vec![4, 5]]));
    assert_eq!(q.take_frame(2), None);
    assert_eq!(q.backlog(), 1);
}

#[test]
fn backlog_is_delay() {
    let mut q: SampleQueue<i32> = SampleQueue::new(1, 3, 0);
    q.push_block(&vec![vec![1, 2, 3, 4]]);
    let mut block = vec![vec![9; 4]];
    q.pop_block(&mut block);
    assert_eq!(block, vec![vec![0, 0, 0, 1]]);
    assert_eq!(q.backlog(), 3);
}

#[test]
fn copying_through() {
    let mut out = vec![vec![0, 0, 0], vec![0]];
    copy_through(&vec![vec![1, 2], vec![3, 4]], &mut out);
    assert_eq!(out, vec![vec![1, 2, 0], vec![3]]);
}

#[test]
fn failing_twice_is_told_once() {
    let mut p = plugin(1);
    assert!(p.fail_worker());
    assert!(!p.fail_worker());
    assert!(p.cancelled && p.worker_failed);
}

#[test]
fn terminated_worker_is_bypassed() {
    let mut p = plugin(1);
    let run = Run::begin(&mut p, true, vec![vec![1, 2]], vec![vec![0, 0]], vec![]);
    assert_eq!(run.phase, Phase::Done);
    assert_eq!(run.outputs, vec![vec![1, 2]]);
    assert!(p.worker_failed && p.cancelled);
    let run = Run::begin(&mut p, false, vec![vec![3, 4]], vec![vec![0, 0]], vec![]);
    assert_eq!(run.outputs, vec![vec![3, 4]]);
    assert_eq!(run.phase, Phase::Done);
}

#[test]
fn only_changed_controls_are_sent() {
    let mut p = plugin(1);
    let ports = vec![
        (DfControl::AttenLim, single(100.)),
        (DfControl::MinThreshDb, single(-10.)),
        (DfControl::MaxErbThreshDb, single(31.)),
        (DfControl::PfBeta, single(-0.)),
    ];
    let mut run = run_with(&mut p, vec![vec![1]], ports);
    assert_eq!(run.next_control(&p), Some((DfControl::MaxErbThreshDb, single(31.))));
    assert!(!run.control_sent(&mut p, SendOutcome::Sent));
    assert_eq!(run.next_control(&p), None);
    assert_eq!(run.phase, Phase::Enqueue);
    assert!(!p.control_step(&DfControl::MaxErbThreshDb, single(31.)).send);
}

#[test]
fn value_that_was_not_taken_is_asked_again() {
    let mut p = plugin(1);
    assert!(!p.control_sent(&DfControl::PfBeta, single(0.02), SendOutcome::Full));
    assert!(p.control_step(&DfControl::PfBeta, single(0.02)).send);
    assert!(!p.control_sent(&DfControl::PfBeta, single(0.02), SendOutcome::Sent));
    assert!(!p.control_step(&DfControl::PfBeta, single(0.02)).send);
    assert!(!p.control_sent(&DfControl::PfBeta, single(f32::NAN), SendOutcome::Sent));
    assert!(p.control_step(&DfControl::PfBeta, single(f32::NAN)).send);
}

#[test]
fn full_attenuation_hands_through() {
    let p = plugin(1);
    assert!(p.control_step(&DfControl::AttenLim, single(100.)).pass_through);
    assert!(!p.control_step(&DfControl::AttenLim, single(99.9)).pass_through);
    assert!(!p.control_step(&DfControl::MaxDfThreshDb, single(100.)).pass_through);
    let mut p = plugin(1);
    let mut run = run_with(&mut p, vec![vec![1, 2]], vec![(DfControl::AttenLim, single(100.))]);
    assert_eq!(run.next_control(&p), None);
    assert_eq!(run.outputs, vec![vec![1, 2]]);
    assert_eq!(run.phase, Phase::Enqueue);
}

#[test]
fn disconnected_worker_is_bypassed() {
    let mut p = plugin(1);
    let mut run = run_with(&mut p, vec![vec![1, 2]], vec![(DfControl::PfBeta, single(0.01))]);
    assert!(run.next_control(&p).is_some());
    assert!(run.control_sent(&mut p, SendOutcome::Disconnected));
    assert_eq!(run.next_control(&p), None);
    assert_eq!(run.phase, Phase::Done);
    assert_eq!(run.outputs, vec![vec![1, 2]]);
    assert!(p.worker_failed && p.cancelled);
}

#[test]
fn controls_reach_the_worker() {
    let (mut tx, rx) = sync_channel(2);
    let mut p = plugin(1);
    let ports = vec![
        (DfControl::AttenLim, single(50.)),
        (DfControl::MinThreshDb, single(-12.)),
        (DfControl::MaxErbThreshDb, single(30.)),
        (DfControl::MaxDfThreshDb, single(10.)),
    ];
    let mut run = run_with(&mut p, vec![vec![1]], ports.clone());
    run.walk_controls(&mut p, &mut tx);
    assert_eq!(run.phase, Phase::Enqueue);
    assert_eq!(rx.try_recv(), Ok((DfControl::AttenLim, single(50.))));
    assert_eq!(rx.try_recv(), Ok((DfControl::MinThreshDb, single(-12.))));
    assert!(rx.try_recv().is_err());
    let mut run = run_with(&mut p, vec![vec![1]], ports.clone());
    run.walk_controls(&mut p, &mut tx);
    assert_eq!(rx.try_recv(), Ok((DfControl::MaxDfThreshDb, single(10.))));
    assert!(rx.try_recv().is_err());
    let mut run = run_with(&mut p, vec![vec![1]], ports.clone());
    run.walk_controls(&mut p, &mut tx);
    assert!(rx.try_recv().is_err());
    drop(rx);
    let mut run = run_with(&mut p, vec![vec![1]], vec![(DfControl::AttenLim, single(60.))]);
    run.walk_controls(&mut p, &mut tx);
    assert_eq!(run.phase, Phase::Done);
    assert_eq!(run.outputs, vec![vec![1]]);
    assert!(p.worker_failed);
}

#[test]
fn run_is_delayed_by_the_latency() {
    let mut p = plugin(2);
    let (mut input, mut output) = new_queues(2, 4, 0);
    let mut heard: Vec<i32> = Vec::new();
    for k in 0..4 {
        let block: Vec<i32> = (1..4).map(|i| 3 * k + i).collect();
        let mut run = run_with(&mut p, vec![block.clone(), block], vec![]);
        assert_eq!(run.next_control(&p), None);
        run.enqueue(&mut input);
        assert_eq!(run.phase, Phase::Deliver);
        while let WorkerStep::Process(frame) = worker_step(false, &mut input, 4) {
            output.push_block(&frame);
        }
        assert!(run.deliver(&mut output, 3));
        assert_eq!(run.phase, Phase::Measure);
        assert_eq!(run.finish(&mut p, &mut output, single(0.9), 0), LatencyChange::Unchanged);
        assert_eq!(run.phase, Phase::Done);
        assert_eq!(run.outputs[0], run.outputs[1]);
        heard.extend(run.outputs[0].iter());
        assert_eq!(input.backlog() + output.backlog(), p.proc_delay);
    }
    assert_eq!(heard, vec![0, 0, 0, 0, 1, 2, 3, 4, 5, 6, 7, 8]);
    assert_eq!(p.t_proc_change, 4);
}

#[test]
fn run_waits_for_samples() {
    let mut p = plugin(1);
    let (mut input, mut output) = new_queues(1, 4, 0);
    let mut run = run_with(&mut p, vec![vec![1; 5]], vec![]);
    assert_eq!(run.next_control(&p), None);
    run.enqueue(&mut input);
    assert!(!run.deliver(&mut output, 5));
    assert_eq!(run.phase, Phase::Deliver);
    assert_eq!(run.missed(&mut p, false, 49_999), Miss::Wait);
    assert_eq!(run.outputs, vec![vec![-1; 5]]);
    assert_eq!(run.missed(&mut p, false, 50_000), Miss::DeadlineMissed);
    assert_eq!(run.phase, Phase::Done);
    assert_eq!(run.outputs, vec![vec![1; 5]]);
    assert!(p.worker_failed && p.cancelled);
}

#[test]
fn terminated_worker_is_found_before_its_deadline() {
    let mut p = plugin(1);
    assert_eq!(p.missed(true, u128::MAX), Miss::WorkerTerminated);
    assert!(p.worker_failed);
}

#[test]
fn overload_raises_the_latency() {
    let mut p = plugin(1);
    let (_, mut output) = new_queues(1, 4, 0);
    assert_eq!(p.adapt(&mut output, single(1.), 0), LatencyChange::Increased);
    assert_eq!((p.proc_delay, p.t_proc_change, output.backlog()), (8, 1, 8));
    assert_eq!(p.adapt(&mut output, single(0.999), 0), LatencyChange::Unchanged);
    assert_eq!((p.proc_delay, p.t_proc_change, output.backlog()), (8, 2, 8));
    assert_eq!(p.adapt(&mut output, single(f32::NAN), 0), LatencyChange::Unchanged);
    assert_eq!(p.adapt(&mut output, single(f32::INFINITY), 0), LatencyChange::Increased);
    assert_eq!((p.proc_delay, p.t_proc_change, output.backlog()), (12, 1, 12));
}

#[test]
fn low_load_reduces_the_latency_in_time() {
    let mut p = plugin(2);
    let (_, mut output) = new_queues(2, 4, 0);
    let mut changes = 0;
    for run in 1..=600 {
        let change = p.adapt(&mut output, single(0.49), 0);
        if change == LatencyChange::Decreased {
            changes += 1;
            // ten seconds worth of frames
            assert_eq!(run, 252);
            assert_eq!(p.proc_delay, 0);
            assert_eq!(output.backlog(), 0);
        }
    }
    assert_eq!(changes, 1);
    assert_eq!(p.t_proc_change, 349);
}

#[test]
fn latency_is_kept_under_medium_load_or_a_short_queue() {
    let mut p = plugin(1);
    let (_, mut output) = new_queues(1, 4, 0);
    p.t_proc_change = 1000;
    assert_eq!(p.adapt(&mut output, single(0.5), 0), LatencyChange::Unchanged);
    output.drop_oldest(1);
    assert_eq!(p.adapt(&mut output, single(0.1), 0), LatencyChange::Unchanged);
    assert_eq!(p.t_proc_change, 1002);
}

#[test]
fn latency_keeps_the_frames_that_were_asked_for() {
    let mut p = plugin(1);
    let (_, mut output) = new_queues(1, 4, 0);
    p.control_hist.set(&DfControl::MinBufferFrames, single(1.9));
    p.t_proc_change = 1000;
    assert_eq!(p.adapt(&mut output, single(0.1), 0), LatencyChange::Unchanged);
    assert_eq!(p.adapt(&mut output, single(2.0), 0), LatencyChange::Increased);
    p.t_proc_change = 1000;
    assert_eq!(p.adapt(&mut output, single(0.1), 0), LatencyChange::Decreased);
    assert_eq!(p.proc_delay, 4);
    assert_eq!(output.backlog(), 4);
}

#[test]
fn reduced_latency_drops_the_oldest_frame_of_every_channel() {
    let mut p = plugin(2);
    let (_, mut output) = new_queues(2, 4, 0);
    assert_eq!(p.adapt(&mut output, single(2.0), 9), LatencyChange::Increased);
    output.push_block(&vec![vec![1, 2], vec![3, 4]]);
    p.t_proc_change = 1000;
    assert_eq!(p.adapt(&mut output, single(0.1), 9), LatencyChange::Decreased);
    assert_eq!(p.proc_delay, 4);
    let mut block = vec![vec![7; 6], vec![7; 6]];
    output.pop_block(&mut block);
    assert_eq!(block, vec![vec![9, 9, 9, 9, 1, 2], vec![9, 9, 9, 9, 3, 4]]);
}

#[test]
fn failure_is_told_to_the_worker() {
    let mut p = plugin(1);
    assert_eq!(p.cancelled, p.worker_failed);
    assert!(p.control_sent(&DfControl::PfBeta, single(0.1), SendOutcome::Disconnected));
    assert_eq!(p.cancelled, p.worker_failed);
    let (_, mut output) = new_queues(1, 4, 0);
    p.adapt(&mut output, single(2.0), 0);
    assert!(p.cancelled && p.worker_failed);
}

#[test]
fn history_follows_what_was_taken() {
    let (mut tx, rx) = sync_channel(1);
    let mut p = plugin(1);
    let ports = vec![
        (DfControl::MaxDfThreshDb, single(20.)),
        (DfControl::AttenLim, single(50.)),
        (DfControl::PfBeta, single(0.02)),
    ];
    let mut run = run_with(&mut p, vec![vec![1]], ports);
    run.walk_controls(&mut p, &mut tx);
    assert_eq!(rx.try_iter().collect::<Vec<_>>(), vec![(DfControl::AttenLim, single(50.))]);
    assert_eq!(p.control_hist.get(&DfControl::AttenLim), single(50.));
    assert_eq!(p.control_hist.get(&DfControl::PfBeta), single(0.));
    assert_eq!(p.control_hist.get(&DfControl::MaxDfThreshDb), single(20.));
    assert_eq!(p.control_hist.get(&DfControl::MinThreshDb), single(-10.));
}

#[test]
fn passage_through_growth_and_shrinking() {
    let mut p = plugin(1);
    let (mut input, mut output) = new_queues(1, 4, 0);
    let mut heard: Vec<i32> = Vec::new();
    for (k, load) in [0.9, 2.0, 0.9, 0.1, 0.9, 0.9].iter().enumerate() {
        let first = 4 * k as i32 + 1;
        let mut run = run_with(&mut p, vec![(first..first + 4).collect()], vec![]);
        assert_eq!(run.next_control(&p), None);
        run.enqueue(&mut input);
        while let WorkerStep::Process(frame) = worker_step(false, &mut input, 4) {
            output.push_block(&frame);
        }
        assert!(run.deliver(&mut output, 4));
        p.t_proc_change = 1000;
        run.finish(&mut p, &mut output, single(*load), -7);
        heard.extend(run.outputs[0].iter());
        assert_eq!(input.backlog() + output.backlog(), p.proc_delay);
    }
    // the padding of the second run is heard behind its frames, and the frame that was oldest
    // after the fourth run is dropped
    assert_eq!(
        heard,
        vec![0, 0, 0, 0, 1, 2, 3, 4, 5, 6, 7, 8, -7, -7, -7, -7, 13, 14, 15, 16, 17, 18, 19, 20]
    );
}
