use deep_filter::capture::config::{
    find_device, get_stream_config, ConfigRange, StreamConfig, StreamDirection,
};
use deep_filter::capture::ring::{
    capture_pass, playback_pass, stream_ring, take_block, upmix, RbCons, RbProd,
};
use deep_filter::capture::worker::{
    engine_setting, resampling, startup_report, worker_step, Resampling, WorkerStep,
};
use deep_filter::capture::{
    log_format, AtomicControls, AudioSink, AudioSource, DeepFilterCapture, DfControl, GuiCom,
};
use deep_filter::engine::EngineSetting;
use deep_filter::plugin::worker::Report;
use deep_filter::single::Single;
use std::time::Duration;

fn range(channels: u16, min: u32, max: u32, is_single: bool) -> ConfigRange {
    ConfigRange { channels, min_sample_rate: min, max_sample_rate: max, is_single }
}

fn config(channels: u16, sample_rate: u32, buffer_size: u32) -> Option<StreamConfig> {
    Some(StreamConfig { channels, sample_rate, buffer_size })
}

#[test]
fn directions() {
    assert_eq!(StreamDirection::Input.name(), "input");
    assert_eq!(StreamDirection::Output.name(), "output");
}

#[test]
fn mono_comes_first() {
    let all = vec![range(2, 8000, 96000, true), range(1, 8000, 96000, true)];
    assert_eq!(get_stream_config(&all, 48000, 480), config(1, 48000, 480));
}

#[test]
fn several_channels_are_used_only_without_mono() {
    let all = vec![range(2, 8000, 96000, true), range(1, 8000, 44100, true)];
    assert_eq!(get_stream_config(&all, 48000, 480), config(1, 44100, 441));
    let all = vec![range(2, 8000, 96000, true), range(1, 8000, 44100, false)];
    assert_eq!(get_stream_config(&all, 48000, 480), config(2, 48000, 480));
}

#[test]
fn matching_rate_comes_first() {
    let all = vec![range(1, 8000, 44100, true), range(1, 48000, 96000, true)];
    assert_eq!(get_stream_config(&all, 48000, 480), config(1, 48000, 480));
}

#[test]
fn other_sample_formats_are_not_used() {
    let all = vec![range(1, 8000, 96000, false), range(4, 48000, 48000, true)];
    assert_eq!(get_stream_config(&all, 48000, 480), config(4, 48000, 480));
}

#[test]
fn ranges_hold_their_ends() {
    let all = vec![range(1, 48000, 96000, true), range(1, 8000, 44100, true)];
    assert_eq!(get_stream_config(&all, 48000, 480), config(1, 48000, 480));
    assert_eq!(get_stream_config(&all, 96000, 480), config(1, 96000, 480));
    assert_eq!(get_stream_config(&all, 44100, 480), config(1, 44100, 480));
}

#[test]
fn without_a_match_the_first_range_is_used_at_its_highest_rate() {
    let all = vec![range(2, 8000, 16000, true), range(1, 8000, 44100, true)];
    assert_eq!(get_stream_config(&all, 48000, 480), config(1, 44100, 441));
    let all = vec![range(2, 8000, 16000, true)];
    assert_eq!(get_stream_config(&all, 48000, 480), config(2, 16000, 160));
}

#[test]
fn devices_are_found_whatever_the_case() {
    let names: Vec<String> =
        ["Built-in Audio", "USB ÄUDIO Device", "usb audio 2", "HDMI"].iter().map(|s| s.to_string()).collect();
    assert_eq!(find_device(&names, &Some("AUDIO".to_string())), Some(2));
    assert_eq!(find_device(&names, &Some("äudio".to_string())), Some(1));
    assert_eq!(find_device(&names, &Some("hdmi".to_string())), Some(3));
    assert_eq!(find_device(&names, &Some("".to_string())), Some(3));
    assert_eq!(find_device(&names, &Some("bluetooth".to_string())), None);
    assert_eq!(find_device(&names, &None), None);
}

#[test]
fn sinks_and_sources() {
    let c = config(1, 44100, 441).unwrap();
    let sink: AudioSink<(), &str> = AudioSink::new(c, "speaker");
    assert!(sink.stream.is_none());
    assert_eq!(sink.sr(), 44100);
    assert_eq!(sink.device, "speaker");
    let source: AudioSource<(), &str> = AudioSource::new(c, "microphone");
    assert!(source.stream.is_none());
    assert_eq!(source.sr(), 44100);
    assert_eq!(source.device, "microphone");
}

#[test]
fn shared_parts_are_handed_out() {
    assert_eq!(AtomicControls { has_init: 1, should_stop: 2 }.into_inner(), (1, 2));
    let g: GuiCom<u8, u16, u32> = GuiCom::new(Some(1), Some(2), Some(3), Some(4));
    assert_eq!(g.into_inner(), (Some(1), Some((2, 3)), Some(4)));
    let g: GuiCom<u8, u16, u32> = GuiCom::new(None, Some(2), None, None);
    assert_eq!(g.into_inner(), (None, None, None));
}

fn fill(rb: &mut RbProd, data: &[u32]) {
    assert_eq!(capture_pass(rb, data, 0), data.len());
}

#[test]
fn ring_holds_a_hundred_frames() {
    let (mut prod, mut cons) = stream_ring(2);
    let data: Vec<u32> = (0..250).collect();
    assert_eq!(capture_pass(&mut prod, &data, 0), 200);
    assert_eq!(capture_pass(&mut prod, &data, 200), 200);
    assert_eq!(take_block(&mut cons, 30), Some(data[..30].to_vec()));
    assert_eq!(capture_pass(&mut prod, &data, 200), 230);
    assert_eq!(take_block(&mut cons, 200), Some(data[30..230].to_vec()));
    assert_eq!(take_block(&mut cons, 1), None);
}

#[test]
fn blocks_are_taken_whole() {
    let (mut prod, mut cons) = stream_ring(1);
    fill(&mut prod, &[1, 2, 3]);
    assert_eq!(take_block(&mut cons, 4), None);
    assert_eq!(take_block(&mut cons, 2), Some(vec![1, 2]));
    fill(&mut prod, &[4]);
    assert_eq!(take_block(&mut cons, 2), Some(vec![3, 4]));
    assert_eq!(take_block(&mut cons, 0), Some(vec![]));
}

#[test]
fn mono_playback_reads_what_is_there() {
    let (mut prod, mut cons) = stream_ring(1);
    fill(&mut prod, &[1, 2, 3]);
    let mut data = [9u32; 5];
    assert_eq!(playback_pass(&mut cons, &mut data, 1, 0), 3);
    assert_eq!(data, [1, 2, 3, 9, 9]);
    fill(&mut prod, &[4, 5, 6]);
    assert_eq!(playback_pass(&mut cons, &mut data, 1, 3), 5);
    assert_eq!(data, [1, 2, 3, 4, 5]);
    assert_eq!(take_block(&mut cons, 1), Some(vec![6]));
}

#[test]
fn stereo_playback_fills_every_channel() {
    let (mut prod, mut cons) = stream_ring(1);
    fill(&mut prod, &[1]);
    let mut data = [9u32; 6];
    assert_eq!(playback_pass(&mut cons, &mut data, 2, 0), 1);
    assert_eq!(data, [1, 1, 9, 9, 9, 9]);
    fill(&mut prod, &[2, 3]);
    assert_eq!(playback_pass(&mut cons, &mut data, 2, 1), 3);
    assert_eq!(data, [1, 1, 2, 2, 3, 3]);
    assert_eq!(take_block(&mut cons, 1), None);
}

#[test]
fn stereo_playback_loses_a_sample_that_has_no_frame() {
    let (mut prod, mut cons) = stream_ring(1);
    fill(&mut prod, &[1, 2, 3, 4]);
    let mut data = [9u32; 4];
    assert_eq!(playback_pass(&mut cons, &mut data, 2, 0), 2);
    assert_eq!(data, [1, 1, 2, 2]);
    assert_eq!(take_block(&mut cons, 1), Some(vec![4]));
}

#[test]
fn passes_join() {
    let mut twice = [9u32; 8];
    assert_eq!(upmix(&mut twice, 2, 0, &vec![1]), 1);
    assert_eq!(upmix(&mut twice, 2, 1, &vec![2, 3]), 3);
    let mut once = [9u32; 8];
    assert_eq!(upmix(&mut once, 2, 0, &vec![1, 2, 3]), 3);
    assert_eq!(twice, once);
    assert_eq!(once, [1, 1, 2, 2, 3, 3, 9, 9]);
}

#[test]
fn last_chunk_may_be_short() {
    let mut data = [9u32; 5];
    assert_eq!(upmix(&mut data, 2, 0, &vec![1, 2, 3, 4]), 3);
    assert_eq!(data, [1, 1, 2, 2, 3]);
}

#[test]
fn worker_takes_what_the_resampler_asks_for() {
    let (mut prod, mut cons): (RbProd, RbCons) = stream_ring(4);
    fill(&mut prod, &[1, 2, 3, 4, 5, 6, 7]);
    assert!(matches!(worker_step(true, None, 4, &mut cons), WorkerStep::Stop));
    match worker_step(false, Some(5), 4, &mut cons) {
        WorkerStep::Process(block) => assert_eq!(block, vec![1, 2, 3, 4, 5]),
        _ => panic!("five samples are there"),
    }
    assert!(matches!(worker_step(false, None, 4, &mut cons), WorkerStep::Sleep));
    fill(&mut prod, &[8, 9]);
    match worker_step(false, None, 4, &mut cons) {
        WorkerStep::Process(block) => assert_eq!(block, vec![6, 7, 8, 9]),
        _ => panic!("a frame is there"),
    }
}

#[test]
fn worker_reports_how_it_started() {
    assert_eq!(startup_report(Ok(()), Ok(())), Ok(()));
    assert_eq!(
        startup_report(Err("no model".to_string()), Ok(())),
        Err("Could not initialize DeepFilter runtime: no model".to_string())
    );
    assert_eq!(
        startup_report(Ok(()), Err("bad frame".to_string())),
        Err("Failed to run DeepFilterNet: bad frame".to_string())
    );
}

#[test]
fn resampling_where_rates_differ() {
    assert_eq!(resampling(48000, 48000, 48000), (None, None));
    assert_eq!(
        resampling(44100, 16000, 48000),
        (
            Some(Resampling { from: 44100, to: 48000 }),
            Some(Resampling { from: 48000, to: 16000 })
        )
    );
}

#[test]
fn controls_change_engine_settings() {
    let v = Single::from_u32(5);
    assert_eq!(engine_setting(DfControl::AttenLim, v), EngineSetting::AttenLim(v));
    assert_eq!(engine_setting(DfControl::PostFilterBeta, v), EngineSetting::PfBeta(v));
    assert_eq!(engine_setting(DfControl::MinThreshDb, v), EngineSetting::MinDbThresh(v));
    assert_eq!(engine_setting(DfControl::MaxErbThreshDb, v), EngineSetting::MaxDbErbThresh(v));
    assert_eq!(engine_setting(DfControl::MaxDfThreshDb, v), EngineSetting::MaxDbDfThresh(v));
}

#[test]
fn capture_starts_with_its_worker() {
    let (tx, mut rx) = crossbeam_channel::bounded(1);
    tx.send(Ok(())).unwrap();
    let mut c =
        DeepFilterCapture::new(48000, 480, 481, "worker", &mut rx, Duration::from_secs(1), 'i', 'o')
            .unwrap();
    assert_eq!((c.sr, c.frame_size, c.freq_size), (48000, 480, 481));
    assert_eq!((c.source, c.sink, c.stopping), ('i', 'o', false));
    assert_eq!(c.should_stop(), Some("worker"));
    assert!(c.stopping);
    assert_eq!(c.should_stop(), None);
    assert!(c.stopping);
}

#[test]
fn capture_fails_with_its_worker() {
    let start = |report: Report| {
        DeepFilterCapture::with_report(48000, 480, 481, (), report, (), ()).err().unwrap()
    };
    assert_eq!(
        start(Report::Received(Err("no model".to_string()))),
        "DeepFilter worker failed to initialize: no model"
    );
    assert_eq!(
        start(Report::Timeout),
        "DeepFilter worker terminated or timed out during initialization"
    );
    assert_eq!(
        start(Report::Disconnected),
        "DeepFilter worker terminated or timed out during initialization"
    );
}

#[test]
fn capture_waits_for_its_worker() {
    let (tx, mut rx) = crossbeam_channel::bounded::<Result<(), String>>(1);
    let mut wait =
        |timeout: Duration| DeepFilterCapture::new(1, 1, 1, (), &mut rx, timeout, (), ()).err();
    assert!(wait(Duration::from_millis(1)).unwrap().contains("timed out"));
    tx.send(Err("no model".to_string())).unwrap();
    assert!(wait(Duration::from_secs(1)).unwrap().ends_with("no model"));
    drop(tx);
    assert!(wait(Duration::from_secs(1)).unwrap().contains("terminated"));
}

#[test]
fn capture_log_lines() {
    assert_eq!(log_format("t", "INFO", Some("demo"), "ready"), "t | INFO | demo ready\n");
    assert_eq!(log_format("t", "INFO", None, "ready"), "t | INFO |  ready\n");
}

#[test]
fn blocks_of_the_worker_join() {
    let (mut prod, mut cons) = stream_ring(4);
    let mut joined: Vec<u32> = Vec::new();
    let mut blocks = 0;
    for k in 0..5u32 {
        fill(&mut prod, &[3 * k, 3 * k + 1, 3 * k + 2]);
        while let WorkerStep::Process(block) = worker_step(false, None, 4, &mut cons) {
            joined.extend(block);
            blocks += 1;
        }
    }
    assert_eq!(blocks, 15 / 4);
    assert_eq!(joined, (0..12).collect::<Vec<u32>>());
    assert_eq!(take_block(&mut cons, 3), Some(vec![12, 13, 14]));
}
