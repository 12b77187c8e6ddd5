use deep_filter::plugin::control::{DfControl, DfControlHistory};
use deep_filter::plugin::descriptor::{
    get_ladspa_descriptor, DefaultValue, Port, PortDescriptor, ID_MONO, ID_STEREO,
};
use deep_filter::plugin::ident::{id_of, new_id};
use deep_filter::plugin::logging::{log_format, syslog_format, wants_syslog, Level};
use deep_filter::single::Single;

const ALL: [(DfControl, &str); 6] = [
    (DfControl::AttenLim, "Attenuation Limit (dB)"),
    (DfControl::PfBeta, "Post Filter Beta"),
    (DfControl::MinThreshDb, "Min processing threshold (dB)"),
    (DfControl::MaxErbThreshDb, "Max ERB processing threshold (dB)"),
    (DfControl::MaxDfThreshDb, "Max DF processing threshold (dB)"),
    (DfControl::MinBufferFrames, "Min Processing Buffer (frames)"),
];

fn single(v: f32) -> Single {
    Single::from_bits(v.to_bits())
}

#[test]
fn port_names_lead_back_to_controls() {
    for (c, name) in ALL {
        assert_eq!(c.name(), name);
        assert_eq!(DfControl::from_port_name(name), c);
        assert_eq!(DfControl::find_port_name(name), Some(c));
    }
    assert_eq!(DfControl::find_port_name("Audio In"), None);
    assert_eq!(DfControl::find_port_name(""), None);
}

#[test]
fn history_starts_with_the_defaults_of_the_worker() {
    let h = DfControlHistory::default();
    assert_eq!(h.get(&DfControl::AttenLim), single(100.));
    assert_eq!(h.get(&DfControl::PfBeta), single(0.));
    assert_eq!(h.get(&DfControl::MinThreshDb), single(-10.));
    assert_eq!(h.get(&DfControl::MaxErbThreshDb), single(30.));
    assert_eq!(h.get(&DfControl::MaxDfThreshDb), single(20.));
    assert_eq!(h.get(&DfControl::MinBufferFrames), single(0.));
}

#[test]
fn history_holds_what_was_set() {
    for (c, _) in ALL {
        let mut h = DfControlHistory::default();
        h.set(&c, single(7.25));
        for (d, _) in ALL {
            let expected = if d == c {
                single(7.25)
            } else {
                DfControlHistory::default().get(&d)
            };
            assert_eq!(h.get(&d), expected);
        }
    }
}

fn check_control(p: &Port, name: &str, default: DefaultValue, lower: f32, upper: f32) {
    assert_eq!(p.name, name);
    assert_eq!(p.desc, PortDescriptor::ControlInput);
    assert_eq!(p.default, Some(default));
    assert_eq!(p.lower_bound, Some(single(lower)));
    assert_eq!(p.upper_bound, Some(single(upper)));
}

fn check_controls(ports: &[Port]) {
    assert_eq!(ports.len(), 6);
    check_control(&ports[0], "Attenuation Limit (dB)", DefaultValue::Maximum, 0., 100.);
    check_control(&ports[1], "Min processing threshold (dB)", DefaultValue::Minimum, -15., 35.);
    check_control(&ports[2], "Max ERB processing threshold (dB)", DefaultValue::Maximum, -15., 35.);
    check_control(&ports[3], "Max DF processing threshold (dB)", DefaultValue::Maximum, -15., 35.);
    check_control(&ports[4], "Min Processing Buffer (frames)", DefaultValue::Minimum, 0., 10.);
    check_control(&ports[5], "Post Filter Beta", DefaultValue::Minimum, 0., 0.05);
}

fn check_audio(p: &Port, name: &str, desc: PortDescriptor) {
    assert_eq!(p.name, name);
    assert_eq!(p.desc, desc);
    assert!(p.default.is_none() && p.lower_bound.is_none() && p.upper_bound.is_none());
}

#[test]
fn descriptor_of_the_mono_plugin() {
    let d = get_ladspa_descriptor(0).unwrap();
    assert_eq!(d.unique_id, ID_MONO);
    assert_eq!(d.unique_id, 7843795);
    assert_eq!(d.label, "deep_filter_mono");
    assert_eq!(d.name, "DeepFilter Mono");
    assert_eq!(d.maker, "Hendrik Schröter");
    assert_eq!(d.copyright, "MIT/Apache");
    assert_eq!(d.channels, 1);
    check_audio(&d.ports[0], "Audio In", PortDescriptor::AudioInput);
    check_audio(&d.ports[1], "Audio Out", PortDescriptor::AudioOutput);
    check_controls(&d.ports[2..]);
}

#[test]
fn descriptor_of_the_stereo_plugin() {
    let d = get_ladspa_descriptor(1).unwrap();
    assert_eq!(d.unique_id, ID_STEREO);
    assert_eq!(d.unique_id, 7843796);
    assert_eq!(d.label, "deep_filter_stereo");
    assert_eq!(d.name, "DeepFilter Stereo");
    assert_eq!(d.channels, 2);
    check_audio(&d.ports[0], "Audio In L", PortDescriptor::AudioInput);
    check_audio(&d.ports[1], "Audio In R", PortDescriptor::AudioInput);
    check_audio(&d.ports[2], "Audio Out L", PortDescriptor::AudioOutput);
    check_audio(&d.ports[3], "Audio Out R", PortDescriptor::AudioOutput);
    check_controls(&d.ports[4..]);
}

#[test]
fn there_is_no_third_plugin() {
    assert!(get_ladspa_descriptor(2).is_none());
    assert!(get_ladspa_descriptor(u64::MAX).is_none());
}

#[test]
fn control_ports_are_known() {
    for index in 0..2 {
        let d = get_ladspa_descriptor(index).unwrap();
        for p in &d.ports[2 * d.channels..] {
            assert!(DfControl::find_port_name(p.name).is_some());
        }
    }
}

#[test]
fn starting_values_are_in_range() {
    let d = get_ladspa_descriptor(0).unwrap();
    let h = DfControlHistory::default();
    for p in &d.ports[2..] {
        let v = h.get(&DfControl::from_port_name(p.name));
        assert!(v.at_least(p.lower_bound.unwrap()));
        assert!(p.upper_bound.unwrap().at_least(v));
    }
}

#[test]
fn id_is_the_last_group_of_a_uuid() {
    let bytes = [0, 1, 2, 3, 4, 5, 0x46, 7, 0x88, 9, 0x0a, 0xb1, 0x0c, 0xdd, 0xe0, 0xff];
    assert_eq!(id_of(bytes), "0ab10cdde0ff");
    assert!(uuid::Uuid::from_bytes(bytes).to_string().ends_with(&id_of(bytes)));
}

#[test]
fn ids_tell_tails_apart() {
    assert_ne!(id_of([1; 16]), id_of([16; 16]));
    assert_eq!(id_of([1; 16]), "010101010101");
    assert_eq!(id_of([16; 16]), "101010101010");
}

#[test]
fn new_ids_are_random() {
    let a = new_id();
    let b = new_id();
    assert_eq!(a.len(), 12);
    assert!(a.chars().all(|c| c.is_ascii_digit() || ('a'..='f').contains(&c)));
    assert_ne!(a, b);
}

#[test]
fn log_lines() {
    assert_eq!(
        log_format("2024-01-01T00:00:00.000Z", "INFO", Some("df::worker"), "ready"),
        "2024-01-01T00:00:00.000Z | INFO |  df::worker | ready\n"
    );
    assert_eq!(
        log_format("t", "WARN", Some("df::reexport_dataset_modules:::augment"), "x"),
        "t | WARN |  df::augment | x\n"
    );
    assert_eq!(log_format("t", "WARN", None, "x"), "t | WARN |  x\n");
}

#[test]
fn syslog_lines() {
    assert_eq!(syslog_format(Level::Error, "df", "x"), "<3>df: x\n");
    assert_eq!(syslog_format(Level::Warn, "df", "x"), "<4>df: x\n");
    assert_eq!(syslog_format(Level::Info, "df", "x"), "<6>df: x\n");
    assert_eq!(syslog_format(Level::Debug, "df", "x"), "<7>df: x\n");
    assert_eq!(syslog_format(Level::Trace, "df", "x"), "<7>df: x\n");
}

#[test]
fn syslog_is_chosen_by_style() {
    assert!(wants_syslog(&Some("SYSTEMD".to_string())));
    assert!(!wants_syslog(&Some("systemd".to_string())));
    assert!(!wants_syslog(&Some("auto".to_string())));
    assert!(!wants_syslog(&None));
}
