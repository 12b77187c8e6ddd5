use deep_filter::capture::DfControl;
use deep_filter::single::Single;
use deep_filter::view::spectrogram::SpecImage;
use deep_filter::view::{
    log_level, slider_message, spectrogram_size, tract_level, Action, LevelFilter, Message,
    SpecView,
};

fn single(v: f32) -> Single {
    Single::from_bits(v.to_bits())
}

fn palette() -> Vec<[u8; 4]> {
    (0..=255u8).map(|i| [i, 255 - i, 7, 255]).collect()
}

fn color(i: u8) -> [u8; 4] {
    [i, 255 - i, 7, 255]
}

const ALL: [DfControl; 5] = [
    DfControl::AttenLim,
    DfControl::PostFilterBeta,
    DfControl::MinThreshDb,
    DfControl::MaxErbThreshDb,
    DfControl::MaxDfThreshDb,
];

#[test]
fn view_at_the_start() {
    let v = SpecView::new();
    assert_eq!(v.title(), "DeepFilterNet Demo");
    assert_eq!(v.atten_lim, single(100.));
    assert_eq!(v.post_filter_beta, single(0.));
    assert_eq!(v.min_threshdb, single(-15.));
    assert_eq!(v.max_erbthreshdb, single(35.));
    assert_eq!(v.max_dfthreshdb, single(35.));
}

#[test]
fn moved_sliders_are_sent() {
    for c in ALL {
        let mut v = SpecView::new();
        let message = slider_message(c, single(0.5));
        assert_eq!(v.update(message), Action::Send(c, single(0.5)));
        let before = SpecView::new().sliders(true);
        for (i, s) in v.sliders(true).iter().enumerate() {
            let expected = if s.control == c { single(0.5) } else { before[i].value };
            assert_eq!(s.value, expected);
        }
    }
}

#[test]
fn messages_of_sliders() {
    let v = single(1.);
    assert_eq!(slider_message(DfControl::AttenLim, v), Message::AttenLimChanged(v));
    assert_eq!(slider_message(DfControl::PostFilterBeta, v), Message::PostFilterChanged(v));
    assert_eq!(slider_message(DfControl::MinThreshDb, v), Message::MinThreshDbChanged(v));
    assert_eq!(slider_message(DfControl::MaxErbThreshDb, v), Message::MaxErbThreshDbChanged(v));
    assert_eq!(slider_message(DfControl::MaxDfThreshDb, v), Message::MaxDfThreshDbChanged(v));
}

#[test]
fn other_messages_move_nothing() {
    let mut v = SpecView::new();
    assert_eq!(v.update(Message::Tick), Action::Refresh);
    assert_eq!(v.update(Message::Exit), Action::Quit);
    assert_eq!(v, SpecView::new());
}

#[test]
fn sliders_of_the_view() {
    let all = SpecView::new().sliders(false);
    assert_eq!(all.len(), 2);
    assert_eq!(all[0].title, "Noise Attenuation [dB]");
    assert_eq!((all[0].min, all[0].max), (single(0.), single(100.)));
    assert_eq!((all[0].precision, all[0].step), (0, single(3.)));
    assert_eq!(all[1].title, "Post Filter Beta");
    assert_eq!((all[1].min, all[1].max), (single(0.), single(1.)));
    assert_eq!((all[1].precision, all[1].step), (3, single(0.001)));
    let all = SpecView::new().sliders(true);
    let titles: Vec<&str> = all.iter().map(|s| s.title).collect();
    assert_eq!(
        titles,
        vec![
            "Threshold Min [dB]",
            "Threshold ERB Max [dB]",
            "Threshold DF  Max [dB]",
            "Noise Attenuation [dB]",
            "Post Filter Beta",
        ]
    );
    for s in &all[..3] {
        assert_eq!((s.min, s.max), (single(-15.), single(35.)));
        assert_eq!((s.precision, s.step), (0, single(3.)));
    }
    for s in &all {
        assert!(s.value.at_least(s.min) && s.max.at_least(s.value));
    }
}

#[test]
fn size_of_the_spectrograms() {
    assert_eq!(spectrogram_size(48000, 480, 481), (1000, 160));
    assert_eq!(spectrogram_size(16000, 160, 161), (1000, 160));
    assert_eq!(spectrogram_size(44100, 512, 257), (860, 93));
}

#[test]
fn verbosity() {
    let expected = [
        (LevelFilter::Warn, LevelFilter::Error),
        (LevelFilter::Info, LevelFilter::Error),
        (LevelFilter::Debug, LevelFilter::Error),
        (LevelFilter::Trace, LevelFilter::Error),
        (LevelFilter::Trace, LevelFilter::Info),
        (LevelFilter::Trace, LevelFilter::Debug),
        (LevelFilter::Trace, LevelFilter::Trace),
    ];
    for (v, (own, tract)) in expected.iter().enumerate() {
        assert_eq!((log_level(v as u8), tract_level(v as u8)), (*own, *tract));
    }
    assert_eq!((log_level(255), tract_level(255)), (LevelFilter::Trace, LevelFilter::Trace));
}

/// The color at frequency `f` of the column `t` of the displayed image.
fn shown(im: &SpecImage, t: usize, f: usize) -> [u8; 4] {
    let data = im.image_data();
    let at = 4 * ((im.h() - 1 - f) * im.w() + t);
    [data[at], data[at + 1], data[at + 2], data[at + 3]]
}

#[test]
fn new_spectrogram_is_blank() {
    let im = SpecImage::new(4, 3);
    assert_eq!((im.w(), im.h()), (4, 3));
    assert_eq!(im.image_data(), vec![0u8; 48]);
}

#[test]
fn spectra_scroll_in() {
    let mut im = SpecImage::new(4, 2);
    im.update(&vec![vec![10, 20]], 1, &palette());
    // the painted row came to stand behind the one that scrolled to the front
    assert_eq!(shown(&im, 1, 0), color(10));
    assert_eq!(shown(&im, 1, 1), color(20));
    assert_eq!(shown(&im, 0, 0), [0; 4]);
    assert_eq!(shown(&im, 2, 0), [0; 4]);
    im.update(&vec![vec![30, 40]], 1, &palette());
    assert_eq!(shown(&im, 1, 0), color(30));
    assert_eq!(shown(&im, 2, 0), color(10));
    assert_eq!(shown(&im, 2, 1), color(20));
    assert_eq!(shown(&im, 3, 0), [0; 4]);
}

#[test]
fn rotated_display() {
    let mut im = SpecImage::new(2, 3);
    im.update(&vec![vec![1, 2, 3]], 1, &palette());
    let row = [color(1), color(2), color(3)];
    for f in 0..3 {
        assert_eq!(shown(&im, 1, f), row[f]);
        assert_eq!(shown(&im, 0, f), [0; 4]);
    }
}

#[test]
fn no_spectra_change_nothing() {
    let mut im = SpecImage::new(2, 1);
    im.update(&vec![vec![5]], 1, &palette());
    let before = im.image_data();
    im.update(&vec![vec![6]], 0, &palette());
    assert_eq!(im.image_data(), before);
}

#[test]
fn too_many_spectra_are_dropped() {
    let mut im = SpecImage::new(3, 1);
    im.update(&vec![vec![1], vec![2], vec![3], vec![4]], 4, &palette());
    assert_eq!(shown(&im, 2, 0), color(1));
    assert_eq!(shown(&im, 0, 0), color(2));
    assert_eq!(shown(&im, 1, 0), [0; 4]);
}

#[test]
fn short_and_long_spectra() {
    let mut im = SpecImage::new(2, 2);
    im.update(&vec![vec![9]], 1, &palette());
    assert_eq!(shown(&im, 1, 0), color(9));
    assert_eq!(shown(&im, 1, 1), [0; 4]);
    let mut im = SpecImage::new(2, 2);
    im.update(&vec![vec![1, 2, 3]], 1, &palette());
    assert_eq!(shown(&im, 1, 0), color(1));
    assert_eq!(shown(&im, 1, 1), color(2));
    assert_eq!(shown(&im, 0, 0), [0; 4]);
}

#[test]
fn image_has_four_bytes_per_pixel() {
    for (w, h) in [(1, 1), (5, 3), (7, 0), (0, 4)] {
        let im = SpecImage::new(w, h);
        assert_eq!(im.image_data().len(), 4 * im.w() * im.h());
    }
}

#[test]
fn excess_spectra_are_left_out() {
    let specs: Vec<Vec<u8>> = (1..6).map(|i| vec![i, 10 * i]).collect();
    let mut many = SpecImage::new(3, 2);
    let mut fewer = SpecImage::new(3, 2);
    for im in [&mut many, &mut fewer] {
        im.update(&vec![vec![200, 201]], 1, &palette());
    }
    assert_eq!(many.shown(5), 2);
    assert_eq!(many.shown(1), 1);
    assert_eq!(many.shown(0), 0);
    many.update(&specs, 5, &palette());
    fewer.update(&specs[..2].to_vec(), 2, &palette());
    assert_eq!(many.image_data(), fewer.image_data());
    // a row that was not painted over has survived
    let old = (0..3).filter(|t| shown(&many, *t, 0) == [0; 4]).count();
    assert_eq!(old, 1);
}

#[test]
fn single_row_is_never_painted() {
    let mut im = SpecImage::new(1, 2);
    im.update(&vec![vec![1, 2]], 3, &palette());
    assert_eq!(im.image_data(), vec![0u8; 8]);
}
