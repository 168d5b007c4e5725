use treq::band::{BandOp, BandUpdate, EqBand, EqFilter, Freq};

#[test]
fn filter_names_round_trip() {
    let all = [
        EqFilter::Peaking,
        EqFilter::LowShelf,
        EqFilter::HighShelf,
        EqFilter::LowPass,
        EqFilter::HighPass,
        EqFilter::BandPass,
        EqFilter::Notch,
    ];
    for f in all {
        let name = f.to_string();
        assert_eq!(EqFilter::from_lowercase_name(name.as_str()), f);
        assert_eq!(EqFilter::from(name), f);
    }
}

#[test]
fn filter_names_are_lowercase_words() {
    assert_eq!(EqFilter::Peaking.to_string(), "peaking");
    assert_eq!(EqFilter::LowShelf.to_string(), "lowshelf");
    assert_eq!(EqFilter::HighShelf.to_string(), "highshelf");
    assert_eq!(EqFilter::LowPass.to_string(), "lowpass");
    assert_eq!(EqFilter::HighPass.to_string(), "highpass");
    assert_eq!(EqFilter::BandPass.to_string(), "bandpass");
    assert_eq!(EqFilter::Notch.to_string(), "notch");
}

#[test]
fn filter_from_any_letter_case() {
    assert_eq!(EqFilter::from("LowShelf".to_string()), EqFilter::LowShelf);
    assert_eq!(EqFilter::from("NOTCH".to_string()), EqFilter::Notch);
    assert_eq!(EqFilter::from("HighPass".to_string()), EqFilter::HighPass);
}

#[test]
fn filter_from_unknown_name_is_peaking() {
    assert_eq!(EqFilter::from("shelf".to_string()), EqFilter::Peaking);
    assert_eq!(EqFilter::from(String::new()), EqFilter::Peaking);
    assert_eq!(EqFilter::from_lowercase_name("LOWPASS"), EqFilter::Peaking);
}

#[test]
fn new_band_defaults() {
    let b = EqBand::new(Freq::Point(1000), Some(EqFilter::Peaking), None, 48000, 1.0f64.to_bits());
    assert!(b.enabled);
    assert_eq!(b.gain, 0);
    assert_eq!(f32::from_bits(b.gain), 0.0);
    assert_eq!(b.freq, Freq::Point(1000));
    assert_eq!(b.sample_rate, 48000);
    assert_eq!(f64::from_bits(b.q), 1.0);
    assert_eq!(b.filter, Some(EqFilter::Peaking));
    let g = EqBand::new(Freq::Point(100), None, Some(3.0f32.to_bits()), 44100, 0.7f64.to_bits());
    assert_eq!(f32::from_bits(g.gain), 3.0);
    assert_eq!(g.filter, None);
}

#[test]
fn new_bands_get_distinct_ids() {
    let a = EqBand::new(Freq::Point(1), None, None, 1, 0);
    let b = EqBand::new(Freq::Point(1), None, None, 1, 0);
    assert_ne!(a.id, b.id);
}

#[test]
fn center_frequency() {
    let p = EqBand::new(Freq::Point(1000), None, None, 48000, 0);
    assert_eq!(p.get_center_freq(), 1000);
    let r = EqBand::new(Freq::Range(100, 301), None, None, 48000, 0);
    assert_eq!(r.get_center_freq(), 200);
    let r2 = EqBand::new(Freq::Range(20, 20000), None, None, 48000, 0);
    assert_eq!(r2.get_center_freq(), 10010);
}

#[test]
fn frequency_kind() {
    let p = EqBand::new(Freq::Point(1000), None, None, 48000, 0);
    assert!(p.is_point());
    assert!(!p.is_range());
    assert_eq!(p.get_freq_range(), None);
    let r = EqBand::new(Freq::Range(100, 300), None, None, 48000, 0);
    assert!(r.is_range());
    assert!(!r.is_point());
    assert_eq!(r.get_freq_range(), Some((100, 300)));
}

#[test]
fn band_updates_change_one_setting() {
    let mut b = EqBand::new(Freq::Point(1000), None, None, 48000, 1.0f64.to_bits());
    let before = b;
    b.update_filter(Some(EqFilter::Notch));
    assert_eq!(b.filter, Some(EqFilter::Notch));
    b.update_freq(Freq::Range(10, 20));
    assert_eq!(b.freq, Freq::Range(10, 20));
    b.update_gain((-1.5f32).to_bits());
    assert_eq!(f32::from_bits(b.gain), -1.5);
    b.update_q(0.5f64.to_bits());
    assert_eq!(f64::from_bits(b.q), 0.5);
    b.update_sample_rate(96000);
    assert_eq!(b.sample_rate, 96000);
    assert_eq!(b.id, before.id);
    assert!(b.enabled);
    b.disable();
    assert!(!b.enabled);
    b.enable();
    assert!(b.enabled);
}

#[test]
fn band_ops_compare() {
    assert_eq!(BandOp::UpdateBand(7), BandOp::UpdateBand(7));
    assert_ne!(BandOp::UpdateBand(7), BandOp::DeleteBand(7));
    assert_ne!(BandUpdate::UpdateGain(1), BandUpdate::UpdateQ(1));
}
