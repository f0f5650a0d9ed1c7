use soundcheck::settings::{fnv1a_64, AnalysisSettings, Bpm};
use soundcheck::{Codec, Meter};

#[test]
fn meter_templates_are_consistent_and_labelled() {
    for m in Meter::templates() {
        let sum: u32 = m.grouping.iter().map(|&g| u32::from(g)).sum();
        assert_eq!(u32::from(m.beats_per_bar), sum, "{}", m.to_string());
    }
    assert_eq!(Meter::four_four().to_string(), "4/4");
    assert_eq!(Meter::three_four().to_string(), "3/4");
    assert_eq!(Meter::six_eight().to_string(), "6/8 · 3+3");
    assert_eq!(Meter::nine_eight_aksak().to_string(), "9/8 · 2+2+2+3");
    assert_eq!(Meter::seven_eight().to_string(), "7/8 · 2+2+3");
    assert!(Meter::four_four().is_regular());
    assert!(Meter::six_eight().is_regular());
    assert!(!Meter::nine_eight_aksak().is_regular());
    assert_eq!(Meter::nine_eight_aksak().beats(), 4);
}

#[test]
fn settings_hash_is_stable_and_sensitive() {
    let a = AnalysisSettings::default();
    assert_eq!(a.settings_hash(), a.clone().settings_hash());
    assert_eq!(
        a.settings_hash(),
        0x4d9f_9a82_8cbc_1c2a,
        "canonical text changed"
    );
    let b = AnalysisSettings {
        grid: false,
        ..AnalysisSettings::default()
    };
    let c = AnalysisSettings {
        bpm_range: (Bpm(8_000), Bpm(18_000)),
        ..AnalysisSettings::default()
    };
    assert_ne!(a.settings_hash(), b.settings_hash());
    assert_ne!(a.settings_hash(), c.settings_hash());
}

#[test]
fn fnv1a_matches_the_reference_vectors() {
    assert_eq!(fnv1a_64(b""), 0xcbf2_9ce4_8422_2325);
    assert_eq!(fnv1a_64(b"a"), 0xaf63_dc4c_8601_ec8c);
}

#[test]
fn codecs_from_names() {
    assert_eq!(Codec::from_path("a/B.FLAC"), Codec::Flac);
    assert_eq!(Codec::from_path("x.aif"), Codec::Aiff);
    assert_eq!(Codec::from_path("x.m4a"), Codec::Aac);
    assert_eq!(Codec::from_path("x"), Codec::Other);
    assert!(Codec::Mp3.is_writable());
    assert!(!Codec::Alac.is_writable());
}
