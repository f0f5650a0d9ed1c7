use soundcheck::beats::expected_chunks;
use soundcheck::codec::is_audio;
use soundcheck::grid::signed_shift;
use soundcheck::natural::natural_cmp;
use soundcheck::CancelToken;

#[test]
fn expected_chunks_follow_beat_this_chunking() {
    // 1488 activation frames per step; frames = samples / 441 + 1.
    assert_eq!(expected_chunks(0), 1);
    assert_eq!(expected_chunks(441 * 1487), 1);
    assert_eq!(expected_chunks(441 * 1488), 2);
    // 30 s is 1501 frames: two chunks, as beat-this runs it.
    assert_eq!(expected_chunks(22_050 * 30), 2);
    assert_eq!(expected_chunks(22_050 * 240), 9);
}

#[test]
fn signed_shifts_wrap_around_the_bar() {
    assert_eq!(signed_shift(1, 0, 4), 1);
    assert_eq!(signed_shift(2, 0, 4), 2);
    assert_eq!(signed_shift(3, 0, 4), -1);
    assert_eq!(signed_shift(0, 3, 4), 1);
    assert_eq!(signed_shift(4, 0, 9), 4);
    assert_eq!(signed_shift(5, 0, 9), -4);
}

#[test]
fn natural_order_compares_numbers_by_value_and_ignores_case() {
    let mut names = vec![
        "Track 10.wav",
        "track 2.wav",
        "Track 1.wav",
        "B",
        "a",
        "Track 02b",
    ];
    names.sort_by(|a, b| natural_cmp(a, b));
    assert_eq!(
        names,
        vec![
            "a",
            "B",
            "Track 1.wav",
            "track 2.wav",
            "Track 02b",
            "Track 10.wav"
        ]
    );
}

#[test]
fn audio_extensions_ignore_case() {
    assert!(is_audio("x/Y.FLAC"));
    assert!(is_audio("x.Aiff"));
    assert!(!is_audio("notes.txt"));
    assert!(!is_audio("noext"));
}

#[test]
fn clones_share_the_flag() {
    let token = CancelToken::new();
    let clone = token.clone();
    let flag = token.flag();
    assert!(!clone.is_cancelled());
    token.cancel();
    assert!(clone.is_cancelled());
    assert!(flag.load(std::sync::atomic::Ordering::Relaxed));
}
