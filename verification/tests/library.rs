use std::cmp::Ordering;

use soundcheck::analysis::{
    find_model_dir, first_step, next_step, CacheStatus, Checkpoint, Event, Finish, Step, anchor_on_kick, grid_skipped, grid_step, model_file, no_beats_note, GridStep, TagHints,
};
use soundcheck::batch::{
    outcome_of_unstarted, worker_count, workers_for_cores, BatchSummary, Coordinator, Terminal,
};
use soundcheck::expand::{collect_audio_files, hidden_name, listing_order, Dropped, Kind, Node, Seen};
use soundcheck::grid::{
    assess, genre_range, verdict_of, Confidence, GridChecks, Reason, Terms, Verdict,
};
use soundcheck::hops::Hops;
use soundcheck::ipc::{status, ErrorReport, IpcError, IpcErrorKind, JobStage, REPORT_SCHEMA};
use soundcheck::meter::{candidates, suggests_odd_meter};
use soundcheck::natural::{all_lower_apart_of, natural_cmp};
use soundcheck::octave::{choose_octave, Lattice, OctaveChoice, OctaveFacts, OctaveRule};
use soundcheck::order::InOrder;
use soundcheck::plan::{
    plan_status, skip_action, review_reasons, skip_reason, GridFacts, PlanCounts, ReviewReason, SkipReason,
};
use soundcheck::rank::{median_positions, p95_rank};
use soundcheck::resample::{expected_frames, Delay};
use soundcheck::session::{millis, saturating_u32, Session};
use soundcheck::settings::{Bpm, Model};
use soundcheck::testsig::Rng;
use soundcheck::{BeatUnit, Codec, Meter};

#[test]
fn genre_keywords() {
    let range = |g: Option<&str>| genre_range(g).map(|(lo, hi)| (f64::from(lo), f64::from(hi)));
    assert_eq!(range(Some("Drum & Bass")), Some((160.0, 180.0)));
    assert_eq!(range(Some("Progressive House")), Some((120.0, 130.0)));
    assert_eq!(range(Some("Hip-Hop/Rap")), Some((80.0, 100.0)));
    assert_eq!(range(Some("Türkçe Pop")), None);
    assert_eq!(range(None), None);
}

#[test]
fn genre_table_takes_the_first_match_in_any_case() {
    assert_eq!(genre_range(Some("JUNGLE")), Some((160, 180)));
    assert_eq!(genre_range(Some("Tech House")), Some((120, 130)));
    assert_eq!(genre_range(Some("Techno / Trance")), Some((125, 150)));
    assert_eq!(genre_range(Some("Dubstep")), Some((135, 145)));
    assert_eq!(genre_range(Some("")), None);
}

#[test]
fn quarter_level_candidates_are_only_the_simple_meters() {
    let list = candidates(false);
    assert_eq!(list.len(), 2);
    let eighth = candidates(true);
    assert_eq!(eighth.len(), 8);
    assert_eq!(eighth[0].groups, vec![2, 2, 2, 2]);
    assert_eq!(eighth[3].groups, vec![2, 2, 2, 3]);
}

#[test]
fn candidates_carry_their_meters_and_pulse_levels() {
    let quarter = candidates(false);
    assert_eq!(quarter[0].meter, Meter::four_four());
    assert_eq!(quarter[1].groups, vec![1, 1, 1]);
    assert_eq!(quarter[1].pulses_per_unit, 1);
    let eighth = candidates(true);
    assert_eq!(eighth[1].groups, vec![2, 2, 2]);
    assert_eq!(eighth[1].pulses_per_unit, 2);
    assert_eq!(eighth[2].meter, Meter::six_eight());
    assert_eq!(eighth[2].pulses_per_unit, 1);
    assert_eq!(eighth[7].meter.unit, BeatUnit::Eighth);
    assert_eq!(eighth[7].groups, vec![3, 2, 2, 3]);
}

#[test]
fn regional_hints_raise_odd_meters() {
    assert!(suggests_odd_meter("Türk Halk Müziği"));
    assert!(suggests_odd_meter("BALKAN brass"));
    assert!(suggests_odd_meter("Karşılama"));
    assert!(suggests_odd_meter("Rebetiko"));
    assert!(!suggests_odd_meter("Deep House Anthem"));
    assert!(!suggests_odd_meter(""));
}

#[test]
fn results_leave_in_the_order_given() {
    let mut q: InOrder<&str> = InOrder::new(4);
    assert_eq!(q.put(2, "c"), vec![]);
    assert_eq!(q.put(1, "b"), vec![]);
    assert_eq!(q.next_index(), 0);
    assert_eq!(q.put(0, "a"), vec![(0, "a"), (1, "b"), (2, "c")]);
    assert_eq!(q.next_index(), 3);
    // Out of range, or already left: ignored.
    assert_eq!(q.put(9, "z"), vec![]);
    assert_eq!(q.put(1, "again"), vec![]);
    assert_eq!(q.put(3, "d"), vec![(3, "d")]);
    assert_eq!(q.next_index(), 4);
}

#[test]
fn every_file_of_a_batch_ends_once() {
    let mut c = Coordinator::new(3);
    assert_eq!(c.total(), 3);
    c.end(1, Terminal::Analysed);
    c.end(1, Terminal::Failed);
    assert_eq!(c.done(), 1);
    assert!(c.is_ended(1));
    assert_eq!(c.not_ended(), vec![0, 2]);
    c.end(0, Terminal::Failed);
    c.end(2, outcome_of_unstarted(true));
    assert_eq!(c.done(), 3);
    // Every terminal event counts, the second one for file 1 too.
    assert_eq!(
        c.summary(true),
        BatchSummary {
            analysed: 1,
            failed: 2,
            cancelled: 1,
            was_cancelled: true
        }
    );
    assert_eq!(outcome_of_unstarted(false), Terminal::Failed);
    assert_eq!(BatchSummary::default().analysed, 0);
}

#[test]
fn worker_counts_are_clamped() {
    assert_eq!(workers_for_cores(1), 1);
    assert_eq!(workers_for_cores(8), 2);
    assert_eq!(workers_for_cores(16), 4);
    assert_eq!(workers_for_cores(64), 4);
    assert_eq!(worker_count(0, 10), 1);
    assert_eq!(worker_count(4, 2), 2);
    assert_eq!(worker_count(3, 10), 3);
    assert_eq!(worker_count(4, 0), 1);
}

#[test]
fn hops_do_not_depend_on_how_blocks_are_cut() {
    let data: Vec<u32> = (0..25).collect();
    let mut whole = Hops::new(10);
    let a = whole.push(&data);
    let mut parts = Hops::new(10);
    let mut b = parts.push(&data[..3]);
    b.extend(parts.push(&data[3..17]));
    b.extend(parts.push(&data[17..]));
    assert_eq!(a, b);
    assert_eq!(a.len(), 2);
    assert_eq!(a[1], (10..20).collect::<Vec<u32>>());
    assert_eq!(whole.waiting_len(), 5);
    assert_eq!(parts.take_waiting(), (20..25).collect::<Vec<u32>>());
    assert_eq!(parts.waiting_len(), 0);
    assert_eq!(parts.size(), 10);
}

#[test]
fn session_ids_are_never_reused() {
    let mut s = Session::new();
    assert!(s.is_empty());
    let (a, _) = s.add_path("/music/a.wav").unwrap();
    let (b, key) = s.add_path("/music/Cafe\u{301}.wav").unwrap();
    assert_eq!((a, b), (1, 2));
    assert_eq!(key, "/music/Caf\u{e9}.wav");
    // The same file again, in composed form: kept once.
    assert_eq!(s.add_path("/music/Caf\u{e9}.wav"), None);
    assert_eq!(s.len(), 2);
    assert_eq!(s.positions(&[2, 7, 1]), vec![1, 0]);
    s.clear();
    assert_eq!(s.len(), 0);
    let (c, _) = s.add_path("/music/a.wav").unwrap();
    assert_eq!(c, 3);
    assert_eq!(s.next_job_id(), 1);
    assert_eq!(s.next_job_id(), 2);
    assert_eq!(s.revision(), 0);
    assert_eq!(s.next_revision(), 1);
    assert_eq!(s.revision(), 1);
}

#[test]
fn counts_saturate_for_ipc() {
    assert_eq!(saturating_u32(7), 7);
    assert_eq!(saturating_u32(usize::MAX), u32::MAX);
    assert_eq!(millis(1_500), 1_500);
    assert_eq!(millis(u128::from(u32::MAX) + 1), u32::MAX);
}

#[test]
fn review_reasons_come_in_a_fixed_order() {
    let clean = GridFacts {
        confidence: Confidence::Green,
        verdict: Verdict::Static,
        outside_range: false,
        tag_disagrees: None,
    };
    assert!(review_reasons(Some(clean), false).is_empty());
    let all = GridFacts {
        confidence: Confidence::Red,
        verdict: Verdict::Drifts,
        outside_range: true,
        tag_disagrees: Some(Bpm(12_800)),
    };
    assert_eq!(
        review_reasons(Some(all), false),
        vec![
            ReviewReason::Confidence,
            ReviewReason::Drifts,
            ReviewReason::OutsideBpmRange,
            ReviewReason::TagBpmDisagrees { tag: Bpm(12_800) }
        ]
    );
    let warn = GridFacts {
        verdict: Verdict::StaticWarn,
        ..clean
    };
    assert_eq!(review_reasons(Some(warn), false), vec![ReviewReason::CheckGrid]);
    assert_eq!(review_reasons(None, true), vec![ReviewReason::NoGrid]);
    assert!(review_reasons(None, false).is_empty());
}

#[test]
fn skipped_plans_and_their_status() {
    assert_eq!(
        skip_reason(Codec::Alac, true),
        Some(SkipReason::AnalyseOnly { codec: Codec::Alac })
    );
    assert_eq!(skip_reason(Codec::Alac, false), Some(SkipReason::AnalyseOnly { codec: Codec::Alac }));
    assert_eq!(skip_reason(Codec::Wav, false), Some(SkipReason::Silent));
    assert_eq!(skip_reason(Codec::Wav, true), None);
    assert_eq!(plan_status(true, 3), JobStage::Skipped);
    assert_eq!(plan_status(false, 1), JobStage::NeedsReview);
    assert_eq!(plan_status(false, 0), JobStage::Analysed);
    assert_eq!(status(JobStage::NeedsReview), "Needs review");
    assert_eq!(status(JobStage::Skipped), "Skipped");
    assert_eq!(status(JobStage::Analysed), "Analysed");
}

#[test]
fn error_reports_carry_the_schema() {
    let e = IpcError {
        kind: IpcErrorKind::Corrupt,
        message: "corrupt".to_string(),
        file_id: None,
    };
    let r = ErrorReport::new("x.wav".to_string(), e.clone());
    assert_eq!(r.schema, REPORT_SCHEMA);
    assert_eq!(r.schema, 2);
    assert_eq!(r.file, "x.wav");
    assert_eq!(r.error, e);
}

#[test]
fn grid_steps_follow_settings_model_and_length() {
    assert_eq!(grid_step(false, true, 1_000_000, 44_100), GridStep::NotRequested);
    assert_eq!(grid_step(true, false, 1_000_000, 44_100), GridStep::NoModel);
    assert_eq!(grid_step(true, true, 441_000, 44_100), GridStep::Fit);
    assert_eq!(grid_step(true, true, 440_999, 44_100), GridStep::TooShort);
    assert_eq!(grid_skipped(GridStep::Fit), None);
    assert_eq!(grid_skipped(GridStep::NotRequested), Some("not requested"));
    assert_eq!(grid_skipped(GridStep::TooShort), Some("shorter than 10 s"));
    assert_eq!(grid_skipped(GridStep::NoModel), Some("beat-tracking model not loaded"));
    assert_eq!(no_beats_note(), "no beats found");
    assert!(anchor_on_kick(25, 100));
    assert!(!anchor_on_kick(24, 100));
    assert_eq!(model_file(Model::Small), "beat_this_small.onnx");
    assert_eq!(model_file(Model::Full), "beat_this.onnx");
}

#[test]
fn hint_text_joins_the_tags_present() {
    let mut h = TagHints {
        bpm: None,
        genre: Some("Halk".to_string()),
        title: None,
        artist: Some("Neşet Ertaş".to_string()),
    };
    assert_eq!(h.hint_text(), "Halk Neşet Ertaş");
    h.genre = None;
    assert_eq!(h.hint_text(), "Neşet Ertaş");
    h.title = Some(String::new());
    assert_eq!(h.hint_text(), " Neşet Ertaş");
    h.artist = None;
    h.title = None;
    assert_eq!(h.hint_text(), "");
}

#[test]
fn converted_length_is_rounded_and_the_delay_dropped_once() {
    assert_eq!(expected_frames(44_100, 44_100, 22_050), 22_050);
    assert_eq!(expected_frames(1, 48_000, 22_050), 0);
    assert_eq!(expected_frames(3, 48_000, 22_050), 1);
    assert_eq!(expected_frames(48_000, 48_000, 22_050), 22_050);
    let mut d = Delay { left: 100 };
    assert_eq!(d.skip(60), 60);
    assert_eq!(d.skip(60), 40);
    assert_eq!(d.skip(60), 0);
    assert_eq!(d.left, 0);
}

#[test]
fn the_generator_is_deterministic_and_never_stuck() {
    let mut a = Rng::new(0);
    let mut b = Rng::new(0);
    let x = a.next_u64();
    assert_eq!(x, b.next_u64());
    let mut s: u64 = 0x9E37_79B9_7F4A_7C15;
    s ^= s >> 12;
    s ^= s << 25;
    s ^= s >> 27;
    assert_eq!(x, s.wrapping_mul(0x2545_F491_4F6C_DD1D));
    let mut c = Rng::new(1);
    for _ in 0..1000 {
        let _ = c.next_u64();
    }
    assert_ne!(Rng::new(1).next_u64(), Rng::new(2).next_u64());
}

fn file(dir: &str, name: &str) -> Node {
    Node {
        name: name.to_string(),
        path: format!("{dir}/{name}"),
        kind: Kind::File,
    }
}

#[test]
fn folders_are_listed_naturally_without_hidden_entries_links_or_repeats() {
    let inner = Node {
        name: "B".to_string(),
        path: "/drop/B".to_string(),
        kind: Kind::Folder(vec![file("/drop/B", "inner.wav")]),
    };
    let link = Node {
        name: "link".to_string(),
        path: "/drop/link".to_string(),
        kind: Kind::Other,
    };
    let folder = vec![
        file("/drop", "Track 10.wav"),
        file("/drop", "Track 2.WAV"),
        file("/drop", ".hidden.wav"),
        file("/drop", "._Track 2.WAV"),
        file("/drop", "notes.txt"),
        inner,
        link,
        file("/drop", "01 Title.wav"),
    ];
    let dropped = vec![
        Dropped::Folder(folder),
        Dropped::Path("/drop/Track 2.WAV".to_string()),
        Dropped::Path("/elsewhere/gone.wav".to_string()),
        Dropped::Path("/elsewhere/readme.md".to_string()),
    ];
    assert_eq!(
        collect_audio_files(&dropped),
        vec![
            "/drop/01 Title.wav",
            "/drop/B/inner.wav",
            "/drop/Track 2.WAV",
            "/drop/Track 10.wav",
            "/elsewhere/gone.wav"
        ]
    );
}

#[test]
fn a_file_in_two_normal_forms_is_kept_once() {
    let dropped = vec![
        Dropped::Path("/m/Caf\u{e9}.flac".to_string()),
        Dropped::Path("/m/Cafe\u{301}.flac".to_string()),
    ];
    assert_eq!(collect_audio_files(&dropped), vec!["/m/Caf\u{e9}.flac"]);
    let mut seen = Seen::new();
    assert!(seen.insert("Cafe\u{301}"));
    assert!(!seen.insert("Caf\u{e9}"));
}

#[test]
fn listing_order_sorts_naturally_and_keeps_equal_names_in_place() {
    let names: Vec<String> = ["b", ".x", "A", "a", "10", "9"].iter().map(|s| s.to_string()).collect();
    assert_eq!(listing_order(&names), vec![5, 4, 2, 3, 0]);
    assert_eq!(natural_cmp("É", "é"), std::cmp::Ordering::Equal);
    assert_eq!(natural_cmp("x9", "x10"), std::cmp::Ordering::Less);
}

#[test]
fn percentile_and_median_positions() {
    assert_eq!(p95_rank(1), 1);
    assert_eq!(p95_rank(20), 19);
    assert_eq!(p95_rank(100), 95);
    assert_eq!(p95_rank(101), 96);
    assert_eq!(p95_rank(0), 1);
    assert_eq!(p95_rank(usize::MAX), usize::MAX - usize::MAX / 20);
    assert_eq!(median_positions(1), (0, 0));
    assert_eq!(median_positions(4), (1, 2));
    assert_eq!(median_positions(5), (2, 2));
}

#[test]
fn plan_counts_follow_the_status() {
    let mut c = PlanCounts::new();
    c.add(JobStage::Analysed, true);
    c.add(JobStage::NeedsReview, false);
    c.add(JobStage::Skipped, false);
    c.add(JobStage::Analysed, false);
    assert_eq!(
        c,
        PlanCounts {
            analysed: 2,
            review: 1,
            skipped: 1,
            short: 1
        }
    );
}

#[test]
fn natural_order_chains() {
    let names = ["a1", "a2", "a10", "A10b", "b", "_x", "0"];
    assert_eq!(natural_cmp("a1", "a2"), Ordering::Less);
    assert_eq!(natural_cmp("a2", "a10"), Ordering::Less);
    assert_eq!(natural_cmp("a1", "a10"), Ordering::Less);
    assert_eq!(natural_cmp("a10", "A10b"), Ordering::Less);
    assert_eq!(natural_cmp("0", "_x"), Ordering::Less);
    assert_eq!(natural_cmp("_x", "a1"), Ordering::Less);
    for x in names {
        for y in names {
            for z in names {
                if natural_cmp(x, y).is_le() && natural_cmp(y, z).is_le() {
                    assert!(natural_cmp(x, z).is_le(), "{x} {y} {z}");
                }
            }
        }
    }
}

#[test]
fn report_words() {
    assert_eq!(Verdict::Static.label(), "static");
    assert_eq!(Verdict::StaticWarn.label(), "static (check)");
    assert_eq!(Verdict::Drifts.label(), "drifts");
    assert_eq!(Confidence::Green.label(), "green");
    assert_eq!(Confidence::Amber.label(), "amber");
    assert_eq!(Confidence::Red.label(), "red");
    assert_eq!(soundcheck::analysis::CacheStatus::Hit.label(), "hit");
    assert_eq!(soundcheck::analysis::CacheStatus::Written.label(), "written");
    assert_eq!(soundcheck::analysis::CacheStatus::Bypassed.label(), "bypassed");
    assert_eq!(
        skip_action(SkipReason::AnalyseOnly { codec: Codec::Alac }),
        "Skip: ALAC is analyse-only"
    );
    assert_eq!(skip_action(SkipReason::Silent), "Skip: silent");
}

fn all_terms(c: Confidence) -> Terms {
    Terms { coverage: c, recall: c, octave_margin: c, downbeat_margin: c, meter_margin: c }
}

fn clean_checks() -> GridChecks {
    GridChecks {
        verdict: Verdict::Static,
        outside_range: false,
        tag_disagrees: false,
        no_kick: false,
        short: false,
    }
}

#[test]
fn confidence_follows_the_weakest_term() {
    let (c, reasons) = assess(all_terms(Confidence::Green), clean_checks());
    assert_eq!(c, Confidence::Green);
    assert!(reasons.is_empty());

    let terms = Terms { recall: Confidence::Amber, meter_margin: Confidence::Red, ..all_terms(Confidence::Green) };
    let (c, reasons) = assess(terms, clean_checks());
    assert_eq!(c, Confidence::Red);
    assert_eq!(reasons, vec![Reason::Recall, Reason::MeterMargin]);

    let terms = Terms { octave_margin: Confidence::Amber, ..all_terms(Confidence::Green) };
    assert_eq!(assess(terms, clean_checks()).0, Confidence::Amber);
}

#[test]
fn a_short_file_is_at_best_amber_and_chips_keep_their_order() {
    let short = GridChecks { short: true, ..clean_checks() };
    assert_eq!(assess(all_terms(Confidence::Green), short), (Confidence::Amber, vec![Reason::Short]));
    assert_eq!(assess(all_terms(Confidence::Red), short).0, Confidence::Red);

    let everything = GridChecks {
        verdict: Verdict::Drifts,
        outside_range: true,
        tag_disagrees: true,
        no_kick: true,
        short: true,
    };
    let (c, reasons) = assess(all_terms(Confidence::Amber), everything);
    assert_eq!(c, Confidence::Amber);
    assert_eq!(
        reasons,
        vec![
            Reason::Coverage,
            Reason::Recall,
            Reason::OctaveMargin,
            Reason::DownbeatMargin,
            Reason::MeterMargin,
            Reason::Drifts,
            Reason::OutsideRange,
            Reason::TagDisagrees,
            Reason::NoKick,
            Reason::Short,
        ]
    );
    let warn = GridChecks { verdict: Verdict::StaticWarn, ..clean_checks() };
    assert_eq!(assess(all_terms(Confidence::Green), warn), (Confidence::Green, vec![Reason::Residuals]));
}

#[test]
fn a_moving_tempo_always_drifts() {
    assert_eq!(verdict_of(true, true, true), Verdict::Drifts);
    assert_eq!(verdict_of(false, true, true), Verdict::Static);
    assert_eq!(verdict_of(false, false, true), Verdict::StaticWarn);
    assert_eq!(verdict_of(false, false, false), Verdict::Drifts);
}

fn lattice(in_range: bool) -> Lattice {
    Lattice { in_range, tag_match: false, genre_match: false, keeps_density: false }
}

fn facts(slow: Lattice, model: Lattice, fast: Lattice) -> OctaveFacts {
    OctaveFacts { slow, model, fast, has_density: true }
}

fn picked(candidate: usize, rule: OctaveRule, compared: usize) -> OctaveChoice {
    OctaveChoice { candidate: Some(candidate), rule, compared }
}

#[test]
fn the_octave_in_range_wins_and_the_tag_decides_between_several() {
    let none = choose_octave(facts(lattice(false), lattice(false), lattice(false)));
    assert_eq!(none, OctaveChoice { candidate: None, rule: OctaveRule::Range, compared: 0 });
    let tagged_but_alone = Lattice { tag_match: true, ..lattice(false) };
    assert_eq!(
        choose_octave(facts(tagged_but_alone, lattice(true), lattice(false))),
        picked(1, OctaveRule::Range, 0)
    );
    let tagged = Lattice { tag_match: true, ..lattice(true) };
    assert_eq!(choose_octave(facts(lattice(true), tagged, lattice(true))), picked(1, OctaveRule::Tag, 0));
    let genre = Lattice { genre_match: true, ..lattice(true) };
    assert_eq!(choose_octave(facts(lattice(true), lattice(true), genre)), picked(2, OctaveRule::Genre, 0));
    assert_eq!(choose_octave(facts(genre, tagged, genre)), picked(1, OctaveRule::Tag, 0));
}

#[test]
fn without_tag_or_single_genre_the_kick_density_climbs() {
    let genre = Lattice { genre_match: true, ..lattice(true) };
    let silent = OctaveFacts { has_density: false, ..facts(genre, lattice(true), genre) };
    assert_eq!(choose_octave(silent), picked(1, OctaveRule::ModelOctave, 0));
    let silent_no_model = OctaveFacts { has_density: false, ..facts(lattice(true), lattice(false), lattice(true)) };
    assert_eq!(choose_octave(silent_no_model), picked(0, OctaveRule::ModelOctave, 0));

    let keeps = Lattice { keeps_density: true, ..lattice(true) };
    assert_eq!(choose_octave(facts(lattice(true), keeps, keeps)), picked(2, OctaveRule::Density, 2));
    assert_eq!(choose_octave(facts(lattice(true), keeps, lattice(true))), picked(1, OctaveRule::Density, 2));
    assert_eq!(choose_octave(facts(lattice(true), lattice(true), keeps)), picked(0, OctaveRule::Density, 1));
    assert_eq!(choose_octave(facts(lattice(true), lattice(false), keeps)), picked(2, OctaveRule::Density, 1));
}

#[test]
fn adding_the_same_file_twice_keeps_one_row() {
    let mut session = Session::new();
    let mut add = |dropped: Vec<Dropped>| -> Vec<u32> {
        session
            .add_paths(&collect_audio_files(&dropped))
            .into_iter()
            .filter_map(|added| added.map(|(id, _)| id))
            .collect()
    };
    assert_eq!(add(vec![Dropped::Path("/tmp/set/a.wav".to_string())]), vec![1]);
    assert_eq!(add(vec![Dropped::Folder(vec![file("/tmp/set", "a.wav")])]), Vec::<u32>::new());
    assert_eq!(add(vec![Dropped::Path("/tmp/set/b.wav".to_string())]), vec![2]);
    assert_eq!(session.len(), 2);
}

fn folder(dir: &str, name: &str, entries: Vec<Node>) -> Node {
    Node { name: name.to_string(), path: format!("{dir}/{name}"), kind: Kind::Folder(entries) }
}

#[test]
fn folders_are_walked_in_natural_order_without_hidden_files_links_or_duplicates() {
    let root = "/tmp/walk/crate";
    let listing = vec![
        folder(root, "B", vec![file(&format!("{root}/B"), "inner.wav")]),
        folder(root, ".Trash", vec![file(&format!("{root}/.Trash"), "gone.wav")]),
        folder(
            root,
            "...Baby One More Time",
            vec![file(&format!("{root}/...Baby One More Time"), "01 Title.wav")],
        ),
        file(root, "Track 10.wav"),
        file(root, "Track 2.WAV"),
        file(root, ".hidden.wav"),
        file(root, "._Track 2.WAV"),
        file(root, "notes.txt"),
        Node { name: "link".to_string(), path: format!("{root}/link"), kind: Kind::Other },
    ];
    let dropped = vec![
        Dropped::Folder(listing),
        Dropped::Path(format!("{root}/Track 10.wav")),
        Dropped::Path(format!("{root}/notes.txt")),
    ];
    let files = collect_audio_files(&dropped);
    let names: Vec<String> = files
        .iter()
        .map(|p| p.strip_prefix(&format!("{root}/")).unwrap().to_string())
        .collect();
    assert_eq!(
        names,
        vec![
            "...Baby One More Time/01 Title.wav",
            "B/inner.wav",
            "Track 2.WAV",
            "Track 10.wav"
        ]
    );
}

#[test]
fn a_symlinked_file_dropped_directly_is_followed() {
    let link = "/tmp/link/alias.wav".to_string();
    assert_eq!(collect_audio_files(&vec![Dropped::Path(link.clone())]), vec![link]);
}

#[test]
fn a_single_leading_dot_hides_a_name() {
    assert!(hidden_name(".Trash"));
    assert!(hidden_name("._Track 2.WAV"));
    assert!(!hidden_name("...Baby One More Time"));
    assert!(!hidden_name("Track 2.WAV"));
    assert!(!hidden_name(""));
}

#[test]
fn every_character_lowers_apart_from_the_digits() {
    assert!(all_lower_apart_of("Track 10 - \u{130}stanbul \u{3a3}.wav"));
    for c in (0u32..=0x10ffff).filter_map(char::from_u32) {
        assert!(all_lower_apart_of(&c.to_string()), "{:#x}", c as u32);
    }
}

fn run_steps(events: &[Event], cache_on: bool) -> Vec<Step> {
    let mut steps = vec![first_step()];
    for &e in events {
        let last = *steps.last().unwrap();
        steps.push(next_step(last, e, cache_on));
    }
    steps
}

#[test]
fn a_hit_is_served_at_once_and_a_miss_is_stored_after_a_clear_check() {
    let hit = run_steps(&[Event::NotCancelled, Event::Hit], true);
    assert_eq!(hit, vec![
        Step::CheckCancel(Checkpoint::Entry),
        Step::LookUp,
        Step::Finished(Finish::Served(CacheStatus::Hit)),
    ]);
    let miss = run_steps(&[Event::NotCancelled, Event::Miss, Event::Done, Event::NotCancelled, Event::Done, Event::NotCancelled, Event::Done], true);
    assert_eq!(&miss[2..], &[
        Step::Decode,
        Step::CheckCancel(Checkpoint::AfterDecode),
        Step::Build,
        Step::CheckCancel(Checkpoint::BeforeStore),
        Step::WriteCache,
        Step::Finished(Finish::Served(CacheStatus::Written)),
    ]);
    let bypass = run_steps(&[Event::NotCancelled, Event::Miss, Event::Done, Event::NotCancelled, Event::Done, Event::NotCancelled], false);
    assert_eq!(bypass.last(), Some(&Step::Finished(Finish::Served(CacheStatus::Bypassed))));
}

#[test]
fn a_cancel_before_storing_leaves_no_cache_entry() {
    let steps = run_steps(&[Event::NotCancelled, Event::Miss, Event::Done, Event::NotCancelled, Event::Done, Event::Cancelled, Event::Done], true);
    assert!(!steps.contains(&Step::WriteCache));
    assert_eq!(steps.last(), Some(&Step::Finished(Finish::Cancelled)));
    assert_eq!(run_steps(&[Event::Cancelled], true)[1], Step::Finished(Finish::Cancelled));
}

#[test]
fn a_list_keeps_each_nfc_path_once_and_ids_continue() {
    let mut s = Session::new();
    assert_eq!(s.add_path("/m/x.wav"), Some((1, "/m/x.wav".to_string())));
    let list = vec![
        "/m/Cafe\u{301}.wav".to_string(),
        "/m/x.wav".to_string(),
        "/m/Caf\u{e9}.wav".to_string(),
        "/m/y.wav".to_string(),
    ];
    assert_eq!(
        s.add_paths(&list),
        vec![Some((2, "/m/Caf\u{e9}.wav".to_string())), None, None, Some((3, "/m/y.wav".to_string()))]
    );
    assert_eq!(s.len(), 3);
    s.clear();
    assert_eq!(s.add_paths(&vec!["/m/x.wav".to_string()]), vec![Some((4, "/m/x.wav".to_string()))]);
}

#[test]
fn the_first_directory_with_both_models_is_used() {
    assert_eq!(find_model_dir(&vec![false, true, true]), Some(1));
    assert_eq!(find_model_dir(&vec![false, false]), None);
    assert_eq!(find_model_dir(&vec![]), None);
}
