use soundcheck::text::trim_chars;
use soundcheck::eval::{
    bpm_mark, mark, meter_text, nfc_names, parse_labels, split_csv, tally, truncate, LabelError, NumberColumn, Summary,
};

#[test]
fn labels_parse_with_quotes_and_optional_columns() {
    let text = "# a comment\nfile,bpm,bar1_s,meter,grouping,ffmpeg_i_lufs\n\
                \"Artist, The - Song.flac\",123.87,0.455,4/4,,-9.8\n\
                Aksak.flac,,,9/8,2+2+2+3,\n";
    let labels = parse_labels(text).unwrap();
    let number = |cell: &Option<String>| cell.as_deref().map(|s| s.parse::<f64>().unwrap());
    assert_eq!(labels.len(), 2);
    assert_eq!(labels[0].file, "Artist, The - Song.flac");
    assert_eq!(number(&labels[0].bpm), Some(123.87));
    assert_eq!(number(&labels[0].ffmpeg_i_lufs), Some(-9.8));
    assert_eq!(labels[1].grouping, Some(vec![2, 2, 2, 3]));
    assert_eq!(number(&labels[1].bpm), None);
    assert_eq!(
        meter_text(labels[1].meter.as_deref(), labels[1].grouping.as_deref()).as_deref(),
        Some("9/8 · 2+2+2+3")
    );
    assert!(parse_labels("bpm\n120\n").is_err());
    assert!(parse_labels("file,bpm\nx.flac,fast\n").is_err());
}

#[test]
fn label_errors_name_the_row_and_the_cell() {
    assert_eq!(parse_labels(""), Err(LabelError::Empty));
    assert_eq!(parse_labels("# only\n  \n"), Err(LabelError::Empty));
    assert_eq!(parse_labels("bpm\n120\n"), Err(LabelError::NoFileColumn));
    assert_eq!(
        parse_labels("file,bpm\na.wav,120\nx.flac,fast\n"),
        Err(LabelError::BadNumber {
            row: 1,
            column: NumberColumn::Bpm,
            text: "fast".to_string()
        })
    );
    assert_eq!(
        parse_labels("file,bar1_s\nx.flac,1e\n"),
        Err(LabelError::BadNumber {
            row: 0,
            column: NumberColumn::Bar1,
            text: "1e".to_string()
        })
    );
    assert_eq!(
        parse_labels("file,ffmpeg_i_lufs\nx.flac,.\n"),
        Err(LabelError::BadNumber {
            row: 0,
            column: NumberColumn::Loudness,
            text: ".".to_string()
        })
    );
    // The grouping is checked before the numbers of its row.
    assert_eq!(
        parse_labels("file,bpm,grouping\nx.flac,fast,2+256\n"),
        Err(LabelError::BadGrouping {
            row: 0,
            text: "2+256".to_string()
        })
    );
    assert_eq!(
        parse_labels("file,grouping\nx.flac,2++3\n"),
        Err(LabelError::BadGrouping {
            row: 0,
            text: "2++3".to_string()
        })
    );
}

#[test]
fn numbers_follow_the_float_grammar_of_std() {
    for good in ["120", "-9.8", "+1.", ".5", "1e5", "2.5E-3", "inf", "-Infinity", "NaN", "007"] {
        let text = format!("file,bpm\nx.flac,{good}\n");
        let labels = parse_labels(&text).unwrap_or_else(|e| panic!("{good}: {e:?}"));
        assert_eq!(labels[0].bpm.as_deref(), Some(good));
        assert!(good.parse::<f64>().is_ok(), "{good}");
    }
    for bad in ["fast", "1e", "e5", ".", "1.2.3", "1e+", "--1", "0x10", "1_000", "infinite"] {
        let text = format!("file,bpm\nx.flac,{bad}\n");
        assert!(parse_labels(&text).is_err(), "{bad}");
        assert!(bad.parse::<f64>().is_err(), "{bad}");
    }
}

#[test]
fn header_columns_are_found_in_any_case_and_order() {
    let labels = parse_labels(" Grouping ,METER,\tFile\n 3 + 3 ,6/8, Caf\u{e9}.wav \n").unwrap();
    assert_eq!(labels.len(), 1);
    assert_eq!(labels[0].file, "Caf\u{e9}.wav");
    assert_eq!(labels[0].meter.as_deref(), Some("6/8"));
    assert_eq!(labels[0].grouping, Some(vec![3, 3]));
    assert_eq!(labels[0].bpm, None);
    // A decomposed name is stored in NFC.
    let labels = parse_labels("file\nCafe\u{301}.wav\r\n").unwrap();
    assert_eq!(labels[0].file, "Caf\u{e9}.wav");
}

#[test]
fn csv_cells_honour_quotes() {
    assert_eq!(split_csv("a,b"), vec!["a", "b"]);
    assert_eq!(split_csv("\"a,b\",c"), vec!["a,b", "c"]);
    assert_eq!(split_csv("\"say \"\"hi\"\"\",x"), vec!["say \"hi\"", "x"]);
    assert_eq!(split_csv(""), vec![""]);
    assert_eq!(split_csv("a,"), vec!["a", ""]);
}

#[test]
fn tally_counts_only_scored_rows() {
    let mut count = (0, 0);
    tally(&mut count, Some(true));
    tally(&mut count, Some(false));
    tally(&mut count, None);
    assert_eq!(count, (1, 2));
    let s = Summary::default();
    assert_eq!(s.rows, 0);
    assert_eq!(s.bpm_exact, (0, 0));
}

#[test]
fn meter_text_adds_the_grouping_of_compound_meters() {
    assert_eq!(meter_text(None, Some(&[2, 3])), None);
    assert_eq!(meter_text(Some("4/4"), None).as_deref(), Some("4/4"));
    assert_eq!(meter_text(Some("4/4"), Some(&[1, 1, 1, 1])).as_deref(), Some("4/4"));
    assert_eq!(meter_text(Some("5/8"), Some(&[5])).as_deref(), Some("5/8"));
    assert_eq!(meter_text(Some("5/8"), Some(&[2, 3])).as_deref(), Some("5/8 · 2+3"));
}

#[test]
fn long_names_are_cut_with_an_ellipsis() {
    assert_eq!(truncate("short", 48), "short");
    assert_eq!(truncate("abcdef", 4), "abc…");
    assert_eq!(truncate("abcd", 4), "abcd");
    assert_eq!(truncate("é€ab", 3), "é€…");
}

#[test]
fn score_marks() {
    assert_eq!(mark(Some(true)), "ok");
    assert_eq!(mark(Some(false)), "MISS");
    assert_eq!(mark(None), "-");
    assert_eq!(bpm_mark(Some(true), Some(true)), "ok");
    assert_eq!(bpm_mark(Some(false), Some(true)), "flip");
    assert_eq!(bpm_mark(Some(false), Some(false)), "MISS");
    assert_eq!(bpm_mark(None, None), "-");
}

#[test]
fn directory_names_meet_labels_in_nfc() {
    let names = vec!["Cafe\u{301}.flac".to_string(), "plain.wav".to_string()];
    assert_eq!(nfc_names(&names), vec!["Caf\u{e9}.flac".to_string(), "plain.wav".to_string()]);
    let labels = parse_labels("file\nCafe\u{301}.flac\n").unwrap();
    assert_eq!(labels[0].file, nfc_names(&names)[0]);
}

#[test]
fn white_space_is_what_std_says_it_is() {
    for c in (0u32..=0x10ffff).filter_map(char::from_u32) {
        assert_eq!(trim_chars(&vec![c]).is_empty(), c.is_whitespace(), "{:#x}", c as u32);
    }
}
