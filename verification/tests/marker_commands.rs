use tingmo::clock::{chrono_date_string, date_string_from_secs};
use tingmo::marker_commands::{
    add_marker_from_ui, import_markers_markdown, one_word_marker, record_one_word_correction,
    set_marker_confidence,
};
use tingmo::markers::{
    format_markers_markdown_export, AsrMarker, AsrMarkerStore, MarkerConfidence, MarkerMatchMode,
};

fn verified(errors: &[&str], correct: &str) -> AsrMarker {
    AsrMarker {
        asr_errors: errors.iter().map(|s| s.to_string()).collect(),
        correct: correct.into(),
        category: "term".into(),
        note: None,
        source: None,
        confidence: MarkerConfidence::Verified,
        match_mode: MarkerMatchMode::Exact,
    }
}

#[test]
fn add_from_ui_logs_only_new_markers() {
    let mut store = AsrMarkerStore::default();
    assert!(add_marker_from_ui(&mut store, verified(&["hndy"], "Handy")));
    assert_eq!(store.markers.len(), 1);
    assert_eq!(store.changelog.len(), 1);
    assert_eq!(store.changelog[0].summary, "Added marker from UI");
    assert_eq!(store.changelog[0].source.as_deref(), Some("ui"));
    assert_eq!(store.changelog[0].count, 1);
    assert!(!add_marker_from_ui(&mut store, verified(&["hndy", "handi"], "Handy")));
    assert_eq!(store.markers.len(), 1);
    assert_eq!(store.changelog.len(), 1);
    assert_eq!(store.markers[0].asr_errors.len(), 2);
}

#[test]
fn set_confidence_in_and_out_of_range() {
    let mut store = AsrMarkerStore::default();
    store.markers.push(verified(&["a"], "A"));
    assert_eq!(set_marker_confidence(&mut store, 0, MarkerConfidence::Pending), Ok(()));
    assert_eq!(store.markers[0].confidence, MarkerConfidence::Pending);
    assert_eq!(
        set_marker_confidence(&mut store, 5, MarkerConfidence::Verified),
        Err("Marker index 5 out of range".to_string())
    );
    assert_eq!(store.markers[0].confidence, MarkerConfidence::Pending);
}

#[test]
fn import_markdown_table_as_pending() {
    let mut store = AsrMarkerStore::default();
    let md = "| ASR误识 | 正确形式 | 类别 |\n| --- | --- | --- |\n| 职培精 | 职工进修学院 | org |\n| 标体细 / 标题系 | 标准体系 |  |\n";
    assert_eq!(import_markers_markdown(&mut store, md, None), 2);
    assert_eq!(store.markers.len(), 2);
    assert!(store.markers.iter().all(|m| m.confidence == MarkerConfidence::Pending));
    assert_eq!(store.markers[1].asr_errors, vec!["标体细".to_string(), "标题系".to_string()]);
    assert_eq!(store.markers[1].category, "other");
    let entry = store.changelog.last().unwrap();
    assert_eq!(entry.summary, "Added 2 marker(s)");
    assert_eq!(entry.source.as_deref(), Some("markdown_import"));
    // A second import of the same table adds nothing.
    assert_eq!(import_markers_markdown(&mut store, md, Some("vault")), 0);
    assert_eq!(store.changelog.len(), 1);
}

#[test]
fn import_with_source_labels_markers() {
    let mut store = AsrMarkerStore::default();
    assert_eq!(import_markers_markdown(&mut store, "| x | X | code |", Some("vault")), 1);
    assert_eq!(store.markers[0].source.as_deref(), Some("vault"));
    assert_eq!(store.changelog[0].source.as_deref(), Some("vault"));
}

#[test]
fn export_then_import_restores_markers() {
    let mut source_store = AsrMarkerStore::default();
    source_store.markers.push(verified(&["甲", "乙"], "丙"));
    source_store.markers.push(verified(&["foo"], "Foo"));
    source_store.changelog.push(tingmo::markers::MarkerChangelogEntry {
        date: "2024-05-01".into(),
        summary: "Added 2 marker(s)".into(),
        source: Some("ui".into()),
        count: 2,
    });
    let md = format_markers_markdown_export(&source_store);
    let mut restored = AsrMarkerStore::default();
    assert_eq!(import_markers_markdown(&mut restored, &md, None), 2);
    assert_eq!(restored.markers.len(), 2);
    for (a, b) in source_store.markers.iter().zip(restored.markers.iter()) {
        assert_eq!(a.asr_errors, b.asr_errors);
        assert_eq!(a.correct, b.correct);
        assert_eq!(a.category, b.category);
    }
}

#[test]
fn one_word_correction_validation() {
    assert_eq!(
        one_word_marker("  ", "x", None).unwrap_err(),
        "wrong and correct must be non-empty"
    );
    assert_eq!(
        one_word_marker("x", "", None).unwrap_err(),
        "wrong and correct must be non-empty"
    );
    let m = one_word_marker(" hndy ", " Handy ", None).unwrap();
    assert_eq!(m.asr_errors, vec!["hndy".to_string()]);
    assert_eq!(m.correct, "Handy");
    assert_eq!(m.category, "other");
    assert_eq!(m.note.as_deref(), Some("history/UI one-word correction"));
    assert_eq!(m.source.as_deref(), Some("history_correct"));
    assert_eq!(m.confidence, MarkerConfidence::Verified);
    let m2 = one_word_marker("a", "b", Some("org".into())).unwrap();
    assert_eq!(m2.category, "org");
}

#[test]
fn one_word_correction_always_logged() {
    let mut store = AsrMarkerStore::default();
    let m = one_word_marker("hndy", "Handy", None).unwrap();
    record_one_word_correction(&mut store, m.clone());
    record_one_word_correction(&mut store, m);
    assert_eq!(store.markers.len(), 1);
    assert_eq!(store.changelog.len(), 2);
    assert_eq!(store.changelog[1].summary, "One-word correction from UI");
    assert_eq!(store.changelog[1].source.as_deref(), Some("history_correct"));
}

#[test]
fn date_labels() {
    assert_eq!(date_string_from_secs(0), "1970-01-01");
    assert_eq!(date_string_from_secs(86399), "1970-01-01");
    assert_eq!(date_string_from_secs(951782400), "2000-02-29");
    assert_eq!(date_string_from_secs(951868800), "2000-03-01");
    assert_eq!(date_string_from_secs(1704067199), "2023-12-31");
    let today = chrono_date_string();
    assert_eq!(today.len(), 10);
    assert_eq!(&today[4..5], "-");
}
