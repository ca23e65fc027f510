use tingmo::segment_pipeline::{SegmentWorker, WorkerAction, WorkerEvent};
use tingmo::text_punctuate::{PunctuatorRegistry, TextPunctuationMode};

#[test]
fn worker_records_segments_and_progress() {
    let mut w = SegmentWorker::new(TextPunctuationMode::Rules, PunctuatorRegistry::new());
    assert!(w.context_prompt().is_none());
    let p = w.on_transcribed(Some(" 今天开会 ".into()), 500, false, 3).unwrap();
    assert_eq!(p.current, 1);
    assert_eq!(p.total, 3);
    assert_eq!(p.cumulative, "今天开会。");
    assert_eq!(p.tentative.as_deref(), Some("今天开会。"));
    assert_eq!(w.context_prompt().as_deref(), Some("今天开会"));

    // A blank transcription only counts the segment.
    assert!(w.on_transcribed(Some("   ".into()), 500, false, 3).is_none());
    assert_eq!(w.context_prompt().as_deref(), Some("今天开会"));

    // A failed transcription reports progress without a segment text.
    let p = w.on_transcribed(None, 0, false, 3).unwrap();
    assert_eq!(p.current, 3);
    assert_eq!(p.total, 3);
    assert_eq!(p.cumulative, "今天开会。");
    assert!(p.tentative.is_none());

    let p = w.on_transcribed(Some("讨论标准".into()), 100, false, 2).unwrap();
    assert_eq!(p.current, 4);
    assert_eq!(p.total, 4);
    assert_eq!(p.cumulative, "今天开会。\n讨论标准，");
    assert_eq!(w.final_text(), "今天开会。\n讨论标准，");
}

#[test]
fn worker_without_punctuation_keeps_raw() {
    let mut w = SegmentWorker::new(TextPunctuationMode::Off, PunctuatorRegistry::new());
    w.on_transcribed(Some("hello".into()), 500, false, 2);
    w.on_transcribed(Some("world".into()), 500, false, 2);
    assert_eq!(w.final_text(), "hello\nworld");
}

#[test]
fn worker_final_text_empty_without_segments() {
    let w = SegmentWorker::new(TextPunctuationMode::LocalPunc, PunctuatorRegistry::new());
    assert_eq!(w.final_text(), "");
}

#[test]
fn worker_local_punc_uses_heuristic() {
    let mut w = SegmentWorker::new(TextPunctuationMode::LocalPunc, PunctuatorRegistry::new());
    let p = w.on_transcribed(Some("你好吗".into()), 100, false, 1).unwrap();
    assert_eq!(p.tentative.as_deref(), Some("你好吗？"));
}

#[test]
fn worker_finalize_drains_then_replies_and_unloads() {
    let mut w = SegmentWorker::new(TextPunctuationMode::Rules, PunctuatorRegistry::new());
    let a = w.on_event(WorkerEvent::Transcribed { text: Some("甲".into()), silence_ms: 500, force_cut: false, accepted: 2 });
    assert!(matches!(a, WorkerAction::Report(_)));
    assert!(matches!(w.on_event(WorkerEvent::Finalize), WorkerAction::Drain));
    assert!(matches!(w.on_event(WorkerEvent::Finalize), WorkerAction::Idle));
    let b = w.on_event(WorkerEvent::Transcribed { text: Some("乙".into()), silence_ms: 500, force_cut: false, accepted: 2 });
    assert!(matches!(b, WorkerAction::Report(_)));
    match w.on_event(WorkerEvent::QueueEmpty) {
        WorkerAction::UnloadAndStop { reply } => assert_eq!(reply.as_deref(), Some("甲。\n乙。")),
        _ => panic!("expected the session to finish"),
    }
    assert!(matches!(w.on_event(WorkerEvent::Cancel), WorkerAction::Idle));
}

#[test]
fn worker_cancel_replies_empty_only_while_draining() {
    let mut w = SegmentWorker::new(TextPunctuationMode::Off, PunctuatorRegistry::new());
    assert!(matches!(w.on_event(WorkerEvent::QueueEmpty), WorkerAction::Idle));
    match w.on_event(WorkerEvent::Cancel) {
        WorkerAction::UnloadAndStop { reply } => assert!(reply.is_none()),
        _ => panic!("expected a stop"),
    }
    let mut d = SegmentWorker::new(TextPunctuationMode::Off, PunctuatorRegistry::new());
    d.on_event(WorkerEvent::Finalize);
    match d.on_event(WorkerEvent::Cancel) {
        WorkerAction::UnloadAndStop { reply } => assert_eq!(reply.as_deref(), Some("")),
        _ => panic!("expected a stop"),
    }
}
