use tingmo::session::{
    SessionBegin, SessionHub, SessionMode, SessionPhase, TranscriptionMode, VadPolicy,
};

fn begin_params(binding: &str, model: &str, mode: SessionMode, post_process: bool) -> SessionBegin {
    SessionBegin {
        binding_id: binding.into(),
        model_id: model.into(),
        mode,
        post_process,
        streaming_cap: false,
    }
}

#[test]
fn resolve_mode_prefers_vad_segmented() {
    assert_eq!(
        SessionHub::resolve_mode(TranscriptionMode::VadSegmented, true),
        SessionMode::VadSegmented
    );
    assert_eq!(
        SessionHub::resolve_mode(TranscriptionMode::VadSegmented, false),
        SessionMode::VadSegmented
    );
}

#[test]
fn resolve_mode_native_stream_only_when_selected_and_capable() {
    assert_eq!(
        SessionHub::resolve_mode(TranscriptionMode::BatchAutoSplit, true),
        SessionMode::BatchAutoSplit,
        "batch no longer auto-promotes to native stream"
    );
    assert_eq!(
        SessionHub::resolve_mode(TranscriptionMode::NativeStream, true),
        SessionMode::NativeStream
    );
    assert_eq!(
        SessionHub::resolve_mode(TranscriptionMode::NativeStream, false),
        SessionMode::VadSegmented,
        "unsupported native stream falls back to VAD semi-realtime"
    );
}

#[test]
fn vad_policy_matrix() {
    assert_eq!(
        SessionHub::vad_policy_for(SessionMode::VadSegmented, false),
        VadPolicy::Offline
    );
    assert_eq!(
        SessionHub::vad_policy_for(SessionMode::NativeStream, true),
        VadPolicy::Streaming
    );
    assert_eq!(
        SessionHub::vad_policy_for(SessionMode::BatchAutoSplit, false),
        VadPolicy::Disabled
    );
}

#[test]
fn hub_lifecycle_begin_transcribe_finish() {
    let mut hub = SessionHub::new();
    let s = hub.begin(SessionBegin {
        binding_id: "transcribe".into(),
        model_id: "test-model".into(),
        mode: SessionMode::BatchAutoSplit,
        post_process: false,
        streaming_cap: false,
    });
    assert_eq!(s.phase, SessionPhase::Recording);
    assert!(hub.active().is_some());
    hub.set_phase(SessionPhase::Transcribing);
    assert_eq!(hub.active().unwrap().phase, SessionPhase::Transcribing);
    let done = hub.finish(SessionPhase::Result).unwrap();
    assert_eq!(done.phase, SessionPhase::Result);
    assert!(hub.active().is_none());
}

#[test]
fn cancel_clears_active() {
    let mut hub = SessionHub::new();
    hub.begin(SessionBegin {
        binding_id: "x".into(),
        model_id: "m".into(),
        mode: SessionMode::VadSegmented,
        post_process: true,
        streaming_cap: false,
    });
    let c = hub.cancel_active().unwrap();
    assert_eq!(c.phase, SessionPhase::Cancelled);
    assert!(hub.active().is_none());
}

#[test]
fn vad_policy_remaining_cases() {
    assert_eq!(SessionHub::vad_policy_for(SessionMode::VadSegmented, true), VadPolicy::Offline);
    assert_eq!(SessionHub::vad_policy_for(SessionMode::NativeStream, false), VadPolicy::Disabled);
    assert_eq!(SessionHub::vad_policy_for(SessionMode::BatchAutoSplit, true), VadPolicy::Offline);
}

#[test]
fn mode_routing_flags() {
    assert!(SessionHub::uses_segment_pipeline(SessionMode::VadSegmented));
    assert!(!SessionHub::uses_segment_pipeline(SessionMode::BatchAutoSplit));
    assert!(!SessionHub::uses_segment_pipeline(SessionMode::NativeStream));
    assert!(SessionHub::uses_native_stream(SessionMode::NativeStream));
    assert!(!SessionHub::uses_native_stream(SessionMode::VadSegmented));
}

#[test]
fn labels() {
    assert_eq!(SessionMode::BatchAutoSplit.as_str(), "batch_auto_split");
    assert_eq!(SessionMode::VadSegmented.as_str(), "vad_segmented");
    assert_eq!(SessionMode::NativeStream.as_str(), "native_stream");
    assert_eq!(SessionPhase::PostProcessing.as_str(), "post_processing");
    assert_eq!(SessionPhase::Cancelled.as_str(), "cancelled");
    assert_eq!(SessionPhase::Idle.as_str(), "idle");
}

#[test]
fn begin_snapshot_copies_params() {
    let mut hub = SessionHub::default();
    let s = hub.begin(begin_params("bind", "model-x", SessionMode::NativeStream, true));
    assert_eq!(s.binding_id, "bind");
    assert_eq!(s.model_id, "model-x");
    assert_eq!(s.mode, SessionMode::NativeStream);
    assert!(s.post_process);
    let a = hub.active().unwrap();
    assert_eq!(a.id, s.id);
}

#[test]
fn without_session_phase_changes_are_noops() {
    let mut hub = SessionHub::new();
    assert!(hub.set_phase(SessionPhase::Transcribing).is_none());
    assert!(hub.finish(SessionPhase::Result).is_none());
    assert!(hub.cancel_active().is_none());
    assert!(hub.active().is_none());
}

#[test]
fn abandon_only_matching_session() {
    let mut hub = SessionHub::new();
    let s = hub.begin(begin_params("b", "m", SessionMode::BatchAutoSplit, false));
    hub.abandon_begin(s.id.wrapping_add(1));
    assert!(hub.active().is_some());
    hub.abandon_begin(s.id);
    assert!(hub.active().is_none());
}

#[test]
fn begin_at_uses_given_time_as_id() {
    let mut hub = SessionHub::new();
    let s = hub.begin_at(begin_params("b", "m", SessionMode::VadSegmented, false), 1234);
    assert_eq!(s.id, 1234);
    let t = hub.set_phase(SessionPhase::Transcribing).unwrap();
    assert_eq!(t.id, 1234);
    assert_eq!(t.mode, SessionMode::VadSegmented);
    // A new begin replaces the stale session.
    let s2 = hub.begin_at(begin_params("c", "n", SessionMode::BatchAutoSplit, true), 99);
    assert_eq!(hub.active().unwrap().id, 99);
    assert_eq!(s2.phase, SessionPhase::Recording);
}
