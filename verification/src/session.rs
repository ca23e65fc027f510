//! Lightweight recording-session orchestrator.
//!
//! One active session owns the product mode, phase, and identity for a single
//! capture → ASR → result cycle, so mode decisions and logs stay consistent.

use vstd::prelude::*;
use std::time::Instant;
use crate::clock::{elapsed_ms, instant_now, unix_millis_now};

verus! {

/// Product-facing capture / ASR strategy for one session.
#[derive(Clone, Copy, Debug, PartialEq, Eq, Structural)]
pub enum SessionMode {
    /// Stop recording first, then auto-split long audio and ASR.
    BatchAutoSplit,
    /// VAD segment ends enqueue live semi-realtime ASR.
    VadSegmented,
    /// Model-native streaming (when the selected model advertises it).
    NativeStream,
}

/// Transcription mode chosen in the settings.
#[derive(Clone, Copy, Debug, PartialEq, Eq, Structural)]
pub enum TranscriptionMode {
    BatchAutoSplit,
    VadSegmented,
    NativeStream,
}

/// How voice-activity detection runs during capture.
#[derive(Clone, Copy, Debug, PartialEq, Eq, Structural)]
pub enum VadPolicy {
    /// No VAD.
    Disabled,
    /// VAD over completed audio / segments.
    Offline,
    /// VAD on the live stream.
    Streaming,
}

pub open spec fn mode_label(m: SessionMode) -> Seq<char> {
    match m {
        SessionMode::BatchAutoSplit => "batch_auto_split"@,
        SessionMode::VadSegmented => "vad_segmented"@,
        SessionMode::NativeStream => "native_stream"@,
    }
}

impl SessionMode {
    pub fn as_str(self) -> (r: &'static str)
        ensures
            r@ == mode_label(self),
    {
        match self {
            SessionMode::BatchAutoSplit => "batch_auto_split",
            SessionMode::VadSegmented => "vad_segmented",
            SessionMode::NativeStream => "native_stream",
        }
    }
}

/// Lifecycle phase of a session.
#[derive(Clone, Copy, Debug, PartialEq, Eq, Structural)]
pub enum SessionPhase {
    Idle,
    Recording,
    Transcribing,
    PostProcessing,
    Result,
    Cancelled,
    Error,
}

pub open spec fn phase_label(p: SessionPhase) -> Seq<char> {
    match p {
        SessionPhase::Idle => "idle"@,
        SessionPhase::Recording => "recording"@,
        SessionPhase::Transcribing => "transcribing"@,
        SessionPhase::PostProcessing => "post_processing"@,
        SessionPhase::Result => "result"@,
        SessionPhase::Cancelled => "cancelled"@,
        SessionPhase::Error => "error"@,
    }
}

impl SessionPhase {
    pub fn as_str(self) -> (r: &'static str)
        ensures
            r@ == phase_label(self),
    {
        match self {
            SessionPhase::Idle => "idle",
            SessionPhase::Recording => "recording",
            SessionPhase::Transcribing => "transcribing",
            SessionPhase::PostProcessing => "post_processing",
            SessionPhase::Result => "result",
            SessionPhase::Cancelled => "cancelled",
            SessionPhase::Error => "error",
        }
    }
}

/// Snapshot of the active (or last finished) session for logs / debug UI.
#[derive(Clone, Debug)]
pub struct SessionSnapshot {
    pub id: u64,
    pub mode: SessionMode,
    pub phase: SessionPhase,
    pub binding_id: String,
    pub model_id: String,
    pub post_process: bool,
    pub streaming_cap: bool,
    /// Elapsed ms since session begin (best-effort, from the monotonic clock).
    pub elapsed_ms: u64,
}

/// Mutable active session.
struct ActiveSession {
    id: u64,
    mode: SessionMode,
    phase: SessionPhase,
    binding_id: String,
    model_id: String,
    post_process: bool,
    streaming_cap: bool,
    started_at: Instant,
}

/// What is known of a session: everything a snapshot shows but the elapsed
/// time.
pub struct SessionView {
    pub id: u64,
    pub mode: SessionMode,
    pub phase: SessionPhase,
    pub binding_id: Seq<char>,
    pub model_id: Seq<char>,
    pub post_process: bool,
    pub streaming_cap: bool,
}

/// The view a snapshot gives of its session.
pub open spec fn snapshot_view(s: SessionSnapshot) -> SessionView {
    SessionView {
        id: s.id,
        mode: s.mode,
        phase: s.phase,
        binding_id: s.binding_id@,
        model_id: s.model_id@,
        post_process: s.post_process,
        streaming_cap: s.streaming_cap,
    }
}

/// The session opened by `params` with identity `id`, in the recording
/// phase.
pub open spec fn begun(params: SessionBegin, id: u64) -> SessionView {
    SessionView {
        id,
        mode: params.mode,
        phase: SessionPhase::Recording,
        binding_id: params.binding_id@,
        model_id: params.model_id@,
        post_process: params.post_process,
        streaming_cap: params.streaming_cap,
    }
}

/// `v` moved to `phase`.
pub open spec fn in_phase(v: SessionView, phase: SessionPhase) -> SessionView {
    SessionView { phase, ..v }
}

spec fn active_view(s: ActiveSession) -> SessionView {
    SessionView {
        id: s.id,
        mode: s.mode,
        phase: s.phase,
        binding_id: s.binding_id@,
        model_id: s.model_id@,
        post_process: s.post_process,
        streaming_cap: s.streaming_cap,
    }
}

impl ActiveSession {
    fn snapshot(&self) -> (r: SessionSnapshot)
        ensures
            snapshot_view(r) == active_view(*self),
    {
        SessionSnapshot {
            id: self.id,
            mode: self.mode,
            phase: self.phase,
            binding_id: self.binding_id.clone(),
            model_id: self.model_id.clone(),
            post_process: self.post_process,
            streaming_cap: self.streaming_cap,
            elapsed_ms: elapsed_ms(&self.started_at),
        }
    }
}

/// Parameters required to open a session at recording start.
#[derive(Clone, Debug)]
pub struct SessionBegin {
    pub binding_id: String,
    pub model_id: String,
    pub mode: SessionMode,
    pub post_process: bool,
    pub streaming_cap: bool,
}

/// Hub of the single active session (matches the single-pipeline UX).
pub struct SessionHub {
    active: Option<ActiveSession>,
}

impl View for SessionHub {
    /// The active session, if any.
    type V = Option<SessionView>;

    closed spec fn view(&self) -> Option<SessionView> {
        match self.active {
            Some(s) => Some(active_view(s)),
            None => None,
        }
    }
}

impl SessionHub {
    /// A hub with no active session.
    pub fn new() -> (r: Self)
        ensures
            r@ is None,
    {
        SessionHub { active: None }
    }

    /// Resolve the product mode from the setting and the model's streaming
    /// capability: batch never auto-promotes to native streaming, and an
    /// unsupported native stream falls back to VAD semi-realtime.
    pub fn resolve_mode(transcription_mode: TranscriptionMode, model_supports_streaming: bool) -> (r: SessionMode)
        ensures
            r == (match transcription_mode {
                TranscriptionMode::VadSegmented => SessionMode::VadSegmented,
                TranscriptionMode::NativeStream => if model_supports_streaming {
                    SessionMode::NativeStream
                } else {
                    SessionMode::VadSegmented
                },
                TranscriptionMode::BatchAutoSplit => SessionMode::BatchAutoSplit,
            }),
    {
        match transcription_mode {
            TranscriptionMode::VadSegmented => SessionMode::VadSegmented,
            TranscriptionMode::NativeStream => {
                if model_supports_streaming {
                    SessionMode::NativeStream
                } else {
                    // Native realtime requested but unsupported: VAD semi-realtime.
                    SessionMode::VadSegmented
                }
            },
            TranscriptionMode::BatchAutoSplit => SessionMode::BatchAutoSplit,
        }
    }

    /// VAD policy for capture given the session mode and the user VAD toggle.
    pub fn vad_policy_for(mode: SessionMode, vad_enabled: bool) -> (r: VadPolicy)
        ensures
            r == (match mode {
                SessionMode::VadSegmented => VadPolicy::Offline,
                SessionMode::NativeStream => if vad_enabled {
                    VadPolicy::Streaming
                } else {
                    VadPolicy::Disabled
                },
                SessionMode::BatchAutoSplit => if vad_enabled {
                    VadPolicy::Offline
                } else {
                    VadPolicy::Disabled
                },
            }),
    {
        match mode {
            SessionMode::VadSegmented => VadPolicy::Offline,
            SessionMode::NativeStream => if vad_enabled {
                VadPolicy::Streaming
            } else {
                VadPolicy::Disabled
            },
            SessionMode::BatchAutoSplit => if vad_enabled {
                VadPolicy::Offline
            } else {
                VadPolicy::Disabled
            },
        }
    }

    /// Whether this mode drives the app-level segment pipeline.
    pub fn uses_segment_pipeline(mode: SessionMode) -> (r: bool)
        ensures
            r == (mode == SessionMode::VadSegmented),
    {
        match mode {
            SessionMode::VadSegmented => true,
            _ => false,
        }
    }

    /// Whether this mode should start model-native streaming.
    pub fn uses_native_stream(mode: SessionMode) -> (r: bool)
        ensures
            r == (mode == SessionMode::NativeStream),
    {
        match mode {
            SessionMode::NativeStream => true,
            _ => false,
        }
    }

    /// Begin a new session with identity `now_ms` in the recording phase,
    /// replacing any stale one.
    pub fn begin_at(&mut self, params: SessionBegin, now_ms: u64) -> (r: SessionSnapshot)
        ensures
            r.id == now_ms,
            snapshot_view(r) == begun(params, now_ms),
            final(self)@ == Some(begun(params, now_ms)),
    {
        let session = ActiveSession {
            id: now_ms,
            mode: params.mode,
            phase: SessionPhase::Recording,
            binding_id: params.binding_id,
            model_id: params.model_id,
            post_process: params.post_process,
            streaming_cap: params.streaming_cap,
            started_at: instant_now(),
        };
        let snap = session.snapshot();
        self.active = Some(session);
        snap
    }

    /// Begin a new session in the recording phase, replacing any stale one.
    /// Its id is the wall-clock time in milliseconds since the Unix epoch
    /// (whatever the clock reads).
    pub fn begin(&mut self, params: SessionBegin) -> (r: SessionSnapshot)
        ensures
            snapshot_view(r) == begun(params, r.id),
            final(self)@ == Some(begun(params, r.id)),
    {
        let now_ms = unix_millis_now();
        self.begin_at(params, now_ms)
    }

    /// Snapshot of the active session, if any.
    pub fn active(&self) -> (r: Option<SessionSnapshot>)
        ensures
            match self@ {
                Some(v) => r matches Some(s) && snapshot_view(s) == v,
                None => r is None,
            },
    {
        match &self.active {
            Some(s) => Some(s.snapshot()),
            None => None,
        }
    }

    /// Move the active session to `phase` (no-op without one).
    pub fn set_phase(&mut self, phase: SessionPhase) -> (r: Option<SessionSnapshot>)
        ensures
            match old(self)@ {
                Some(v) => {
                    &&& final(self)@ == Some(in_phase(v, phase))
                    &&& r matches Some(s) && snapshot_view(s) == in_phase(v, phase)
                },
                None => final(self)@ is None && r is None,
            },
    {
        match self.active.take() {
            Some(mut session) => {
                session.phase = phase;
                let snap = session.snapshot();
                self.active = Some(session);
                Some(snap)
            },
            None => None,
        }
    }

    /// Mark the active session cancelled and clear it.
    pub fn cancel_active(&mut self) -> (r: Option<SessionSnapshot>)
        ensures
            final(self)@ is None,
            match old(self)@ {
                Some(v) => r matches Some(s) && snapshot_view(s) == in_phase(v, SessionPhase::Cancelled),
                None => r is None,
            },
    {
        match self.active.take() {
            Some(mut session) => {
                session.phase = SessionPhase::Cancelled;
                Some(session.snapshot())
            },
            None => None,
        }
    }

    /// Finish the active session in `phase` (result, empty or error) and
    /// clear it.
    pub fn finish(&mut self, phase: SessionPhase) -> (r: Option<SessionSnapshot>)
        ensures
            final(self)@ is None,
            match old(self)@ {
                Some(v) => r matches Some(s) && snapshot_view(s) == in_phase(v, phase),
                None => r is None,
            },
    {
        match self.active.take() {
            Some(mut session) => {
                session.phase = phase;
                Some(session.snapshot())
            },
            None => None,
        }
    }

    /// Drop a failed recording start without leaving a sticky session: the
    /// active session is cleared only if it is the one with this id.
    pub fn abandon_begin(&mut self, id: u64)
        ensures
            match old(self)@ {
                Some(v) => if v.id == id {
                    final(self)@ is None
                } else {
                    final(self)@ == old(self)@
                },
                None => final(self)@ is None,
            },
    {
        let matches_id = match &self.active {
            Some(s) => s.id == id,
            None => false,
        };
        if matches_id {
            self.active = None;
        }
    }
}

impl Default for SessionHub {
    fn default() -> (r: Self)
        ensures
            r@ is None,
    {
        SessionHub::new()
    }
}

} // verus!
