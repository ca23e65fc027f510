//! Decisions of the live VAD-segmented semi-realtime transcription worker.
//!
//! While recording, speech segments are queued and transcribed one by one.
//! L1 pause punctuation (and L2 when enabled) is applied per completed
//! segment; the compact overlay shows the current segment and the expanded
//! view the cumulative text. The worker thread, the channel and the ASR
//! engine live with the caller, which feeds each transcription outcome to
//! [`SegmentWorker::on_transcribed`] and emits the progress it returns.

use vstd::prelude::*;
use crate::audio_split::{join_segment_texts, join_texts};
use crate::text::{chars_of, string_of, trim, trim_vec, views};
use crate::text_punctuate::{
    display_join, join_display_segments, punctuate_segment, punctuated_segment,
    PunctuatorRegistry, SegmentText, TextPunctuationMode,
};

verus! {

/// Progress to report after a segment: `current` of `total` segments done,
/// the cumulative display text, and (after a successful, non-empty
/// transcription) the display text of the segment itself.
pub struct SegmentProgress {
    pub current: u32,
    pub total: u32,
    pub cumulative: String,
    pub tentative: Option<String>,
}

/// State of the serial segment worker for one recording session.
pub struct SegmentWorker {
    display_parts: Vec<String>,
    raw_parts: Vec<String>,
    done: u32,
    prev_context: Option<String>,
    punct_mode: TextPunctuationMode,
    registry: PunctuatorRegistry,
    phase: WorkerPhase,
}

/// Where the worker stands in its session.
#[derive(Clone, Copy, Debug, PartialEq, Eq, Structural)]
pub enum WorkerPhase {
    /// Taking segments as they come.
    Running,
    /// Asked to finalize: taking what is still queued, then finishing.
    Draining,
    /// Finished or cancelled; nothing more is done.
    Stopped,
}

/// What happened to the worker.
pub enum WorkerEvent {
    /// A queued segment was transcribed (`text` is `None` when the engine
    /// failed); `accepted` segments have been queued so far.
    Transcribed { text: Option<String>, silence_ms: u64, force_cut: bool, accepted: u32 },
    /// A request to finish the session and reply with its text.
    Finalize,
    /// A request to drop the session.
    Cancel,
    /// While draining: nothing more is queued.
    QueueEmpty,
}

/// What the caller does next.
pub enum WorkerAction {
    /// Nothing to emit.
    Idle,
    /// Emit this progress.
    Report(SegmentProgress),
    /// Take every segment still queued without waiting, then report
    /// [`WorkerEvent::QueueEmpty`].
    Drain,
    /// Send `reply` (when there is one) to whoever asked to finalize, unload
    /// the speech model if it is not meant to stay loaded, and stop.
    UnloadAndStop { reply: Option<String> },
}

/// The progress an action reports, if any.
pub open spec fn reported(a: WorkerAction) -> Option<SegmentProgress> {
    match a {
        WorkerAction::Report(p) => Some(p),
        _ => None,
    }
}

/// `p` reports `done` of `max(accepted, done)` segments, the joined
/// displays, and `segment` as the current segment's text.
pub open spec fn reports(
    p: SegmentProgress,
    done: u32,
    accepted: u32,
    displays: Seq<Seq<char>>,
    segment: Option<Seq<char>>,
) -> bool {
    &&& p.current == done
    &&& p.total == (if accepted > done {
        accepted
    } else {
        done
    })
    &&& p.cumulative@ == display_join(displays)
    &&& match p.tentative {
        Some(d) => segment == Some(d@),
        None => segment is None,
    }
}

pub open spec fn sat_inc(n: u32) -> u32 {
    if n == u32::MAX {
        n
    } else {
        (n + 1) as u32
    }
}

impl SegmentWorker {
    /// Display texts of the segments so far.
    pub closed spec fn displays(&self) -> Seq<Seq<char>> {
        views(self.display_parts@)
    }

    /// Raw (trimmed) texts of the segments so far.
    pub closed spec fn raws(&self) -> Seq<Seq<char>> {
        views(self.raw_parts@)
    }

    /// Segments handled so far (saturating).
    pub closed spec fn done(&self) -> u32 {
        self.done
    }

    /// Text of the previous segment, passed to the engine as context.
    pub closed spec fn context(&self) -> Option<Seq<char>> {
        match self.prev_context {
            Some(s) => Some(s@),
            None => None,
        }
    }

    pub closed spec fn mode(&self) -> TextPunctuationMode {
        self.punct_mode
    }

    pub closed spec fn registry(&self) -> PunctuatorRegistry {
        self.registry
    }

    pub closed spec fn phase(&self) -> WorkerPhase {
        self.phase
    }

    /// Both workers hold the same segments, count, context, mode and
    /// punctuator.
    pub open spec fn same_record(&self, other: SegmentWorker) -> bool {
        &&& self.displays() == other.displays()
        &&& self.raws() == other.raws()
        &&& self.done() == other.done()
        &&& self.context() == other.context()
        &&& self.mode() == other.mode()
        &&& self.registry() == other.registry()
    }

    /// `after` is `before` once one segment's outcome `text` was recorded,
    /// with `r` the progress to report.
    pub open spec fn transcribed(
        before: SegmentWorker,
        after: SegmentWorker,
        text: Option<String>,
        silence_ms: u64,
        force_cut: bool,
        accepted: u32,
        r: Option<SegmentProgress>,
    ) -> bool {
        &&& after.done() == sat_inc(before.done())
        &&& after.mode() == before.mode()
        &&& after.phase() == before.phase()
        &&& match text {
            Some(t) => if trim(t@).len() > 0 {
                &&& after.raws() == before.raws().push(trim(t@))
                &&& after.context() == Some(trim(t@))
                &&& after.displays().len() == before.displays().len() + 1
                &&& after.displays().drop_last() == before.displays()
                &&& exists|seg: SegmentText|
                    #[trigger] punctuated_segment(t@, silence_ms, force_cut, before.mode(), before.registry(), after.registry(), seg)
                    && seg.display@ == after.displays().last()
                &&& r matches Some(p) && reports(p, after.done(), accepted, after.displays(), Some(after.displays().last()))
            } else {
                &&& after.raws() == before.raws()
                &&& after.displays() == before.displays()
                &&& after.context() == before.context()
                &&& after.registry() == before.registry()
                &&& r is None
            },
            None => {
                &&& after.raws() == before.raws()
                &&& after.displays() == before.displays()
                &&& after.context() == before.context()
                &&& after.registry() == before.registry()
                &&& r matches Some(p) && reports(p, after.done(), accepted, after.displays(), None)
            },
        }
    }

    /// A worker with nothing transcribed yet.
    pub fn new(punct_mode: TextPunctuationMode, registry: PunctuatorRegistry) -> (r: Self)
        ensures
            r.displays().len() == 0,
            r.raws().len() == 0,
            r.done() == 0,
            r.context() is None,
            r.mode() == punct_mode,
            r.registry() == registry,
            r.phase() == WorkerPhase::Running,
    {
        SegmentWorker {
            display_parts: Vec::new(),
            raw_parts: Vec::new(),
            done: 0,
            prev_context: None,
            punct_mode,
            registry,
            phase: WorkerPhase::Running,
        }
    }

    /// Context prompt for the next segment's transcription.
    pub fn context_prompt(&self) -> (r: Option<String>)
        ensures
            match r {
                Some(s) => self.context() == Some(s@),
                None => self.context() is None,
            },
    {
        match &self.prev_context {
            Some(s) => Some(s.clone()),
            None => None,
        }
    }

    /// Record the outcome of one segment's transcription (`None` when the
    /// engine failed). `accepted` is the number of segments queued so far.
    ///
    /// A non-blank text becomes the next context, its trimmed raw text and
    /// punctuated display are appended, and progress with the segment's
    /// display is returned. A blank text only counts the segment. A failure
    /// counts the segment and returns progress without a segment text.
    pub fn on_transcribed(&mut self, text: Option<String>, silence_ms: u64, force_cut: bool, accepted: u32) -> (r: Option<SegmentProgress>)
        ensures
            Self::transcribed(*old(self), *final(self), text, silence_ms, force_cut, accepted, r),
    {
        self.done = if self.done == u32::MAX { self.done } else { self.done + 1 };
        match text {
            Some(t) => {
                let tv = chars_of(t.as_str());
                let rv = trim_vec(&tv);
                if rv.len() == 0 {
                    return None;
                }
                let raw = string_of(&rv);
                self.prev_context = Some(string_of(&rv));
                let ghost raws0 = views(self.raw_parts@);
                self.raw_parts.push(raw);
                assert(views(self.raw_parts@) =~= raws0.push(trim(t@)));
                // L1 (+ L2 when the mode asks for it) on the completed segment.
                let ghost reg0 = self.registry;
                let seg = punctuate_segment(t.as_str(), silence_ms, force_cut, self.punct_mode, &mut self.registry);
                let ghost seg_g = seg;
                assert(punctuated_segment(t@, silence_ms, force_cut, self.punct_mode, reg0, self.registry, seg_g));
                let tentative = seg.display.clone();
                let ghost disp0 = views(self.display_parts@);
                self.display_parts.push(seg.display);
                assert(views(self.display_parts@) =~= disp0.push(tentative@));
                assert(views(self.display_parts@).drop_last() =~= disp0);
                assert(seg_g.display@ == views(self.display_parts@).last());
                let total = if accepted > self.done { accepted } else { self.done };
                let cumulative = join_display_segments(&self.display_parts);
                let r = Some(SegmentProgress { current: self.done, total, cumulative, tentative: Some(tentative) });
                assert(reg0 == old(self).registry());
                assert(self.punct_mode == old(self).mode());
                assert(punctuated_segment(t@, silence_ms, force_cut, old(self).mode(), old(self).registry(), self.registry(), seg_g));
                r
            },
            None => {
                let total = if accepted > self.done { accepted } else { self.done };
                let cumulative = join_display_segments(&self.display_parts);
                Some(SegmentProgress { current: self.done, total, cumulative, tentative: None })
            },
        }
    }

    /// Text of the whole session: the joined display segments, or the raw
    /// segments joined with boundary de-duplication when nothing was
    /// displayed.
    pub open spec fn session_text(&self) -> Seq<char> {
        if self.displays().len() == 0 {
            join_texts(self.raws())
        } else {
            display_join(self.displays())
        }
    }

    /// Text of the whole session (see [`SegmentWorker::session_text`]).
    pub fn final_text(&self) -> (r: String)
        ensures
            r@ == self.session_text(),
    {
        if self.display_parts.len() == 0 {
            join_segment_texts(&self.raw_parts)
        } else {
            join_display_segments(&self.display_parts)
        }
    }

    /// Decide what follows `ev`. Segments are recorded as by
    /// [`SegmentWorker::on_transcribed`] until the worker stops. A finalize
    /// request starts draining the queue (a second one is ignored); once the
    /// queue is empty the session text is the reply. A cancel stops at once,
    /// replying with empty text to a pending finalize. Finishing either way
    /// unloads the model.
    pub fn on_event(&mut self, ev: WorkerEvent) -> (r: WorkerAction)
        ensures
            old(self).phase() == WorkerPhase::Stopped ==> r is Idle && *final(self) == *old(self),
            old(self).phase() != WorkerPhase::Stopped ==> match ev {
                WorkerEvent::Transcribed { text, silence_ms, force_cut, accepted } => {
                    &&& r is Report || r is Idle
                    &&& Self::transcribed(*old(self), *final(self), text, silence_ms, force_cut, accepted, reported(r))
                },
                WorkerEvent::Finalize => if old(self).phase() == WorkerPhase::Running {
                    &&& r is Drain
                    &&& final(self).phase() == WorkerPhase::Draining
                    &&& final(self).same_record(*old(self))
                } else {
                    r is Idle && *final(self) == *old(self)
                },
                WorkerEvent::Cancel => {
                    &&& final(self).phase() == WorkerPhase::Stopped
                    &&& final(self).same_record(*old(self))
                    &&& r matches WorkerAction::UnloadAndStop { reply } && if old(self).phase() == WorkerPhase::Draining {
                        reply matches Some(t) && t@ == Seq::<char>::empty()
                    } else {
                        reply is None
                    }
                },
                WorkerEvent::QueueEmpty => if old(self).phase() == WorkerPhase::Draining {
                    &&& final(self).phase() == WorkerPhase::Stopped
                    &&& final(self).same_record(*old(self))
                    &&& r matches WorkerAction::UnloadAndStop { reply } && reply matches Some(t) && t@ == old(self).session_text()
                } else {
                    r is Idle && *final(self) == *old(self)
                },
            },
    {
        match self.phase {
            WorkerPhase::Stopped => WorkerAction::Idle,
            WorkerPhase::Running | WorkerPhase::Draining => match ev {
                WorkerEvent::Transcribed { text, silence_ms, force_cut, accepted } => {
                    match self.on_transcribed(text, silence_ms, force_cut, accepted) {
                        Some(p) => WorkerAction::Report(p),
                        None => WorkerAction::Idle,
                    }
                },
                WorkerEvent::Finalize => {
                    if self.phase == WorkerPhase::Running {
                        self.phase = WorkerPhase::Draining;
                        WorkerAction::Drain
                    } else {
                        WorkerAction::Idle
                    }
                },
                WorkerEvent::Cancel => {
                    let reply = if self.phase == WorkerPhase::Draining {
                        Some(String::new())
                    } else {
                        None
                    };
                    self.phase = WorkerPhase::Stopped;
                    WorkerAction::UnloadAndStop { reply }
                },
                WorkerEvent::QueueEmpty => {
                    if self.phase == WorkerPhase::Draining {
                        let text = self.final_text();
                        self.phase = WorkerPhase::Stopped;
                        WorkerAction::UnloadAndStop { reply: Some(text) }
                    } else {
                        WorkerAction::Idle
                    }
                },
            },
        }
    }
}

/// Once a segment has been displayed, the cumulative text of the last
/// progress report is the text the session finishes with, if no segment
/// follows.
pub proof fn lemma_progress_is_session_text(
    w: SegmentWorker,
    p: SegmentProgress,
    accepted: u32,
    segment: Option<Seq<char>>,
)
    requires
        w.displays().len() > 0,
        reports(p, w.done(), accepted, w.displays(), segment),
    ensures
        p.cumulative@ == w.session_text(),
{
}

} // verus!
