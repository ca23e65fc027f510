//! Verified core of the Tingmo speech-to-text desktop app: long-audio range
//! planning and transcript joining, pause/heuristic punctuation, the ASR
//! correction-marker knowledge base, the recording-session state machine and
//! the prompt-file naming rules.

pub mod text;
pub mod text_punctuate;
pub mod audio_split;
pub mod markers;
pub mod clock;
pub mod session;
pub mod prompts_fs;
pub mod segment_pipeline;
pub mod marker_commands;
pub mod marker_sync;
