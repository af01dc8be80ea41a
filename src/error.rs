use vstd::prelude::*;

verus! {

/// Every failure that the speech subsystem reports to its callers.
///
/// Collaborators' native errors are folded into text-carrying variants so
/// that no foreign error type leaks past this boundary.
#[derive(Debug, PartialEq, Eq)]
pub enum SpeechError {
    Io(String),
    Network(String),
    Audio(String),
    Whisper(String),
    Json(String),
    Join(String),
    UnsupportedBitDepth(u16),
    UnsupportedLanguage(String),
    InvalidModelPath,
    Tauri(String),
    SessionNotFound(String),
    TranscriptionInProgress,
    TranscriptionCancelled,
}

} // verus!
