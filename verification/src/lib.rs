//! Verified core of a lecture-notes service: multipart upload splitting,
//! WAV header scanning and re-framing, transcription chunk planning, the
//! processing workflow as a state machine, and the note store's key and
//! counter rules.

pub mod multipart;
pub mod notes;
pub mod prompts;
pub mod search;
pub mod text;
pub mod wav;
pub mod workflow;

pub use notes::Note;
pub use workflow::ParseWorkflow;
