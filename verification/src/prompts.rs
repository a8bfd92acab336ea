//! What the workflow asks of the language model: a system instruction for
//! each task, then the text to work on.

use vstd::prelude::*;
use vstd::string::StringExecFns;

verus! {

/// The instruction for turning a raw transcript into one coherent lecture.
pub const CLEANUP_PROMPT: &'static str = "You are a teaching assistant.\n\nYour job is to clean up the text given to you.\nAfter you're done it should be one coherent lecture.\n\nRemove filler words and repetitions\nFix punctuation and capitalization\nMerge broken sentences\n\nDo NOT remove any content or meaning!\nDo NOT summarize.\nDo NOT add anything from your knowledge that wasn explicitly said.";

/// The instruction for turning a cleaned lecture into study notes with
/// questions.
pub const SUMMARY_PROMPT: &'static str = "You are a study assistant.\n\nYou create text files that explain the content of the lession you get as an input.\nIf there is any knowledge needed to understand the lession you take it as granted and don't explain it.\n\nYou HAVE to include everything asked for.\nYou ONLY answer in raw text without any styling except for line breakes.\nYou do NOT remove any content or create new content.\nYou add single choice questions at the end with the answers written in flipped askii. It can be however many question you find adequate, but it should only be basic understanding questions.";

/// The model that both tasks use.
pub const CHAT_MODEL: &'static str = "@cf/meta/llama-4-scout-17b-16e-instruct";

/// The model that transcribes audio.
pub const TRANSCRIBE_MODEL: &'static str = "@cf/openai/whisper";

/// A task for the language model.
#[derive(Clone, Copy, Debug, PartialEq, Eq, Structural)]
pub enum Task {
    Cleanup,
    Summary,
}

/// One message of a chat request.
#[derive(Debug, PartialEq, Eq)]
pub struct ChatMessage {
    pub role: String,
    pub content: String,
}

/// The system instruction for `task`.
pub open spec fn prompt_of(task: Task) -> Seq<char> {
    match task {
        Task::Cleanup => CLEANUP_PROMPT@,
        Task::Summary => SUMMARY_PROMPT@,
    }
}

/// The messages for `task` on `text`: the task's instruction as the system
/// message, then the text as the user message.
pub fn chat_messages(task: Task, text: String) -> (r: Vec<ChatMessage>)
    ensures
        r@.len() == 2,
        r@[0].role@ == "system"@,
        r@[0].content@ == prompt_of(task),
        r@[1].role@ == "user"@,
        r@[1].content == text,
{
    let prompt = match task {
        Task::Cleanup => CLEANUP_PROMPT,
        Task::Summary => SUMMARY_PROMPT,
    };
    let mut messages: Vec<ChatMessage> = Vec::new();
    messages.push(ChatMessage { role: String::from_str("system"), content: String::from_str(prompt) });
    messages.push(ChatMessage { role: String::from_str("user"), content: text });
    messages
}

} // verus!
