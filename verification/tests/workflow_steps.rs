use notes_cf::prompts::{chat_messages, Task, CLEANUP_PROMPT, SUMMARY_PROMPT};
use notes_cf::wav::WavHeaders;
use notes_cf::workflow::{chunk_plan, Outcome, ParseWorkflow, Request, Stage};

fn headers(size: u64, channels: u16, bits: u16) -> WavHeaders {
    WavHeaders {
        headers: vec![0; 44],
        offset: 44,
        size,
        data_size_pos: 40,
        num_channels: channels,
        bits_per_sample: bits,
    }
}

fn text(s: &str) -> Outcome {
    Outcome::Text(Ok(s.to_string()))
}

#[test]
fn plan_for_sample_formats() {
    assert_eq!(chunk_plan(16, 1), Some((2, 1_920_000)));
    assert_eq!(chunk_plan(24, 2), Some((6, 5_760_000)));
    assert_eq!(chunk_plan(4, 2), None);
    assert_eq!(chunk_plan(16, 0), None);
}

#[test]
fn full_run_in_order() {
    let mut w = ParseWorkflow::new();
    assert_eq!(w.run(Outcome::Start), Request::ParseWav);
    let span = 1_920_000u64;
    let r = w.run(Outcome::Headers(Ok(headers(2 * span + 3, 1, 16))));
    assert_eq!(r, Request::Transcribe { index: 0, offset: 44, length: span });
    assert_eq!(w.chunk_count, 3);
    assert_eq!(w.run(text("one ")), Request::Transcribe { index: 1, offset: 44 + span, length: span });
    assert_eq!(w.run(text("two ")), Request::Transcribe { index: 2, offset: 44 + 2 * span, length: 2 });
    assert_eq!(w.run(text("three")), Request::Cleanup);
    assert_eq!(w.transcript, "one two three");
    assert_eq!(w.run(Outcome::Stored), Request::Ignored);
    assert_eq!(w.run(text("clean")), Request::UploadCleaned);
    assert_eq!(w.cleaned, "clean");
    assert_eq!(w.run(Outcome::Stored), Request::Summarize);
    assert_eq!(w.run(text("short")), Request::UploadSummary);
    assert_eq!(w.summary, "short");
    assert_eq!(w.run(Outcome::Stored), Request::Done(Ok("hi".to_string())));
    assert_eq!(w.stage, Stage::Finished);
    assert_eq!(w.run(text("late")), Request::Ignored);
}

#[test]
fn empty_data_goes_straight_to_cleanup() {
    let mut w = ParseWorkflow::new();
    w.run(Outcome::Start);
    assert_eq!(w.run(Outcome::Headers(Ok(headers(0, 1, 16)))), Request::Cleanup);
}

#[test]
fn partial_last_frame_ends_with_empty_result() {
    let mut w = ParseWorkflow::new();
    w.run(Outcome::Start);
    let span = 1_920_000u64;
    w.run(Outcome::Headers(Ok(headers(span + 1, 1, 16))));
    assert_eq!(w.run(text("x")), Request::Done(Ok(String::new())));
    assert_eq!(w.stage, Stage::Finished);
}

#[test]
fn zero_frame_is_a_fault() {
    let mut w = ParseWorkflow::new();
    w.run(Outcome::Start);
    assert_eq!(w.run(Outcome::Headers(Ok(headers(10, 1, 7)))), Request::Fault);
}

#[test]
fn offset_overflow_is_a_fault() {
    let mut w = ParseWorkflow::new();
    w.run(Outcome::Start);
    let mut h = headers(10, 1, 16);
    h.offset = u64::MAX;
    assert_eq!(w.run(Outcome::Headers(Ok(h))), Request::Transcribe { index: 0, offset: u64::MAX, length: 10 });
    let mut w = ParseWorkflow::new();
    w.run(Outcome::Start);
    let mut h = headers(2_000_000, 1, 16);
    h.offset = u64::MAX - 5;
    w.run(Outcome::Headers(Ok(h)));
    assert_eq!(w.run(text("a")), Request::Fault);
}

#[test]
fn step_errors_end_the_run() {
    let mut w = ParseWorkflow::new();
    w.run(Outcome::Start);
    assert_eq!(
        w.run(Outcome::Headers(Err("Not a riff file".to_string()))),
        Request::Done(Err("Failed to get headers: Not a riff file".to_string()))
    );
    let mut w = ParseWorkflow::new();
    w.run(Outcome::Start);
    w.run(Outcome::Headers(Ok(headers(4, 1, 16))));
    assert_eq!(
        w.run(Outcome::Text(Err("boom".to_string()))),
        Request::Done(Err("Failed to transcribe audiofile: boom".to_string()))
    );
    let mut w = ParseWorkflow::new();
    w.run(Outcome::Start);
    w.run(Outcome::Headers(Ok(headers(0, 1, 16))));
    assert_eq!(
        w.run(Outcome::Text(Err("e".to_string()))),
        Request::Done(Err("Failed to clean audiofile: e".to_string()))
    );
    let mut w = ParseWorkflow::new();
    w.run(Outcome::Start);
    w.run(Outcome::Headers(Ok(headers(0, 1, 16))));
    w.run(text("c"));
    w.run(Outcome::Stored);
    assert_eq!(
        w.run(Outcome::Text(Err("e".to_string()))),
        Request::Done(Err("Failed to summarize audiofile: e".to_string()))
    );
}

#[test]
fn step_names() {
    assert_eq!(Request::ParseWav.step_name(), Some("parse wav".to_string()));
    assert_eq!(
        Request::Transcribe { index: 12, offset: 0, length: 2 }.step_name(),
        Some("transcribe 12".to_string())
    );
    assert_eq!(Request::Cleanup.step_name(), Some("cleanup".to_string()));
    assert_eq!(Request::UploadCleaned.step_name(), Some("upload cleaned".to_string()));
    assert_eq!(Request::Summarize.step_name(), Some("summarizing".to_string()));
    assert_eq!(Request::UploadSummary.step_name(), Some("upload summary".to_string()));
    assert_eq!(Request::Fault.step_name(), None);
}

#[test]
fn chat_requests() {
    let m = chat_messages(Task::Cleanup, "raw text".to_string());
    assert_eq!(m.len(), 2);
    assert_eq!((m[0].role.as_str(), m[0].content.as_str()), ("system", CLEANUP_PROMPT));
    assert_eq!((m[1].role.as_str(), m[1].content.as_str()), ("user", "raw text"));
    let m = chat_messages(Task::Summary, "lecture".to_string());
    assert_eq!(m[0].content, SUMMARY_PROMPT);
    assert!(SUMMARY_PROMPT.starts_with("You are a study assistant."));
}
