//! The processing of one uploaded recording, as a state machine: scan its
//! header, transcribe it a minute at a time, clean the transcript up, store
//! it, summarize it, store the summary. Each call takes what the last step
//! gave back and says which step comes next; the steps themselves (storage
//! reads and writes, model calls) are performed by the caller.

use vstd::prelude::*;
use vstd::string::StringExecFns;
use crate::text::{decimal_of, decimal_text_u64};
use crate::wav::WavHeaders;

verus! {

/// Seconds of audio in one transcription chunk.
pub const CHUNK_SECONDS: u64 = 60;

/// Frames per second that the transcriber is sized for.
pub const FRAMES_PER_SECOND: u64 = 16000;

/// Bytes per frame: whole bytes per sample times channels.
pub open spec fn frame_size_of(bits_per_sample: u16, num_channels: u16) -> int {
    (bits_per_sample as int / 8) * num_channels as int
}

/// Bytes in a full chunk: a minute of frames.
pub open spec fn chunk_span_of(frame_size: int) -> int {
    60 * 16000 * frame_size
}

/// Chunks needed for `size` bytes: `size / span`, rounded up.
pub open spec fn chunk_count_of(size: int, span: int) -> int {
    (size + span - 1) / span
}

/// Bytes read for chunk `i`: a full span, or what is left of the data, cut
/// down to whole frames.
pub open spec fn chunk_length_of(size: int, span: int, frame_size: int, i: int) -> int {
    let left = size - i * span;
    let take = if span < left {
        span
    } else {
        left
    };
    take - take % frame_size
}

/// The frame size and chunk span for a sample format; none where a frame has
/// no bytes (the chunk span would be a division by zero).
pub fn chunk_plan(bits_per_sample: u16, num_channels: u16) -> (r: Option<(u64, u64)>)
    ensures
        match r {
            Some((frame, span)) => frame_size_of(bits_per_sample, num_channels) > 0 && frame
                == frame_size_of(bits_per_sample, num_channels) && span == chunk_span_of(
                frame as int,
            ),
            None => frame_size_of(bits_per_sample, num_channels) == 0,
        },
{
    let bytes_per_sample = bits_per_sample as u64 / 8;
    assert(bytes_per_sample * (num_channels as u64) <= 8191 * 65535) by (nonlinear_arith)
        requires
            bytes_per_sample <= 8191,
            num_channels <= 65535,
    ;
    let frame = bytes_per_sample * num_channels as u64;
    if frame == 0 {
        return None;
    }
    assert(960000 * frame <= 960000 * (8191 * 65535)) by (nonlinear_arith)
        requires
            frame <= 8191 * 65535,
    ;
    let per_sample = CHUNK_SECONDS * FRAMES_PER_SECOND * bytes_per_sample;
    assert(per_sample * (num_channels as u64) <= 960000 * 8191 * 65535) by (nonlinear_arith)
        requires
            per_sample == 960000 * bytes_per_sample,
            bytes_per_sample <= 8191,
            num_channels <= 65535,
    ;
    let max_audio_bytes = per_sample * num_channels as u64;
    assert(max_audio_bytes == 960000 * frame) by (nonlinear_arith)
        requires
            max_audio_bytes == per_sample * num_channels,
            per_sample == 960000 * bytes_per_sample,
            frame == bytes_per_sample * num_channels,
    ;
    proof {
        vstd::arithmetic::div_mod::lemma_div_multiples_vanish(960000, frame as int);
        assert((frame * 960000) / (frame as int) == 960000);
        assert(max_audio_bytes / frame == 960000) by (nonlinear_arith)
            requires
                max_audio_bytes == 960000 * frame,
                (frame * 960000) / (frame as int) == 960000,
        ;
    }
    let span = (max_audio_bytes / frame) * frame;
    assert(span > 0 && span == chunk_span_of(frame as int)) by (nonlinear_arith)
        requires
            span == 960000 * frame,
            frame > 0,
    ;
    Some((frame, span))
}

/// Where the workflow stands.
#[derive(Clone, Copy, Debug, PartialEq, Eq, Structural)]
pub enum Stage {
    Start,
    AwaitHeaders,
    AwaitTranscript,
    AwaitCleaned,
    AwaitCleanedStored,
    AwaitSummary,
    AwaitSummaryStored,
    Finished,
}

/// What the last step gave back.
#[derive(Debug, PartialEq, Eq)]
pub enum Outcome {
    /// Nothing yet: the workflow begins.
    Start,
    /// The header scan of the recording, or why it failed.
    Headers(Result<WavHeaders, String>),
    /// A model's text (a chunk's transcript, the cleaned transcript, the
    /// summary), or why the call failed.
    Text(Result<String, String>),
    /// A store finished; whether it succeeded does not matter.
    Stored,
}

/// The step to perform next.
#[derive(Debug, PartialEq, Eq)]
pub enum Request {
    /// Read the start of the recording and scan its header.
    ParseWav,
    /// Read `length` bytes at `offset` of the recording, frame them with the
    /// header, and transcribe them (step `transcribe {index}`).
    Transcribe { index: u64, offset: u64, length: u64 },
    /// Clean up the transcript.
    Cleanup,
    /// Store the cleaned transcript.
    UploadCleaned,
    /// Summarize the cleaned transcript.
    Summarize,
    /// Store the summary.
    UploadSummary,
    /// The workflow ends with this result.
    Done(Result<String, String>),
    /// The workflow cannot go on: its arithmetic has no value here (a frame
    /// of zero bytes, or a read offset beyond `u64`).
    Fault,
    /// The outcome does not answer the pending step; nothing changed.
    Ignored,
}

/// The name under which a step is recorded, so that a replayed run finds
/// the results of the steps it already took; none for what is no step.
pub open spec fn step_name_of(r: Request) -> Option<Seq<char>> {
    match r {
        Request::ParseWav => Some("parse wav"@),
        Request::Transcribe { index, .. } => Some("transcribe "@ + decimal_of(index as int)),
        Request::Cleanup => Some("cleanup"@),
        Request::UploadCleaned => Some("upload cleaned"@),
        Request::Summarize => Some("summarizing"@),
        Request::UploadSummary => Some("upload summary"@),
        _ => None,
    }
}

impl Request {
    /// The name of the step this request asks for.
    pub fn step_name(&self) -> (r: Option<String>)
        ensures
            match r {
                Some(s) => step_name_of(*self) == Some(s@),
                None => step_name_of(*self) is None,
            },
    {
        match self {
            Request::ParseWav => Some(String::from_str("parse wav")),
            Request::Transcribe { index, .. } => {
                let digits = decimal_text_u64(*index);
                Some(String::from_str("transcribe ").concat(digits.as_str()))
            },
            Request::Cleanup => Some(String::from_str("cleanup")),
            Request::UploadCleaned => Some(String::from_str("upload cleaned")),
            Request::Summarize => Some(String::from_str("summarizing")),
            Request::UploadSummary => Some(String::from_str("upload summary")),
            _ => None,
        }
    }
}

/// The state of one workflow run.
pub struct ParseWorkflow {
    pub stage: Stage,
    /// The recording's header bytes, to frame each chunk with.
    pub header: Vec<u8>,
    pub data_offset: u64,
    pub data_size: u64,
    pub data_size_pos: u64,
    pub frame_size: u64,
    pub chunk_span: u64,
    pub chunk_count: u64,
    /// The chunk to transcribe next.
    pub next_chunk: u64,
    /// The transcripts of the chunks so far, in order.
    pub transcript: String,
    pub cleaned: String,
    pub summary: String,
}

/// Whether `a` and `b` have the same recording layout and chunk plan.
pub open spec fn same_plan(a: ParseWorkflow, b: ParseWorkflow) -> bool {
    &&& a.header == b.header
    &&& a.data_offset == b.data_offset
    &&& a.data_size == b.data_size
    &&& a.data_size_pos == b.data_size_pos
    &&& a.frame_size == b.frame_size
    &&& a.chunk_span == b.chunk_span
    &&& a.chunk_count == b.chunk_count
}

/// Whether `a` and `b` hold the same transcript, cleaned text and summary.
pub open spec fn same_texts(a: ParseWorkflow, b: ParseWorkflow) -> bool {
    &&& a.transcript@ == b.transcript@
    &&& a.cleaned@ == b.cleaned@
    &&& a.summary@ == b.summary@
}

/// The step after the transcripts of chunks `0..w.next_chunk`: the next
/// chunk, unless it has no whole frame (then the workflow ends at once with an
/// empty result) or its offset overflows; the cleanup once all are done.
pub open spec fn transcription_step(w: ParseWorkflow, r: Request) -> bool {
    if w.next_chunk < w.chunk_count {
        let len = chunk_length_of(
            w.data_size as int,
            w.chunk_span as int,
            w.frame_size as int,
            w.next_chunk as int,
        );
        let off = w.data_offset + w.next_chunk * w.chunk_span;
        if len == 0 {
            w.stage == Stage::Finished && (r matches Request::Done(Ok(s)) && s@.len() == 0)
        } else if off > u64::MAX {
            w.stage == Stage::Finished && r is Fault
        } else {
            w.stage == Stage::AwaitTranscript && r == Request::Transcribe {
                index: w.next_chunk,
                offset: off as u64,
                length: len as u64,
            }
        }
    } else {
        w.stage == Stage::AwaitCleaned && r is Cleanup
    }
}

/// Whether `r` ends the workflow with the error `prefix` followed by `e`.
pub open spec fn fails_with(r: Request, prefix: Seq<char>, e: String) -> bool {
    r matches Request::Done(Err(m)) && m@ == prefix + e@
}

/// What one call of `run` does: from `before`, given `outcome`, the state
/// becomes `after` and the next step is `r`.
pub open spec fn run_spec(before: ParseWorkflow, outcome: Outcome, after: ParseWorkflow, r: Request) -> bool {
    match (before.stage, outcome) {
        (Stage::Start, Outcome::Start) => {
            &&& after.stage == Stage::AwaitHeaders
            &&& same_plan(before, after) && after.next_chunk == before.next_chunk
            &&& same_texts(before, after)
            &&& r is ParseWav
        },
        (Stage::AwaitHeaders, Outcome::Headers(Err(e))) => {
            &&& after.stage == Stage::Finished
            &&& same_plan(before, after) && after.next_chunk == before.next_chunk
            &&& same_texts(before, after)
            &&& fails_with(r, "Failed to get headers: "@, e)
        },
        (Stage::AwaitHeaders, Outcome::Headers(Ok(h))) => {
            let frame = frame_size_of(h.bits_per_sample, h.num_channels);
            &&& same_texts(before, after)
            &&& after.header == h.headers
            &&& after.data_offset == h.offset
            &&& after.data_size == h.size
            &&& after.data_size_pos == h.data_size_pos
            &&& if frame == 0 {
                after.stage == Stage::Finished && r is Fault
            } else {
                &&& after.frame_size == frame
                &&& after.chunk_span == chunk_span_of(frame)
                &&& after.chunk_count == chunk_count_of(h.size as int, chunk_span_of(frame))
                &&& after.next_chunk == 0
                &&& transcription_step(after, r)
            }
        },
        (Stage::AwaitTranscript, Outcome::Text(Err(e))) => {
            &&& after.stage == Stage::Finished
            &&& same_plan(before, after) && after.next_chunk == before.next_chunk
            &&& same_texts(before, after)
            &&& fails_with(r, "Failed to transcribe audiofile: "@, e)
        },
        (Stage::AwaitTranscript, Outcome::Text(Ok(t))) => {
            &&& same_plan(before, after)
            &&& after.next_chunk == before.next_chunk + 1
            &&& after.transcript@ == before.transcript@ + t@
            &&& after.cleaned@ == before.cleaned@
            &&& after.summary@ == before.summary@
            &&& transcription_step(after, r)
        },
        (Stage::AwaitCleaned, Outcome::Text(Err(e))) => {
            &&& after.stage == Stage::Finished
            &&& same_plan(before, after) && after.next_chunk == before.next_chunk
            &&& same_texts(before, after)
            &&& fails_with(r, "Failed to clean audiofile: "@, e)
        },
        (Stage::AwaitCleaned, Outcome::Text(Ok(c))) => {
            &&& after.stage == Stage::AwaitCleanedStored
            &&& same_plan(before, after) && after.next_chunk == before.next_chunk
            &&& after.transcript@ == before.transcript@
            &&& after.cleaned@ == c@
            &&& after.summary@ == before.summary@
            &&& r is UploadCleaned
        },
        (Stage::AwaitCleanedStored, Outcome::Stored) => {
            &&& after.stage == Stage::AwaitSummary
            &&& same_plan(before, after) && after.next_chunk == before.next_chunk
            &&& same_texts(before, after)
            &&& r is Summarize
        },
        (Stage::AwaitSummary, Outcome::Text(Err(e))) => {
            &&& after.stage == Stage::Finished
            &&& same_plan(before, after) && after.next_chunk == before.next_chunk
            &&& same_texts(before, after)
            &&& fails_with(r, "Failed to summarize audiofile: "@, e)
        },
        (Stage::AwaitSummary, Outcome::Text(Ok(s))) => {
            &&& after.stage == Stage::AwaitSummaryStored
            &&& same_plan(before, after) && after.next_chunk == before.next_chunk
            &&& after.transcript@ == before.transcript@
            &&& after.cleaned@ == before.cleaned@
            &&& after.summary@ == s@
            &&& r is UploadSummary
        },
        (Stage::AwaitSummaryStored, Outcome::Stored) => {
            &&& after.stage == Stage::Finished
            &&& same_plan(before, after) && after.next_chunk == before.next_chunk
            &&& same_texts(before, after)
            &&& (r matches Request::Done(Ok(m)) && m@ == "hi"@)
        },
        _ => {
            &&& after == before
            &&& r is Ignored
        },
    }
}

impl ParseWorkflow {
    /// The well-formedness of a run: while transcribing, the chunk plan is the
    /// one for the data's size and format, and a chunk is pending.
    pub open spec fn wf(&self) -> bool {
        self.stage == Stage::AwaitTranscript ==> {
            &&& self.frame_size > 0
            &&& self.chunk_span == chunk_span_of(self.frame_size as int)
            &&& self.chunk_count == chunk_count_of(self.data_size as int, self.chunk_span as int)
            &&& self.next_chunk < self.chunk_count
        }
    }

    /// A run that has not begun.
    pub fn new() -> (w: Self)
        ensures
            w.wf(),
            w.stage == Stage::Start,
            w.header@.len() == 0,
            w.data_offset == 0,
            w.data_size == 0,
            w.data_size_pos == 0,
            w.frame_size == 0,
            w.chunk_span == 0,
            w.chunk_count == 0,
            w.next_chunk == 0,
            w.transcript@.len() == 0,
            w.cleaned@.len() == 0,
            w.summary@.len() == 0,
    {
        ParseWorkflow {
            stage: Stage::Start,
            header: Vec::new(),
            data_offset: 0,
            data_size: 0,
            data_size_pos: 0,
            frame_size: 0,
            chunk_span: 0,
            chunk_count: 0,
            next_chunk: 0,
            transcript: String::new(),
            cleaned: String::new(),
            summary: String::new(),
        }
    }

    /// Picks the transcription step for chunk `next_chunk`, or the cleanup.
    fn continue_transcription(&mut self) -> (r: Request)
        requires
            old(self).frame_size > 0,
            old(self).chunk_span == chunk_span_of(old(self).frame_size as int),
            old(self).chunk_count == chunk_count_of(
                old(self).data_size as int,
                old(self).chunk_span as int,
            ),
            old(self).next_chunk <= old(self).chunk_count,
        ensures
            same_plan(*old(self), *final(self)),
            final(self).next_chunk == old(self).next_chunk,
            final(self).transcript == old(self).transcript,
            final(self).cleaned == old(self).cleaned,
            final(self).summary == old(self).summary,
            transcription_step(*final(self), r),
            final(self).wf(),
    {
        if self.next_chunk < self.chunk_count {
            let i = self.next_chunk;
            let span = self.chunk_span;
            let size = self.data_size;
            let frame = self.frame_size;
            proof {
                lemma_span_positive(frame as int);
                lemma_chunk_start_within(size as int, span as int, i as int);
            }
            let done = i * span;
            let left = size - done;
            let take = if span < left {
                span
            } else {
                left
            };
            proof {
                vstd::arithmetic::div_mod::lemma_fundamental_div_mod(take as int, frame as int);
                assert(take % frame <= take) by (nonlinear_arith)
                    requires
                        take == frame * (take / frame) + take % frame,
                        frame > 0,
                        take >= 0,
                        take % frame >= 0,
                ;
            }
            let length = take - take % frame;
            if length == 0 {
                self.stage = Stage::Finished;
                return Request::Done(Ok(String::new()));
            }
            if self.data_offset > u64::MAX - done {
                self.stage = Stage::Finished;
                return Request::Fault;
            }
            self.stage = Stage::AwaitTranscript;
            Request::Transcribe { index: i, offset: self.data_offset + done, length }
        } else {
            self.stage = Stage::AwaitCleaned;
            Request::Cleanup
        }
    }

    /// Takes the outcome of the last step and names the next one.
    pub fn run(&mut self, outcome: Outcome) -> (r: Request)
        requires
            old(self).wf(),
        ensures
            final(self).wf(),
            run_spec(*old(self), outcome, *final(self), r),
    {
        match (self.stage, outcome) {
            (Stage::Start, Outcome::Start) => {
                self.stage = Stage::AwaitHeaders;
                Request::ParseWav
            },
            (Stage::AwaitHeaders, Outcome::Headers(Err(e))) => {
                self.stage = Stage::Finished;
                Request::Done(Err(String::from_str("Failed to get headers: ").concat(e.as_str())))
            },
            (Stage::AwaitHeaders, Outcome::Headers(Ok(h))) => {
                self.header = h.headers;
                self.data_offset = h.offset;
                self.data_size = h.size;
                self.data_size_pos = h.data_size_pos;
                match chunk_plan(h.bits_per_sample, h.num_channels) {
                    None => {
                        self.stage = Stage::Finished;
                        Request::Fault
                    },
                    Some((frame, span)) => {
                        self.frame_size = frame;
                        self.chunk_span = span;
                        proof {
                            lemma_span_positive(frame as int);
                            lemma_chunk_count(h.size as int, span as int);
                        }
                        self.chunk_count = h.size / span + if h.size % span == 0 {
                            0
                        } else {
                            1
                        };
                        self.next_chunk = 0;
                        self.continue_transcription()
                    },
                }
            },
            (Stage::AwaitTranscript, Outcome::Text(Err(e))) => {
                self.stage = Stage::Finished;
                Request::Done(
                    Err(String::from_str("Failed to transcribe audiofile: ").concat(e.as_str())),
                )
            },
            (Stage::AwaitTranscript, Outcome::Text(Ok(t))) => {
                self.transcript.append(t.as_str());
                self.next_chunk = self.next_chunk + 1;
                self.continue_transcription()
            },
            (Stage::AwaitCleaned, Outcome::Text(Err(e))) => {
                self.stage = Stage::Finished;
                Request::Done(Err(String::from_str("Failed to clean audiofile: ").concat(e.as_str())))
            },
            (Stage::AwaitCleaned, Outcome::Text(Ok(c))) => {
                self.cleaned = c;
                self.stage = Stage::AwaitCleanedStored;
                Request::UploadCleaned
            },
            (Stage::AwaitCleanedStored, Outcome::Stored) => {
                self.stage = Stage::AwaitSummary;
                Request::Summarize
            },
            (Stage::AwaitSummary, Outcome::Text(Err(e))) => {
                self.stage = Stage::Finished;
                Request::Done(
                    Err(String::from_str("Failed to summarize audiofile: ").concat(e.as_str())),
                )
            },
            (Stage::AwaitSummary, Outcome::Text(Ok(s))) => {
                self.summary = s;
                self.stage = Stage::AwaitSummaryStored;
                Request::UploadSummary
            },
            (Stage::AwaitSummaryStored, Outcome::Stored) => {
                self.stage = Stage::Finished;
                Request::Done(Ok(String::from_str("hi")))
            },
            _ => Request::Ignored,
        }
    }
}

proof fn lemma_span_positive(frame: int)
    requires
        frame > 0,
    ensures
        chunk_span_of(frame) > 0,
{
    assert(chunk_span_of(frame) > 0) by (nonlinear_arith)
        requires
            frame > 0,
    ;
}

proof fn lemma_chunk_count(size: int, span: int)
    requires
        0 <= size,
        0 < span,
    ensures
        size / span + (if size % span == 0 {
            0int
        } else {
            1int
        }) == chunk_count_of(size, span),
        chunk_count_of(size, span) * span >= size,
        chunk_count_of(size, span) <= size,
{
    vstd::arithmetic::div_mod::lemma_fundamental_div_mod(size, span);
    vstd::arithmetic::div_mod::lemma_fundamental_div_mod(size + span - 1, span);
    assert(chunk_count_of(size, span) * span >= size && size / span + (if size % span == 0 {
        0int
    } else {
        1int
    }) == chunk_count_of(size, span)) by (nonlinear_arith)
        requires
            size == span * (size / span) + size % span,
            size + span - 1 == span * ((size + span - 1) / span) + (size + span - 1) % span,
            0 <= size % span < span,
            0 <= (size + span - 1) % span < span,
            0 < span,
            0 <= size,
    ;
    assert(chunk_count_of(size, span) <= size) by (nonlinear_arith)
        requires
            size + span - 1 == span * ((size + span - 1) / span) + (size + span - 1) % span,
            0 <= (size + span - 1) % span < span,
            0 < span,
            0 <= size,
    ;
}

proof fn lemma_chunk_start_within(size: int, span: int, i: int)
    requires
        0 <= size,
        0 < span,
        0 <= i < chunk_count_of(size, span),
    ensures
        i * span < size,
{
    vstd::arithmetic::div_mod::lemma_fundamental_div_mod(size + span - 1, span);
    assert(i * span < size) by (nonlinear_arith)
        requires
            size + span - 1 == span * ((size + span - 1) / span) + (size + span - 1) % span,
            0 <= (size + span - 1) % span < span,
            0 < span,
            0 <= i < (size + span - 1) / span,
    ;
}

proof fn lemma_whole_frames(take: int, frame: int)
    requires
        take >= 0,
        frame > 0,
    ensures
        0 <= take - take % frame <= take,
        (take - take % frame) % frame == 0,
        take % frame < frame,
{
    vstd::arithmetic::div_mod::lemma_fundamental_div_mod(take, frame);
    vstd::arithmetic::div_mod::lemma_mod_multiples_basic(take / frame, frame);
    assert(take - take % frame == (take / frame) * frame) by (nonlinear_arith)
        requires
            take == frame * (take / frame) + take % frame,
    ;
    assert(take / frame >= 0) by (nonlinear_arith)
        requires
            take == frame * (take / frame) + take % frame,
            0 <= take % frame < frame,
            take >= 0,
            frame > 0,
    ;
    assert(0 <= (take / frame) * frame) by (nonlinear_arith)
        requires
            take / frame >= 0,
            frame > 0,
    ;
}

/// The chunks tile the audio data: each holds whole frames and at most a
/// span; every chunk but the last is a full span, so each starts where the
/// one before it ends; and together they cover the data up to its last whole
/// frame.
pub proof fn lemma_chunks_tile(size: int, frame: int)
    requires
        size >= 0,
        frame > 0,
    ensures
        ({
            let span = chunk_span_of(frame);
            let count = chunk_count_of(size, span);
            &&& forall|i: int|
                0 <= i < count ==> {
                    &&& 0 <= #[trigger] chunk_length_of(size, span, frame, i) <= span
                    &&& chunk_length_of(size, span, frame, i) % frame == 0
                }
            &&& forall|i: int|
                0 <= i < count - 1 ==> #[trigger] chunk_length_of(size, span, frame, i) == span
            &&& count > 0 ==> (count - 1) * span + chunk_length_of(size, span, frame, count - 1)
                == size - size % frame
        }),
{
    let span = chunk_span_of(frame);
    let count = chunk_count_of(size, span);
    lemma_span_positive(frame);
    lemma_chunk_count(size, span);
    vstd::arithmetic::div_mod::lemma_mod_multiples_basic(960000int, frame);
    assert(span % frame == 0);
    assert forall|i: int| 0 <= i < count implies {
        &&& 0 <= #[trigger] chunk_length_of(size, span, frame, i) <= span
        &&& chunk_length_of(size, span, frame, i) % frame == 0
    } by {
        lemma_chunk_start_within(size, span, i);
        let left = size - i * span;
        let take = if span < left {
            span
        } else {
            left
        };
        lemma_whole_frames(take, frame);
    }
    assert forall|i: int| 0 <= i < count - 1 implies #[trigger] chunk_length_of(
        size,
        span,
        frame,
        i,
    ) == span by {
        lemma_chunk_start_within(size, span, i + 1);
        assert((i + 1) * span == i * span + span) by (nonlinear_arith);
        assert(size - i * span > span);
    }
    if count > 0 {
        let i = count - 1;
        lemma_chunk_start_within(size, span, i);
        assert(i * span + span >= size) by (nonlinear_arith)
            requires
                count * span >= size,
                i == count - 1,
        ;
        let left = size - i * span;
        assert(left <= span);
        assert(i * span == frame * (i * 960000)) by (nonlinear_arith)
            requires
                span == 60 * 16000 * frame,
        ;
        vstd::arithmetic::div_mod::lemma_mod_multiples_vanish(i * 960000, left, frame);
        assert(size % frame == left % frame);
    }
}

/// The concatenation of texts, in order.
pub open spec fn concat_all(texts: Seq<Seq<char>>) -> Seq<char>
    decreases texts.len(),
{
    if texts.len() == 0 {
        Seq::empty()
    } else {
        concat_all(texts.drop_last()) + texts.last()
    }
}

/// Fed the transcripts of its chunks one after the other, a workflow's
/// transcript grows by each in turn, and it counts one chunk per transcript:
/// what the cleanup gets is the chunks' transcripts in chunk order.
pub proof fn lemma_transcript_in_chunk_order(
    states: Seq<ParseWorkflow>,
    texts: Seq<String>,
    requests: Seq<Request>,
)
    requires
        states.len() == texts.len() + 1,
        requests.len() == texts.len(),
        forall|j: int| 0 <= j < texts.len() ==> (#[trigger] states[j]).stage == Stage::AwaitTranscript,
        forall|j: int|
            0 <= j < texts.len() ==> run_spec(
                #[trigger] states[j],
                Outcome::Text(Ok(texts[j])),
                states[j + 1],
                requests[j],
            ),
    ensures
        states.last().transcript@ == states[0].transcript@ + concat_all(
            texts.map_values(|t: String| t@),
        ),
        states.last().next_chunk == states[0].next_chunk + texts.len(),
        same_plan(states[0], states.last()),
    decreases texts.len(),
{
    if texts.len() > 0 {
        let k = texts.len() - 1;
        let front = states.drop_last();
        let ts = texts.drop_last();
        let rs = requests.drop_last();
        assert forall|j: int| 0 <= j < ts.len() implies (#[trigger] front[j]).stage
            == Stage::AwaitTranscript by {
            assert(front[j] == states[j]);
        }
        assert forall|j: int| 0 <= j < ts.len() implies run_spec(
            #[trigger] front[j],
            Outcome::Text(Ok(ts[j])),
            front[j + 1],
            rs[j],
        ) by {
            assert(front[j] == states[j]);
            assert(front[j + 1] == states[j + 1]);
            assert(ts[j] == texts[j]);
            assert(rs[j] == requests[j]);
        }
        lemma_transcript_in_chunk_order(front, ts, rs);
        assert(states[k] == front.last());
        assert(states[k].stage == Stage::AwaitTranscript);
        assert(run_spec(states[k], Outcome::Text(Ok(texts[k])), states[k + 1], requests[k]));
        assert(texts.map_values(|t: String| t@).drop_last() =~= ts.map_values(|t: String| t@));
    }
}

/// A finished workflow stays finished and asks for nothing more.
pub proof fn lemma_finished_is_final(
    before: ParseWorkflow,
    outcome: Outcome,
    after: ParseWorkflow,
    r: Request,
)
    requires
        before.stage == Stage::Finished,
        run_spec(before, outcome, after, r),
    ensures
        after == before,
        r is Ignored,
{
}

} // verus!
