//! Pipeline orchestrator.
//!
//! The orchestrator is a state machine from events to outputs. Its
//! surroundings spawn the producer, read its two channels and wait for its
//! exit; the machine decides everything else: it accumulates the binary
//! channel's bytes, decodes every complete frame in arrival order, projects
//! each decoded record to one JSON line, asks for one diagnostic per
//! skipped record, reports a truncated stream at end of input, and
//! surfaces the producer's exit status as the pipeline's own result. A
//! per-record failure never leaves the streaming phase; only the
//! producer's lifecycle moves the machine forward.

use vstd::prelude::*;

verus! {

use crate::codec::{DecodeError, FrameLimit, LedgerCloseMeta, spec_frame_step};
use crate::render::{json_of_meta, project_record};
use crate::stream::{metas_view, pump, stream_end, stream_errors, stream_records};

/// The lifecycle phase of the pipeline.
#[derive(Clone, Copy, PartialEq, Eq, Structural, Debug)]
pub enum Phase {
    /// The producer is being spawned; nothing is buffered yet.
    Starting,
    /// Bytes arrive and complete frames are decoded as they arrive.
    Streaming,
    /// The binary channel ended; the producer's exit is awaited.
    Draining,
    /// The producer exited; the pipeline's result is its exit status.
    Terminated,
}

/// One event handed to the pipeline by its surroundings.
pub enum Event {
    /// The producer process is live and its channels are attached.
    ProcessLive,
    /// A chunk of bytes arrived on the binary channel.
    Bytes(Vec<u8>),
    /// The binary channel reached end of stream.
    Eof,
    /// The producer exited with this status code.
    Exited(i64),
}

/// One diagnostic the pipeline asks its surroundings to log.
#[derive(Clone, Copy, PartialEq, Eq, Structural, Debug)]
pub enum Diagnostic {
    /// One record was skipped for this reason; decoding resumed.
    Skipped(DecodeError),
    /// End of stream arrived with an undecodable partial frame buffered.
    TruncatedStream,
}

/// What one step asks the surroundings to do, in order.
pub struct StepOutput {
    /// JSON documents for the output sink, one line each, in arrival order.
    pub lines: Vec<String>,
    /// Diagnostics for the log sink, in order.
    pub diags: Vec<Diagnostic>,
    /// The pipeline's final result, once terminated: the producer's exit
    /// status.
    pub done: Option<i64>,
}

/// The pipeline orchestrator's state.
pub struct Pipeline {
    /// The lifecycle phase.
    pub phase: Phase,
    /// Bytes of the binary channel not yet consumed by decoding. Consumed
    /// prefixes stay in place; `pos` marks the cursor, so unconsumed
    /// trailing bytes are never copied.
    pub buf: Vec<u8>,
    /// The cursor: everything before it has been consumed or skipped.
    pub pos: usize,
    /// The configured bound on a frame's declared payload length.
    pub limit: FrameLimit,
    /// The producer's exit status, once it exited.
    pub exit_status: Option<i64>,
}

impl Pipeline {
    /// The state invariant: the cursor is inside the buffer, and while
    /// streaming every complete buffered frame has already been decoded.
    pub open spec fn wf(&self) -> bool {
        &&& self.pos <= self.buf@.len()
        &&& (self.phase is Starting ==> self.buf@.len() == 0 && self.pos == 0)
        &&& (self.phase is Streaming ==> spec_frame_step(
            self.buf@,
            self.pos as int,
            self.limit,
        ) is NeedMore)
    }

    /// A fresh pipeline, about to spawn its producer.
    pub fn new(limit: FrameLimit) -> (p: Pipeline)
        ensures
            p.wf(),
            p.phase is Starting,
            p.exit_status is None,
            p.buf@.len() == 0,
            p.limit == limit,
    {
        Pipeline { phase: Phase::Starting, buf: Vec::new(), pos: 0, limit, exit_status: None }
    }

    /// Advances the machine by one event.
    ///
    /// While streaming, a chunk of bytes is appended to the buffer and
    /// every frame that is now complete is decoded in arrival order: each
    /// decoded record becomes exactly one JSON line, each skipped record
    /// exactly one diagnostic, and the cursor advances to where the next
    /// read must resume. End of stream with leftover bytes reports a
    /// truncated stream; the producer's exit status becomes the pipeline's
    /// result. Any event arriving in a phase it does not belong to leaves
    /// the state unchanged and produces nothing.
    pub fn step(&mut self, event: Event) -> (out: StepOutput)
        requires
            old(self).wf(),
        ensures
            final(self).wf(),
            final(self).limit == old(self).limit,
            match event {
                Event::ProcessLive => {
                    &&& final(self).phase == (if old(self).phase is Starting {
                        Phase::Streaming
                    } else {
                        old(self).phase
                    })
                    &&& final(self).buf == old(self).buf
                    &&& final(self).pos == old(self).pos
                    &&& final(self).exit_status == old(self).exit_status
                    &&& out.lines@.len() == 0
                    &&& out.diags@.len() == 0
                    &&& out.done is None
                },
                Event::Bytes(chunk) => if old(self).phase is Streaming {
                    let b2 = old(self).buf@ + chunk@;
                    let p0 = old(self).pos as int;
                    let recs = stream_records(b2, p0, old(self).limit);
                    let errs = stream_errors(b2, p0, old(self).limit);
                    &&& final(self).phase is Streaming
                    &&& final(self).buf@ == b2
                    &&& final(self).pos as int == stream_end(b2, p0, old(self).limit)
                    &&& final(self).exit_status == old(self).exit_status
                    &&& out.lines@.len() == recs.len()
                    &&& (forall|i: int|
                        0 <= i < recs.len() ==> #[trigger] out.lines@[i]@ == json_of_meta(
                            recs[i],
                        ))
                    &&& out.diags@.len() == errs.len()
                    &&& (forall|i: int|
                        0 <= i < errs.len() ==> #[trigger] out.diags@[i] == Diagnostic::Skipped(
                            errs[i],
                        ))
                    &&& out.done is None
                } else {
                    &&& *final(self) == *old(self)
                    &&& out.lines@.len() == 0
                    &&& out.diags@.len() == 0
                    &&& out.done is None
                },
                Event::Eof => if old(self).phase is Streaming {
                    &&& final(self).phase is Draining
                    &&& final(self).buf == old(self).buf
                    &&& final(self).pos == old(self).pos
                    &&& final(self).exit_status == old(self).exit_status
                    &&& out.lines@.len() == 0
                    &&& out.diags@ == (if old(self).pos < old(self).buf@.len() {
                        seq![Diagnostic::TruncatedStream]
                    } else {
                        Seq::<Diagnostic>::empty()
                    })
                    &&& out.done is None
                } else {
                    &&& *final(self) == *old(self)
                    &&& out.lines@.len() == 0
                    &&& out.diags@.len() == 0
                    &&& out.done is None
                },
                Event::Exited(code) => if old(self).phase is Draining {
                    &&& final(self).phase is Terminated
                    &&& final(self).buf == old(self).buf
                    &&& final(self).pos == old(self).pos
                    &&& final(self).exit_status == Some(code)
                    &&& out.lines@.len() == 0
                    &&& out.diags@.len() == 0
                    &&& out.done == Some(code)
                } else {
                    &&& *final(self) == *old(self)
                    &&& out.lines@.len() == 0
                    &&& out.diags@.len() == 0
                    &&& out.done is None
                },
            },
    {
        match event {
            Event::ProcessLive => {
                if matches!(self.phase, Phase::Starting) {
                    self.phase = Phase::Streaming;
                }
                StepOutput { lines: Vec::new(), diags: Vec::new(), done: None }
            },
            Event::Bytes(mut chunk) => {
                if matches!(self.phase, Phase::Streaming) {
                    self.buf.append(&mut chunk);
                    let r = pump(&self.buf, self.pos, self.limit);
                    self.pos = r.new_pos;
                    let ghost recs = metas_view(r.records@);
                    let mut lines: Vec<String> = Vec::new();
                    let mut k: usize = 0;
                    while k < r.records.len()
                        invariant
                            k <= r.records@.len(),
                            recs == metas_view(r.records@),
                            lines@.len() == k as nat,
                            forall|i: int|
                                0 <= i < k ==> #[trigger] lines@[i]@ == json_of_meta(recs[i]),
                        decreases r.records@.len() - k,
                    {
                        proof {
                            assert(recs[k as int] == r.records@[k as int]@);
                        }
                        let line = project_record(&r.records[k]);
                        lines.push(line);
                        k = k + 1;
                    }
                    let mut diags: Vec<Diagnostic> = Vec::new();
                    let mut j: usize = 0;
                    while j < r.errors.len()
                        invariant
                            j <= r.errors@.len(),
                            diags@.len() == j as nat,
                            forall|i: int|
                                0 <= i < j ==> #[trigger] diags@[i] == Diagnostic::Skipped(
                                    r.errors@[i],
                                ),
                        decreases r.errors@.len() - j,
                    {
                        let e = r.errors[j];
                        diags.push(Diagnostic::Skipped(e));
                        j = j + 1;
                    }
                    StepOutput { lines, diags, done: None }
                } else {
                    StepOutput { lines: Vec::new(), diags: Vec::new(), done: None }
                }
            },
            Event::Eof => {
                if matches!(self.phase, Phase::Streaming) {
                    self.phase = Phase::Draining;
                    let mut diags: Vec<Diagnostic> = Vec::new();
                    if self.pos < self.buf.len() {
                        diags.push(Diagnostic::TruncatedStream);
                    }
                    proof {
                        if old(self).pos < old(self).buf@.len() {
                            assert(diags@ =~= seq![Diagnostic::TruncatedStream]);
                        } else {
                            assert(diags@ =~= Seq::<Diagnostic>::empty());
                        }
                    }
                    StepOutput { lines: Vec::new(), diags, done: None }
                } else {
                    StepOutput { lines: Vec::new(), diags: Vec::new(), done: None }
                }
            },
            Event::Exited(code) => {
                if matches!(self.phase, Phase::Draining) {
                    self.phase = Phase::Terminated;
                    self.exit_status = Some(code);
                    StepOutput { lines: Vec::new(), diags: Vec::new(), done: Some(code) }
                } else {
                    StepOutput { lines: Vec::new(), diags: Vec::new(), done: None }
                }
            },
        }
    }
}

} // verus!
