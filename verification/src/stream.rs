//! Following a running sidecar: what its output, its diagnostics, a failure
//! of the channel to it and its exit each give the user interface.
use vstd::prelude::*;
use crate::protocol::{
    LineBuffer, SidecarEvent, SidecarEventView, complete_lines, exit_failure,
    lemma_lines_across_chunks, line_views, transport_error, unfinished_line,
};
use crate::text::trim;
use crate::timestamp::signed_zero_padded;

verus! {

/// Something the running sidecar did.
pub enum StreamInput {
    /// A piece of its standard output.
    Stdout(String),
    /// A piece of its standard error (diagnostics).
    Stderr(String),
    /// The channel to it failed.
    Failure(String),
    /// It exited, with its exit code if it had one.
    Terminated(Option<i32>),
}

/// The characters of a `StreamInput`.
pub enum StreamInputView {
    Stdout(Seq<char>),
    Stderr(Seq<char>),
    Failure(Seq<char>),
    Terminated(Option<i32>),
}

impl View for StreamInput {
    type V = StreamInputView;

    open spec fn view(&self) -> StreamInputView {
        match self {
            StreamInput::Stdout(s) => StreamInputView::Stdout(s@),
            StreamInput::Stderr(s) => StreamInputView::Stderr(s@),
            StreamInput::Failure(s) => StreamInputView::Failure(s@),
            StreamInput::Terminated(code) => StreamInputView::Terminated(*code),
        }
    }
}

/// What to show the user interface.
pub enum StreamOutput {
    /// A protocol line of the sidecar, to be read and shown as its event.
    Line(String),
    /// An event to show as it is.
    Event(SidecarEvent),
}

/// The characters of a `StreamOutput`.
pub enum StreamOutputView {
    Line(Seq<char>),
    Event(SidecarEventView),
}

impl View for StreamOutput {
    type V = StreamOutputView;

    open spec fn view(&self) -> StreamOutputView {
        match self {
            StreamOutput::Line(l) => StreamOutputView::Line(l@),
            StreamOutput::Event(e) => StreamOutputView::Event(e@),
        }
    }
}

/// The views of `outputs`.
pub open spec fn output_views(outputs: Seq<StreamOutput>) -> Seq<StreamOutputView> {
    outputs.map_values(|o: StreamOutput| o@)
}

/// Each of `lines`, to be shown as its event.
pub open spec fn lines_out(lines: Seq<Seq<char>>) -> Seq<StreamOutputView> {
    lines.map_values(|l: Seq<char>| StreamOutputView::Line(l))
}

/// The message for a sidecar that exited with the code `code`.
pub open spec fn exit_message(code: int) -> Seq<char> {
    "Sidecar exited with code "@ + signed_zero_padded(code, 1)
}

/// What the sidecar's exit gives when `pending` is its output after its last
/// `'\n'`: that unfinished line, trimmed, unless nothing is left of it; then
/// an error when the exit code is known and not 0.
pub open spec fn exit_outputs(pending: Seq<char>, code: Option<i32>) -> Seq<StreamOutputView> {
    let last = if trim(pending).len() > 0 {
        seq![StreamOutputView::Line(trim(pending))]
    } else {
        Seq::empty()
    };
    let failure = match code {
        Some(c) if c != 0 => seq![
            StreamOutputView::Event(
                SidecarEventView::Error { stage: None, message: exit_message(c as int) },
            ),
        ],
        _ => Seq::empty(),
    };
    last + failure
}

/// One step of following the sidecar, from the output `pending` not yet
/// ended by a `'\n'` and whether it has exited: the new `pending`, whether it
/// has exited, and what to show.  Output shows the lines it completes;
/// diagnostics show nothing; a channel failure shows an error; the exit shows
/// what `exit_outputs` says; after the exit nothing more is shown.
pub open spec fn stream_step(pending: Seq<char>, finished: bool, input: StreamInputView) -> (
    Seq<char>,
    bool,
    Seq<StreamOutputView>,
) {
    if finished {
        (pending, true, Seq::empty())
    } else {
        match input {
            StreamInputView::Stdout(chunk) => (
                unfinished_line(pending + chunk),
                false,
                lines_out(complete_lines(pending + chunk)),
            ),
            StreamInputView::Stderr(_) => (pending, false, Seq::empty()),
            StreamInputView::Failure(e) => (
                pending,
                false,
                seq![
                    StreamOutputView::Event(
                        SidecarEventView::Error {
                            stage: None,
                            message: "Sidecar transport error: "@ + e,
                        },
                    ),
                ],
            ),
            StreamInputView::Terminated(code) => (
                Seq::empty(),
                true,
                exit_outputs(pending, code),
            ),
        }
    }
}

/// `stream_step` over the inputs in order: the final state and everything
/// shown.
pub open spec fn stream_run(pending: Seq<char>, finished: bool, inputs: Seq<StreamInputView>) -> (
    Seq<char>,
    bool,
    Seq<StreamOutputView>,
)
    decreases inputs.len(),
{
    if inputs.len() == 0 {
        (pending, finished, Seq::empty())
    } else {
        let first = stream_step(pending, finished, inputs[0]);
        let rest = stream_run(first.0, first.1, inputs.drop_first());
        (rest.0, rest.1, first.2 + rest.2)
    }
}

/// All the standard output among `inputs`, in order.
pub open spec fn stdout_text(inputs: Seq<StreamInputView>) -> Seq<char>
    decreases inputs.len(),
{
    if inputs.len() == 0 {
        Seq::empty()
    } else {
        let head = match inputs[0] {
            StreamInputView::Stdout(chunk) => chunk,
            _ => Seq::empty(),
        };
        head + stdout_text(inputs.drop_first())
    }
}


/// What `unfinished_line` leaves holds no `'\n'`.
proof fn lemma_unfinished_has_no_newline(s: Seq<char>)
    ensures
        crate::protocol::first_newline(unfinished_line(s)) is None,
    decreases s.len(),
{
    match crate::protocol::first_newline(s) {
        None => {},
        Some(i) => {
            if 0 <= i < s.len() {
                lemma_unfinished_has_no_newline(s.skip(i + 1));
            }
        },
    }
}

/// Following a sidecar that keeps running, over inputs that are only output
/// and diagnostics, from an unfinished line `pending`: what is shown and what
/// is left depend only on all the output together.
proof fn lemma_run_output(pending: Seq<char>, inputs: Seq<StreamInputView>)
    requires
        crate::protocol::first_newline(pending) is None,
        forall|i: int|
            0 <= i < inputs.len() ==> #[trigger] inputs[i] is Stdout || inputs[i] is Stderr,
    ensures
        stream_run(pending, false, inputs) == (
            unfinished_line(pending + stdout_text(inputs)),
            false,
            lines_out(complete_lines(pending + stdout_text(inputs))),
        ),
    decreases inputs.len(),
{
    if inputs.len() == 0 {
        assert(pending + stdout_text(inputs) =~= pending);
        assert(complete_lines(pending) =~= Seq::<Seq<char>>::empty());
        assert(lines_out(Seq::<Seq<char>>::empty()) =~= Seq::<StreamOutputView>::empty());
    } else {
        let rest = inputs.drop_first();
        assert forall|i: int| 0 <= i < rest.len() implies #[trigger] rest[i] is Stdout
            || rest[i] is Stderr by {
            assert(rest[i] == inputs[i + 1]);
        }
        let t = stdout_text(rest);
        assert(inputs[0] is Stdout || inputs[0] is Stderr);
        match inputs[0] {
            StreamInputView::Stdout(chunk) => {
                let p1 = unfinished_line(pending + chunk);
                lemma_unfinished_has_no_newline(pending + chunk);
                lemma_run_output(p1, rest);
                lemma_lines_across_chunks(pending + chunk, t);
                assert(pending + stdout_text(inputs) =~= (pending + chunk) + t);
                assert(lines_out(complete_lines(pending + chunk) + complete_lines(p1 + t))
                    =~= lines_out(complete_lines(pending + chunk)) + lines_out(
                    complete_lines(p1 + t),
                ));
            },
            _ => {
                lemma_run_output(pending, rest);
                assert(stdout_text(inputs) =~= t);
                assert(Seq::<StreamOutputView>::empty() + lines_out(complete_lines(pending + t))
                    =~= lines_out(complete_lines(pending + t)));
            },
        }
    }
}

/// Nothing more is shown once the sidecar has exited.
proof fn lemma_run_after_exit(pending: Seq<char>, inputs: Seq<StreamInputView>)
    ensures
        stream_run(pending, true, inputs) == (pending, true, Seq::<StreamOutputView>::empty()),
    decreases inputs.len(),
{
    if inputs.len() > 0 {
        lemma_run_after_exit(pending, inputs.drop_first());
        assert(Seq::<StreamOutputView>::empty() + Seq::<StreamOutputView>::empty()
            =~= Seq::<StreamOutputView>::empty());
    }
}

/// Following the inputs `a` then `b` is following `a`, then `b` from where
/// `a` left off.
proof fn lemma_run_concat(
    pending: Seq<char>,
    finished: bool,
    a: Seq<StreamInputView>,
    b: Seq<StreamInputView>,
)
    ensures
        stream_run(pending, finished, a + b) == {
            let first = stream_run(pending, finished, a);
            let second = stream_run(first.0, first.1, b);
            (second.0, second.1, first.2 + second.2)
        },
    decreases a.len(),
{
    if a.len() == 0 {
        assert(a + b =~= b);
        assert(Seq::<StreamOutputView>::empty() + stream_run(pending, finished, b).2 =~= stream_run(
            pending,
            finished,
            b,
        ).2);
    } else {
        let step = stream_step(pending, finished, a[0]);
        assert((a + b).drop_first() =~= a.drop_first() + b);
        assert((a + b)[0] == a[0]);
        lemma_run_concat(step.0, step.1, a.drop_first(), b);
        let first = stream_run(step.0, step.1, a.drop_first());
        let second = stream_run(first.0, first.1, b);
        assert(step.2 + (first.2 + second.2) =~= (step.2 + first.2) + second.2);
    }
}

/// Whatever pieces the sidecar's output comes in, and however its
/// diagnostics fall between them, what is shown up to and after its exit is
/// the same: each line of all its output that a `'\n'` ended (without
/// trailing `'\r'`s, empty ones left out), then the rest after the last
/// `'\n'`, trimmed, unless nothing is left of it, then the failure for an
/// exit code other than 0; nothing after the exit.
pub proof fn lemma_events_independent_of_chunking(
    inputs: Seq<StreamInputView>,
    code: Option<i32>,
    after: Seq<StreamInputView>,
)
    requires
        forall|i: int|
            0 <= i < inputs.len() ==> #[trigger] inputs[i] is Stdout || inputs[i] is Stderr,
    ensures
        stream_run(
            Seq::empty(),
            false,
            inputs + seq![StreamInputView::Terminated(code)] + after,
        ).2 == lines_out(complete_lines(stdout_text(inputs))) + exit_outputs(
            unfinished_line(stdout_text(inputs)),
            code,
        ),
{
    let empty = Seq::<char>::empty();
    let exit = seq![StreamInputView::Terminated(code)];
    assert(crate::protocol::first_newline(empty) is None);
    lemma_run_output(empty, inputs);
    assert(empty + stdout_text(inputs) =~= stdout_text(inputs));
    assert(inputs + exit + after =~= inputs + (exit + after));
    lemma_run_concat(empty, false, inputs, exit + after);
    let pending = unfinished_line(stdout_text(inputs));
    assert((exit + after)[0] == StreamInputView::Terminated(code));
    assert((exit + after).drop_first() =~= after);
    lemma_run_after_exit(Seq::empty(), after);
    let tail = stream_run(pending, false, exit + after);
    assert(tail.2 =~= exit_outputs(pending, code) + Seq::<StreamOutputView>::empty());
    assert(exit_outputs(pending, code) + Seq::<StreamOutputView>::empty() =~= exit_outputs(
        pending,
        code,
    ));
}


/// A failure of the channel to the sidecar does not end the following: it
/// shows one transport error naming the failure and leaves everything else
/// as it was, so the output and the exit that come after are shown as if
/// the failure had not happened.
pub proof fn lemma_failure_keeps_following(
    pending: Seq<char>,
    error: Seq<char>,
    rest: Seq<StreamInputView>,
)
    ensures
        stream_step(pending, false, StreamInputView::Failure(error)).0 == pending,
        !stream_step(pending, false, StreamInputView::Failure(error)).1,
        ({
            let with = stream_run(pending, false, seq![StreamInputView::Failure(error)] + rest);
            let without = stream_run(pending, false, rest);
            &&& with.0 == without.0
            &&& with.1 == without.1
            &&& with.2 == seq![
                StreamOutputView::Event(
                    SidecarEventView::Error {
                        stage: None,
                        message: "Sidecar transport error: "@ + error,
                    },
                ),
            ] + without.2
        }),
{
    let all = seq![StreamInputView::Failure(error)] + rest;
    assert(all[0] == StreamInputView::Failure(error));
    assert(all.drop_first() =~= rest);
}

/// Diagnostics change nothing: the following goes on as if they had not
/// come, and they show nothing.
pub proof fn lemma_diagnostics_show_nothing(
    pending: Seq<char>,
    finished: bool,
    text: Seq<char>,
    rest: Seq<StreamInputView>,
)
    ensures
        stream_run(pending, finished, seq![StreamInputView::Stderr(text)] + rest) == stream_run(
            pending,
            finished,
            rest,
        ),
{
    let all = seq![StreamInputView::Stderr(text)] + rest;
    assert(all[0] == StreamInputView::Stderr(text));
    assert(all.drop_first() =~= rest);
    assert(Seq::<StreamOutputView>::empty() + stream_run(pending, finished, rest).2 =~= stream_run(
        pending,
        finished,
        rest,
    ).2);
}

/// Only the exit ends the following: output, diagnostics and channel
/// failures leave it going, and the exit leaves nothing pending.
pub proof fn lemma_only_exit_finishes(pending: Seq<char>, input: StreamInputView)
    ensures
        stream_step(pending, false, input).1 <==> input is Terminated,
        input is Terminated ==> stream_step(pending, false, input).0.len() == 0,
{
}

/// Following a sidecar that has not exited yet.
pub struct SidecarStream {
    buffer: LineBuffer,
    finished: bool,
}

impl View for SidecarStream {
    type V = (Seq<char>, bool);

    /// The output not yet ended by a `'\n'`, and whether the sidecar exited.
    closed spec fn view(&self) -> (Seq<char>, bool) {
        (self.buffer@, self.finished)
    }
}

impl SidecarStream {
    pub fn new() -> (stream: Self)
        ensures
            stream@ == (Seq::<char>::empty(), false),
    {
        SidecarStream { buffer: LineBuffer::new(), finished: false }
    }

    /// Whether the sidecar has exited.
    pub fn is_finished(&self) -> (finished: bool)
        ensures
            finished == self@.1,
    {
        self.finished
    }

    /// Takes in what the sidecar did and returns what to show, in order.
    pub fn step(&mut self, input: StreamInput) -> (outputs: Vec<StreamOutput>)
        ensures
            final(self)@.0 == stream_step(old(self)@.0, old(self)@.1, input@).0,
            final(self)@.1 == stream_step(old(self)@.0, old(self)@.1, input@).1,
            output_views(outputs@) == stream_step(old(self)@.0, old(self)@.1, input@).2,
    {
        let mut outputs: Vec<StreamOutput> = Vec::new();
        if self.finished {
            assert(output_views(outputs@) =~= Seq::<StreamOutputView>::empty());
            return outputs;
        }
        match input {
            StreamInput::Stdout(chunk) => {
                let lines = self.buffer.push_chunk(chunk.as_str());
                let ghost views = line_views(lines@);
                let n = lines.len();
                let mut k: usize = 0;
                while k < n
                    invariant
                        n == lines@.len(),
                        views == line_views(lines@),
                        k <= n,
                        output_views(outputs@) == lines_out(views.take(k as int)),
                    decreases n - k,
                {
                    let line = lines[k].clone();
                    assert(line@ == views[k as int]);
                    let ghost before = outputs@;
                    outputs.push(StreamOutput::Line(line));
                    proof {
                        let t = views.take(k as int);
                        assert(views.take(k as int + 1) =~= t.push(views[k as int]));
                        assert(lines_out(t.push(views[k as int])) =~= lines_out(t).push(
                            StreamOutputView::Line(views[k as int]),
                        ));
                        assert(output_views(outputs@) =~= output_views(before).push(
                            StreamOutputView::Line(views[k as int]),
                        ));
                    }
                    k = k + 1;
                }
                assert(views.take(n as int) =~= views);
            },
            StreamInput::Stderr(_) => {
                assert(output_views(outputs@) =~= Seq::<StreamOutputView>::empty());
            },
            StreamInput::Failure(error) => {
                outputs.push(StreamOutput::Event(transport_error(error.as_str())));
                assert(output_views(outputs@) =~= seq![
                    StreamOutputView::Event(
                        SidecarEventView::Error {
                            stage: None,
                            message: "Sidecar transport error: "@ + error@,
                        },
                    ),
                ]);
            },
            StreamInput::Terminated(code) => {
                let mut buffer = LineBuffer::new();
                core::mem::swap(&mut buffer, &mut self.buffer);
                let ghost pending = buffer@;
                if let Some(last) = buffer.finish() {
                    outputs.push(StreamOutput::Line(last));
                }
                if let Some(message) = exit_failure(code) {
                    outputs.push(
                        StreamOutput::Event(SidecarEvent::Error { stage: None, message }),
                    );
                }
                self.finished = true;
                assert(output_views(outputs@) =~= exit_outputs(pending, code));
            },
        }
        outputs
    }
}

} // verus!
