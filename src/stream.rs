use vstd::prelude::*;

verus! {

/// One decoded line of a streamed reply: a piece of text, and whether it is
/// the last one.
pub struct StreamFragment {
    pub response: String,
    pub done: bool,
}

/// What a line of the stream turned out to be: a fragment, or a line to skip
/// (empty, malformed, or a diagnostic of the service).
pub enum LineOutcome {
    Fragment(StreamFragment),
    Skip,
}

/// What the transport reports next.
pub enum StreamEvent {
    /// A line was read and classified.
    Line(LineOutcome),
    /// The stream has no more lines.
    Exhausted,
    /// Reading the stream failed.
    ReadFailed,
}

/// Where a consumer stands.
#[derive(Clone, Copy, Debug, PartialEq, Eq, Structural)]
pub enum Phase {
    AwaitingLine,
    Done,
    Failed,
}

/// Why a streamed reply failed.
#[derive(Clone, Copy, Debug, PartialEq, Eq, Structural)]
pub enum StreamError {
    /// The service answered with a status outside the success range.
    Status(u16),
    /// Reading the stream failed.
    Read,
}

/// What the caller does next.
pub enum Action {
    /// Read the next line.
    Continue,
    /// Show the text, flush, and read the next line.
    Emit(String),
    /// Show the text, flush, and stop reading.
    EmitAndStop(String),
    /// Stop reading; the reply is complete.
    Stop,
    /// Stop reading; the reply failed.
    Abort(StreamError),
}

/// The mathematical value of an action.
pub enum ActionView {
    Continue,
    Emit(Seq<char>),
    EmitAndStop(Seq<char>),
    Stop,
    Abort(StreamError),
}

impl View for Action {
    type V = ActionView;

    open spec fn view(&self) -> ActionView {
        match self {
            Action::Continue => ActionView::Continue,
            Action::Emit(t) => ActionView::Emit(t@),
            Action::EmitAndStop(t) => ActionView::EmitAndStop(t@),
            Action::Stop => ActionView::Stop,
            Action::Abort(e) => ActionView::Abort(*e),
        }
    }
}

/// Whether an HTTP status is in the success range.
pub open spec fn success_status(code: u16) -> bool {
    200 <= code <= 299
}

/// Whether an HTTP status is in the success range (200 to 299).
pub fn is_success_status(code: u16) -> (r: bool)
    ensures
        r == success_status(code),
{
    200 <= code && code <= 299
}

/// What a consumer in `phase` does on `ev`.
pub open spec fn action_for(phase: Phase, ev: StreamEvent) -> ActionView {
    match phase {
        Phase::AwaitingLine => match ev {
            StreamEvent::Line(LineOutcome::Fragment(f)) => if f.done {
                ActionView::EmitAndStop(f.response@)
            } else {
                ActionView::Emit(f.response@)
            },
            StreamEvent::Line(LineOutcome::Skip) => ActionView::Continue,
            StreamEvent::Exhausted => ActionView::Stop,
            StreamEvent::ReadFailed => ActionView::Abort(StreamError::Read),
        },
        _ => ActionView::Stop,
    }
}

/// The phase a consumer in `phase` moves to on `ev`.
pub open spec fn next_phase(phase: Phase, ev: StreamEvent) -> Phase {
    match action_for(phase, ev) {
        ActionView::Continue => phase,
        ActionView::Emit(_) => phase,
        ActionView::EmitAndStop(_) => Phase::Done,
        ActionView::Stop => if phase == Phase::AwaitingLine {
            Phase::Done
        } else {
            phase
        },
        ActionView::Abort(_) => Phase::Failed,
    }
}

/// The text an action shows.
pub open spec fn shown(a: ActionView) -> Seq<char> {
    match a {
        ActionView::Emit(t) => t,
        ActionView::EmitAndStop(t) => t,
        _ => Seq::empty(),
    }
}

/// The phase after a run of events.
pub open spec fn run_phase(phase: Phase, evs: Seq<StreamEvent>) -> Phase
    decreases evs.len(),
{
    if evs.len() == 0 {
        phase
    } else {
        next_phase(run_phase(phase, evs.drop_last()), evs.last())
    }
}

/// The text shown over a run of events, in order.
pub open spec fn run_output(phase: Phase, evs: Seq<StreamEvent>) -> Seq<char>
    decreases evs.len(),
{
    if evs.len() == 0 {
        Seq::empty()
    } else {
        run_output(phase, evs.drop_last()) + shown(action_for(run_phase(phase, evs.drop_last()), evs.last()))
    }
}

/// Whether a phase ends the reply.
pub open spec fn terminal(phase: Phase) -> bool {
    phase != Phase::AwaitingLine
}

/// The decisions of a streamed reply, one event at a time.
pub struct StreamConsumer {
    pub phase: Phase,
}

impl StreamConsumer {
    /// Starts on the reply's status: a status outside the success range fails
    /// the reply before any line is read.
    pub fn open(status: u16) -> (r: Result<StreamConsumer, StreamError>)
        ensures
            success_status(status) ==> r is Ok && r->Ok_0.phase == Phase::AwaitingLine,
            !success_status(status) ==> r == Err::<StreamConsumer, StreamError>(StreamError::Status(status)),
    {
        if is_success_status(status) {
            Ok(StreamConsumer { phase: Phase::AwaitingLine })
        } else {
            Err(StreamError::Status(status))
        }
    }

    /// Takes the next event and says what to do.
    pub fn step(&mut self, ev: StreamEvent) -> (a: Action)
        ensures
            a@ == action_for(old(self).phase, ev),
            final(self).phase == next_phase(old(self).phase, ev),
    {
        match self.phase {
            Phase::AwaitingLine => match ev {
                StreamEvent::Line(LineOutcome::Fragment(f)) => {
                    if f.done {
                        self.phase = Phase::Done;
                        Action::EmitAndStop(f.response)
                    } else {
                        Action::Emit(f.response)
                    }
                },
                StreamEvent::Line(LineOutcome::Skip) => Action::Continue,
                StreamEvent::Exhausted => {
                    self.phase = Phase::Done;
                    Action::Stop
                },
                StreamEvent::ReadFailed => {
                    self.phase = Phase::Failed;
                    Action::Abort(StreamError::Read)
                },
            },
            _ => Action::Stop,
        }
    }
}

/// The outcome of a whole streamed reply.
pub struct StreamReport {
    /// The text shown, in order.
    pub output: String,
    /// Success, or why the reply failed.
    pub result: Result<(), StreamError>,
    /// How many events were taken before the reply ended.
    pub used: usize,
}

/// Runs a consumer over a reply's status and the events its transport
/// reports, and stops at the first event that ends the reply; later events
/// are not taken.
pub fn consume(status: u16, events: Vec<StreamEvent>) -> (r: StreamReport)
    ensures
        !success_status(status) ==> r.output@.len() == 0 && r.used == 0 && r.result == Err::<
            (),
            StreamError,
        >(StreamError::Status(status)),
        success_status(status) ==> {
            let taken = events@.take(r.used as int);
            &&& r.used <= events@.len()
            &&& r.output@ == run_output(Phase::AwaitingLine, taken)
            &&& forall|j: int|
                0 <= j < r.used ==> !terminal(#[trigger] run_phase(Phase::AwaitingLine, events@.take(j)))
            &&& r.used == events@.len() || terminal(run_phase(Phase::AwaitingLine, taken))
            &&& r.result == if run_phase(Phase::AwaitingLine, taken) == Phase::Failed {
                Err::<(), StreamError>(StreamError::Read)
            } else {
                Ok::<(), StreamError>(())
            }
            &&& r.output@ == run_output(Phase::AwaitingLine, events@)
            &&& run_phase(Phase::AwaitingLine, taken) == Phase::Failed <==> run_phase(
                Phase::AwaitingLine,
                events@,
            ) == Phase::Failed
        },
{
    let ghost evs = events@;
    let mut consumer = match StreamConsumer::open(status) {
        Ok(c) => c,
        Err(e) => {
            return StreamReport { output: String::new(), result: Err(e), used: 0 };
        },
    };
    let mut events = events;
    let count = events.len();
    assert(evs.len() == count);
    let mut output = String::new();
    let mut used: usize = 0;
    proof {
        assert(evs.take(0) =~= Seq::<StreamEvent>::empty());
        assert(evs.skip(0) =~= evs);
    }
    while events.len() > 0 && consumer.phase == Phase::AwaitingLine
        invariant
            used <= evs.len(),
            evs.len() <= usize::MAX,
            events.len() + used == evs.len(),
            events@ == evs.skip(used as int),
            consumer.phase == run_phase(Phase::AwaitingLine, evs.take(used as int)),
            output@ == run_output(Phase::AwaitingLine, evs.take(used as int)),
            forall|j: int|
                0 <= j < used ==> !terminal(#[trigger] run_phase(Phase::AwaitingLine, evs.take(j))),
        decreases events.len(),
    {
        let ev = events.remove(0);
        let ghost pre = evs.take(used as int);
        proof {
            assert(ev == evs[used as int]);
            assert(evs.take(used + 1).drop_last() =~= pre);
            assert(evs.take(used + 1).last() == ev);
            assert(events@ =~= evs.skip(used + 1));
        }
        let a = consumer.step(ev);
        match a {
            Action::Emit(t) => {
                output.append(t.as_str());
            },
            Action::EmitAndStop(t) => {
                output.append(t.as_str());
            },
            _ => {},
        }
        used = used + 1;
    }
    proof {
        if events.len() == 0 {
            assert(evs.skip(used as int).len() == 0);
            assert(evs.take(used as int) =~= evs);
        } else {
            lemma_nothing_after_end(Phase::AwaitingLine, evs.take(used as int), evs.skip(used as int));
            assert(evs.take(used as int) + evs.skip(used as int) =~= evs);
        }
    }
    let result = if consumer.phase == Phase::Failed {
        Err(StreamError::Read)
    } else {
        Ok(())
    };
    StreamReport { output, result, used }
}

/// The text of the fragments among a run of lines, in order.
pub open spec fn fragment_text(evs: Seq<StreamEvent>) -> Seq<char>
    decreases evs.len(),
{
    if evs.len() == 0 {
        Seq::empty()
    } else {
        fragment_text(evs.drop_last()) + match evs.last() {
            StreamEvent::Line(LineOutcome::Fragment(f)) => f.response@,
            _ => Seq::empty(),
        }
    }
}

/// A line that reads neither as a final fragment nor as the end of the stream.
pub open spec fn open_line(ev: StreamEvent) -> bool {
    match ev {
        StreamEvent::Line(LineOutcome::Fragment(f)) => !f.done,
        StreamEvent::Line(LineOutcome::Skip) => true,
        _ => false,
    }
}

/// A skipped line changes neither what is shown nor where the consumer ends,
/// wherever it stands in the stream.
pub proof fn lemma_skip_changes_nothing(phase: Phase, a: Seq<StreamEvent>, b: Seq<StreamEvent>)
    ensures
        run_phase(phase, a + seq![StreamEvent::Line(LineOutcome::Skip)] + b) == run_phase(phase, a + b),
        run_output(phase, a + seq![StreamEvent::Line(LineOutcome::Skip)] + b) == run_output(phase, a + b),
    decreases b.len(),
{
    let skip = seq![StreamEvent::Line(LineOutcome::Skip)];
    if b.len() == 0 {
        assert(a + skip + b =~= a.push(StreamEvent::Line(LineOutcome::Skip)));
        assert(a + skip + b == (a + skip + b).drop_last().push((a + skip + b).last()));
        assert((a + skip + b).drop_last() =~= a);
        assert(a + b =~= a);
    } else {
        lemma_skip_changes_nothing(phase, a, b.drop_last());
        assert((a + skip + b).drop_last() =~= a + skip + b.drop_last());
        assert((a + b).drop_last() =~= a + b.drop_last());
        assert((a + skip + b).last() == b.last());
        assert((a + b).last() == b.last());
    }
}

/// Over lines that end nothing, the consumer keeps waiting and shows exactly
/// the text of the fragments among them, in order; skipped lines add nothing.
pub proof fn lemma_shows_fragment_text(evs: Seq<StreamEvent>)
    requires
        forall|i: int| 0 <= i < evs.len() ==> open_line(#[trigger] evs[i]),
    ensures
        run_phase(Phase::AwaitingLine, evs) == Phase::AwaitingLine,
        run_output(Phase::AwaitingLine, evs) == fragment_text(evs),
    decreases evs.len(),
{
    if evs.len() > 0 {
        let pre = evs.drop_last();
        assert forall|i: int| 0 <= i < pre.len() implies open_line(#[trigger] pre[i]) by {
            assert(pre[i] == evs[i]);
        }
        lemma_shows_fragment_text(pre);
        assert(open_line(evs[evs.len() - 1]));
    }
}

/// Once the reply has ended, later events show nothing and change nothing.
pub proof fn lemma_nothing_after_end(phase: Phase, a: Seq<StreamEvent>, b: Seq<StreamEvent>)
    requires
        terminal(run_phase(phase, a)),
    ensures
        run_phase(phase, a + b) == run_phase(phase, a),
        run_output(phase, a + b) == run_output(phase, a),
    decreases b.len(),
{
    if b.len() == 0 {
        assert(a + b =~= a);
    } else {
        lemma_nothing_after_end(phase, a, b.drop_last());
        assert((a + b).drop_last() =~= a + b.drop_last());
        assert((a + b).last() == b.last());
    }
}

/// A run of events with its skipped lines left out.
pub open spec fn without_skips(evs: Seq<StreamEvent>) -> Seq<StreamEvent>
    decreases evs.len(),
{
    if evs.len() == 0 {
        Seq::empty()
    } else if evs.last() == StreamEvent::Line(LineOutcome::Skip) {
        without_skips(evs.drop_last())
    } else {
        without_skips(evs.drop_last()).push(evs.last())
    }
}

/// Leaving out the skipped lines changes neither what is shown nor where the
/// consumer ends.
pub proof fn lemma_without_skips(phase: Phase, evs: Seq<StreamEvent>)
    ensures
        run_phase(phase, without_skips(evs)) == run_phase(phase, evs),
        run_output(phase, without_skips(evs)) == run_output(phase, evs),
    decreases evs.len(),
{
    if evs.len() > 0 {
        lemma_without_skips(phase, evs.drop_last());
        if evs.last() != StreamEvent::Line(LineOutcome::Skip) {
            let w = without_skips(evs.drop_last()).push(evs.last());
            assert(w.drop_last() =~= without_skips(evs.drop_last()));
            assert(w.last() == evs.last());
        }
    }
}

/// Two replies whose lines differ only in skipped lines, of any number and
/// anywhere, show the same text and end the same way: the consumer's report
/// on one equals its report on the other.
pub proof fn lemma_skipped_lines_do_not_matter(a: Seq<StreamEvent>, b: Seq<StreamEvent>)
    requires
        without_skips(a) == without_skips(b),
    ensures
        run_output(Phase::AwaitingLine, a) == run_output(Phase::AwaitingLine, b),
        run_phase(Phase::AwaitingLine, a) == run_phase(Phase::AwaitingLine, b),
{
    lemma_without_skips(Phase::AwaitingLine, a);
    lemma_without_skips(Phase::AwaitingLine, b);
}

} // verus!
