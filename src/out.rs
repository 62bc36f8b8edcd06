use vstd::prelude::*;
use crate::pattern::string_views;
use vstd::string::StringExecFns;

verus! {

/// Default number of lines the aggregator holds before writing them out.
pub const BUF_SIZE: usize = 64;

/// What the aggregator learns from its input channel.
pub enum Event {
    /// A matched line arrived.
    Line(String),
    /// Every sender is gone: no more lines will come.
    Closed,
}

/// What the aggregator asks its driver to do after an event.
pub enum Action {
    /// Nothing to do: wait for the next event.
    Idle,
    /// Append these lines to the destination, each newline-terminated.
    Write(Vec<String>),
    /// Append these lines, if any, then send the completion signal and stop.
    Complete(Option<Vec<String>>),
}

pub ghost enum EventView {
    Line(Seq<char>),
    Closed,
}

pub ghost enum ActionView {
    Idle,
    Write(Seq<Seq<char>>),
    Complete(Option<Seq<Seq<char>>>),
}

/// Abstract state of the aggregator.
pub ghost struct OutView {
    /// Lines accepted and not yet handed out for writing, in arrival order.
    pub buffer: Seq<Seq<char>>,
    /// Largest number of lines handed out in one batch.
    pub capacity: nat,
    /// Whether the completion has been issued.
    pub closed: bool,
}

impl View for Event {
    type V = EventView;

    open spec fn view(&self) -> EventView {
        match self {
            Event::Line(s) => EventView::Line(s@),
            Event::Closed => EventView::Closed,
        }
    }
}

impl View for Action {
    type V = ActionView;

    open spec fn view(&self) -> ActionView {
        match self {
            Action::Idle => ActionView::Idle,
            Action::Write(b) => ActionView::Write(string_views(b@)),
            Action::Complete(None) => ActionView::Complete(None),
            Action::Complete(Some(b)) => ActionView::Complete(Some(string_views(b@))),
        }
    }
}

/// The aggregator's response to one event: a line is appended, and the
/// buffer is handed out as soon as it reaches its capacity; closing hands
/// out what remains, always fewer lines than the capacity.
pub open spec fn next(s: OutView, e: EventView) -> (OutView, ActionView) {
    if s.closed {
        (s, ActionView::Idle)
    } else {
        match e {
            EventView::Line(l) => {
                let b = s.buffer.push(l);
                if b.len() >= s.capacity {
                    (OutView { buffer: Seq::empty(), ..s }, ActionView::Write(b))
                } else {
                    (OutView { buffer: b, ..s }, ActionView::Idle)
                }
            },
            EventView::Closed => if s.buffer.len() == 0 {
                (OutView { closed: true, ..s }, ActionView::Complete(None))
            } else {
                (
                    OutView { buffer: Seq::empty(), closed: true, ..s },
                    ActionView::Complete(Some(s.buffer)),
                )
            },
        }
    }
}

/// The text that a sequence of lines becomes in the destination: each line
/// followed by a newline.
pub open spec fn render(lines: Seq<Seq<char>>) -> Seq<char>
    decreases lines.len(),
{
    if lines.len() == 0 {
        Seq::empty()
    } else {
        render(lines.drop_last()) + lines.last() + seq!['\n']
    }
}

/// The single writer of a scraping run. It buffers matched lines and decides
/// when they are written and when the run is complete; its driver performs
/// the writes and sends the completion signal.
pub struct OutThread {
    buf: Vec<String>,
    capacity: usize,
    closed: bool,
}

impl View for OutThread {
    type V = OutView;

    closed spec fn view(&self) -> OutView {
        OutView { buffer: string_views(self.buf@), capacity: self.capacity as nat, closed: self.closed }
    }
}

impl OutThread {
    /// The buffer is never left full, and holds nothing once closed.
    pub open spec fn wf(&self) -> bool {
        &&& self@.capacity >= 1
        &&& self@.buffer.len() < self@.capacity
        &&& self@.closed ==> self@.buffer.len() == 0
    }

    /// An open aggregator with an empty buffer of the given capacity.
    pub fn new(capacity: usize) -> (r: OutThread)
        requires
            capacity >= 1,
        ensures
            r.wf(),
            r@ == (OutView { buffer: Seq::empty(), capacity: capacity as nat, closed: false }),
    {
        let r = OutThread { buf: Vec::new(), capacity, closed: false };
        assert(string_views(r.buf@) =~= Seq::empty());
        r
    }

    /// Hands out the buffered lines and empties the buffer. An empty buffer
    /// gives `None` and leaves everything as it was: nothing is to be written.
    pub fn flush(&mut self) -> (r: Option<Vec<String>>)
        ensures
            old(self)@.buffer.len() == 0 ==> r is None && final(self)@ == old(self)@,
            old(self)@.buffer.len() > 0 ==> r is Some && string_views(r->Some_0@)
                == old(self)@.buffer && final(self)@ == (OutView {
                buffer: Seq::empty(),
                ..old(self)@
            }),
    {
        if self.buf.len() == 0 {
            return None;
        }
        let mut batch: Vec<String> = Vec::new();
        std::mem::swap(&mut batch, &mut self.buf);
        assert(string_views(self.buf@) =~= Seq::empty());
        Some(batch)
    }

    /// Takes one event and says what is to be done about it.
    pub fn step(&mut self, event: Event) -> (r: Action)
        requires
            old(self).wf(),
        ensures
            final(self).wf(),
            (final(self)@, r@) == next(old(self)@, event@),
    {
        if self.closed {
            return Action::Idle;
        }
        match event {
            Event::Line(line) => {
                let ghost before = self.buf@;
                self.buf.push(line);
                assert(string_views(self.buf@) =~= string_views(before).push(line@));
                if self.buf.len() >= self.capacity {
                    match self.flush() {
                        Some(b) => Action::Write(b),
                        None => Action::Idle,
                    }
                } else {
                    Action::Idle
                }
            },
            Event::Closed => {
                let batch = self.flush();
                self.closed = true;
                Action::Complete(batch)
            },
        }
    }

    /// Whether the completion has been issued.
    pub fn is_closed(&self) -> (r: bool)
        ensures
            r == self@.closed,
    {
        self.closed
    }
}

/// The text that a batch becomes in the destination.
pub fn render_batch(batch: &Vec<String>) -> (r: String)
    ensures
        r@ == render(string_views(batch@)),
{
    let mut r = String::new();
    let mut i: usize = 0;
    while i < batch.len()
        invariant
            i <= batch.len(),
            r@ == render(string_views(batch@.subrange(0, i as int))),
        decreases batch.len() - i,
    {
        let ghost prev = batch@.subrange(0, i as int);
        r.append(batch[i].as_str());
        r.append("\n");
        i = i + 1;
        proof {
            reveal_strlit("\n");
            let cur = string_views(batch@.subrange(0, i as int));
            assert(cur.drop_last() =~= string_views(prev));
            assert(cur.last() == batch@[i - 1]@);
        }
    }
    assert(batch@.subrange(0, i as int) =~= batch@);
    r
}


/// The state of a freshly made aggregator.
pub open spec fn fresh(capacity: nat) -> OutView {
    OutView { buffer: Seq::empty(), capacity, closed: false }
}

/// The state reached and the actions taken after a sequence of events.
pub open spec fn run(s: OutView, events: Seq<EventView>) -> (OutView, Seq<ActionView>)
    decreases events.len(),
{
    if events.len() == 0 {
        (s, Seq::empty())
    } else {
        let (s1, acts) = run(s, events.drop_last());
        let (s2, a) = next(s1, events.last());
        (s2, acts.push(a))
    }
}

/// The lines an action asks to be written.
pub open spec fn batch_of(a: ActionView) -> Seq<Seq<char>> {
    match a {
        ActionView::Write(b) => b,
        ActionView::Complete(Some(b)) => b,
        _ => Seq::empty(),
    }
}

/// The lines written by a sequence of actions, in order.
pub open spec fn written(acts: Seq<ActionView>) -> Seq<Seq<char>>
    decreases acts.len(),
{
    if acts.len() == 0 {
        Seq::empty()
    } else {
        written(acts.drop_last()) + batch_of(acts.last())
    }
}

/// The destination's text after a sequence of actions: each batch appended
/// in turn.
pub open spec fn written_text(acts: Seq<ActionView>) -> Seq<char>
    decreases acts.len(),
{
    if acts.len() == 0 {
        Seq::empty()
    } else {
        written_text(acts.drop_last()) + render(batch_of(acts.last()))
    }
}

/// Whether a sequence of events holds a close.
pub open spec fn has_closed(events: Seq<EventView>) -> bool
    decreases events.len(),
{
    events.len() > 0 && (events.last() is Closed || has_closed(events.drop_last()))
}

/// The lines that arrived before the first close.
pub open spec fn accepted(events: Seq<EventView>) -> Seq<Seq<char>>
    decreases events.len(),
{
    if events.len() == 0 {
        Seq::empty()
    } else if has_closed(events.drop_last()) {
        accepted(events.drop_last())
    } else {
        match events.last() {
            EventView::Line(l) => accepted(events.drop_last()).push(l),
            EventView::Closed => accepted(events.drop_last()),
        }
    }
}

/// How many completions a sequence of actions holds.
pub open spec fn completions(acts: Seq<ActionView>) -> nat
    decreases acts.len(),
{
    if acts.len() == 0 {
        0
    } else {
        completions(acts.drop_last()) + if acts.last() is Complete { 1nat } else { 0nat }
    }
}

/// The events of a run in which the given lines arrive and nothing else.
pub open spec fn line_events(lines: Seq<Seq<char>>) -> Seq<EventView> {
    lines.map_values(|l: Seq<char>| EventView::Line(l))
}

/// Rendering a concatenation is concatenating the renderings.
pub proof fn lemma_render_concat(a: Seq<Seq<char>>, b: Seq<Seq<char>>)
    ensures
        render(a + b) == render(a) + render(b),
    decreases b.len(),
{
    if b.len() == 0 {
        assert(a + b =~= a);
        assert(render(b) =~= Seq::empty());
        assert(render(a) + render(b) =~= render(a));
    } else {
        assert((a + b).drop_last() =~= a + b.drop_last());
        assert((a + b).last() == b.last());
        lemma_render_concat(a, b.drop_last());
        assert(render(a + b) =~= render(a) + render(b));
    }
}

/// The destination's text is the rendering of all the lines written.
pub proof fn lemma_written_text(acts: Seq<ActionView>)
    ensures
        written_text(acts) == render(written(acts)),
    decreases acts.len(),
{
    if acts.len() == 0 {
        assert(render(written(acts)) =~= Seq::empty());
    } else {
        lemma_written_text(acts.drop_last());
        lemma_render_concat(written(acts.drop_last()), batch_of(acts.last()));
    }
}

/// Over any sequence of events: every line that arrived before the close is
/// handed out exactly once, in arrival order, in batches of at most the
/// capacity; the completion is issued once if a close came and never
/// otherwise, and when it is issued every accepted line has been handed
/// out; after it nothing more is written.
pub proof fn lemma_run(capacity: nat, events: Seq<EventView>)
    requires
        capacity >= 1,
    ensures
        ({
            let (s, acts) = run(fresh(capacity), events);
            &&& acts.len() == events.len()
            &&& s.capacity == capacity
            &&& s.buffer.len() < capacity
            &&& s.closed == has_closed(events)
            &&& s.closed ==> s.buffer.len() == 0
            &&& written(acts) + s.buffer == accepted(events)
            &&& completions(acts) == if has_closed(events) { 1nat } else { 0nat }
            &&& forall|k: int| 0 <= k < acts.len() ==> (#[trigger] batch_of(acts[k])).len() <= capacity
            &&& forall|k: int| 0 <= k < acts.len() && (#[trigger] acts[k]) is Complete ==> written(acts.take(k + 1)) == accepted(events)
            &&& forall|k: int| 0 <= k < acts.len() && (#[trigger] acts[k]) is Complete ==> s.closed
            &&& forall|k: int, j: int| 0 <= k < j < acts.len() && (#[trigger] acts[k]) is Complete ==> (#[trigger] acts[j]) is Idle
        }),
    decreases events.len(),
{
    let (s, acts) = run(fresh(capacity), events);
    if events.len() == 0 {
        assert(written(acts) + s.buffer =~= accepted(events));
    } else {
        let prev = events.drop_last();
        lemma_run(capacity, prev);
        let (s1, acts1) = run(fresh(capacity), prev);
        let a = next(s1, events.last()).1;
        assert(acts == acts1.push(a));
        assert(acts.drop_last() =~= acts1);
        assert(acts.take(acts.len() as int) =~= acts);
        if s1.closed {
            assert(written(acts) =~= written(acts1));
        } else {
            match events.last() {
                EventView::Line(l) => {
                    if s1.buffer.len() + 1 >= capacity {
                        assert(written(acts) + s.buffer =~= written(acts1) + s1.buffer.push(l));
                    } else {
                        assert(written(acts) + s.buffer =~= written(acts1) + s1.buffer.push(l));
                    }
                },
                EventView::Closed => {
                    assert(written(acts) + s.buffer =~= written(acts1) + s1.buffer);
                },
            }
        }
        assert forall|k: int, j: int| 0 <= k < j < acts.len() && (#[trigger] acts[k]) is Complete implies (#[trigger] acts[j]) is Idle by {
            if j < acts1.len() {
                assert(acts[k] == acts1[k] && acts[j] == acts1[j]);
            } else {
                assert(acts1[k] is Complete);
                assert(s1.closed);
            }
        }
        assert forall|k: int| 0 <= k < acts.len() && (#[trigger] acts[k]) is Complete implies s.closed by {
            if k < acts1.len() {
                assert(acts1[k] is Complete);
            }
        }
        assert forall|k: int| 0 <= k < acts.len() && (#[trigger] acts[k]) is Complete implies written(acts.take(k + 1)) == accepted(events) by {
            if k < acts1.len() {
                assert(acts1[k] is Complete);
                assert(s1.closed);
                assert(acts.take(k + 1) =~= acts1.take(k + 1));
            } else {
                assert(acts.take(k + 1) =~= acts);
            }
        }
    }
}

/// The lines of a run in which only lines arrive are all accepted, and no
/// close is among its events.
pub proof fn lemma_line_events(lines: Seq<Seq<char>>)
    ensures
        !has_closed(line_events(lines)),
        accepted(line_events(lines)) == lines,
    decreases lines.len(),
{
    if lines.len() > 0 {
        assert(line_events(lines).drop_last() =~= line_events(lines.drop_last()));
        lemma_line_events(lines.drop_last());
        assert(lines.drop_last().push(lines.last()) =~= lines);
    } else {
        assert(accepted(line_events(lines)) =~= lines);
    }
}

/// For every capacity of at least one: when some lines arrive and the input
/// then closes, the destination ends up holding exactly those lines, in
/// arrival order, each followed by a newline; no batch is larger than the
/// capacity, the last one fewer than the capacity; and the completion is
/// issued exactly once, as the last action.
pub proof fn lemma_complete_run_writes_every_line(capacity: nat, lines: Seq<Seq<char>>)
    requires
        capacity >= 1,
    ensures
        ({
            let events = line_events(lines).push(EventView::Closed);
            let (s, acts) = run(fresh(capacity), events);
            &&& written(acts) == lines
            &&& written_text(acts) == render(lines)
            &&& forall|k: int| 0 <= k < acts.len() ==> (#[trigger] batch_of(acts[k])).len() <= capacity
            &&& completions(acts) == 1
            &&& acts.last() is Complete
            &&& batch_of(acts.last()).len() < capacity
            &&& s.closed && s.buffer.len() == 0
        }),
{
    let events = line_events(lines).push(EventView::Closed);
    lemma_line_events(lines);
    assert(events.drop_last() =~= line_events(lines));
    lemma_run(capacity, events);
    lemma_run(capacity, events.drop_last());
    let (s, acts) = run(fresh(capacity), events);
    let (s1, acts1) = run(fresh(capacity), events.drop_last());
    assert(events.last() is Closed);
    assert(has_closed(events));
    assert(accepted(events) == accepted(line_events(lines)));
    assert(acts.last() == next(s1, EventView::Closed).1);
    assert(written(acts) + s.buffer =~= written(acts));
    lemma_written_text(acts);
}

} // verus!
