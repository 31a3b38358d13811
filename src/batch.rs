use vstd::arithmetic::div_mod::{lemma_fundamental_div_mod, lemma_mod_decreases};
use vstd::prelude::*;

verus! {

/// The text of each record, in order.
pub open spec fn texts(v: Seq<String>) -> Seq<Seq<char>> {
    v.map_values(|s: String| s@)
}

/// The records joined by single newlines (no newline after the last one).
pub open spec fn join_lines(records: Seq<Seq<char>>) -> Seq<char>
    decreases records.len(),
{
    if records.len() == 0 {
        Seq::empty()
    } else if records.len() == 1 {
        records[0]
    } else {
        join_lines(records.drop_last()) + seq!['\n'] + records.last()
    }
}

/// The bulk-insert body of a batch: its records newline-joined, with one
/// trailing newline.
pub open spec fn batch_body(records: Seq<Seq<char>>) -> Seq<char> {
    join_lines(records) + seq!['\n']
}

/// Builds the newline-delimited body that one flush sends.
pub fn encode_batch(records: &Vec<String>) -> (r: String)
    ensures
        r@ == batch_body(texts(records@)),
{
    let ghost all = texts(records@);
    let mut out = String::new();
    let mut i: usize = 0;
    while i < records.len()
        invariant
            i <= records.len(),
            all == texts(records@),
            out@ == join_lines(all.take(i as int)),
        decreases records.len() - i,
    {
        proof {
            assert(all.take(i + 1).drop_last() =~= all.take(i as int));
        }
        if i > 0 {
            out.append("\n");
        }
        out.append(records[i].as_str());
        proof {
            reveal_strlit("\n");
            if i == 0 {
                assert(out@ =~= all.take(1)[0]);
            } else {
                assert(out@ =~= join_lines(all.take(i as int)) + seq!['\n'] + all.take(i + 1).last());
            }
        }
        i = i + 1;
    }
    assert(all.take(records.len() as int) =~= all);
    out.append("\n");
    proof {
        reveal_strlit("\n");
    }
    out
}

/// The text that a payload holds when it is valid UTF-8, and `None` otherwise.
pub uninterp spec fn utf8_text(bytes: Seq<u8>) -> Option<Seq<char>>;

/// Relies on `String::from_utf8`: it takes the bytes as text exactly when they
/// are valid UTF-8, and the text depends on the bytes alone.
#[verifier::external_body]
fn decode_utf8(bytes: Vec<u8>) -> (r: Option<String>)
    ensures
        r is Some <==> utf8_text(bytes@) is Some,
        r is Some ==> utf8_text(bytes@) == Some(r->0@),
{
    String::from_utf8(bytes).ok()
}

/// The state of a batcher: the pending records in arrival order, the batch
/// size that triggers a flush, the flush interval and the next timer deadline
/// (both in milliseconds).
pub struct BatchModel {
    pub records: Seq<Seq<char>>,
    pub max_batch: nat,
    pub interval: nat,
    pub next_tick: nat,
}

/// What the event loop is asked to do after an event.
pub enum Outcome {
    /// Nothing: wait for the next event.
    Wait,
    /// The payload was not text and was dropped.
    Discard,
    /// Send this bulk-insert body.
    Flush(Seq<char>),
    /// The message stream is closed: leave the loop.
    Stop,
}

/// An event of the loop: a message (its text, or `None` when it was not valid
/// UTF-8), a timer expiry at a time, or the end of the message stream.
pub enum Input {
    Message(Option<Seq<char>>),
    Tick(nat),
    Closed,
}

impl BatchModel {
    /// Between events the buffer is below the batch size, or empty.
    pub open spec fn at_rest(self) -> bool {
        self.records.len() == 0 || self.records.len() < self.max_batch
    }

    /// A usable batcher: a positive interval and a buffer at rest.
    pub open spec fn wf(self) -> bool {
        self.interval > 0 && self.at_rest()
    }

    pub open spec fn with_records(self, records: Seq<Seq<char>>) -> BatchModel {
        BatchModel { records, ..self }
    }
}

/// A message: text is appended; once the batch holds `max_batch` records it is
/// flushed and emptied.
pub open spec fn accept_model(m: BatchModel, text: Option<Seq<char>>) -> (BatchModel, Outcome) {
    match text {
        None => (m, Outcome::Discard),
        Some(t) => {
            let recs = m.records.push(t);
            if recs.len() >= m.max_batch {
                (m.with_records(Seq::empty()), Outcome::Flush(batch_body(recs)))
            } else {
                (m.with_records(recs), Outcome::Wait)
            }
        },
    }
}

/// The first deadline after `now` on the grid `next + k * interval`: missed
/// deadlines are skipped, never made up.
pub open spec fn next_deadline(next: nat, interval: nat, now: nat) -> nat {
    (now - (now - next) % (interval as int) + interval) as nat
}

/// A timer expiry: before the deadline nothing happens; at or after it a
/// non-empty batch is flushed and the deadline moves past `now`.
pub open spec fn tick_model(m: BatchModel, now: nat) -> (BatchModel, Outcome) {
    if now < m.next_tick {
        (m, Outcome::Wait)
    } else {
        let m2 = BatchModel {
            records: Seq::empty(),
            next_tick: next_deadline(m.next_tick, m.interval, now),
            ..m
        };
        if m.records.len() > 0 {
            (m2, Outcome::Flush(batch_body(m.records)))
        } else {
            (m2, Outcome::Wait)
        }
    }
}

/// One event.
pub open spec fn step_model(m: BatchModel, input: Input) -> (BatchModel, Outcome) {
    match input {
        Input::Message(text) => accept_model(m, text),
        Input::Tick(now) => tick_model(m, now),
        Input::Closed => (m, Outcome::Stop),
    }
}

/// A sequence of events, with the outcome of each.
pub open spec fn run_model(m: BatchModel, inputs: Seq<Input>) -> (BatchModel, Seq<Outcome>)
    decreases inputs.len(),
{
    if inputs.len() == 0 {
        (m, Seq::empty())
    } else {
        let prev = run_model(m, inputs.drop_last());
        let last = step_model(prev.0, inputs.last());
        (last.0, prev.1.push(last.1))
    }
}

/// An event as the loop hands it over.
pub enum Event {
    Message(Vec<u8>),
    Tick(u64),
    Closed,
}

impl View for Event {
    type V = Input;

    open spec fn view(&self) -> Input {
        match self {
            Event::Message(bytes) => Input::Message(utf8_text(bytes@)),
            Event::Tick(now) => Input::Tick(*now as nat),
            Event::Closed => Input::Closed,
        }
    }
}

/// What the loop must do next.
pub enum Action {
    Wait,
    Discard,
    Flush(String),
    Stop,
}

impl View for Action {
    type V = Outcome;

    open spec fn view(&self) -> Outcome {
        match self {
            Action::Wait => Outcome::Wait,
            Action::Discard => Outcome::Discard,
            Action::Flush(body) => Outcome::Flush(body@),
            Action::Stop => Outcome::Stop,
        }
    }
}

/// The batching engine of the ingestor: one ordered buffer, flushed when it
/// reaches the batch size or when the flush timer expires.
pub struct Batcher {
    buf: Vec<String>,
    max_batch: usize,
    interval_ms: u64,
    next_tick_ms: u64,
}

impl View for Batcher {
    type V = BatchModel;

    closed spec fn view(&self) -> BatchModel {
        BatchModel {
            records: texts(self.buf@),
            max_batch: self.max_batch as nat,
            interval: self.interval_ms as nat,
            next_tick: self.next_tick_ms as nat,
        }
    }
}

impl Batcher {
    /// An empty batcher whose timer first expires at `start_ms`.
    pub fn new(max_batch: usize, interval_ms: u64, start_ms: u64) -> (r: Self)
        requires
            interval_ms > 0,
        ensures
            r@ == (BatchModel {
                records: Seq::empty(),
                max_batch: max_batch as nat,
                interval: interval_ms as nat,
                next_tick: start_ms as nat,
            }),
            r@.wf(),
    {
        let r = Batcher { buf: Vec::new(), max_batch, interval_ms, next_tick_ms: start_ms };
        assert(r@.records =~= Seq::empty());
        r
    }

    /// The records waiting for the next flush, in arrival order.
    pub fn pending(&self) -> (r: &Vec<String>)
        ensures
            texts(r@) == self@.records,
    {
        &self.buf
    }

    /// The time at which the timer next expires.
    pub fn next_tick_ms(&self) -> (r: u64)
        ensures
            r as nat == self@.next_tick,
    {
        self.next_tick_ms
    }

    /// The batch size that triggers a flush.
    pub fn max_batch(&self) -> (r: usize)
        ensures
            r as nat == self@.max_batch,
    {
        self.max_batch
    }

    /// Takes the pending records out and returns their bulk-insert body.
    fn take_body(&mut self) -> (body: String)
        ensures
            body@ == batch_body(old(self)@.records),
            final(self)@ == old(self)@.with_records(Seq::empty()),
    {
        let body = encode_batch(&self.buf);
        self.buf = Vec::new();
        assert(final(self)@.records =~= Seq::empty());
        body
    }

    /// Handles a message whose payload has already been decoded (`None` when
    /// it was not valid UTF-8).
    pub fn accept(&mut self, text: Option<String>) -> (r: Action)
        ensures
            (final(self)@, r@) == accept_model(
                old(self)@,
                match text {
                    Some(s) => Some(s@),
                    None => None,
                },
            ),
            old(self)@.wf() ==> final(self)@.wf(),
            old(self)@.wf() && old(self)@.max_batch >= 1 && r is Flush
                ==> old(self)@.records.len() + 1 == old(self)@.max_batch,
    {
        match text {
            None => Action::Discard,
            Some(s) => {
                self.buf.push(s);
                assert(self@.records =~= old(self)@.records.push(s@));
                if self.buf.len() >= self.max_batch {
                    let body = self.take_body();
                    Action::Flush(body)
                } else {
                    Action::Wait
                }
            },
        }
    }

    /// Handles a message payload: text is buffered, anything else dropped.
    pub fn on_message(&mut self, payload: Vec<u8>) -> (r: Action)
        ensures
            (final(self)@, r@) == accept_model(old(self)@, utf8_text(payload@)),
            old(self)@.wf() ==> final(self)@.wf(),
    {
        let text = decode_utf8(payload);
        self.accept(text)
    }

    /// Handles an expiry of the flush timer at `now_ms`.
    pub fn on_tick(&mut self, now_ms: u64) -> (r: Action)
        requires
            old(self)@.wf(),
            now_ms + old(self)@.interval <= u64::MAX,
        ensures
            (final(self)@, r@) == tick_model(old(self)@, now_ms as nat),
            final(self)@.wf(),
    {
        if now_ms < self.next_tick_ms {
            return Action::Wait;
        }
        let lag = (now_ms - self.next_tick_ms) % self.interval_ms;
        proof {
            lemma_mod_decreases((now_ms - self.next_tick_ms) as nat, self.interval_ms as nat);
        }
        let next = now_ms - lag + self.interval_ms;
        let r = if self.buf.len() > 0 {
            Action::Flush(self.take_body())
        } else {
            assert(self@.records =~= Seq::empty());
            Action::Wait
        };
        self.next_tick_ms = next;
        r
    }

    /// Handles one event of the loop.
    pub fn handle(&mut self, event: Event) -> (r: Action)
        requires
            old(self)@.wf(),
            event is Tick ==> event->Tick_0 + old(self)@.interval <= u64::MAX,
        ensures
            (final(self)@, r@) == step_model(old(self)@, event@),
            final(self)@.wf(),
    {
        match event {
            Event::Message(payload) => self.on_message(payload),
            Event::Tick(now) => self.on_tick(now),
            Event::Closed => Action::Stop,
        }
    }
}

/// A non-empty body is its records in order, each followed by one newline.
pub proof fn lemma_body_terminates_each_record(records: Seq<Seq<char>>)
    requires
        records.len() > 0,
    ensures
        batch_body(records) == records.map_values(|r: Seq<char>| r + seq!['\n']).flatten(),
    decreases records.len(),
{
    let lines = records.map_values(|r: Seq<char>| r + seq!['\n']);
    if records.len() == 1 {
        lines.lemma_flatten_singleton();
    } else {
        let front = records.drop_last();
        lemma_body_terminates_each_record(front);
        let front_lines = front.map_values(|r: Seq<char>| r + seq!['\n']);
        assert(front_lines.push(records.last() + seq!['\n']) =~= lines);
        front_lines.lemma_flatten_push(records.last() + seq!['\n']);
        assert(batch_body(records) =~= batch_body(front) + (records.last() + seq!['\n']));
    }
}

/// Where the first line of a text ends: the index of its first newline, or the
/// text's length where it has none.
pub open spec fn line_end(text: Seq<char>) -> nat
    decreases text.len(),
{
    if text.len() == 0 || text[0] == '\n' {
        0
    } else {
        1 + line_end(text.drop_first())
    }
}

/// The lines of a text: the pieces between its newlines, where a final newline
/// ends the last line rather than starting an empty one.
pub open spec fn split_lines(text: Seq<char>) -> Seq<Seq<char>>
    decreases text.len(),
{
    if text.len() == 0 {
        Seq::empty()
    } else if line_end(text) >= text.len() {
        seq![text]
    } else {
        seq![text.take(line_end(text) as int)] + split_lines(text.skip(line_end(text) as int + 1))
    }
}

proof fn lemma_line_end_of_line(line: Seq<char>, rest: Seq<char>)
    requires
        !line.contains('\n'),
    ensures
        line_end(line + seq!['\n'] + rest) == line.len(),
    decreases line.len(),
{
    let text = line + seq!['\n'] + rest;
    if line.len() == 0 {
        assert(text[0] == '\n');
    } else {
        assert(text[0] == line[0]);
        assert(!line.drop_first().contains('\n')) by {
            if line.drop_first().contains('\n') {
                let j = choose|j: int| 0 <= j < line.drop_first().len() && line.drop_first()[j] == '\n';
                assert(line[j + 1] == '\n');
            }
        }
        lemma_line_end_of_line(line.drop_first(), rest);
        assert(text.drop_first() =~= line.drop_first() + seq!['\n'] + rest);
    }
}

proof fn lemma_split_terminated_lines(records: Seq<Seq<char>>)
    requires
        forall|i: int| 0 <= i < records.len() ==> !(#[trigger] records[i]).contains('\n'),
    ensures
        split_lines(records.map_values(|r: Seq<char>| r + seq!['\n']).flatten()) == records,
    decreases records.len(),
{
    let lines = records.map_values(|r: Seq<char>| r + seq!['\n']);
    if records.len() == 0 {
        assert(records =~= Seq::<Seq<char>>::empty());
    } else {
        let rest_records = records.drop_first();
        assert forall|i: int| 0 <= i < rest_records.len() implies !(#[trigger] rest_records[i]).contains('\n') by {
            assert(rest_records[i] == records[i + 1]);
        }
        lemma_split_terminated_lines(rest_records);
        let first = records[0];
        let rest = lines.drop_first().flatten();
        assert(lines.drop_first() =~= rest_records.map_values(|r: Seq<char>| r + seq!['\n']));
        let text = lines.flatten();
        assert(text == first + seq!['\n'] + rest);
        lemma_line_end_of_line(first, rest);
        assert(text.take(first.len() as int) =~= first);
        assert(text.skip(first.len() as int + 1) =~= rest);
        assert(seq![first] + rest_records =~= records);
    }
}

/// A body is read back into its records by splitting it at its newlines,
/// in order, as long as no record holds a newline itself.
pub proof fn lemma_body_round_trip(records: Seq<Seq<char>>)
    requires
        records.len() > 0,
        forall|i: int| 0 <= i < records.len() ==> !(#[trigger] records[i]).contains('\n'),
    ensures
        split_lines(batch_body(records)) == records,
{
    lemma_body_terminates_each_record(records);
    lemma_split_terminated_lines(records);
}

/// Every event keeps a usable batcher usable, with its batch size and interval.
pub proof fn lemma_run_stays_at_rest(m: BatchModel, inputs: Seq<Input>)
    requires
        m.wf(),
    ensures
        run_model(m, inputs).0.wf(),
        run_model(m, inputs).0.max_batch == m.max_batch,
        run_model(m, inputs).0.interval == m.interval,
        run_model(m, inputs).1.len() == inputs.len(),
    decreases inputs.len(),
{
    if inputs.len() > 0 {
        lemma_run_stays_at_rest(m, inputs.drop_last());
    }
}

/// In any run of a usable batcher, a flush caused by a message carries exactly
/// `max_batch` records: the ones buffered before it and the message's own.
pub proof fn lemma_size_flushes_are_full(m: BatchModel, inputs: Seq<Input>, i: int)
    requires
        m.wf(),
        m.max_batch >= 1,
        0 <= i < inputs.len(),
        inputs[i] is Message,
        run_model(m, inputs.take(i + 1)).1[i] is Flush,
    ensures
        run_model(m, inputs.take(i)).0.records.len() + 1 == m.max_batch,
        run_model(m, inputs.take(i + 1)).1[i] == Outcome::Flush(
            batch_body(run_model(m, inputs.take(i)).0.records.push(inputs[i]->Message_0->0)),
        ),
{
    assert(inputs.take(i + 1).drop_last() =~= inputs.take(i));
    assert(inputs.take(i + 1).last() == inputs[i]);
    lemma_run_stays_at_rest(m, inputs.take(i));
}

/// Whether a record was already buffered, or arrived as the text of one of the
/// messages.
pub open spec fn delivered(m: BatchModel, inputs: Seq<Input>, record: Seq<char>) -> bool {
    m.records.contains(record) || exists|i: int|
        0 <= i < inputs.len() && #[trigger] inputs[i] == Input::Message(Some(record))
}

/// Over any run, the buffer (and so every body flushed from it) holds only
/// records that arrived as decoded text: a payload that was not UTF-8 never
/// enters it.
pub proof fn lemma_buffer_holds_only_decoded_text(m: BatchModel, inputs: Seq<Input>)
    ensures
        forall|j: int|
            0 <= j < run_model(m, inputs).0.records.len() ==> delivered(
                m,
                inputs,
                #[trigger] run_model(m, inputs).0.records[j],
            ),
    decreases inputs.len(),
{
    if inputs.len() > 0 {
        let front = inputs.drop_last();
        lemma_buffer_holds_only_decoded_text(m, front);
        let before = run_model(m, front).0;
        let after = run_model(m, inputs).0;
        let last = inputs.last();
        assert forall|j: int| 0 <= j < after.records.len() implies delivered(m, inputs, #[trigger] after.records[j]) by {
            let r = after.records[j];
            if j < before.records.len() && after.records[j] == before.records[j] {
                assert(delivered(m, front, r));
                if !m.records.contains(r) {
                    let i = choose|i: int| 0 <= i < front.len() && #[trigger] front[i] == Input::Message(Some(r));
                    assert(inputs[i] == front[i]);
                }
            } else {
                assert(last == inputs[inputs.len() - 1]);
                assert(inputs[inputs.len() - 1] == Input::Message(Some(r)));
            }
        }
    }
}

/// While fewer than `max_batch` records have arrived and the timer has not
/// expired, no flush happens: every event only waits, discards or stops.
pub proof fn lemma_no_flush_before_trigger(m: BatchModel, inputs: Seq<Input>)
    requires
        m.records.len() + inputs.len() < m.max_batch,
        forall|i: int| 0 <= i < inputs.len() && #[trigger] inputs[i] is Tick ==> inputs[i]->Tick_0 < m.next_tick,
    ensures
        forall|i: int| 0 <= i < inputs.len() ==> !(#[trigger] run_model(m, inputs).1[i] is Flush),
        run_model(m, inputs).1.len() == inputs.len(),
        run_model(m, inputs).0.next_tick == m.next_tick,
        run_model(m, inputs).0.max_batch == m.max_batch,
        run_model(m, inputs).0.records.len() <= m.records.len() + inputs.len(),
    decreases inputs.len(),
{
    if inputs.len() > 0 {
        let front = inputs.drop_last();
        assert forall|i: int| 0 <= i < front.len() && #[trigger] front[i] is Tick implies front[i]->Tick_0 < m.next_tick by {
            assert(front[i] == inputs[i]);
        }
        lemma_no_flush_before_trigger(m, front);
        let last = inputs.last();
        assert(last == inputs[inputs.len() - 1]);
    }
}

/// A timer expiry moves the deadline past `now` by at most one interval and
/// keeps it on the grid of the previous deadline.
pub proof fn lemma_deadline_skips_missed_ticks(m: BatchModel, now: nat)
    requires
        m.interval > 0,
        m.next_tick <= now,
    ensures
        now < tick_model(m, now).0.next_tick <= now + m.interval,
        (tick_model(m, now).0.next_tick - m.next_tick) % (m.interval as int) == 0,
{
    let p = m.interval as int;
    let d = now - m.next_tick;
    lemma_fundamental_div_mod(d, p);
    let q = d / p;
    let next = tick_model(m, now).0.next_tick;
    assert(next - m.next_tick == (q + 1) * p) by (nonlinear_arith)
        requires
            d == p * q + d % p,
            next == now - d % p + p,
            d == now - m.next_tick;
    vstd::arithmetic::div_mod::lemma_mod_multiples_basic(q + 1, p);
}

/// Missed ticks are never made up: after a timer flush at `t1`, a second
/// expiry within the same interval of the grid does nothing.
pub proof fn lemma_one_flush_per_interval(m: BatchModel, t1: nat, t2: nat)
    requires
        m.interval > 0,
        m.next_tick <= t1 <= t2,
        (t2 - m.next_tick) / (m.interval as int) == (t1 - m.next_tick) / (m.interval as int),
    ensures
        tick_model(tick_model(m, t1).0, t2) == (tick_model(m, t1).0, Outcome::Wait),
{
    let p = m.interval as int;
    let d1 = t1 - m.next_tick;
    let d2 = t2 - m.next_tick;
    lemma_fundamental_div_mod(d1, p);
    lemma_fundamental_div_mod(d2, p);
    let q = d1 / p;
    assert(d2 == p * q + d2 % p);
    let next = tick_model(m, t1).0.next_tick;
    assert(next == m.next_tick + p * q + p);
    assert(t2 < next);
}

/// A payload that is not valid UTF-8 changes nothing and never stops the loop.
pub proof fn lemma_undecodable_dropped(m: BatchModel)
    ensures
        step_model(m, Input::Message(None)) == (m, Outcome::Discard),
{
}

/// Only the end of the message stream stops the loop.
pub proof fn lemma_only_close_stops(m: BatchModel, inputs: Seq<Input>)
    ensures
        run_model(m, inputs).1.len() == inputs.len(),
        forall|i: int| 0 <= i < inputs.len() ==> (#[trigger] run_model(m, inputs).1[i] is Stop <==> inputs[i] is Closed),
    decreases inputs.len(),
{
    if inputs.len() > 0 {
        lemma_only_close_stops(m, inputs.drop_last());
        let prev = run_model(m, inputs.drop_last());
        let r = run_model(m, inputs);
        assert forall|i: int| 0 <= i < inputs.len() implies (#[trigger] r.1[i] is Stop <==> inputs[i] is Closed) by {
            if i < inputs.len() - 1 {
                assert(r.1[i] == prev.1[i]);
                assert(inputs[i] == inputs.drop_last()[i]);
            }
        }
    }
}

/// After any flush the buffer is empty, and the next text starts a new batch
/// of its own.
pub proof fn lemma_flush_starts_new_batch(m: BatchModel, input: Input, text: Seq<char>)
    requires
        step_model(m, input).1 is Flush,
    ensures
        step_model(m, input).0.records == Seq::<Seq<char>>::empty(),
        accept_model(step_model(m, input).0, Some(text)).0.records == seq![text]
            || accept_model(step_model(m, input).0, Some(text)) == (step_model(m, input).0, Outcome::Flush(batch_body(seq![text]))),
{
    let after = step_model(m, input).0;
    assert(after.records.push(text) =~= seq![text]);
    assert(after.with_records(Seq::empty()) =~= after);
}

/// The events that deliver these texts, in order.
pub open spec fn messages(msgs: Seq<Seq<char>>) -> Seq<Input> {
    Seq::new(msgs.len(), |i: int| Input::Message(Some(msgs[i])))
}

/// Texts that arrive into an empty batcher with no timer expiry are buffered
/// in arrival order until the batch is full.
pub proof fn lemma_messages_buffered(m: BatchModel, msgs: Seq<Seq<char>>)
    requires
        m.records.len() == 0,
        msgs.len() < m.max_batch,
    ensures
        run_model(m, messages(msgs)) == (m.with_records(msgs), Seq::new(msgs.len(), |i: int| Outcome::Wait)),
    decreases msgs.len(),
{
    if msgs.len() == 0 {
        assert(msgs =~= m.records);
        assert(m.with_records(msgs) =~= m);
        assert(Seq::new(0, |i: int| Outcome::Wait) =~= Seq::<Outcome>::empty());
    } else {
        let front = msgs.drop_last();
        lemma_messages_buffered(m, front);
        assert(messages(msgs).drop_last() =~= messages(front));
        assert(front.push(msgs.last()) =~= msgs);
        assert(Seq::new(front.len(), |i: int| Outcome::Wait).push(Outcome::Wait) =~= Seq::new(msgs.len(), |i: int| Outcome::Wait));
    }
}

/// A full batch of texts arriving into an empty batcher is flushed as one body
/// that holds them newline-joined, in arrival order, with a trailing newline;
/// the buffer is then empty.
pub proof fn lemma_full_batch_flushed_in_order(m: BatchModel, msgs: Seq<Seq<char>>)
    requires
        m.records.len() == 0,
        msgs.len() == m.max_batch,
        msgs.len() > 0,
    ensures
        run_model(m, messages(msgs)).0 == m,
        run_model(m, messages(msgs)).1.len() == msgs.len(),
        forall|i: int| 0 <= i < msgs.len() - 1 ==> #[trigger] run_model(m, messages(msgs)).1[i] == Outcome::Wait,
        run_model(m, messages(msgs)).1.last() == Outcome::Flush(join_lines(msgs) + seq!['\n']),
{
    let front = msgs.drop_last();
    lemma_messages_buffered(m, front);
    assert(messages(msgs).drop_last() =~= messages(front));
    assert(front.push(msgs.last()) =~= msgs);
    assert(m.with_records(front).with_records(Seq::empty()) =~= m) by {
        assert(m.records =~= Seq::<Seq<char>>::empty());
    }
}

} // verus!
