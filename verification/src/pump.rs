//! The output pump: one per live session, it turns the raw bytes read
//! from the child's standard-output pipe into discrete line events, in
//! the order the bytes arrived, reports at most one read failure, and
//! ends with exactly one exit event.
//!
//! The pump itself is a state machine over plain values.  The embedding
//! application performs the blocking reads and hands each outcome to
//! [`OutputPump::on_read`]; once the stream has ended it waits for the
//! child to terminate and hands the exit status to [`OutputPump::on_exit`].

use vstd::prelude::*;

verus! {

/// Byte that terminates a record on the output stream.
pub const LINE_FEED: u8 = 10;

/// Byte that a record sheds when it stands directly before the terminator.
pub const CARRIAGE_RETURN: u8 = 13;

/// The text of a record whose gathered bytes are `acc`: one carriage
/// return is stripped from the end if present.
pub open spec fn record_text(acc: Seq<u8>) -> Seq<u8> {
    if acc.len() > 0 && acc.last() == CARRIAGE_RETURN {
        acc.drop_last()
    } else {
        acc
    }
}

/// The complete records that scanning `s` yields when `pending` bytes
/// stand gathered from earlier reads.
pub open spec fn records_from(pending: Seq<u8>, s: Seq<u8>) -> Seq<Seq<u8>>
    decreases s.len(),
{
    if s.len() == 0 {
        Seq::empty()
    } else if s[0] == LINE_FEED {
        seq![record_text(pending)] + records_from(Seq::empty(), s.drop_first())
    } else {
        records_from(pending.push(s[0]), s.drop_first())
    }
}

/// The bytes gathered but not yet terminated after scanning `s` with
/// `pending` bytes already gathered.
pub open spec fn pending_after(pending: Seq<u8>, s: Seq<u8>) -> Seq<u8>
    decreases s.len(),
{
    if s.len() == 0 {
        pending
    } else if s[0] == LINE_FEED {
        pending_after(Seq::empty(), s.drop_first())
    } else {
        pending_after(pending.push(s[0]), s.drop_first())
    }
}

/// Scanning one more byte extends the records only on a terminator.
pub proof fn lemma_scan_push(pending: Seq<u8>, s: Seq<u8>, b: u8)
    ensures
        b == LINE_FEED ==> records_from(pending, s.push(b)) == records_from(pending, s).push(
            record_text(pending_after(pending, s)),
        ),
        b != LINE_FEED ==> records_from(pending, s.push(b)) == records_from(pending, s),
        b == LINE_FEED ==> pending_after(pending, s.push(b)) == Seq::<u8>::empty(),
        b != LINE_FEED ==> pending_after(pending, s.push(b)) == pending_after(pending, s).push(b),
    decreases s.len(),
{
    reveal_with_fuel(records_from, 3);
    reveal_with_fuel(pending_after, 3);
    if s.len() == 0 {
        assert(s.push(b)[0] == b);
        assert(s.push(b).drop_first() =~= Seq::<u8>::empty());
        if b == LINE_FEED {
            assert(records_from(pending, s.push(b)) =~~= records_from(pending, s).push(
                record_text(pending_after(pending, s)),
            ));
        } else {
            assert(records_from(pending, s.push(b)) =~~= records_from(pending, s));
            assert(pending_after(pending, s.push(b)) =~= pending_after(pending, s).push(b));
        }
    } else {
        assert(s.push(b)[0] == s[0]);
        assert(s.push(b).drop_first() =~= s.drop_first().push(b));
        if s[0] == LINE_FEED {
            lemma_scan_push(Seq::empty(), s.drop_first(), b);
            if b == LINE_FEED {
                assert(records_from(pending, s.push(b)) =~~= records_from(pending, s).push(
                    record_text(pending_after(pending, s)),
                ));
            }
        } else {
            lemma_scan_push(pending.push(s[0]), s.drop_first(), b);
        }
    }
}

/// Scanning a concatenation scans the parts in turn: chunk boundaries
/// in the input stream never change the records that come out.
pub proof fn lemma_scan_concat(pending: Seq<u8>, s: Seq<u8>, t: Seq<u8>)
    ensures
        records_from(pending, s + t) == records_from(pending, s) + records_from(
            pending_after(pending, s),
            t,
        ),
        pending_after(pending, s + t) == pending_after(pending_after(pending, s), t),
    decreases s.len(),
{
    if s.len() == 0 {
        assert(s + t =~= t);
        assert(records_from(pending, s + t) =~~= records_from(pending, s) + records_from(
            pending_after(pending, s),
            t,
        ));
    } else {
        assert((s + t)[0] == s[0]);
        assert((s + t).drop_first() =~= s.drop_first() + t);
        if s[0] == LINE_FEED {
            lemma_scan_concat(Seq::empty(), s.drop_first(), t);
            assert(records_from(pending, s + t) =~~= records_from(pending, s) + records_from(
                pending_after(pending, s),
                t,
            ));
        } else {
            lemma_scan_concat(pending.push(s[0]), s.drop_first(), t);
        }
    }
}

/// A stretch of bytes without a terminator yields no record and is
/// gathered whole.
pub proof fn lemma_scan_no_terminator(pending: Seq<u8>, s: Seq<u8>)
    requires
        forall|i: int| 0 <= i < s.len() ==> s[i] != LINE_FEED,
    ensures
        records_from(pending, s) == Seq::<Seq<u8>>::empty(),
        pending_after(pending, s) == pending + s,
    decreases s.len(),
{
    if s.len() == 0 {
        assert(pending_after(pending, s) =~= pending + s);
    } else {
        lemma_scan_no_terminator(pending.push(s[0]), s.drop_first());
        assert(pending.push(s[0]) + s.drop_first() =~= pending + s);
    }
}

/// One outcome of a read from a session's standard-output pipe, as the
/// embedding application observed it.
pub enum ReadEvent {
    /// The read returned these bytes.
    Data(Vec<u8>),
    /// The stream ended cleanly.
    Closed,
    /// The read failed with this description.
    Failed(String),
}

/// The mathematical value of a [`ReadEvent`].
pub enum ReadView {
    Data(Seq<u8>),
    Closed,
    Failed(Seq<char>),
}

impl View for ReadEvent {
    type V = ReadView;

    open spec fn view(&self) -> ReadView {
        match self {
            ReadEvent::Data(chunk) => ReadView::Data(chunk@),
            ReadEvent::Closed => ReadView::Closed,
            ReadEvent::Failed(message) => ReadView::Failed(message@),
        }
    }
}

/// One event of a session, as delivered to the consumer.
pub enum ShellEvent {
    /// One complete output record.
    Output { session_id: String, line: Vec<u8> },
    /// The output stream failed; the pump reads no further.
    Error { session_id: String, message: String },
    /// The session's process terminated, with its exit code if one
    /// could be determined.
    Exit { session_id: String, status: Option<i32> },
}

/// The mathematical value of a [`ShellEvent`].
pub enum EventView {
    Output { session_id: Seq<char>, line: Seq<u8> },
    Error { session_id: Seq<char>, message: Seq<char> },
    Exit { session_id: Seq<char>, status: Option<i32> },
}

impl View for ShellEvent {
    type V = EventView;

    open spec fn view(&self) -> EventView {
        match self {
            ShellEvent::Output { session_id, line } => EventView::Output {
                session_id: session_id@,
                line: line@,
            },
            ShellEvent::Error { session_id, message } => EventView::Error {
                session_id: session_id@,
                message: message@,
            },
            ShellEvent::Exit { session_id, status } => EventView::Exit {
                session_id: session_id@,
                status: *status,
            },
        }
    }
}

/// The given records of session `sid`, each as one output event, in order.
pub open spec fn output_events(sid: Seq<char>, records: Seq<Seq<u8>>) -> Seq<EventView> {
    records.map_values(|r: Seq<u8>| EventView::Output { session_id: sid, line: r })
}

/// The mathematical values of a sequence of events.
pub open spec fn event_views(events: Seq<ShellEvent>) -> Seq<EventView> {
    events.map_values(|e: ShellEvent| e@)
}

/// Taking views commutes with appending one event.
pub proof fn lemma_event_views_push(events: Seq<ShellEvent>, e: ShellEvent)
    ensures
        event_views(events.push(e)) == event_views(events).push(e@),
{
    assert(event_views(events.push(e)) =~= event_views(events).push(e@));
}

/// Taking views commutes with concatenation.
pub proof fn lemma_event_views_concat(a: Seq<ShellEvent>, b: Seq<ShellEvent>)
    ensures
        event_views(a + b) == event_views(a) + event_views(b),
{
    assert(event_views(a + b) =~= event_views(a) + event_views(b));
}

/// Wrapping records as output events commutes with appending one record.
pub proof fn lemma_output_events_push(sid: Seq<char>, records: Seq<Seq<u8>>, r: Seq<u8>)
    ensures
        output_events(sid, records.push(r)) == output_events(sid, records).push(
            EventView::Output { session_id: sid, line: r },
        ),
{
    assert(output_events(sid, records.push(r)) =~= output_events(sid, records).push(
        EventView::Output { session_id: sid, line: r },
    ));
}

/// Wrapping records as output events commutes with concatenation.
pub proof fn lemma_output_events_concat(sid: Seq<char>, a: Seq<Seq<u8>>, b: Seq<Seq<u8>>)
    ensures
        output_events(sid, a + b) == output_events(sid, a) + output_events(sid, b),
{
    assert(output_events(sid, a + b) =~= output_events(sid, a) + output_events(sid, b));
}

/// Every event the pump emits for the given read outcomes, before the
/// final exit event: records in read order until the stream ends, and
/// one error event if a read failed.  Outcomes after the end of the
/// stream contribute nothing.
pub open spec fn read_events(sid: Seq<char>, pending: Seq<u8>, reads: Seq<ReadView>) -> Seq<
    EventView,
>
    decreases reads.len(),
{
    if reads.len() == 0 {
        Seq::empty()
    } else {
        match reads[0] {
            ReadView::Data(chunk) => output_events(sid, records_from(pending, chunk))
                + read_events(sid, pending_after(pending, chunk), reads.drop_first()),
            ReadView::Closed => Seq::empty(),
            ReadView::Failed(m) => seq![EventView::Error { session_id: sid, message: m }],
        }
    }
}

/// Every event of one whole session run: the read events, then exactly
/// one exit event at the very end.
pub open spec fn session_events(
    sid: Seq<char>,
    reads: Seq<ReadView>,
    status: Option<i32>,
) -> Seq<EventView> {
    read_events(sid, Seq::empty(), reads) + seq![
        EventView::Exit { session_id: sid, status },
    ]
}

/// The drain loop's state for one session: the session's identifier,
/// the bytes of the current unterminated record, and whether the output
/// stream has ended.
pub struct OutputPump {
    session_id: String,
    buf: Vec<u8>,
    done: bool,
}

impl OutputPump {
    /// The identifier every event of this pump carries.
    pub closed spec fn id(self) -> Seq<char> {
        self.session_id@
    }

    /// The bytes gathered so far towards the next record.
    pub closed spec fn pending(self) -> Seq<u8> {
        self.buf@
    }

    /// Whether the stream has ended (cleanly or by a failed read), so
    /// that only the exit event remains.
    pub closed spec fn finished(self) -> bool {
        self.done
    }

    pub fn new(session_id: String) -> (p: Self)
        ensures
            p.id() == session_id@,
            p.pending() == Seq::<u8>::empty(),
            !p.finished(),
    {
        OutputPump { session_id, buf: Vec::new(), done: false }
    }

    /// Digest one read outcome: the returned events are exactly those
    /// the outcome gives rise to, in order.  A record that the stream
    /// leaves unterminated is never emitted.
    pub fn on_read(&mut self, ev: &ReadEvent) -> (out: Vec<ShellEvent>)
        requires
            !old(self).finished(),
        ensures
            final(self).id() == old(self).id(),
            event_views(out@) == read_events(
                old(self).id(),
                old(self).pending(),
                seq![ev@],
            ),
            ev@ matches ReadView::Data(chunk) ==> final(self).pending() == pending_after(
                old(self).pending(),
                chunk,
            ) && !final(self).finished(),
            !(ev@ matches ReadView::Data(_)) ==> final(self).finished(),
    {
        let ghost sid = self.session_id@;
        let ghost p0 = self.buf@;
        match ev {
            ReadEvent::Data(chunk) => {
                let mut out: Vec<ShellEvent> = Vec::new();
                let n = chunk.len();
                let mut j: usize = 0;
                while j < n
                    invariant
                        j <= n,
                        n == chunk@.len(),
                        self.session_id@ == sid,
                        !self.done,
                        event_views(out@) == output_events(
                            sid,
                            records_from(p0, chunk@.take(j as int)),
                        ),
                        self.buf@ == pending_after(p0, chunk@.take(j as int)),
                    decreases n - j,
                {
                    let b = chunk[j];
                    proof {
                        lemma_scan_push(p0, chunk@.take(j as int), b);
                        assert(chunk@.take(j as int).push(b) =~= chunk@.take(j + 1 as int));
                    }
                    if b == LINE_FEED {
                        let mut rec: Vec<u8> = Vec::new();
                        core::mem::swap(&mut rec, &mut self.buf);
                        if rec.len() > 0 && rec[rec.len() - 1] == CARRIAGE_RETURN {
                            let _ = rec.pop();
                        }
                        assert(rec@ == record_text(pending_after(p0, chunk@.take(j as int))));
                        let ghost before = out@;
                        out.push(
                            ShellEvent::Output { session_id: self.session_id.clone(), line: rec },
                        );
                        proof {
                            assert(out@ =~= before.push(out@.last()));
                            assert(out@.last()@ == (EventView::Output {
                                session_id: sid,
                                line: rec@,
                            }));
                            let ghost recs0 = records_from(p0, chunk@.take(j as int));
                            assert(records_from(p0, chunk@.take(j + 1 as int)) == recs0.push(
                                rec@,
                            ));
                            lemma_event_views_push(before, out@.last());
                            lemma_output_events_push(sid, recs0, rec@);
                            assert(event_views(out@) == output_events(
                                sid,
                                records_from(p0, chunk@.take(j + 1 as int)),
                            ));
                        }
                    } else {
                        self.buf.push(b);
                    }
                    j += 1;
                }
                proof {
                    assert(chunk@.take(n as int) =~= chunk@);
                    let ghost rv = seq![ev@];
                    assert(rv[0] == ReadView::Data(chunk@));
                    assert(rv.drop_first() =~= Seq::<ReadView>::empty());
                    assert(read_events(sid, pending_after(p0, chunk@), rv.drop_first())
                        == Seq::<EventView>::empty());
                    assert(output_events(sid, records_from(p0, chunk@)) + Seq::<EventView>::empty()
                        =~= output_events(sid, records_from(p0, chunk@)));
                    assert(event_views(out@) == read_events(sid, p0, rv));
                }
                out
            },
            ReadEvent::Closed => {
                self.done = true;
                let out: Vec<ShellEvent> = Vec::new();
                proof {
                    assert(event_views(out@) =~~= read_events(
                        sid,
                        p0,
                        seq![ev@],
                    ));
                }
                out
            },
            ReadEvent::Failed(message) => {
                self.done = true;
                let mut out: Vec<ShellEvent> = Vec::new();
                out.push(
                    ShellEvent::Error {
                        session_id: self.session_id.clone(),
                        message: message.clone(),
                    },
                );
                proof {
                    assert(event_views(out@) =~~= read_events(
                        sid,
                        p0,
                        seq![ev@],
                    ));
                }
                out
            },
        }
    }

    /// The final event of the session, once the stream has ended and
    /// the child's exit status has been obtained (or found unavailable).
    pub fn on_exit(self, status: Option<i32>) -> (e: ShellEvent)
        requires
            self.finished(),
        ensures
            e@ == (EventView::Exit { session_id: self.id(), status }),
    {
        ShellEvent::Exit { session_id: self.session_id, status }
    }
}

/// One whole pump run, as a pure function over the observed read
/// outcomes: the returned events are exactly the session's events, in
/// order, ending with the one exit event.
pub fn pump_session(session_id: &String, reads: &Vec<ReadEvent>, status: Option<i32>) -> (out:
    Vec<ShellEvent>)
    ensures
        event_views(out@) == session_events(
            session_id@,
            reads@.map_values(|r: ReadEvent| r@),
            status,
        ),
{
    let ghost sid = session_id@;
    let ghost rv = reads@.map_values(|r: ReadEvent| r@);
    let mut pump = OutputPump::new(session_id.clone());
    let mut out: Vec<ShellEvent> = Vec::new();
    let n = reads.len();
    let mut i: usize = 0;
    proof {
        assert(event_views(out@) =~= Seq::<EventView>::empty());
        assert(rv.skip(0) =~= rv);
        assert(Seq::<EventView>::empty() + read_events(sid, pump.buf@, rv) =~= read_events(
            sid,
            pump.buf@,
            rv,
        ));
    }
    while i < n && !pump.done
        invariant
            i <= n,
            n == reads@.len(),
            rv == reads@.map_values(|r: ReadEvent| r@),
            pump.session_id@ == sid,
            !pump.done ==> read_events(sid, Seq::empty(), rv) == event_views(out@) + read_events(
                sid,
                pump.buf@,
                rv.skip(i as int),
            ),
            pump.done ==> read_events(sid, Seq::empty(), rv) == event_views(out@),
        decreases n - i,
    {
        let ghost p = pump.buf@;
        let ghost out0 = out@;
        let mut evs = pump.on_read(&reads[i]);
        let ghost evs0 = evs@;
        out.append(&mut evs);
        proof {
            assert(out@ == out0 + evs0);
            lemma_event_views_concat(out0, evs0);
            assert(reads@[i as int]@ == rv[i as int]);
            assert(rv.skip(i as int)[0] == rv[i as int]);
            assert(rv.skip(i as int).drop_first() =~= rv.skip(i + 1 as int));
            assert(seq![rv[i as int]].drop_first() =~= Seq::<ReadView>::empty());
            match rv[i as int] {
                ReadView::Data(c) => {
                    assert(event_views(evs0) == output_events(sid, records_from(p, c))
                        + read_events(sid, pending_after(p, c), Seq::<ReadView>::empty()));
                    assert(read_events(sid, p, rv.skip(i as int)) == output_events(
                        sid,
                        records_from(p, c),
                    ) + read_events(sid, pending_after(p, c), rv.skip(i + 1 as int)));
                    assert(event_views(out0) + event_views(evs0) + read_events(
                        sid,
                        pump.buf@,
                        rv.skip(i + 1 as int),
                    ) =~= event_views(out0) + read_events(sid, p, rv.skip(i as int)));
                },
                ReadView::Closed => {
                    assert(read_events(sid, p, rv.skip(i as int)) == Seq::<EventView>::empty());
                    assert(event_views(out0) + event_views(evs0) =~= event_views(out0));
                },
                ReadView::Failed(m) => {
                    assert(read_events(sid, p, rv.skip(i as int)) == seq![
                        (EventView::Error { session_id: sid, message: m }),
                    ]);
                    assert(event_views(out0) + event_views(evs0) =~= event_views(out0)
                        + read_events(sid, p, rv.skip(i as int)));
                },
            }
        }
        i += 1;
    }
    proof {
        if !pump.done {
            assert(rv.skip(i as int) =~= Seq::<ReadView>::empty());
            assert(event_views(out@) + read_events(sid, pump.buf@, rv.skip(i as int))
                =~= event_views(out@));
        }
    }
    let ghost done_views = out@;
    out.push(ShellEvent::Exit { session_id: session_id.clone(), status });
    proof {
        lemma_event_views_push(done_views, out@.last());
        assert(out@.last()@ == (EventView::Exit { session_id: sid, status }));
        assert(event_views(out@) =~= session_events(sid, rv, status));
    }
    out
}

/// A run of data reads scans the concatenation of its chunks: how the
/// stream was cut into reads never changes the events.
pub proof fn lemma_data_run_events(
    sid: Seq<char>,
    pending: Seq<u8>,
    chunks: Seq<Seq<u8>>,
    rest: Seq<ReadView>,
)
    ensures
        read_events(sid, pending, chunks.map_values(|c: Seq<u8>| ReadView::Data(c)) + rest)
            == output_events(sid, records_from(pending, chunks.flatten())) + read_events(
            sid,
            pending_after(pending, chunks.flatten()),
            rest,
        ),
    decreases chunks.len(),
{
    let mapped = chunks.map_values(|c: Seq<u8>| ReadView::Data(c));
    if chunks.len() == 0 {
        assert(mapped + rest =~= rest);
        assert(chunks.flatten() == Seq::<u8>::empty());
        assert(records_from(pending, Seq::<u8>::empty()) == Seq::<Seq<u8>>::empty());
        assert(output_events(sid, Seq::<Seq<u8>>::empty()) + read_events(sid, pending, rest)
            =~= read_events(sid, pending, rest));
    } else {
        let c0 = chunks[0];
        let tail = chunks.drop_first();
        let flat_tail = tail.flatten();
        assert(chunks.flatten() == c0 + flat_tail);
        assert((mapped + rest)[0] == ReadView::Data(c0));
        assert((mapped + rest).drop_first() =~= tail.map_values(|c: Seq<u8>| ReadView::Data(c))
            + rest);
        lemma_data_run_events(sid, pending_after(pending, c0), tail, rest);
        lemma_scan_concat(pending, c0, flat_tail);
        lemma_output_events_concat(
            sid,
            records_from(pending, c0),
            records_from(pending_after(pending, c0), flat_tail),
        );
        assert(read_events(sid, pending, mapped + rest) =~= output_events(
            sid,
            records_from(pending, chunks.flatten()),
        ) + read_events(sid, pending_after(pending, chunks.flatten()), rest));
    }
}

/// The bytes of the given lines, each followed by one terminator.
pub open spec fn joined_lines(lines: Seq<Seq<u8>>) -> Seq<u8>
    decreases lines.len(),
{
    if lines.len() == 0 {
        Seq::empty()
    } else {
        lines[0] + seq![LINE_FEED] + joined_lines(lines.drop_first())
    }
}

/// Scanning a stream of complete lines yields exactly those lines as
/// records, in order, and leaves nothing pending.
pub proof fn lemma_scan_complete_lines(lines: Seq<Seq<u8>>)
    requires
        forall|i: int, j: int|
            0 <= i < lines.len() && 0 <= j < lines[i].len() ==> lines[i][j] != LINE_FEED,
    ensures
        records_from(Seq::empty(), joined_lines(lines)) == lines.map_values(
            |l: Seq<u8>| record_text(l),
        ),
        pending_after(Seq::empty(), joined_lines(lines)) == Seq::<u8>::empty(),
    decreases lines.len(),
{
    if lines.len() == 0 {
        assert(records_from(Seq::empty(), joined_lines(lines)) =~~= lines.map_values(
            |l: Seq<u8>| record_text(l),
        ));
    } else {
        let l0 = lines[0];
        let rest = joined_lines(lines.drop_first());
        assert(joined_lines(lines) == l0 + seq![LINE_FEED] + rest);
        assert(l0 + seq![LINE_FEED] + rest =~= (l0 + seq![LINE_FEED]) + rest);
        lemma_scan_no_terminator(Seq::empty(), l0);
        assert(l0.push(LINE_FEED) =~= l0 + seq![LINE_FEED]);
        lemma_scan_push(Seq::empty(), l0, LINE_FEED);
        assert(Seq::<u8>::empty() + l0 =~= l0);
        lemma_scan_concat(Seq::empty(), l0 + seq![LINE_FEED], rest);
        lemma_scan_complete_lines(lines.drop_first());
        assert(records_from(Seq::empty(), l0 + seq![LINE_FEED]) =~~= seq![record_text(l0)]);
        assert(records_from(Seq::empty(), joined_lines(lines)) =~~= seq![record_text(l0)]
            + lines.drop_first().map_values(|l: Seq<u8>| record_text(l)));
        assert(seq![record_text(l0)] + lines.drop_first().map_values(|l: Seq<u8>| record_text(l))
            =~~= lines.map_values(|l: Seq<u8>| record_text(l)));
    }
}

/// Law: a session whose output is a sequence of complete lines followed
/// by a clean end of stream yields exactly one output event per line,
/// in the original order, then exactly one exit event as the last
/// event, and no error event at all.
pub proof fn lemma_clean_session_events(sid: Seq<char>, lines: Seq<Seq<u8>>, status: Option<i32>)
    requires
        forall|i: int, j: int|
            0 <= i < lines.len() && 0 <= j < lines[i].len() ==> lines[i][j] != LINE_FEED,
    ensures
        session_events(
            sid,
            seq![ReadView::Data(joined_lines(lines)), ReadView::Closed],
            status,
        ) == output_events(sid, lines.map_values(|l: Seq<u8>| record_text(l))) + seq![
            (EventView::Exit { session_id: sid, status }),
        ],
{
    let reads = seq![ReadView::Data(joined_lines(lines)), ReadView::Closed];
    lemma_scan_complete_lines(lines);
    assert(reads[0] == ReadView::Data(joined_lines(lines)));
    assert(reads.drop_first() =~= seq![ReadView::Closed]);
    assert(read_events(sid, Seq::empty(), seq![ReadView::Closed]) == Seq::<EventView>::empty());
    assert(read_events(sid, Seq::empty(), reads) =~= output_events(
        sid,
        lines.map_values(|l: Seq<u8>| record_text(l)),
    ));
}

/// Law: if a read fails, exactly one error event is emitted, no output
/// event follows it, and exactly one exit event still follows as the
/// last event of the session.
pub proof fn lemma_failed_session_events(
    sid: Seq<char>,
    chunks: Seq<Seq<u8>>,
    message: Seq<char>,
    status: Option<i32>,
)
    ensures
        session_events(
            sid,
            chunks.map_values(|c: Seq<u8>| ReadView::Data(c)).push(ReadView::Failed(message)),
            status,
        ) == output_events(sid, records_from(Seq::empty(), chunks.flatten())) + seq![
            (EventView::Error { session_id: sid, message }),
            (EventView::Exit { session_id: sid, status }),
        ],
{
    let mapped = chunks.map_values(|c: Seq<u8>| ReadView::Data(c));
    assert(mapped.push(ReadView::Failed(message)) =~= mapped + seq![ReadView::Failed(message)]);
    lemma_data_run_events(sid, Seq::empty(), chunks, seq![ReadView::Failed(message)]);
    assert(read_events(
        sid,
        pending_after(Seq::empty(), chunks.flatten()),
        seq![ReadView::Failed(message)],
    ) == seq![(EventView::Error { session_id: sid, message })]);
    assert(session_events(sid, mapped.push(ReadView::Failed(message)), status)
        =~= output_events(sid, records_from(Seq::empty(), chunks.flatten())) + seq![
        (EventView::Error { session_id: sid, message }),
        (EventView::Exit { session_id: sid, status }),
    ]);
}

} // verus!
