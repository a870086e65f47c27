//! The stream re-framer: consumes byte chunks from the backend stream,
//! reassembles lines, decodes frames, accumulates the full answer, and
//! produces one outbound event per non-empty fragment plus a single
//! terminal event when the backend signals completion. The asynchronous
//! shell around it performs the reads and delivers the events; this module
//! holds every decision.

use vstd::prelude::*;

use crate::frame::decode_frame;
use crate::frame::decode_spec;
use crate::lines::LineReassembler;
use crate::lines::rest_from;
use crate::lines::tlines_from;
use crate::lines::trim_bytes;
use crate::lines::trim_spec;

verus! {

/// The kind of an outbound event.
#[derive(Clone, Copy, Debug, PartialEq, Eq, Structural)]
pub enum EventKind {
    /// One non-empty piece of the answer, delivered incrementally.
    Fragment,
    /// The terminal event carrying the whole trimmed answer.
    Complete,
    /// The terminal event carrying a failure description.
    Error,
}

/// The per-request state of the re-framer.
#[derive(Clone, Copy, Debug, PartialEq, Eq, Structural)]
pub enum Phase {
    /// Consuming backend chunks.
    Reading,
    /// Terminal: the stream ended or completion was signalled.
    Done,
    /// Terminal: the backend failed before any frame.
    Errored,
}

/// One outbound event: its kind, its text content, and the terminal marker.
pub struct OutEvent {
    /// What the event announces.
    pub kind: EventKind,
    /// The event's text: a fragment, the whole answer, or an error message.
    pub content: Vec<u8>,
    /// Set exactly on the terminal `complete` and `error` events.
    pub done: bool,
}

/// The mathematical image of one outbound event.
#[verifier::ext_equal]
pub ghost struct EvModel {
    /// What the event announces.
    pub kind: EventKind,
    /// The event's text.
    pub content: Seq<u8>,
    /// The terminal marker.
    pub done: bool,
}

impl OutEvent {
    /// The event as its mathematical image.
    pub open spec fn model(self) -> EvModel {
        EvModel { kind: self.kind, content: self.content@, done: self.done }
    }
}

/// A fragment event carrying `content`.
pub open spec fn frag_event(content: Seq<u8>) -> EvModel {
    EvModel { kind: EventKind::Fragment, content, done: false }
}

/// The terminal completion event carrying `content`.
pub open spec fn complete_event(content: Seq<u8>) -> EvModel {
    EvModel { kind: EventKind::Complete, content, done: true }
}

/// The terminal error event carrying `content`.
pub open spec fn error_event(content: Seq<u8>) -> EvModel {
    EvModel { kind: EventKind::Error, content, done: true }
}

/// What one run over decoded lines produces: the events in emission order,
/// the accumulated answer, and whether the final frame was seen.
#[verifier::ext_equal]
pub ghost struct RunOut {
    /// The events produced, in order.
    pub events: Seq<EvModel>,
    /// The accumulated answer after the run.
    pub acc: Seq<u8>,
    /// Whether a frame with the final marker ended the run.
    pub finished: bool,
}

/// The effect of processing `lines` in order with accumulator `acc`: a
/// line outside the frame grammar is dropped; a frame's non-empty fragment
/// is appended to the accumulator and emitted as a fragment event; a frame
/// with the final marker then emits the terminal completion event carrying
/// the trimmed accumulator, and no further line is processed.
pub open spec fn run_lines(lines: Seq<Seq<u8>>, acc: Seq<u8>) -> RunOut
    decreases lines.len(),
{
    if lines.len() == 0 {
        RunOut { events: seq![], acc, finished: false }
    } else {
        match decode_spec(lines[0]) {
            None => run_lines(lines.skip(1), acc),
            Some(fr) => {
                let evs0: Seq<EvModel> = if fr.0.len() > 0 {
                    seq![frag_event(fr.0)]
                } else {
                    seq![]
                };
                let acc1 = acc + fr.0;
                if fr.1 {
                    RunOut {
                        events: evs0.push(complete_event(trim_spec(acc1))),
                        acc: acc1,
                        finished: true,
                    }
                } else {
                    let rest = run_lines(lines.skip(1), acc1);
                    RunOut { events: evs0 + rest.events, acc: rest.acc, finished: rest.finished }
                }
            },
        }
    }
}

/// The concatenation, in order, of the contents of the fragment events.
pub open spec fn frag_concat(evs: Seq<EvModel>) -> Seq<u8>
    decreases evs.len(),
{
    if evs.len() == 0 {
        seq![]
    } else if evs[0].kind == EventKind::Fragment {
        evs[0].content + frag_concat(evs.skip(1))
    } else {
        frag_concat(evs.skip(1))
    }
}

/// Law: a terminal event is exclusive. Every event before the last is a
/// fragment; a run finishes exactly when its last event is the completion
/// event; and an unfinished run emits fragments only. No event ever
/// follows a terminal event.
pub proof fn lemma_terminal_exclusive(lines: Seq<Seq<u8>>, acc: Seq<u8>)
    ensures
        forall|i: int|
            0 <= i < run_lines(lines, acc).events.len() - 1 ==> run_lines(
                lines,
                acc,
            ).events[i].kind == EventKind::Fragment,
        run_lines(lines, acc).finished <==> run_lines(lines, acc).events.len() > 0 && run_lines(
            lines,
            acc,
        ).events.last().kind == EventKind::Complete,
        forall|i: int|
            0 <= i < run_lines(lines, acc).events.len() ==> ((#[trigger] run_lines(
                lines,
                acc,
            ).events[i].done) <==> run_lines(lines, acc).events[i].kind != EventKind::Fragment),
    decreases lines.len(),
{
    if lines.len() == 0 {
    } else {
        match decode_spec(lines[0]) {
            None => {
                lemma_terminal_exclusive(lines.skip(1), acc);
            },
            Some(fr) => {
                if fr.1 {
                } else {
                    lemma_terminal_exclusive(lines.skip(1), acc + fr.0);
                    let evs0: Seq<EvModel> = if fr.0.len() > 0 {
                        seq![frag_event(fr.0)]
                    } else {
                        seq![]
                    };
                    let rest = run_lines(lines.skip(1), acc + fr.0);
                    assert(run_lines(lines, acc).events == evs0 + rest.events);
                    assert forall|i: int|
                        0 <= i < run_lines(lines, acc).events.len()
                            - 1 implies run_lines(lines, acc).events[i].kind
                        == EventKind::Fragment by {
                        if i >= evs0.len() {
                            assert(run_lines(lines, acc).events[i] == rest.events[i - evs0.len()]);
                        }
                    }
                    if rest.events.len() > 0 {
                        assert(run_lines(lines, acc).events.last() == rest.events.last());
                    }
                }
            },
        }
    }
}

/// Law: the accumulated answer is the initial accumulator followed by the
/// fragment events' contents, in arrival order; a finished run's terminal
/// event carries exactly that answer, trimmed.
pub proof fn lemma_accumulation(lines: Seq<Seq<u8>>, acc: Seq<u8>)
    ensures
        run_lines(lines, acc).acc == acc + frag_concat(run_lines(lines, acc).events),
        run_lines(lines, acc).finished ==> run_lines(lines, acc).events.last() == complete_event(
            trim_spec(run_lines(lines, acc).acc),
        ),
    decreases lines.len(),
{
    if lines.len() == 0 {
        assert(acc + frag_concat(run_lines(lines, acc).events) =~= acc);
    } else {
        match decode_spec(lines[0]) {
            None => {
                lemma_accumulation(lines.skip(1), acc);
            },
            Some(fr) => {
                let evs0: Seq<EvModel> = if fr.0.len() > 0 {
                    seq![frag_event(fr.0)]
                } else {
                    seq![]
                };
                if fr.1 {
                    let ce = complete_event(trim_spec(acc + fr.0));
                    let evs = evs0.push(ce);
                    assert(run_lines(lines, acc).events == evs);
                    if fr.0.len() > 0 {
                        assert(evs[0] == frag_event(fr.0));
                        assert(evs.skip(1) =~= seq![ce]);
                        assert(seq![ce].skip(1) =~= Seq::<EvModel>::empty());
                        assert(frag_concat(seq![ce]) == frag_concat(Seq::<EvModel>::empty()));
                        assert(frag_concat(evs) == fr.0 + Seq::<u8>::empty());
                        assert(acc + (fr.0 + Seq::<u8>::empty()) =~= acc + fr.0);
                    } else {
                        assert(evs[0] == ce);
                        assert(evs.skip(1) =~= Seq::<EvModel>::empty());
                        assert(frag_concat(Seq::<EvModel>::empty()) == Seq::<u8>::empty());
                        assert(frag_concat(evs) == frag_concat(evs.skip(1)));
                        assert(frag_concat(evs) == Seq::<u8>::empty());
                        assert(acc + Seq::<u8>::empty() =~= acc + fr.0);
                    }
                } else {
                    lemma_accumulation(lines.skip(1), acc + fr.0);
                    lemma_terminal_exclusive(lines.skip(1), acc + fr.0);
                    let rest = run_lines(lines.skip(1), acc + fr.0);
                    assert(run_lines(lines, acc).events == evs0 + rest.events);
                    if fr.0.len() > 0 {
                        assert((evs0 + rest.events)[0] == frag_event(fr.0));
                        assert((evs0 + rest.events).skip(1) =~= rest.events);
                        assert(frag_concat(evs0 + rest.events) == fr.0 + frag_concat(rest.events));
                        assert(acc + (fr.0 + frag_concat(rest.events)) =~= (acc + fr.0)
                            + frag_concat(rest.events));
                    } else {
                        assert(evs0 + rest.events =~= rest.events);
                        assert(acc + fr.0 =~= acc);
                    }
                    if rest.events.len() > 0 {
                        assert(run_lines(lines, acc).events.last() == rest.events.last());
                    }
                }
            },
        }
    }
}

/// Law: a line outside the frame grammar has no effect at all; the run
/// over the remaining lines is unchanged.
pub proof fn lemma_frame_drop(bad: Seq<u8>, rest: Seq<Seq<u8>>, acc: Seq<u8>)
    requires
        decode_spec(bad) is None,
    ensures
        run_lines(seq![bad] + rest, acc) == run_lines(rest, acc),
{
    assert((seq![bad] + rest)[0] == bad);
    assert((seq![bad] + rest).skip(1) =~= rest);
}

/// Law: a frame with an empty fragment and the final marker clear produces
/// no event and leaves the accumulator untouched.
pub proof fn lemma_empty_fragment_skip(line: Seq<u8>, rest: Seq<Seq<u8>>, acc: Seq<u8>)
    requires
        decode_spec(line) == Some((Seq::<u8>::empty(), false)),
    ensures
        run_lines(seq![line] + rest, acc) == run_lines(rest, acc),
{
    assert((seq![line] + rest)[0] == line);
    assert((seq![line] + rest).skip(1) =~= rest);
    assert(acc + Seq::<u8>::empty() =~= acc);
    let sub = run_lines(rest, acc);
    assert(run_lines(seq![line] + rest, acc).events =~= sub.events);
    assert(run_lines(seq![line] + rest, acc) =~~= sub);
}

/// Returns a fresh copy of the byte vector.
fn copy_bytes(v: &Vec<u8>) -> (r: Vec<u8>)
    ensures
        r@ == v@,
{
    let mut r: Vec<u8> = Vec::new();
    let mut i: usize = 0;
    while i < v.len()
        invariant
            i <= v.len(),
            r@ =~= v@.take(i as int),
        decreases v.len() - i,
    {
        r.push(v[i]);
        i = i + 1;
    }
    proof {
        assert(v@.take(v.len() as int) =~= v@);
    }
    r
}

/// The re-framer for one request: line reassembly, answer accumulation,
/// and the request's phase.
pub struct Reframer {
    /// The line reassembly buffer.
    pub lines: LineReassembler,
    /// The answer accumulated so far, fragment by fragment.
    pub acc: Vec<u8>,
    /// The request's phase; events are produced only while `Reading`.
    pub phase: Phase,
}

impl Reframer {
    /// A fresh re-framer, reading, with nothing buffered or accumulated.
    pub fn new() -> (r: Reframer)
        ensures
            r.lines.buf@ == Seq::<u8>::empty(),
            r.acc@ == Seq::<u8>::empty(),
            r.phase == Phase::Reading,
    {
        Reframer { lines: LineReassembler::new(), acc: Vec::new(), phase: Phase::Reading }
    }

    /// Consumes one backend chunk and returns the events to emit, in order,
    /// exactly as `run_lines` prescribes for the lines the chunk completes.
    /// After the call the phase is terminal exactly when the final frame
    /// was seen.
    pub fn process_chunk(&mut self, chunk: &Vec<u8>) -> (evs: Vec<OutEvent>)
        requires
            old(self).phase == Phase::Reading,
        ensures
            ({
                let lns = tlines_from(chunk@, old(self).lines.buf@);
                let run = run_lines(lns, old(self).acc@);
                &&& evs@.map_values(|e: OutEvent| e.model()) == run.events
                &&& final(self).acc@ == run.acc
                &&& final(self).phase == (if run.finished {
                    Phase::Done
                } else {
                    Phase::Reading
                })
                &&& final(self).lines.buf@ == rest_from(chunk@, old(self).lines.buf@)
            }),
    {
        let ghost acc0 = self.acc@;
        let lines_v = self.lines.feed(chunk);
        let ghost lns = lines_v.deep_view();
        let ghost run = run_lines(lns, acc0);
        let mut evs: Vec<OutEvent> = Vec::new();
        let mut k: usize = 0;
        proof {
            assert(lns.skip(0) =~= lns);
            assert(evs@.map_values(|e: OutEvent| e.model()) + run.events =~= run.events);
        }
        while k < lines_v.len()
            invariant
                k <= lines_v.len(),
                lines_v.deep_view() == lns,
                lns == tlines_from(chunk@, old(self).lines.buf@),
                run == run_lines(lns, old(self).acc@),
                self.phase == Phase::Reading,
                self.lines.buf@ == rest_from(chunk@, old(self).lines.buf@),
                evs@.map_values(|e: OutEvent| e.model()) + run_lines(
                    lns.skip(k as int),
                    self.acc@,
                ).events == run.events,
                run_lines(lns.skip(k as int), self.acc@).acc == run.acc,
                run_lines(lns.skip(k as int), self.acc@).finished == run.finished,
            decreases lines_v.len() - k,
        {
            proof {
                assert(lines_v@[k as int].deep_view() =~= lines_v@[k as int]@);
                assert(lns[k as int] == lines_v@[k as int]@);
                assert(lns.skip(k as int)[0] == lns[k as int]);
                assert(lns.skip(k as int).skip(1) =~= lns.skip(k as int + 1));
            }
            let ghost evs_pre = evs@.map_values(|e: OutEvent| e.model());
            let ghost acc_pre = self.acc@;
            match decode_frame(&lines_v[k]) {
                None => {
                    k = k + 1;
                },
                Some(f) => {
                    let ghost fragv = f.fragment@;
                    let fin = f.done;
                    let frag = f.fragment;
                    proof {
                        assert(decode_spec(lns[k as int]) == Some((fragv, fin)));
                    }
                    if frag.len() > 0 {
                        let mut frag_copy = copy_bytes(&frag);
                        self.acc.append(&mut frag_copy);
                        evs.push(OutEvent { kind: EventKind::Fragment, content: frag, done: false });
                        proof {
                            assert(evs@.map_values(|e: OutEvent| e.model()) =~= evs_pre.push(
                                frag_event(fragv),
                            ));
                        }
                    }
                    proof {
                        assert(self.acc@ =~= acc_pre + fragv);
                        let ghost evs0: Seq<EvModel> = if fragv.len() > 0 {
                            seq![frag_event(fragv)]
                        } else {
                            seq![]
                        };
                        assert(evs@.map_values(|e: OutEvent| e.model()) =~= evs_pre + evs0);
                    }
                    if fin {
                        let t = trim_bytes(&self.acc);
                        let ghost evs_mid = evs@.map_values(|e: OutEvent| e.model());
                        evs.push(OutEvent { kind: EventKind::Complete, content: t, done: true });
                        self.phase = Phase::Done;
                        proof {
                            let ce = complete_event(trim_spec(acc_pre + fragv));
                            assert(evs@.map_values(|e: OutEvent| e.model()) =~= evs_mid.push(ce));
                            assert(run_lines(lns.skip(k as int), acc_pre).events
                                == (if fragv.len() > 0 {
                                seq![frag_event(fragv)]
                            } else {
                                seq![]
                            }).push(ce));
                            assert(run_lines(lns.skip(k as int), acc_pre).acc == acc_pre + fragv);
                            assert(run_lines(lns.skip(k as int), acc_pre).finished);
                            assert(evs@.map_values(|e: OutEvent| e.model()) =~= evs_pre
                                + run_lines(lns.skip(k as int), acc_pre).events);
                        }
                        return evs;
                    }
                    proof {
                        let ghost evs0: Seq<EvModel> = if fragv.len() > 0 {
                            seq![frag_event(fragv)]
                        } else {
                            seq![]
                        };
                        let rest = run_lines(lns.skip(k as int + 1), acc_pre + fragv);
                        assert(run_lines(lns.skip(k as int), acc_pre).events == evs0 + rest.events);
                        assert((evs_pre + evs0) + rest.events =~= evs_pre + (evs0 + rest.events));
                    }
                    k = k + 1;
                },
            }
        }
        proof {
            assert(lns.skip(lns.len() as int) =~= Seq::<Seq<u8>>::empty());
            assert(evs@.map_values(|e: OutEvent| e.model()) + Seq::<EvModel>::empty() =~= evs@
                .map_values(|e: OutEvent| e.model()));
        }
        evs
    }

    /// Notes that the backend stream ended without a final frame: the run
    /// is over and no terminal event is produced.
    pub fn finish(&mut self)
        requires
            old(self).phase == Phase::Reading,
        ensures
            final(self).phase == Phase::Done,
            final(self).acc == old(self).acc,
            final(self).lines == old(self).lines,
    {
        self.phase = Phase::Done;
    }

    /// Notes a backend failure: the run is over and the one terminal error
    /// event carrying `msg` is returned.
    pub fn fail(&mut self, msg: Vec<u8>) -> (e: OutEvent)
        requires
            old(self).phase == Phase::Reading,
        ensures
            final(self).phase == Phase::Errored,
            final(self).acc == old(self).acc,
            final(self).lines == old(self).lines,
            e.model() == error_event(msg@),
    {
        self.phase = Phase::Errored;
        OutEvent { kind: EventKind::Error, content: msg, done: true }
    }
}

} // verus!
