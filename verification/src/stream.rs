//! The chunked-encoding stream: wraps a producer of byte buffers and turns
//! each buffer into one length-prefixed chunk, appending the terminator
//! `0\r\n\r\n` when the producer is exhausted.
//!
//! Polling an asynchronous producer is outside work; the verified core is the
//! state machine that decides, from the terminal flag and the producer's
//! answer, what to emit and how the flag moves. A thin adapter around the
//! host's polling mechanism performs the poll and hands the answer to `pull`.

use vstd::prelude::*;

use crate::utils::hex_chars;
use crate::utils::hex_digit_char;

verus! {

/// The chunk-size line as bytes: each hexadecimal digit character of
/// `hex_chars`, encoded in ASCII.
pub open spec fn hex_size_bytes(n: int) -> Seq<u8> {
    hex_chars(n).map_values(|c: char| c as u8)
}

/// The two-byte CRLF separator.
pub open spec fn crlf() -> Seq<u8> {
    seq![13u8, 10u8]
}

/// The exact wire bytes of one chunk: hexadecimal size line, CRLF, the
/// payload verbatim, CRLF.
pub open spec fn chunk_frame(payload: Seq<u8>) -> Seq<u8> {
    hex_size_bytes(payload.len() as int) + crlf() + payload + crlf()
}

/// The exact wire bytes of the terminator: the zero-length chunk `0\r\n\r\n`.
pub open spec fn terminator_bytes() -> Seq<u8> {
    seq![48u8, 13u8, 10u8, 13u8, 10u8]
}

/// Framing the empty payload gives exactly the terminator: the two
/// termination paths produce identical wire bytes.
pub proof fn lemma_empty_frame_is_terminator()
    ensures
        chunk_frame(Seq::<u8>::empty()) == terminator_bytes(),
{
    assert(chunk_frame(Seq::<u8>::empty()) =~= terminator_bytes());
}

/// The producer's answer to one poll: a buffer, natural exhaustion, or not
/// ready yet.
pub enum PullEvent {
    /// The producer yielded one byte buffer.
    Item(Vec<u8>),
    /// The producer signalled that no more items will ever come.
    Exhausted,
    /// The producer is not ready; the caller must try again later.
    Suspended,
}

/// What one pull of the stream produced: a framed chunk, the definitive end
/// of the stream, or a propagated suspension.
pub enum PullOutcome {
    /// One complete chunk (or the terminator) to hand downstream.
    Chunk(Vec<u8>),
    /// No more items, now or ever.
    Finished,
    /// Not ready; the caller must try again later.
    Suspended,
}

/// The terminal flag after one pull: monotone, set by an empty buffer or by
/// exhaustion, untouched by a suspension.
pub open spec fn next_flag(is_final: bool, event: PullEvent) -> bool {
    if is_final {
        true
    } else {
        match event {
            PullEvent::Item(buffer) => buffer@.len() == 0,
            PullEvent::Exhausted => true,
            PullEvent::Suspended => false,
        }
    }
}

/// The wire bytes one pull emits: nothing once terminated or while suspended,
/// one frame per buffer, the terminator upon exhaustion.
pub open spec fn pull_output(is_final: bool, event: PullEvent) -> Seq<Seq<u8>> {
    if is_final {
        Seq::empty()
    } else {
        match event {
            PullEvent::Item(buffer) => seq![chunk_frame(buffer@)],
            PullEvent::Exhausted => seq![terminator_bytes()],
            PullEvent::Suspended => Seq::empty(),
        }
    }
}

/// The emitted buffers of a whole drive: `pull_output` folded over a
/// sequence of producer answers, starting from the given flag.
pub open spec fn run_outputs(is_final: bool, events: Seq<PullEvent>) -> Seq<Seq<u8>>
    decreases events.len(),
{
    if events.len() == 0 {
        Seq::empty()
    } else {
        pull_output(is_final, events[0]) + run_outputs(
            next_flag(is_final, events[0]),
            events.drop_first(),
        )
    }
}

/// A producer answer that keeps the stream active: a non-empty buffer or a
/// suspension.
pub open spec fn non_terminal_event(event: PullEvent) -> bool {
    match event {
        PullEvent::Item(buffer) => buffer@.len() > 0,
        PullEvent::Exhausted => false,
        PullEvent::Suspended => true,
    }
}

/// The frames of the buffers among a sequence of producer answers, in
/// producer order; answers that carry no buffer contribute nothing.
pub open spec fn frames_of(events: Seq<PullEvent>) -> Seq<Seq<u8>>
    decreases events.len(),
{
    if events.len() == 0 {
        Seq::empty()
    } else {
        (match events[0] {
            PullEvent::Item(buffer) => seq![chunk_frame(buffer@)],
            PullEvent::Exhausted => Seq::empty(),
            PullEvent::Suspended => Seq::empty(),
        }) + frames_of(events.drop_first())
    }
}

/// Exact-once, in-order delivery: while no answer terminates the stream, the
/// outputs are exactly the frames of the yielded buffers, one per buffer, in
/// producer order; suspensions add nothing.
pub proof fn lemma_outputs_in_order(events: Seq<PullEvent>)
    requires
        forall|k: int| 0 <= k < events.len() ==> non_terminal_event(#[trigger] events[k]),
    ensures
        run_outputs(false, events) == frames_of(events),
    decreases events.len(),
{
    if events.len() > 0 {
        assert(non_terminal_event(events[0]));
        lemma_outputs_in_order(events.drop_first());
        assert(run_outputs(false, events) =~= frames_of(events));
    }
}

/// Idempotence of termination: a terminated stream emits nothing, however
/// long it is driven on and whatever the producer would answer.
pub proof fn lemma_terminated_stream_emits_nothing(events: Seq<PullEvent>)
    ensures
        run_outputs(true, events) == Seq::<Seq<u8>>::empty(),
    decreases events.len(),
{
    if events.len() > 0 {
        lemma_terminated_stream_emits_nothing(events.drop_first());
        assert(run_outputs(true, events) =~= Seq::<Seq<u8>>::empty());
    }
}

/// Natural exhaustion emits the terminator exactly once, as the final item:
/// after any run of non-empty buffers and suspensions, the answer
/// `Exhausted` appends the terminator to what was emitted so far, and
/// whatever would follow adds nothing.
pub proof fn lemma_exhaustion_emits_terminator_once(events: Seq<PullEvent>, later: Seq<PullEvent>)
    requires
        forall|k: int| 0 <= k < events.len() ==> non_terminal_event(#[trigger] events[k]),
    ensures
        run_outputs(false, events + seq![PullEvent::Exhausted] + later) == run_outputs(
            false,
            events,
        ).push(terminator_bytes()),
    decreases events.len(),
{
    let whole = events + seq![PullEvent::Exhausted] + later;
    if events.len() == 0 {
        assert(whole[0] == PullEvent::Exhausted);
        assert(whole.drop_first() =~= later);
        lemma_terminated_stream_emits_nothing(later);
        assert(run_outputs(false, whole) =~= run_outputs(false, events).push(terminator_bytes()));
    } else {
        assert(whole[0] == events[0]);
        assert(non_terminal_event(events[0]));
        assert(whole.drop_first() =~= events.drop_first() + seq![PullEvent::Exhausted] + later);
        lemma_exhaustion_emits_terminator_once(events.drop_first(), later);
        assert(run_outputs(false, whole) =~= run_outputs(false, events).push(terminator_bytes()));
    }
}

/// An empty buffer yields exactly the terminator and permanently terminates
/// the stream: whatever the producer would offer afterwards is ignored.
pub proof fn lemma_empty_buffer_terminates(event: PullEvent, later: Seq<PullEvent>)
    requires
        event matches PullEvent::Item(buffer) && buffer@.len() == 0,
    ensures
        run_outputs(false, seq![event] + later) == seq![terminator_bytes()],
{
    lemma_empty_frame_is_terminator();
    lemma_terminated_stream_emits_nothing(later);
    assert((seq![event] + later).drop_first() =~= later);
    match event {
        PullEvent::Item(buffer) => {
            assert(buffer@ =~= Seq::<u8>::empty());
            assert(run_outputs(false, seq![event] + later) =~= seq![terminator_bytes()]);
        },
        _ => {
            assert(false);
        },
    }
}

/// Wraps one producer of byte buffers and frames everything it yields.
///
/// `inner` is the wrapped producer, owned exclusively; the stream never
/// touches it itself — the driving adapter polls it and reports the answer
/// through `pull`. `is_final` starts `false` and moves one way: once set, no
/// pull ever emits again.
pub struct ChunkedStream<St> {
    /// The wrapped producer.
    pub inner: St,
    /// The terminal flag: set once the terminator has been emitted.
    pub is_final: bool,
}

impl<St> ChunkedStream<St> {
    /// Wraps `inner`; the stream starts in the active state.
    pub fn new(inner: St) -> (s: Self)
        ensures
            s.inner == inner,
            !s.is_final,
    {
        Self { inner, is_final: false }
    }

    /// Whether the terminator has been emitted: no later pull produces
    /// anything.
    pub fn is_done(&self) -> (r: bool)
        ensures
            r == self.is_final,
    {
        self.is_final
    }

    /// One pull of the stream, given the wrapped producer's answer.
    ///
    /// Once terminated, the answer is ignored and nothing changes. Otherwise
    /// a buffer is framed (an empty one doubles as the terminator and ends
    /// the stream), exhaustion yields the terminator exactly once, and a
    /// suspension passes through untouched.
    pub fn pull(&mut self, event: PullEvent) -> (out: PullOutcome)
        ensures
            final(self).inner == old(self).inner,
            final(self).is_final == next_flag(old(self).is_final, event),
            old(self).is_final ==> out is Finished,
            !old(self).is_final ==> match event {
                PullEvent::Item(buffer) => out matches PullOutcome::Chunk(frame)
                    && frame@ == chunk_frame(buffer@),
                PullEvent::Exhausted => out matches PullOutcome::Chunk(frame)
                    && frame@ == terminator_bytes(),
                PullEvent::Suspended => out is Suspended,
            },
            match out {
                PullOutcome::Chunk(frame) => pull_output(old(self).is_final, event) == seq![
                    frame@,
                ],
                PullOutcome::Finished => pull_output(old(self).is_final, event) == Seq::<
                    Seq<u8>,
                >::empty(),
                PullOutcome::Suspended => pull_output(old(self).is_final, event) == Seq::<
                    Seq<u8>,
                >::empty(),
            },
    {
        if self.is_final {
            return PullOutcome::Finished;
        }
        match event {
            PullEvent::Item(buffer) => {
                if buffer.len() == 0 {
                    self.is_final = true;
                }
                PullOutcome::Chunk(encode_chunk(buffer))
            },
            PullEvent::Exhausted => {
                self.is_final = true;
                PullOutcome::Chunk(terminator())
            },
            PullEvent::Suspended => PullOutcome::Suspended,
        }
    }
}

/// Frames one payload as a chunk: size line, CRLF, payload verbatim, CRLF.
pub fn encode_chunk(payload: Vec<u8>) -> (r: Vec<u8>)
    ensures
        r@ == chunk_frame(payload@),
{
    let size = crate::utils::chunk_size(payload.as_slice());
    let size_str = size.as_str();
    let size_bytes = size_str.as_bytes_vec();
    proof {
        broadcast use vstd::string::is_ascii_spec_bytes;

        let n = payload@.len() as int;
        lemma_hex_chars_ascii(n);
        assert(vstd::string::is_ascii(size_str));
        assert forall|i: int| 0 <= i < size_str@.len() implies #[trigger] hex_size_bytes(n)[i]
            == size_str@[i] as u8 by {
            assert(hex_size_bytes(n)[i] == hex_chars(n)[i] as u8);
        }
        assert(size_bytes@ =~= hex_size_bytes(n));
    }
    let mut r: Vec<u8> = Vec::new();
    let mut i: usize = 0;
    while i < size_bytes.len()
        invariant
            0 <= i <= size_bytes@.len(),
            r@ == size_bytes@.subrange(0, i as int),
        decreases size_bytes@.len() - i,
    {
        r.push(size_bytes[i]);
        i += 1;
    }
    proof {
        assert(r@ =~= size_bytes@);
    }
    r.push(13u8);
    r.push(10u8);
    let mut j: usize = 0;
    while j < payload.len()
        invariant
            0 <= j <= payload@.len(),
            r@ == size_bytes@ + crlf() + payload@.subrange(0, j as int),
        decreases payload@.len() - j,
    {
        proof {
            assert(r@.push(payload@[j as int]) =~= size_bytes@ + crlf() + payload@.subrange(
                0,
                j as int + 1,
            ));
        }
        r.push(payload[j]);
        j += 1;
    }
    r.push(13u8);
    r.push(10u8);
    proof {
        assert(payload@.subrange(0, payload@.len() as int) =~= payload@);
        assert(r@ =~= chunk_frame(payload@));
    }
    r
}

/// The terminator as an owned buffer: the bytes of `0\r\n\r\n`.
pub fn terminator() -> (r: Vec<u8>)
    ensures
        r@ == terminator_bytes(),
{
    let mut r: Vec<u8> = Vec::new();
    r.push(48u8);
    r.push(13u8);
    r.push(10u8);
    r.push(13u8);
    r.push(10u8);
    proof {
        assert(r@ =~= terminator_bytes());
    }
    r
}

/// Every character of the hexadecimal rendering is ASCII, so the size line's
/// bytes are its characters code point for code point.
pub proof fn lemma_hex_chars_ascii(n: int)
    ensures
        vstd::utf8::is_ascii_chars(hex_chars(n)),
    decreases n,
{
    if n >= 16 {
        lemma_hex_chars_ascii(n / 16);
        assert forall|i: int| 0 <= i < hex_chars(n).len() implies '\0' <= #[trigger] hex_chars(
            n,
        )[i] <= '\u{7f}' by {
            if i < hex_chars(n / 16).len() {
                assert(hex_chars(n)[i] == hex_chars(n / 16)[i]);
            } else {
                assert(hex_chars(n)[i] == hex_digit_char(n % 16));
            }
        }
    }
}

} // verus!

