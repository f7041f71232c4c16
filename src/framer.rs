//! Reassembly of a connection's byte stream into command lines.
//!
//! Bytes arrive in chunks of arbitrary size. A carriage return, a line feed
//! and a carriage return followed by a line feed each end one line; the bytes
//! after the last line ending stay in the accumulator until more arrive.
use vstd::prelude::*;

verus! {

/// Abstract state of a framer: the lines completed so far, the bytes of the
/// line not yet terminated, and whether the last byte seen was a carriage
/// return (a line feed right after it belongs to the same line ending).
pub struct FrameState {
    pub lines: Seq<Seq<u8>>,
    pub pending: Seq<u8>,
    pub after_cr: bool,
}

/// The state of a framer that has seen no byte.
pub open spec fn fresh() -> FrameState {
    FrameState { lines: Seq::empty(), pending: Seq::empty(), after_cr: false }
}

/// The same state with the list of completed lines emptied.
pub open spec fn without_lines(st: FrameState) -> FrameState {
    FrameState { lines: Seq::empty(), pending: st.pending, after_cr: st.after_cr }
}

/// The effect of one byte.
pub open spec fn step(st: FrameState, b: u8) -> FrameState {
    if b == 13 {
        FrameState { lines: st.lines.push(st.pending), pending: Seq::empty(), after_cr: true }
    } else if b == 10 {
        if st.after_cr {
            FrameState { lines: st.lines, pending: st.pending, after_cr: false }
        } else {
            FrameState { lines: st.lines.push(st.pending), pending: Seq::empty(), after_cr: false }
        }
    } else {
        FrameState { lines: st.lines, pending: st.pending.push(b), after_cr: false }
    }
}

/// The effect of a sequence of bytes, one after the other.
pub open spec fn run(st: FrameState, s: Seq<u8>) -> FrameState
    decreases s.len(),
{
    if s.len() == 0 {
        st
    } else {
        step(run(st, s.drop_last()), s.last())
    }
}

/// The effect of a sequence of chunks, handed over one after the other.
pub open spec fn feed_all(st: FrameState, chunks: Seq<Seq<u8>>) -> FrameState
    decreases chunks.len(),
{
    if chunks.len() == 0 {
        st
    } else {
        feed_all(run(st, chunks[0]), chunks.drop_first())
    }
}

/// Per-connection accumulator of bytes that do not yet form a complete line.
pub struct LineFramer {
    pending: Vec<u8>,
    after_cr: bool,
}

impl LineFramer {
    /// The framer's state; its list of completed lines is always empty, since
    /// completed lines are handed out as soon as they are found.
    pub closed spec fn state(&self) -> FrameState {
        FrameState { lines: Seq::empty(), pending: self.pending@, after_cr: self.after_cr }
    }

    /// A framer with an empty accumulator.
    pub fn new() -> (r: LineFramer)
        ensures
            r.state() == fresh(),
    {
        LineFramer { pending: Vec::new(), after_cr: false }
    }

    /// The bytes received and not yet resolved into a line.
    pub fn pending(&self) -> (r: &Vec<u8>)
        ensures
            r@ == self.state().pending,
    {
        &self.pending
    }

    /// Takes in one chunk of bytes and returns, in order, the lines that it
    /// completes; the bytes after the last line ending are kept.
    pub fn feed(&mut self, chunk: &[u8]) -> (lines: Vec<Vec<u8>>)
        ensures
            lines@.map_values(|l: Vec<u8>| l@) == run(old(self).state(), chunk@).lines,
            final(self).state() == without_lines(run(old(self).state(), chunk@)),
    {
        let mut out: Vec<Vec<u8>> = Vec::new();
        let mut i: usize = 0;
        proof {
            assert(chunk@.take(0) =~= Seq::<u8>::empty());
            assert(out@.map_values(|l: Vec<u8>| l@) =~= Seq::<Seq<u8>>::empty());
        }
        while i < chunk.len()
            invariant
                i <= chunk@.len(),
                run(old(self).state(), chunk@.take(i as int)) == (FrameState {
                    lines: out@.map_values(|l: Vec<u8>| l@),
                    pending: self.pending@,
                    after_cr: self.after_cr,
                }),
            decreases chunk@.len() - i,
        {
            let b = chunk[i];
            if b == 13 || (b == 10 && !self.after_cr) {
                let mut line: Vec<u8> = Vec::new();
                std::mem::swap(&mut line, &mut self.pending);
                out.push(line);
                self.after_cr = b == 13;
            } else if b == 10 {
                self.after_cr = false;
            } else {
                self.pending.push(b);
                self.after_cr = false;
            }
            proof {
                assert(chunk@.take(i + 1).drop_last() =~= chunk@.take(i as int));
                assert(out@.map_values(|l: Vec<u8>| l@) =~= run(
                    old(self).state(),
                    chunk@.take(i + 1),
                ).lines);
            }
            i = i + 1;
        }
        proof {
            assert(chunk@.take(chunk@.len() as int) =~= chunk@);
        }
        out
    }
}

/// Feeding the bytes of `s1` and then those of `s2` has the effect of feeding
/// `s1 + s2` at once.
pub proof fn lemma_run_concat(st: FrameState, s1: Seq<u8>, s2: Seq<u8>)
    ensures
        run(st, s1 + s2) == run(run(st, s1), s2),
    decreases s2.len(),
{
    if s2.len() == 0 {
        assert(s1 + s2 =~= s1);
    } else {
        assert((s1 + s2).drop_last() =~= s1 + s2.drop_last());
        lemma_run_concat(st, s1, s2.drop_last());
    }
}

/// The lines already completed before some bytes arrive are kept ahead of the
/// lines those bytes complete; the rest of the state does not depend on them.
pub proof fn lemma_run_keeps_lines(st: FrameState, s: Seq<u8>)
    ensures
        run(st, s).lines == st.lines + run(without_lines(st), s).lines,
        run(st, s).pending == run(without_lines(st), s).pending,
        run(st, s).after_cr == run(without_lines(st), s).after_cr,
    decreases s.len(),
{
    if s.len() == 0 {
        assert(st.lines + Seq::<Seq<u8>>::empty() =~= st.lines);
    } else {
        lemma_run_keeps_lines(st, s.drop_last());
        let b = run(without_lines(st), s.drop_last());
        assert((st.lines + b.lines).push(b.pending) =~= st.lines + b.lines.push(b.pending));
    }
}

/// Feeding chunks one after the other has the effect of feeding their
/// concatenation at once.
pub proof fn lemma_feed_all_is_run(st: FrameState, chunks: Seq<Seq<u8>>)
    ensures
        feed_all(st, chunks) == run(st, chunks.flatten()),
    decreases chunks.len(),
{
    if chunks.len() > 0 {
        lemma_feed_all_is_run(run(st, chunks[0]), chunks.drop_first());
        lemma_run_concat(st, chunks[0], chunks.drop_first().flatten());
    }
}

/// However a byte stream is cut into chunks, feeding the chunks to a new
/// framer yields the same lines in the same order, and leaves the same
/// unterminated remainder.
pub proof fn lemma_chunking_invariant(chunks1: Seq<Seq<u8>>, chunks2: Seq<Seq<u8>>)
    requires
        chunks1.flatten() == chunks2.flatten(),
    ensures
        feed_all(fresh(), chunks1) == feed_all(fresh(), chunks2),
{
    lemma_feed_all_is_run(fresh(), chunks1);
    lemma_feed_all_is_run(fresh(), chunks2);
}

/// The three line-ending conventions a client may use.
pub enum LineEnding {
    Lf,
    Cr,
    CrLf,
}

/// The bytes of a line ending.
pub open spec fn ending_bytes(e: LineEnding) -> Seq<u8> {
    match e {
        LineEnding::Lf => seq![10u8],
        LineEnding::Cr => seq![13u8],
        LineEnding::CrLf => seq![13u8, 10u8],
    }
}

/// A non-empty line holding neither a carriage return nor a line feed.
pub open spec fn is_line_text(l: Seq<u8>) -> bool {
    l.len() > 0 && forall|i: int| 0 <= i < l.len() ==> l[i] != 10 && l[i] != 13
}

/// Each line followed by its own line ending.
pub open spec fn join_lines(lines: Seq<Seq<u8>>, ends: Seq<LineEnding>) -> Seq<u8>
    decreases lines.len(),
{
    if lines.len() == 0 || ends.len() == 0 {
        Seq::empty()
    } else {
        lines[0] + ending_bytes(ends[0]) + join_lines(lines.drop_first(), ends.drop_first())
    }
}

proof fn lemma_run_text(st: FrameState, l: Seq<u8>)
    requires
        forall|i: int| 0 <= i < l.len() ==> l[i] != 10 && l[i] != 13,
    ensures
        run(st, l) == (FrameState {
            lines: st.lines,
            pending: st.pending + l,
            after_cr: if l.len() == 0 { st.after_cr } else { false },
        }),
    decreases l.len(),
{
    if l.len() == 0 {
        assert(st.pending + l =~= st.pending);
    } else {
        lemma_run_text(st, l.drop_last());
        assert((st.pending + l.drop_last()).push(l.last()) =~= st.pending + l);
    }
}

proof fn lemma_run_ending(st: FrameState, e: LineEnding)
    requires
        !st.after_cr,
    ensures
        run(st, ending_bytes(e)).lines == st.lines.push(st.pending),
        run(st, ending_bytes(e)).pending == Seq::<u8>::empty(),
{
    let s = ending_bytes(e);
    reveal_with_fuel(run, 3);
    match e {
        LineEnding::CrLf => {
            assert(s.drop_last() =~= seq![13u8]);
            assert(s.drop_last().drop_last() =~= Seq::<u8>::empty());
        },
        _ => {
            assert(s.drop_last() =~= Seq::<u8>::empty());
        },
    }
}

proof fn lemma_run_joined(st: FrameState, lines: Seq<Seq<u8>>, ends: Seq<LineEnding>)
    requires
        st.pending.len() == 0,
        ends.len() == lines.len(),
        forall|i: int| 0 <= i < lines.len() ==> is_line_text(#[trigger] lines[i]),
    ensures
        run(st, join_lines(lines, ends)).lines == st.lines + lines,
        run(st, join_lines(lines, ends)).pending == Seq::<u8>::empty(),
    decreases lines.len(),
{
    if lines.len() == 0 {
        assert(st.lines + lines =~= st.lines);
    } else {
        let l = lines[0];
        assert(is_line_text(l));
        let rest = join_lines(lines.drop_first(), ends.drop_first());
        lemma_run_concat(st, l + ending_bytes(ends[0]), rest);
        lemma_run_concat(st, l, ending_bytes(ends[0]));
        lemma_run_text(st, l);
        let st1 = run(st, l);
        assert(st.pending + l =~= l);
        lemma_run_ending(st1, ends[0]);
        let st2 = run(st1, ending_bytes(ends[0]));
        assert forall|i: int| 0 <= i < lines.drop_first().len() implies is_line_text(
            #[trigger] lines.drop_first()[i],
        ) by {
            assert(lines.drop_first()[i] == lines[i + 1]);
        }
        lemma_run_joined(st2, lines.drop_first(), ends.drop_first());
        assert(st.lines.push(l) + lines.drop_first() =~= st.lines + lines);
    }
}

/// Line feeds, carriage returns and carriage-return-line-feed pairs are
/// interchangeable: whichever ending follows each line, a new framer yields
/// exactly the lines sent, and nothing is left pending.
pub proof fn lemma_line_endings_interchangeable(lines: Seq<Seq<u8>>, ends: Seq<LineEnding>)
    requires
        ends.len() == lines.len(),
        forall|i: int| 0 <= i < lines.len() ==> is_line_text(#[trigger] lines[i]),
    ensures
        run(fresh(), join_lines(lines, ends)).lines == lines,
        run(fresh(), join_lines(lines, ends)).pending == Seq::<u8>::empty(),
{
    lemma_run_joined(fresh(), lines, ends);
    assert(fresh().lines + lines =~= lines);
}

/// Two connections served side by side: each step of `sched` hands a chunk
/// to the first connection (`true`) or to the second (`false`).
pub open spec fn feed_interleaved(
    a: FrameState,
    b: FrameState,
    sched: Seq<(bool, Seq<u8>)>,
) -> (FrameState, FrameState)
    decreases sched.len(),
{
    if sched.len() == 0 {
        (a, b)
    } else if sched[0].0 {
        feed_interleaved(run(a, sched[0].1), b, sched.drop_first())
    } else {
        feed_interleaved(a, run(b, sched[0].1), sched.drop_first())
    }
}

/// The chunks of a schedule that go to one side, in order.
pub open spec fn chunks_for(sched: Seq<(bool, Seq<u8>)>, side: bool) -> Seq<Seq<u8>>
    decreases sched.len(),
{
    if sched.len() == 0 {
        Seq::empty()
    } else if sched[0].0 == side {
        seq![sched[0].1] + chunks_for(sched.drop_first(), side)
    } else {
        chunks_for(sched.drop_first(), side)
    }
}

/// Connections are independent: however the chunks of two connections
/// interleave, each one ends in the state, with the lines, that its own
/// chunks alone produce.
pub proof fn lemma_connections_independent(
    a: FrameState,
    b: FrameState,
    sched: Seq<(bool, Seq<u8>)>,
)
    ensures
        feed_interleaved(a, b, sched) == (
        feed_all(a, chunks_for(sched, true)),
        feed_all(b, chunks_for(sched, false)),
        ),
    decreases sched.len(),
{
    if sched.len() > 0 {
        let c = sched[0].1;
        let rest = sched.drop_first();
        if sched[0].0 {
            lemma_connections_independent(run(a, c), b, rest);
            let x = seq![c] + chunks_for(rest, true);
            assert(x.drop_first() =~= chunks_for(rest, true));
        } else {
            lemma_connections_independent(a, run(b, c), rest);
            let x = seq![c] + chunks_for(rest, false);
            assert(x.drop_first() =~= chunks_for(rest, false));
        }
    }
}

} // verus!
