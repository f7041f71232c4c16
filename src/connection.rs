//! One client's session: bytes come in, and replies go out one line at a
//! time, so that a line is dispatched only once the reply to the line before
//! it has been written.
use crate::framer::{fresh, lemma_run_concat, lemma_run_keeps_lines, run, without_lines, FrameState, LineFramer};
use crate::protocol::{lossy_utf8, respond_line, response_fits};
use vstd::prelude::*;
use vstd::utf8::{decode_utf8, valid_utf8};

verus! {

/// The state a connection's handler owns: its accumulator and the complete
/// lines received and not yet answered.
pub struct Connection {
    framer: LineFramer,
    ready: Vec<Vec<u8>>,
    next: usize,
    received: Ghost<Seq<u8>>,
    answered: Ghost<nat>,
}

impl Connection {
    /// The framer's state: the bytes of the line not yet terminated.
    pub closed spec fn framer_state(&self) -> FrameState {
        self.framer.state()
    }

    /// The complete lines not yet answered, oldest first.
    pub closed spec fn queued(&self) -> Seq<Seq<u8>> {
        Seq::new((self.ready@.len() - self.next) as nat, |i: int| self.ready@[self.next + i]@)
    }

    /// Every byte received on the connection so far, in order.
    pub closed spec fn received(&self) -> Seq<u8> {
        self.received@
    }

    /// How many lines have been answered so far.
    pub closed spec fn answered(&self) -> nat {
        self.answered@
    }

    /// The lines answered and the lines queued are, in order, the lines of
    /// all bytes received; the framer holds what follows the last of them.
    pub closed spec fn wf(&self) -> bool {
        &&& self.next <= self.ready@.len()
        &&& self.answered@ <= run(fresh(), self.received@).lines.len()
        &&& self.queued() == run(fresh(), self.received@).lines.skip(self.answered@ as int)
        &&& self.framer.state() == without_lines(run(fresh(), self.received@))
    }

    /// A connection that has received nothing.
    pub fn new() -> (r: Connection)
        ensures
            r.wf(),
            r.framer_state() == crate::framer::fresh(),
            r.queued() == Seq::<Seq<u8>>::empty(),
            r.received() == Seq::<u8>::empty(),
            r.answered() == 0,
    {
        let r = Connection {
            framer: LineFramer::new(),
            ready: Vec::new(),
            next: 0,
            received: Ghost(Seq::empty()),
            answered: Ghost(0),
        };
        assert(r.queued() =~= Seq::<Seq<u8>>::empty());
        assert(run(fresh(), Seq::<u8>::empty()).lines.skip(0) =~= Seq::<Seq<u8>>::empty());
        r
    }

    /// Takes in a chunk of bytes; the lines it completes join the queue, in
    /// order, and the bytes after the last line ending are kept.
    pub fn receive(&mut self, chunk: &[u8])
        requires
            old(self).wf(),
        ensures
            final(self).wf(),
            final(self).framer_state() == without_lines(run(old(self).framer_state(), chunk@)),
            final(self).queued() == old(self).queued() + run(old(self).framer_state(), chunk@).lines,
            final(self).received() == old(self).received() + chunk@,
            final(self).answered() == old(self).answered(),
    {
        let ghost all0 = run(fresh(), self.received@);
        proof {
            lemma_run_concat(fresh(), self.received@, chunk@);
            lemma_run_keeps_lines(all0, chunk@);
        }
        let ghost q0 = self.queued();
        if self.next == self.ready.len() {
            self.ready.clear();
            self.next = 0;
            assert(self.queued() =~= q0);
        }
        let ghost q1 = self.queued();
        let ghost r0 = self.ready@;
        let mut lines = self.framer.feed(chunk);
        let ghost new_lines = lines@;
        self.ready.append(&mut lines);
        assert(self.ready@ == r0 + new_lines);
        assert(self.queued() =~= q1 + new_lines.map_values(|l: Vec<u8>| l@));
        self.received = Ghost(self.received@ + chunk@);
        proof {
            let added = run(without_lines(all0), chunk@).lines;
            assert(all0.lines.skip(self.answered@ as int) + added =~= (all0.lines + added).skip(
                self.answered@ as int,
            ));
        }
    }

    /// The oldest unanswered line, if there is one.
    pub fn peek_line(&self) -> (r: Option<&Vec<u8>>)
        requires
            self.wf(),
        ensures
            self.queued().len() == 0 ==> r is None,
            self.queued().len() > 0 ==> r is Some && r->0@ == self.queued()[0],
    {
        if self.next < self.ready.len() {
            Some(&self.ready[self.next])
        } else {
            None
        }
    }

    /// Answers the oldest unanswered line, if there is one, and drops it from
    /// the queue.
    pub fn next_response(&mut self) -> (r: Option<String>)
        requires
            old(self).wf(),
        ensures
            final(self).wf(),
            final(self).framer_state() == old(self).framer_state(),
            final(self).received() == old(self).received(),
            old(self).queued().len() > 0 ==> final(self).answered() == old(self).answered() + 1,
            old(self).queued().len() == 0 ==> final(self).answered() == old(self).answered(),
            old(self).queued().len() > 0 ==> old(self).queued()[0] == run(
                fresh(),
                old(self).received(),
            ).lines[old(self).answered() as int],
            old(self).queued().len() == 0 ==> r is None && final(self).queued() == old(self).queued(),
            old(self).queued().len() > 0 ==> {
                &&& r is Some
                &&& final(self).queued() == old(self).queued().drop_first()
                &&& response_fits(lossy_utf8(old(self).queued()[0]), r->0@)
                &&& valid_utf8(old(self).queued()[0]) ==> response_fits(
                    decode_utf8(old(self).queued()[0]),
                    r->0@,
                )
            },
    {
        if self.next < self.ready.len() {
            let resp = respond_line(self.ready[self.next].as_slice());
            let ghost q0 = self.queued();
            self.next = self.next + 1;
            self.answered = Ghost(self.answered@ + 1);
            assert(self.queued() =~= q0.drop_first());
            assert(run(fresh(), self.received@).lines.skip(self.answered@ as int) =~= q0.drop_first());
            Some(resp)
        } else {
            None
        }
    }
}

/// However a session's bytes were cut into chunks, what it holds depends only
/// on the bytes received and on how many lines were answered: two sessions
/// that agree on both queue the same lines and keep the same remainder, so
/// they give the same next responses.
pub proof fn lemma_session_chunking_invariant(c1: Connection, c2: Connection)
    requires
        c1.wf(),
        c2.wf(),
        c1.received() == c2.received(),
        c1.answered() == c2.answered(),
    ensures
        c1.queued() == c2.queued(),
        c1.framer_state() == c2.framer_state(),
{
}

} // verus!
