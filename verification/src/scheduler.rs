//! The scanline scheduler.
//!
//! A render hands every row of the image to a worker exactly once, with a
//! bounded number of workers busy at any time, and collects the finished rows
//! in whatever order they arrive. The scheduler holds the bookkeeping of that
//! loop and decides each of its steps; starting workers and waiting for them
//! is left to the caller, which reports back what happened.

use crate::scanline::{
    every_row_once,
    lemma_row_lines_add,
    lemma_row_lines_one,
    lemma_sorted_rows_in_place,
    row_lines,
    sort_by_row,
    Scanline,
};
use std::collections::HashSet;
use vstd::prelude::*;
use vstd::std_specs::hash::group_hash_axioms;

verus! {

/// Why a render came to nothing.
#[derive(Clone, Copy, Debug, PartialEq, Eq, Structural)]
pub enum RenderError {
    /// The worker that was rendering this row died.
    WorkerFailed(usize),
    /// A scanline arrived for a row that no worker was rendering.
    UnexpectedRow(usize),
    /// There are rows to render and the pool has room for no worker.
    NoWorkers,
    /// The image was asked for while rows were still missing.
    Incomplete,
}

/// What the caller is to do next.
#[derive(Clone, Copy, Debug, PartialEq, Eq, Structural)]
pub enum Action {
    /// Start a worker on this row.
    Spawn(usize),
    /// Wait for a worker to deliver its scanline or to fail.
    Wait,
    /// Every row is in: take the image.
    Finish,
    /// Give the render up.
    Abort(RenderError),
}

/// The state of one render: which rows have been handed out, which of them
/// are still being rendered, and the scanlines that have come back.
pub struct Scheduler<P> {
    height: usize,
    max_workers: usize,
    next_row: usize,
    active: HashSet<usize>,
    lines: Vec<Scanline<P>>,
    failure: Option<RenderError>,
}

impl<P> Scheduler<P> {
    /// Number of rows of the image.
    pub closed spec fn rows(&self) -> nat {
        self.height as nat
    }

    /// The most workers that may be busy at once.
    pub closed spec fn workers(&self) -> nat {
        self.max_workers as nat
    }

    /// Number of rows handed out so far: they are the rows below it.
    pub closed spec fn dispatched(&self) -> nat {
        self.next_row as nat
    }

    /// The rows that are being rendered.
    pub closed spec fn in_flight(&self) -> Set<usize> {
        self.active@
    }

    /// The scanlines delivered so far, in the order of their arrival.
    pub closed spec fn collected(&self) -> Seq<Scanline<P>> {
        self.lines@
    }

    /// The first fatal error, once there is one.
    pub closed spec fn failure(&self) -> Option<RenderError> {
        self.failure
    }

    /// The row was handed out and is no longer in flight.
    pub open spec fn has_returned(&self, row: usize) -> bool {
        row < self.dispatched() && !self.in_flight().contains(row)
    }

    /// The scheduler's invariant. Only rows that were handed out can be in
    /// flight, never more of them than the pool allows; every row that was
    /// handed out is in flight or has come back; and a row has one scanline
    /// if it was handed out and is no longer in flight, else none.
    pub open spec fn wf(&self) -> bool {
        &&& self.dispatched() <= self.rows()
        &&& self.in_flight().finite()
        &&& self.in_flight().len() <= self.workers()
        &&& self.in_flight().len() + self.collected().len() == self.dispatched()
        &&& forall|row: usize| self.in_flight().contains(row) ==> row < self.dispatched()
        &&& forall|row: usize| #[trigger]
            row_lines(self.collected(), row).len() == (if self.has_returned(row) {
                1nat
            } else {
                0nat
            })
    }

    /// The step that the state calls for. A failure ends everything; else a
    /// row is started while rows are left and the pool has room; else the
    /// caller waits while workers are busy; else the render is over.
    pub open spec fn decision(&self) -> Action {
        match self.failure() {
            Some(e) => Action::Abort(e),
            None => if self.dispatched() < self.rows() && self.in_flight().len()
                < self.workers() {
                Action::Spawn(self.dispatched() as usize)
            } else if self.in_flight().len() > 0 {
                Action::Wait
            } else if self.dispatched() == self.rows() {
                Action::Finish
            } else {
                Action::Abort(RenderError::NoWorkers)
            },
        }
    }

    /// A scheduler for an image of `height` rows and a pool of `max_workers`:
    /// nothing handed out, nothing collected.
    pub fn new(height: usize, max_workers: usize) -> (s: Self)
        ensures
            s.wf(),
            s.rows() == height,
            s.workers() == max_workers,
            s.dispatched() == 0,
            s.in_flight() == Set::<usize>::empty(),
            s.collected() == Seq::<Scanline<P>>::empty(),
            s.failure() is None,
    {
        let s = Self {
            height,
            max_workers,
            next_row: 0,
            active: HashSet::new(),
            lines: Vec::new(),
            failure: None,
        };
        proof {
            assert(s.in_flight() =~= Set::<usize>::empty());
            assert forall|row: usize| #[trigger] row_lines(s.collected(), row).len() == 0 by {
                s.collected().lemma_filter_len(|l: Scanline<P>| l.line_num == row);
            }
        }
        s
    }

    /// Computes the step that the state calls for.
    fn decide(&self) -> (action: Action)
        requires
            self.wf(),
        ensures
            action == self.decision(),
    {
        broadcast use group_hash_axioms;

        if let Some(e) = self.failure {
            return Action::Abort(e);
        }
        if self.next_row < self.height && self.active.len() < self.max_workers {
            Action::Spawn(self.next_row)
        } else if self.active.len() > 0 {
            Action::Wait
        } else if self.next_row == self.height {
            Action::Finish
        } else {
            Action::Abort(RenderError::NoWorkers)
        }
    }

    /// Decides the next step and, where that is to start a worker, counts
    /// the row as handed out and in flight.
    pub fn next_action(&mut self) -> (action: Action)
        requires
            old(self).wf(),
        ensures
            final(self).wf(),
            action == old(self).decision(),
            final(self).rows() == old(self).rows(),
            final(self).workers() == old(self).workers(),
            final(self).collected() == old(self).collected(),
            final(self).failure() == old(self).failure(),
            match action {
                Action::Spawn(row) => {
                    &&& !old(self).in_flight().contains(row)
                    &&& final(self).dispatched() == old(self).dispatched() + 1
                    &&& final(self).in_flight() == old(self).in_flight().insert(row)
                },
                _ => {
                    &&& final(self).dispatched() == old(self).dispatched()
                    &&& final(self).in_flight() == old(self).in_flight()
                },
            },
    {
        broadcast use group_hash_axioms;

        let action = self.decide();
        if let Action::Spawn(row) = action {
            self.active.insert(row);
            self.next_row = row + 1;
            proof {
                assert forall|r: usize| #[trigger]
                    row_lines(self.collected(), r).len() == (if self.has_returned(r) {
                        1nat
                    } else {
                        0nat
                    }) by {
                    assert(row_lines(old(self).collected(), r).len() == (if old(
                        self,
                    ).has_returned(r) {
                        1nat
                    } else {
                        0nat
                    }));
                }
            }
        }
        action
    }

    /// Takes delivery of the scanline of a row that was in flight. A scanline
    /// for any other row is fatal to the render, and after a failure nothing
    /// is accepted any more.
    pub fn completed(&mut self, line: Scanline<P>) -> (result: Result<(), RenderError>)
        requires
            old(self).wf(),
        ensures
            final(self).wf(),
            final(self).rows() == old(self).rows(),
            final(self).workers() == old(self).workers(),
            final(self).dispatched() == old(self).dispatched(),
            match result {
                Ok(()) => {
                    &&& old(self).failure() is None
                    &&& old(self).in_flight().contains(line.line_num)
                    &&& final(self).failure() is None
                    &&& final(self).in_flight() == old(self).in_flight().remove(line.line_num)
                    &&& final(self).collected() == old(self).collected().push(line)
                },
                Err(e) => {
                    &&& match old(self).failure() {
                        Some(earlier) => e == earlier,
                        None => !old(self).in_flight().contains(line.line_num) && e
                            == RenderError::UnexpectedRow(line.line_num),
                    }
                    &&& final(self).failure() == Some(e)
                    &&& final(self).in_flight() == old(self).in_flight()
                    &&& final(self).collected() == old(self).collected()
                },
            },
    {
        broadcast use group_hash_axioms;

        if let Some(e) = self.failure {
            return Err(e);
        }
        let row = line.line_num;
        if self.active.remove(&row) {
            self.lines.push(line);
            proof {
                let lines = old(self).lines@;
                assert(self.lines@ =~= lines + seq![line]);
                assert forall|r: usize| #[trigger]
                    row_lines(self.collected(), r).len() == (if self.has_returned(r) {
                        1nat
                    } else {
                        0nat
                    }) by {
                    lemma_row_lines_add(lines, seq![line], r);
                    lemma_row_lines_one(line, r);
                    assert(row_lines(old(self).collected(), r).len() == (if old(
                        self,
                    ).has_returned(r) {
                        1nat
                    } else {
                        0nat
                    }));
                    assert(old(self).in_flight().contains(row));
                }
            }
            Ok(())
        } else {
            let e = RenderError::UnexpectedRow(row);
            self.failure = Some(e);
            proof {
                assert(self.active@ =~= old(self).active@);
                Self::lemma_failure_keeps_wf(*old(self), *self);
            }
            Err(e)
        }
    }

    /// Records that the worker of `row` died. The first failure is kept.
    pub fn failed(&mut self, row: usize)
        requires
            old(self).wf(),
        ensures
            final(self).wf(),
            final(self).rows() == old(self).rows(),
            final(self).workers() == old(self).workers(),
            final(self).dispatched() == old(self).dispatched(),
            final(self).in_flight() == old(self).in_flight(),
            final(self).collected() == old(self).collected(),
            final(self).failure() == Some(
                match old(self).failure() {
                    Some(earlier) => earlier,
                    None => RenderError::WorkerFailed(row),
                },
            ),
    {
        if self.failure.is_none() {
            self.failure = Some(RenderError::WorkerFailed(row));
        }
        proof {
            Self::lemma_failure_keeps_wf(*old(self), *self);
        }
    }

    /// Whether every row has been handed out and has come back.
    pub fn is_done(&self) -> (done: bool)
        requires
            self.wf(),
        ensures
            done == (self.decision() == Action::Finish),
    {
        match self.decide() {
            Action::Finish => true,
            _ => false,
        }
    }

    /// Number of workers that are busy.
    pub fn active_workers(&self) -> (n: usize)
        requires
            self.wf(),
        ensures
            n == self.in_flight().len(),
    {
        broadcast use group_hash_axioms;

        self.active.len()
    }

    /// Number of scanlines that have come back.
    pub fn collected_rows(&self) -> (n: usize)
        ensures
            n == self.collected().len(),
    {
        self.lines.len()
    }

    /// Ends the render. Once every row is in, the image is the collected
    /// scanlines in row order: as many as the image has rows, the one at
    /// index `i` being the only scanline that was delivered for row `i`.
    /// Before that there is no image, only the reason why.
    pub fn finish(self) -> (result: Result<Vec<Scanline<P>>, RenderError>)
        requires
            self.wf(),
        ensures
            match result {
                Ok(image) => {
                    &&& self.decision() == Action::Finish
                    &&& image@.len() == self.rows()
                    &&& forall|i: int|
                        0 <= i < image@.len() ==> (#[trigger] image@[i]).line_num == i
                    &&& forall|i: int|
                        0 <= i < image@.len() ==> row_lines(self.collected(), i as usize)
                            == seq![#[trigger] image@[i]]
                },
                Err(e) => match self.decision() {
                    Action::Finish => false,
                    Action::Abort(cause) => e == cause,
                    _ => e == RenderError::Incomplete,
                },
            },
    {
        match self.decide() {
            Action::Finish => {
                proof {
                    self.lemma_finished();
                }
                let ghost collected = self.lines@;
                let image = sort_by_row(self.lines);
                proof {
                    assert(every_row_once(image@, self.rows())) by {
                        assert forall|row: usize| #[trigger]
                            row_lines(image@, row).len() == (if row < self.rows() {
                                1nat
                            } else {
                                0nat
                            }) by {
                            assert(row_lines(image@, row) == row_lines(collected, row));
                        }
                    }
                    lemma_sorted_rows_in_place(image@, self.rows());
                    assert forall|i: int| 0 <= i < image@.len() implies row_lines(
                        self.collected(),
                        i as usize,
                    ) == seq![#[trigger] image@[i]] by {
                        assert(row_lines(image@, i as usize) == row_lines(collected, i as usize));
                    }
                }
                Ok(image)
            },
            Action::Abort(e) => Err(e),
            _ => Err(RenderError::Incomplete),
        }
    }

    /// Recording a failure touches nothing that the invariant speaks of.
    proof fn lemma_failure_keeps_wf(before: Self, after: Self)
        requires
            before.wf(),
            after.height == before.height,
            after.max_workers == before.max_workers,
            after.next_row == before.next_row,
            after.active@ == before.active@,
            after.lines@ == before.lines@,
        ensures
            after.wf(),
    {
        assert forall|row: usize| #[trigger]
            row_lines(after.collected(), row).len() == (if after.has_returned(row) {
                1nat
            } else {
                0nat
            }) by {
            assert(row_lines(before.collected(), row).len() == (if before.has_returned(row) {
                1nat
            } else {
                0nat
            }));
        }
    }

    /// While nothing has failed, the render is over exactly when as many
    /// scanlines have come back as the image has rows.
    pub proof fn lemma_done_when_all_collected(self)
        requires
            self.wf(),
            self.failure() is None,
        ensures
            self.decision() == Action::Finish <==> self.collected().len() == self.rows(),
    {
    }

    /// A scheduler never waits in vain: while it waits, some row is in
    /// flight, and the scanline of any such row will be accepted.
    pub proof fn lemma_wait_has_work(self)
        requires
            self.wf(),
            self.decision() == Action::Wait,
        ensures
            self.failure() is None,
            exists|row: usize| self.in_flight().contains(row),
    {
        let row = self.in_flight().choose();
        if self.in_flight().is_empty() {
            assert(self.in_flight() =~= Set::<usize>::empty());
        }
        assert(self.in_flight().contains(row));
    }

    /// When the render is over, every row of the image has been delivered
    /// exactly once, and nothing else has.
    pub proof fn lemma_finished(self)
        requires
            self.wf(),
            self.decision() == Action::Finish,
        ensures
            every_row_once(self.collected(), self.rows()),
            self.in_flight() == Set::<usize>::empty(),
            self.dispatched() == self.rows(),
    {
        assert(self.in_flight() =~= Set::<usize>::empty());
    }
}

} // verus!
