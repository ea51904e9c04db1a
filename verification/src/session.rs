//! The review-session controller: a state machine that orchestrates one
//! review cycle — pick a due item, time the recall attempt, collect a
//! grade, invoke the scheduling algorithm, and commit the result.
//!
//! Every transition is a pure step on the session value; only
//! [`Session::submit_grade`] writes to the store, and it does so through
//! one atomic repository operation. Cancellation never touches the store,
//! so it always succeeds. A command that is illegal in the current state
//! is rejected with `InvalidCommandForState` before anything mutates.

use vstd::prelude::*;

use crate::errors::{AppError, SchedulingError, SessionError, StorageError};
use crate::scheduling::{advance, advance_state, due_after, Outcome};
use crate::store::{lemma_due_seq_exact, lemma_item_idx_of, Store};
use crate::types::ScheduleEntry;

verus! {

/// Where the session stands in one review cycle.
#[derive(Clone, Copy, Debug, PartialEq, Eq, Structural)]
pub enum SessionState {
    /// No review under way: the resting state.
    Idle,
    /// An item is shown; the operator has not started recalling yet.
    Presenting { item_id: u64 },
    /// The recall attempt is being timed from `started_at`.
    Timing { item_id: u64, started_at: u64 },
    /// The attempt took `elapsed` time units; a grade is awaited.
    Grading { item_id: u64, elapsed: u64 },
}

/// The review-session controller. It owns the cursor over the due-set
/// batch fetched when the session started: an item graded and rescheduled
/// mid-session is not re-offered within the same session, even if its new
/// due timestamp were somehow still past.
pub struct Session {
    /// The current state of the review cycle.
    pub state: SessionState,
    /// Item ids of the due-set batch, in the due ordering.
    pub queue: Vec<u64>,
    /// How many of `queue`'s items have already been offered.
    pub cursor: usize,
}

impl Session {
    /// The controller's own invariant: the cursor never passes the end of
    /// the batch.
    pub open spec fn wf(self) -> bool {
        self.cursor <= self.queue@.len()
    }

    /// A fresh controller: `Idle`, with no batch.
    pub fn new() -> (r: Session)
        ensures
            r.state == SessionState::Idle,
            r.queue@ == Seq::<u64>::empty(),
            r.cursor == 0,
            r.wf(),
    {
        Session { state: SessionState::Idle, queue: Vec::new(), cursor: 0 }
    }

    /// Starts a review cycle: fetches the due-set at `now` as the
    /// session's batch and presents its first item. Legal only from
    /// `Idle`; an empty due-set is reported as `Ok(None)` and the session
    /// rests in `Idle`.
    pub fn start_review(&mut self, store: &Store, now: u64) -> (r: Result<Option<u64>, SessionError>)
        requires
            old(self).wf(),
            store.wf(),
        ensures
            final(self).wf(),
            old(self).state !is Idle ==> r == Err::<Option<u64>, SessionError>(
                SessionError::InvalidCommandForState,
            ) && *final(self) == *old(self),
            old(self).state is Idle ==> forall|i: int|
                0 <= i < final(self).queue@.len() ==> store@.has_item_id(
                    #[trigger] final(self).queue@[i],
                ),
            old(self).state is Idle && store@.due_seq(now).len() == 0 ==> r == Ok::<
                Option<u64>,
                SessionError,
            >(None) && final(self).state is Idle && final(self).queue@ == Seq::<u64>::empty()
                && final(self).cursor == 0,
            old(self).state is Idle && store@.due_seq(now).len() > 0 ==> r == Ok::<
                Option<u64>,
                SessionError,
            >(Some(store@.due_seq(now)[0].item_id)) && final(self).state == (SessionState::Presenting {
                item_id: store@.due_seq(now)[0].item_id,
            }) && final(self).queue@ == store@.due_seq(now).map_values(|e: ScheduleEntry| e.item_id)
                && final(self).cursor == 1,
    {
        match self.state {
            SessionState::Idle => {
                let entries = store.get_due_ids(now);
                let mut ids: Vec<u64> = Vec::new();
                let mut k: usize = 0;
                while k < entries.len()
                    invariant
                        k <= entries.len(),
                        ids@.len() == k,
                        forall|i: int| 0 <= i < k ==> ids@[i] == entries@[i].item_id,
                    decreases entries.len() - k,
                {
                    ids.push(entries[k].item_id);
                    k = k + 1;
                }
                proof {
                    assert(ids@ =~= store@.due_seq(now).map_values(
                        |e: ScheduleEntry| e.item_id,
                    ));
                    lemma_due_seq_exact(store@, now);
                    assert forall|i: int| 0 <= i < ids@.len() implies store@.has_item_id(
                        ids@[i],
                    ) by {
                        let e = store@.due_seq(now)[i];
                        assert(store@.schedule.contains(e));
                        let j = choose|j: int|
                            0 <= j < store@.schedule.len() && #[trigger] store@.schedule[j] == e;
                        assert(store@.items[j].id == e.item_id);
                        lemma_item_idx_of(store@, e.item_id, j);
                    }
                }
                if ids.len() == 0 {
                    self.queue = ids;
                    self.cursor = 0;
                    Ok(None)
                } else {
                    let first = ids[0];
                    self.queue = ids;
                    self.cursor = 1;
                    self.state = SessionState::Presenting { item_id: first };
                    Ok(Some(first))
                }
            },
            _ => Err(SessionError::InvalidCommandForState),
        }
    }

    /// Starts timing the presented item's recall attempt. Legal only from
    /// `Presenting`; records the start instant and nothing else.
    pub fn start_timer(&mut self, now: u64) -> (r: Result<(), SessionError>)
        requires
            old(self).wf(),
        ensures
            final(self).wf(),
            final(self).queue == old(self).queue,
            final(self).cursor == old(self).cursor,
            match old(self).state {
                SessionState::Presenting { item_id } => r == Ok::<(), SessionError>(())
                    && final(self).state == (SessionState::Timing { item_id, started_at: now }),
                _ => r == Err::<(), SessionError>(SessionError::InvalidCommandForState)
                    && *final(self) == *old(self),
            },
    {
        match self.state {
            SessionState::Presenting { item_id } => {
                self.state = SessionState::Timing { item_id, started_at: now };
                Ok(())
            },
            _ => Err(SessionError::InvalidCommandForState),
        }
    }

    /// Stops the timer and moves to grading with the elapsed time (zero if
    /// the given clock reads before the recorded start). Legal only from
    /// `Timing`; no mutation yet.
    pub fn stop_timer(&mut self, now: u64) -> (r: Result<(), SessionError>)
        requires
            old(self).wf(),
        ensures
            final(self).wf(),
            final(self).queue == old(self).queue,
            final(self).cursor == old(self).cursor,
            match old(self).state {
                SessionState::Timing { item_id, started_at } => r == Ok::<(), SessionError>(())
                    && final(self).state == (SessionState::Grading {
                    item_id,
                    elapsed: if now >= started_at {
                        (now - started_at) as u64
                    } else {
                        0
                    },
                }),
                _ => r == Err::<(), SessionError>(SessionError::InvalidCommandForState)
                    && *final(self) == *old(self),
            },
    {
        match self.state {
            SessionState::Timing { item_id, started_at } => {
                let elapsed = if now >= started_at {
                    now - started_at
                } else {
                    0
                };
                self.state = SessionState::Grading { item_id, elapsed };
                Ok(())
            },
            _ => Err(SessionError::InvalidCommandForState),
        }
    }

    /// Discards the running timer and returns to presenting the same item.
    /// Legal only from `Timing`. Cancellation is a pure in-memory step: it
    /// takes no store and thus leaves every persisted due timestamp and
    /// scheduling state exactly as it was, and it always succeeds.
    pub fn cancel_timer(&mut self) -> (r: Result<(), SessionError>)
        requires
            old(self).wf(),
        ensures
            final(self).wf(),
            final(self).queue == old(self).queue,
            final(self).cursor == old(self).cursor,
            match old(self).state {
                SessionState::Timing { item_id, started_at } => r == Ok::<(), SessionError>(())
                    && final(self).state == (SessionState::Presenting { item_id }),
                _ => r == Err::<(), SessionError>(SessionError::InvalidCommandForState)
                    && *final(self) == *old(self),
            },
    {
        match self.state {
            SessionState::Timing { item_id, started_at: _ } => {
                self.state = SessionState::Presenting { item_id };
                Ok(())
            },
            _ => Err(SessionError::InvalidCommandForState),
        }
    }

    /// Re-times the item under grading, discarding the prior elapsed time.
    /// Legal only from `Grading`.
    pub fn restart_timer(&mut self, now: u64) -> (r: Result<(), SessionError>)
        requires
            old(self).wf(),
        ensures
            final(self).wf(),
            final(self).queue == old(self).queue,
            final(self).cursor == old(self).cursor,
            match old(self).state {
                SessionState::Grading { item_id, elapsed } => r == Ok::<(), SessionError>(())
                    && final(self).state == (SessionState::Timing { item_id, started_at: now }),
                _ => r == Err::<(), SessionError>(SessionError::InvalidCommandForState)
                    && *final(self) == *old(self),
            },
    {
        match self.state {
            SessionState::Grading { item_id, elapsed: _ } => {
                self.state = SessionState::Timing { item_id, started_at: now };
                Ok(())
            },
            _ => Err(SessionError::InvalidCommandForState),
        }
    }

    /// Abandons the review cycle: back to `Idle`, the batch discarded, the
    /// presented item untouched. Legal only from `Presenting`. As with
    /// [`Session::cancel_timer`], no store is touched and the command
    /// always succeeds from its state.
    pub fn cancel_review(&mut self) -> (r: Result<(), SessionError>)
        requires
            old(self).wf(),
        ensures
            final(self).wf(),
            match old(self).state {
                SessionState::Presenting { item_id } => r == Ok::<(), SessionError>(())
                    && final(self).state is Idle && final(self).queue@ == Seq::<u64>::empty()
                    && final(self).cursor == 0,
                _ => r == Err::<(), SessionError>(SessionError::InvalidCommandForState)
                    && *final(self) == *old(self),
            },
    {
        match self.state {
            SessionState::Presenting { item_id: _ } => {
                self.state = SessionState::Idle;
                self.queue = Vec::new();
                self.cursor = 0;
                Ok(())
            },
            _ => Err(SessionError::InvalidCommandForState),
        }
    }

    /// Grades the recall attempt: invokes the scheduling algorithm on the
    /// item's stored state and commits the new state and due timestamp
    /// through one atomic repository update. On success the session
    /// advances to the next item of its batch, or to `Idle` when none
    /// remain. On any failure — item gone from the store, or a corrupt
    /// stored state — the session stays in `Grading` with the store
    /// untouched, and the operator may retry.
    pub fn submit_grade(&mut self, store: &mut Store, outcome: Outcome, now: u64) -> (r: Result<
        Option<u64>,
        AppError,
    >)
        requires
            old(self).wf(),
            old(store).wf(),
        ensures
            final(self).wf(),
            final(store).wf(),
            old(self).state !is Grading ==> r == Err::<Option<u64>, AppError>(
                AppError::SessionError(SessionError::InvalidCommandForState),
            ) && *final(self) == *old(self) && final(store)@ == old(store)@,
            r is Err ==> *final(self) == *old(self) && final(store)@ == old(store)@,
            old(self).state matches SessionState::Grading { item_id, elapsed: _ } ==> {
                &&& !old(store)@.has_item_id(item_id) ==> r == Err::<Option<u64>, AppError>(
                    AppError::DatabaseError(StorageError::NotFound),
                )
                &&& old(store)@.has_item_id(item_id)
                    && !old(store)@.item_view_of(item_id).scheduling_state.advancable() ==> r
                    == Err::<Option<u64>, AppError>(AppError::SchedulingError(
                    SchedulingError::CorruptState,
                ))
                &&& old(store)@.has_item_id(item_id) && old(store)@.item_view_of(
                    item_id,
                ).scheduling_state.advancable() ==> {
                    let st = advance_state(old(store)@.item_view_of(item_id).scheduling_state, outcome);
                    &&& final(store)@ == old(store)@.update_model(item_id, st, due_after(now, st.interval))
                    &&& (old(self).cursor < old(self).queue@.len() ==> r == Ok::<Option<u64>, AppError>(
                        Some(old(self).queue@[old(self).cursor as int]),
                    ) && final(self).state == (SessionState::Presenting {
                        item_id: old(self).queue@[old(self).cursor as int],
                    }) && final(self).cursor == old(self).cursor + 1 && final(self).queue
                        == old(self).queue)
                    &&& (old(self).cursor >= old(self).queue@.len() ==> r == Ok::<Option<u64>, AppError>(None)
                        && final(self).state is Idle && final(self).cursor == old(self).cursor
                        && final(self).queue == old(self).queue)
                }
            },
    {
        match self.state {
            SessionState::Grading { item_id, elapsed } => {
                let item = match store.get_item(item_id) {
                    Ok(item) => item,
                    Err(_) => {
                        return Err(AppError::DatabaseError(StorageError::NotFound));
                    },
                };
                let (new_state, next_due) = match advance(item.scheduling_state, outcome, elapsed, now) {
                    Ok(p) => p,
                    Err(e) => {
                        return Err(AppError::SchedulingError(e));
                    },
                };
                match store.update_item(item_id, new_state, next_due) {
                    Ok(_) => {},
                    Err(e) => {
                        return Err(AppError::DatabaseError(e));
                    },
                };
                if self.cursor < self.queue.len() {
                    let next = self.queue[self.cursor];
                    self.cursor = self.cursor + 1;
                    self.state = SessionState::Presenting { item_id: next };
                    Ok(Some(next))
                } else {
                    self.state = SessionState::Idle;
                    Ok(None)
                }
            },
            _ => Err(AppError::SessionError(SessionError::InvalidCommandForState)),
        }
    }
}

} // verus!
