use spaced_review::errors::{AppError, SessionError, StorageError};
use spaced_review::scheduling::{Outcome, SchedulingState};
use spaced_review::session::{Session, SessionState};
use spaced_review::store::Store;
use spaced_review::types::Item;

fn default_state() -> SchedulingState {
    SchedulingState {
        interval: 1,
        difficulty: 300,
        memory_strength: 500,
        adjusting_factor: 1300,
        times_reviewed: 0,
        times_recalled: 0,
    }
}

fn store_with_items(dues: &[u64]) -> (Store, Vec<u64>) {
    let mut store = Store::new();
    let mut ids = Vec::new();
    for (k, due) in dues.iter().enumerate() {
        let item = Item {
            id: 0,
            url: format!("https://example.org/{k}"),
            tags: vec![],
            notes: String::new(),
            scheduling_state: default_state(),
        };
        ids.push(store.insert_item(item, *due).unwrap());
    }
    (store, ids)
}

#[test]
fn start_review_on_empty_due_set_rests_idle() {
    let (store, _) = store_with_items(&[100]);
    let mut session = Session::new();
    // nothing is due yet at 50
    assert_eq!(session.start_review(&store, 50), Ok(None));
    assert_eq!(session.state, SessionState::Idle);
}

#[test]
fn full_review_cycle_reschedules_and_advances() {
    let (mut store, ids) = store_with_items(&[10, 20]);
    let mut session = Session::new();
    let first = session.start_review(&store, 50).unwrap().unwrap();
    assert_eq!(first, ids[0]);
    assert_eq!(session.state, SessionState::Presenting { item_id: ids[0] });
    session.start_timer(100).unwrap();
    session.stop_timer(130).unwrap();
    assert_eq!(
        session.state,
        SessionState::Grading { item_id: ids[0], elapsed: 30 }
    );
    // grading commits and presents the next due item
    let next = session.submit_grade(&mut store, Outcome::Normal, 130).unwrap();
    assert_eq!(next, Some(ids[1]));
    assert_eq!(session.state, SessionState::Presenting { item_id: ids[1] });
    // the graded item was rescheduled past `now`
    let graded = store.get_item(ids[0]).unwrap();
    assert_eq!(graded.scheduling_state.times_reviewed, 1);
    assert_eq!(graded.scheduling_state.times_recalled, 1);
    assert!(!store.get_due(130).iter().any(|(it, _)| it.id == ids[0]));
    // grade the second one; no items remain, so the session rests
    session.start_timer(140).unwrap();
    session.stop_timer(150).unwrap();
    let done = session.submit_grade(&mut store, Outcome::Hard, 150).unwrap();
    assert_eq!(done, None);
    assert_eq!(session.state, SessionState::Idle);
    let second = store.get_item(ids[1]).unwrap();
    assert_eq!(second.scheduling_state.times_reviewed, 1);
    assert_eq!(second.scheduling_state.times_recalled, 0);
}

#[test]
fn cancel_timer_returns_to_presenting_with_item_untouched() {
    let (mut store, ids) = store_with_items(&[10]);
    let mut session = Session::new();
    session.start_review(&store, 50).unwrap();
    session.start_timer(60).unwrap();
    assert_eq!(
        session.state,
        SessionState::Timing { item_id: ids[0], started_at: 60 }
    );
    session.cancel_timer().unwrap();
    // back to presenting the same item
    assert_eq!(session.state, SessionState::Presenting { item_id: ids[0] });
    // the persisted due timestamp and scheduling state are unchanged
    let item = store.get_item(ids[0]).unwrap();
    assert_eq!(item.scheduling_state, default_state());
    let due = store.get_due(50);
    assert_eq!(due.len(), 1);
    assert_eq!(due[0].1, 10);
    // and the cycle can resume
    session.start_timer(70).unwrap();
    session.stop_timer(75).unwrap();
    assert!(session.submit_grade(&mut store, Outcome::Easy, 75).is_ok());
}

#[test]
fn failed_commit_leaves_grading_state_and_store_unchanged() {
    let (mut store, ids) = store_with_items(&[10]);
    // a session graded against an id the store has never assigned
    let mut session = Session {
        state: SessionState::Grading { item_id: 424242, elapsed: 5 },
        queue: vec![],
        cursor: 0,
    };
    let r = session.submit_grade(&mut store, Outcome::Easy, 50);
    assert_eq!(r, Err(AppError::DatabaseError(StorageError::NotFound)));
    // the controller remains in Grading, ready for a retry
    assert_eq!(
        session.state,
        SessionState::Grading { item_id: 424242, elapsed: 5 }
    );
    // times_reviewed and due of the stored item are untouched
    let item = store.get_item(ids[0]).unwrap();
    assert_eq!(item.scheduling_state.times_reviewed, 0);
    let due = store.get_due(10);
    assert_eq!(due.len(), 1);
    assert_eq!(due[0].1, 10);
}

#[test]
fn commands_illegal_in_state_are_rejected_without_mutation() {
    let (mut store, ids) = store_with_items(&[10]);
    let mut session = Session::new();
    // everything but start_review is illegal from Idle
    assert_eq!(session.start_timer(5), Err(SessionError::InvalidCommandForState));
    assert_eq!(session.stop_timer(5), Err(SessionError::InvalidCommandForState));
    assert_eq!(session.cancel_timer(), Err(SessionError::InvalidCommandForState));
    assert_eq!(session.cancel_review(), Err(SessionError::InvalidCommandForState));
    assert_eq!(session.restart_timer(5), Err(SessionError::InvalidCommandForState));
    assert_eq!(
        session.submit_grade(&mut store, Outcome::Easy, 5),
        Err(AppError::SessionError(SessionError::InvalidCommandForState))
    );
    assert_eq!(session.state, SessionState::Idle);
    // a second start_review is illegal once one is under way
    session.start_review(&store, 50).unwrap();
    assert_eq!(
        session.start_review(&store, 50),
        Err(SessionError::InvalidCommandForState)
    );
    assert_eq!(session.state, SessionState::Presenting { item_id: ids[0] });
    // the store never moved
    assert_eq!(store.get_item(ids[0]).unwrap().scheduling_state.times_reviewed, 0);
}

#[test]
fn restart_timer_retimes_the_same_item() {
    let (store, ids) = store_with_items(&[10]);
    let mut session = Session::new();
    session.start_review(&store, 50).unwrap();
    session.start_timer(60).unwrap();
    session.stop_timer(90).unwrap();
    session.restart_timer(100).unwrap();
    assert_eq!(
        session.state,
        SessionState::Timing { item_id: ids[0], started_at: 100 }
    );
}

#[test]
fn cancel_review_discards_the_batch() {
    let (store, _) = store_with_items(&[10, 20]);
    let mut session = Session::new();
    session.start_review(&store, 50).unwrap();
    session.cancel_review().unwrap();
    assert_eq!(session.state, SessionState::Idle);
    assert_eq!(session.queue.len(), 0);
}

#[test]
fn due_batch_is_offered_in_due_order() {
    let (store, ids) = store_with_items(&[30, 10, 20]);
    let mut session = Session::new();
    let first = session.start_review(&store, 50).unwrap().unwrap();
    assert_eq!(first, ids[1]);
    assert_eq!(session.queue, vec![ids[1], ids[2], ids[0]]);
}

#[test]
fn promoted_item_becomes_due_and_reviewable() {
    let mut store = Store::new();
    store
        .add_urls_to_inbox(vec!["https://example.org/new".into()])
        .unwrap();
    let id = store.promote_next(default_state(), 5).unwrap().unwrap();
    let mut session = Session::new();
    let first = session.start_review(&store, 5).unwrap().unwrap();
    assert_eq!(first, id);
    session.start_timer(6).unwrap();
    session.stop_timer(9).unwrap();
    session.submit_grade(&mut store, Outcome::Easy, 9).unwrap();
    let item = store.get_item(id).unwrap();
    assert_eq!(item.scheduling_state.times_reviewed, 1);
    // rescheduled one unit ahead: nothing is due at the commit time
    assert_eq!(store.due_count(9), 0);
    assert_eq!(store.due_count(10), 1);
}
