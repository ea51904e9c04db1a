//! The data model of the review engine: queued inbox entries, review items
//! and their schedule rows, and the engine's configuration.

use vstd::prelude::*;

use crate::scheduling::SchedulingState;

verus! {

/// A queued problem resource that has not yet been made into a review
/// item: the backlog the inbox holds.
#[derive(Debug)]
pub struct URLItem {
    /// Inbox id; assigned monotonically, never reused.
    pub id: u64,
    /// Where the problem lives.
    pub url: String,
}

/// The mathematical value of a [`URLItem`].
#[verifier::ext_equal]
pub struct URLItemView {
    pub id: u64,
    pub url: Seq<char>,
}

impl View for URLItem {
    type V = URLItemView;

    open spec fn view(&self) -> URLItemView {
        URLItemView { id: self.id, url: self.url@ }
    }
}

impl Clone for URLItem {
    fn clone(&self) -> (r: Self)
        ensures
            r == *self,
    {
        URLItem { id: self.id, url: self.url.clone() }
    }
}

/// A review item: a scheduled study entity with recall statistics.
/// Its due timestamp lives in the [`ScheduleEntry`] bound to it.
#[derive(Debug)]
pub struct Item {
    /// Item id; assigned at insertion, unique system-wide among items.
    pub id: u64,
    /// Where the problem lives.
    pub url: String,
    /// Free-form labels on the item.
    pub tags: Vec<String>,
    /// Free-form notes on the item.
    pub notes: String,
    /// The scheduler's per-item state.
    pub scheduling_state: SchedulingState,
}

/// The mathematical value of an [`Item`].
#[verifier::ext_equal]
pub struct ItemView {
    pub id: u64,
    pub url: Seq<char>,
    pub tags: Seq<Seq<char>>,
    pub notes: Seq<char>,
    pub scheduling_state: SchedulingState,
}

impl View for Item {
    type V = ItemView;

    open spec fn view(&self) -> ItemView {
        ItemView {
            id: self.id,
            url: self.url@,
            tags: Seq::new(self.tags@.len(), |i: int| self.tags@[i]@),
            notes: self.notes@,
            scheduling_state: self.scheduling_state,
        }
    }
}

impl Clone for Item {
    fn clone(&self) -> (r: Self)
        ensures
            r@ == self@,
    {
        let r = Item {
            id: self.id,
            url: self.url.clone(),
            tags: self.tags.clone(),
            notes: self.notes.clone(),
            scheduling_state: self.scheduling_state,
        };
        proof {
            assert(r@.tags =~= self@.tags);
        }
        r
    }
}

/// The due-timestamp record bound one-to-one to an item.
#[derive(Clone, Copy, Debug, PartialEq, Eq, Structural)]
pub struct ScheduleEntry {
    /// Schedule row id; assigned monotonically, never reused.
    pub id: u64,
    /// When the item is next due, as a unix timestamp.
    pub due: u64,
    /// The item this row schedules; exactly one row exists per item.
    pub item_id: u64,
}

/// Where the engine keeps its durable store.
pub struct AppConfig {
    pub db_path: String,
}

impl Default for AppConfig {
    fn default() -> (r: Self)
        ensures
            r.db_path@ == "./database/test.db"@,
    {
        AppConfig { db_path: String::from_str("./database/test.db") }
    }
}

} // verus!
