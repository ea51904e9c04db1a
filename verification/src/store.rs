//! The item repository: durable-storage model for inbox entries, items and
//! schedule rows, with atomic multi-row operations.
//!
//! The store is the authoritative in-memory model of the persisted tables.
//! An external storage engine mirrors each committed operation row for row;
//! it holds no logic of its own, so every integrity rule of the data lives
//! and is enforced here:
//!
//! - ids are assigned from one monotonic counter and never reused, so no id
//!   ever names both an inbox entry and an item;
//! - the inbox is kept in id order, which is submission (FIFO) order;
//! - every item has exactly one schedule row and every schedule row one
//!   item: the two tables grow and shrink only together.

use vstd::prelude::*;
use vstd::pervasive::VecAdditionalExecFns;
use vstd::relations::{antisymmetric, reflexive, sorted_by, strongly_connected, total_ordering, transitive};
use vstd::seq_lib::lemma_sorted_unique;
use vstd::seq_lib::lemma_multiset_commutative;

use crate::errors::StorageError;
use crate::scheduling::SchedulingState;
use crate::types::{Item, ItemView, ScheduleEntry, URLItem, URLItemView};

verus! {

/// The mathematical value of a [`Store`]: the three tables and the id
/// counter.
#[verifier::ext_equal]
pub struct StoreView {
    pub inbox: Seq<URLItemView>,
    pub items: Seq<ItemView>,
    pub schedule: Seq<ScheduleEntry>,
    pub next_id: u64,
}

impl StoreView {
    /// The integrity invariants of the store.
    pub open spec fn wf(self) -> bool {
        &&& forall|i: int, j: int|
            0 <= i < j < self.inbox.len() ==> self.inbox[i].id < self.inbox[j].id
        &&& forall|i: int| 0 <= i < self.inbox.len() ==> (#[trigger] self.inbox[i]).id < self.next_id
        &&& forall|i: int, j: int|
            0 <= i < j < self.items.len() ==> self.items[i].id < self.items[j].id
        &&& forall|i: int| 0 <= i < self.items.len() ==> (#[trigger] self.items[i]).id < self.next_id
        &&& forall|i: int, j: int|
            0 <= i < self.inbox.len() && 0 <= j < self.items.len() ==> self.inbox[i].id
                != self.items[j].id
        &&& self.schedule.len() == self.items.len()
        &&& forall|i: int|
            0 <= i < self.schedule.len() ==> (#[trigger] self.schedule[i]).item_id
                == self.items[i].id
        &&& forall|i: int, j: int|
            0 <= i < j < self.schedule.len() ==> self.schedule[i].id < self.schedule[j].id
        &&& forall|i: int| 0 <= i < self.schedule.len() ==> (#[trigger] self.schedule[i]).id < self.next_id
        &&& forall|i: int|
            0 <= i < self.items.len() ==> (#[trigger] self.items[i]).scheduling_state.wf()
    }

    /// Whether some inbox entry carries the given id.
    pub open spec fn has_inbox_id(self, id: u64) -> bool {
        exists|i: int| 0 <= i < self.inbox.len() && (#[trigger] self.inbox[i]).id == id
    }

    /// The position of the inbox entry with the given id (meaningful only
    /// when `has_inbox_id` holds; under `wf` it is unique).
    pub open spec fn inbox_idx(self, id: u64) -> int {
        choose|i: int| 0 <= i < self.inbox.len() && (#[trigger] self.inbox[i]).id == id
    }

    /// Whether some item carries the given id.
    pub open spec fn has_item_id(self, id: u64) -> bool {
        exists|i: int| 0 <= i < self.items.len() && (#[trigger] self.items[i]).id == id
    }

    /// The position of the item with the given id (meaningful only when
    /// `has_item_id` holds; under `wf` it is unique).
    pub open spec fn item_idx(self, id: u64) -> int {
        choose|i: int| 0 <= i < self.items.len() && (#[trigger] self.items[i]).id == id
    }

    /// The item carrying the given id.
    pub open spec fn item_view_of(self, id: u64) -> ItemView {
        self.items[self.item_idx(id)]
    }

    /// The due timestamp of the item carrying the given id, read from its
    /// schedule row.
    pub open spec fn due_of(self, id: u64) -> u64 {
        self.schedule[self.item_idx(id)].due
    }

    /// The store after appending the given urls to the inbox, in order,
    /// under fresh ascending ids.
    pub open spec fn enqueue_model(self, urls: Seq<Seq<char>>) -> StoreView {
        StoreView {
            inbox: self.inbox + Seq::new(
                urls.len(),
                |i: int| URLItemView { id: (self.next_id + i) as u64, url: urls[i] },
            ),
            next_id: (self.next_id + urls.len()) as u64,
            ..self
        }
    }

    /// The store after deleting the inbox entry with the given id
    /// (meaningful only when `has_inbox_id` holds).
    pub open spec fn remove_inbox_model(self, id: u64) -> StoreView {
        StoreView { inbox: self.inbox.remove(self.inbox_idx(id)), ..self }
    }

    /// The store after atomically creating an item with the given fields
    /// and its schedule row with the given due timestamp. The item takes
    /// the id `next_id`, its schedule row the next one.
    pub open spec fn insert_model(
        self,
        url: Seq<char>,
        tags: Seq<Seq<char>>,
        notes: Seq<char>,
        state: SchedulingState,
        due: u64,
    ) -> StoreView {
        StoreView {
            items: self.items.push(
                ItemView { id: self.next_id, url, tags, notes, scheduling_state: state },
            ),
            schedule: self.schedule.push(
                ScheduleEntry { id: (self.next_id + 1) as u64, due, item_id: self.next_id },
            ),
            next_id: (self.next_id + 2) as u64,
            ..self
        }
    }

    /// The store after atomically overwriting an item's scheduling state
    /// and its schedule row's due timestamp (meaningful only when
    /// `has_item_id` holds).
    pub open spec fn update_model(self, id: u64, state: SchedulingState, due: u64) -> StoreView {
        let idx = self.item_idx(id);
        StoreView {
            items: self.items.update(
                idx,
                ItemView { scheduling_state: state, ..self.items[idx] },
            ),
            schedule: self.schedule.update(idx, ScheduleEntry { due, ..self.schedule[idx] }),
            ..self
        }
    }

    /// The due-set at `now`: every schedule row whose due timestamp has
    /// passed, in the due ordering.
    pub open spec fn due_seq(self, now: u64) -> Seq<ScheduleEntry> {
        self.schedule.filter(due_pred(now)).sort_by(sched_le_fn())
    }

    /// Promotion: one atomic transaction that deletes the named inbox
    /// entry and creates an item under its url, with empty tags and notes,
    /// plus the item's schedule row.
    pub open spec fn promote_model(self, inbox_id: u64, state: SchedulingState, due: u64) -> StoreView {
        let url = self.inbox[self.inbox_idx(inbox_id)].url;
        self.remove_inbox_model(inbox_id).insert_model(
            url,
            Seq::empty(),
            Seq::empty(),
            state,
            due,
        )
    }
}

/// The due ordering on schedule rows: by due timestamp ascending, ties
/// broken by item id ascending; the row id decides last for totality
/// (under the invariants item ids are unique, so it never does).
pub open spec fn sched_le(a: ScheduleEntry, b: ScheduleEntry) -> bool {
    ||| a.due < b.due
    ||| a.due == b.due && a.item_id < b.item_id
    ||| a.due == b.due && a.item_id == b.item_id && a.id <= b.id
}

/// The strict part of the due ordering.
pub open spec fn sched_lt(a: ScheduleEntry, b: ScheduleEntry) -> bool {
    sched_le(a, b) && a != b
}

/// The due ordering as a relation value.
pub open spec fn sched_le_fn() -> spec_fn(ScheduleEntry, ScheduleEntry) -> bool {
    |a: ScheduleEntry, b: ScheduleEntry| sched_le(a, b)
}

/// The rows already due at `now`.
pub open spec fn due_pred(now: u64) -> spec_fn(ScheduleEntry) -> bool {
    |e: ScheduleEntry| e.due <= now
}

/// The due ordering is a total ordering.
pub proof fn lemma_sched_le_total()
    ensures
        total_ordering(sched_le_fn()),
{
    let leq = sched_le_fn();
    assert(reflexive(leq)) by {
        assert forall|x: ScheduleEntry| #[trigger] leq(x, x) by {}
    }
    assert(antisymmetric(leq)) by {
        assert forall|x: ScheduleEntry, y: ScheduleEntry| #[trigger] leq(x, y) && #[trigger] leq(
            y,
            x,
        ) implies x == y by {}
    }
    assert(transitive(leq)) by {
        assert forall|x: ScheduleEntry, y: ScheduleEntry, z: ScheduleEntry|
            #[trigger] leq(x, y) && #[trigger] leq(y, z) implies leq(x, z) by {}
    }
    assert(strongly_connected(leq)) by {
        assert forall|x: ScheduleEntry, y: ScheduleEntry| #[trigger] leq(x, y) || #[trigger] leq(
            y,
            x,
        ) by {}
    }
}

/// The views of a sequence of urls.
pub open spec fn url_views(urls: Seq<String>) -> Seq<Seq<char>> {
    Seq::new(urls.len(), |i: int| urls[i]@)
}

/// The item repository. The tables are plain vectors; all integrity rules
/// are stated by [`StoreView::wf`], which every operation preserves.
pub struct Store {
    /// The inbox table, in id (submission) order.
    pub inbox: Vec<URLItem>,
    /// The items table, in id (insertion) order.
    pub items: Vec<Item>,
    /// The schedule table, aligned row for row with `items`.
    pub schedule: Vec<ScheduleEntry>,
    /// The next id to assign; ids are never reused.
    pub next_id: u64,
}

impl View for Store {
    type V = StoreView;

    open spec fn view(&self) -> StoreView {
        StoreView {
            inbox: Seq::new(self.inbox@.len(), |i: int| self.inbox@[i]@),
            items: Seq::new(self.items@.len(), |i: int| self.items@[i]@),
            schedule: self.schedule@,
            next_id: self.next_id,
        }
    }
}

impl Store {
    /// Shorthand for the invariants of the store's value.
    pub open spec fn wf(self) -> bool {
        self@.wf()
    }

    /// An empty store. Ids start at `1`, as the storage engines this model
    /// mirrors assign their row ids.
    pub fn new() -> (r: Store)
        ensures
            r@ == (StoreView {
                inbox: Seq::<URLItemView>::empty(),
                items: Seq::<ItemView>::empty(),
                schedule: Seq::<ScheduleEntry>::empty(),
                next_id: 1,
            }),
            r.wf(),
    {
        let r = Store { inbox: Vec::new(), items: Vec::new(), schedule: Vec::new(), next_id: 1 };
        proof {
            assert(r@ =~= (StoreView {
                inbox: Seq::<URLItemView>::empty(),
                items: Seq::<ItemView>::empty(),
                schedule: Seq::<ScheduleEntry>::empty(),
                next_id: 1,
            }));
        }
        r
    }

    /// Appends each url as a new inbox entry, id ascending, preserving
    /// submission order. Each append is its own atomic unit, but as the
    /// whole batch is applied to the in-memory model in one call, callers
    /// never observe a partial batch.
    pub fn add_urls_to_inbox(&mut self, urls: Vec<String>) -> (r: Result<(), StorageError>)
        requires
            old(self).wf(),
            old(self)@.next_id + urls@.len() <= u64::MAX,
        ensures
            r == Ok::<(), StorageError>(()),
            final(self)@ == old(self)@.enqueue_model(url_views(urls@)),
            final(self).wf(),
    {
        let ghost orig = self@;
        let ghost all = urls@;
        let mut k: usize = 0;
        while k < urls.len()
            invariant
                k <= urls.len(),
                urls@ == all,
                orig.next_id + all.len() <= u64::MAX,
                self.next_id == orig.next_id + k,
                self@.items == orig.items,
                self@.schedule == orig.schedule,
                self@.inbox =~= orig.inbox + Seq::new(
                    k as nat,
                    |i: int| URLItemView { id: (orig.next_id + i) as u64, url: all[i]@ },
                ),
            decreases urls.len() - k,
        {
            let ghost pre = self@;
            let url = urls[k].clone();
            let ghost u = url@;
            self.inbox.push(URLItem { id: self.next_id, url });
            self.next_id = self.next_id + 1;
            k = k + 1;
            proof {
                let rhs = orig.inbox + Seq::new(
                    k as nat,
                    |i: int| URLItemView { id: (orig.next_id + i) as u64, url: all[i]@ },
                );
                assert(self@.inbox.len() == pre.inbox.len() + 1);
                assert(self@.inbox.len() == rhs.len());
                assert forall|i: int| 0 <= i < self@.inbox.len() implies self@.inbox[i] == rhs[i] by {
                    if i < pre.inbox.len() {
                        assert(self.inbox@[i] == self.inbox@.subrange(0, pre.inbox.len() as int)[i]);
                        assert(self@.inbox[i] == pre.inbox[i]);
                        assert(pre.inbox[i] == rhs[i]);
                    } else {
                        assert(i == pre.inbox.len());
                        assert(self.inbox@[i]@ == URLItemView { id: (orig.next_id + (k - 1)) as u64, url: u });
                        assert(self@.inbox[i] == URLItemView { id: (orig.next_id + (k - 1)) as u64, url: u });
                        assert(rhs[i] == URLItemView { id: (orig.next_id + (k - 1)) as u64, url: all[k - 1]@ });
                    }
                }
                assert(self@.inbox =~= rhs);
            }
        }
        proof {
            assert(final(self)@ =~= orig.enqueue_model(url_views(all)));
            lemma_enqueue_wf(orig, url_views(all));
        }
        Ok(())
    }

    /// Returns the `n_items` oldest inbox entries, id ascending; fewer if
    /// the inbox is smaller. Never fails on under-supply.
    pub fn get_n_urls_from_inbox(&self, n_items: usize) -> (r: Vec<URLItem>)
        ensures
            r@.len() == if n_items <= self@.inbox.len() {
                n_items as int
            } else {
                self@.inbox.len() as int
            },
            forall|i: int| 0 <= i < r@.len() ==> (#[trigger] r@[i])@ == self@.inbox[i],
    {
        let count = if n_items <= self.inbox.len() {
            n_items
        } else {
            self.inbox.len()
        };
        let mut r: Vec<URLItem> = Vec::new();
        let mut k: usize = 0;
        while k < count
            invariant
                k <= count,
                count <= self.inbox.len(),
                r@.len() == k,
                forall|i: int| 0 <= i < k ==> (#[trigger] r@[i])@ == self@.inbox[i],
            decreases count - k,
        {
            r.push(self.inbox[k].clone());
            k = k + 1;
        }
        r
    }

    /// Position of the inbox entry with the given id, if any.
    fn find_inbox(&self, id: u64) -> (r: Option<usize>)
        ensures
            match r {
                Some(j) => j < self@.inbox.len() && self@.inbox[j as int].id == id,
                None => forall|i: int|
                    0 <= i < self@.inbox.len() ==> (#[trigger] self@.inbox[i]).id != id,
            },
    {
        let mut j: usize = 0;
        while j < self.inbox.len()
            invariant
                j <= self.inbox.len(),
                forall|i: int| 0 <= i < j ==> (#[trigger] self@.inbox[i]).id != id,
            decreases self.inbox.len() - j,
        {
            if self.inbox[j].id == id {
                return Some(j);
            }
            j = j + 1;
        }
        None
    }

    /// Position of the item with the given id, if any.
    fn find_item(&self, id: u64) -> (r: Option<usize>)
        ensures
            match r {
                Some(j) => j < self@.items.len() && self@.items[j as int].id == id,
                None => forall|i: int|
                    0 <= i < self@.items.len() ==> (#[trigger] self@.items[i]).id != id,
            },
    {
        let mut j: usize = 0;
        while j < self.items.len()
            invariant
                j <= self.items.len(),
                forall|i: int| 0 <= i < j ==> (#[trigger] self@.items[i]).id != id,
            decreases self.items.len() - j,
        {
            if self.items[j].id == id {
                return Some(j);
            }
            j = j + 1;
        }
        None
    }

    /// Deletes one inbox entry; `NotFound` if no entry carries the id.
    pub fn remove_new_item(&mut self, id: u64) -> (r: Result<(), StorageError>)
        requires
            old(self).wf(),
        ensures
            old(self)@.has_inbox_id(id) ==> r == Ok::<(), StorageError>(()) && final(self)@
                == old(self)@.remove_inbox_model(id),
            !old(self)@.has_inbox_id(id) ==> r == Err::<(), StorageError>(StorageError::NotFound)
                && final(self)@ == old(self)@,
            final(self).wf(),
    {
        match self.find_inbox(id) {
            Some(j) => {
                proof {
                    lemma_inbox_idx_of(self@, id, j as int);
                }
                self.inbox.remove(j);
                proof {
                    assert(final(self)@ =~= old(self)@.remove_inbox_model(id));
                    lemma_remove_inbox_wf(old(self)@, id);
                }
                Ok(())
            },
            None => {
                proof {
                    assert(final(self)@ =~= old(self)@);
                }
                Err(StorageError::NotFound)
            },
        }
    }

    /// Atomically creates an item with the given fields and its schedule
    /// row with the given due timestamp, in one transaction: neither row
    /// is ever observable without the other. The item's `id` field is
    /// ignored; the store assigns the returned fresh id.
    pub fn insert_item(&mut self, item: Item, due: u64) -> (r: Result<u64, StorageError>)
        requires
            old(self).wf(),
            item.scheduling_state.wf(),
            old(self)@.next_id + 2 <= u64::MAX,
        ensures
            r == Ok::<u64, StorageError>(old(self)@.next_id),
            final(self)@ == old(self)@.insert_model(
                item@.url,
                item@.tags,
                item@.notes,
                item.scheduling_state,
                due,
            ),
            final(self).wf(),
    {
        let id = self.next_id;
        let sid = self.next_id + 1;
        let mut it = item;
        it.id = id;
        self.items.push(it);
        self.schedule.push(ScheduleEntry { id: sid, due, item_id: id });
        self.next_id = self.next_id + 2;
        proof {
            assert(final(self)@ =~= old(self)@.insert_model(
                item@.url,
                item@.tags,
                item@.notes,
                item.scheduling_state,
                due,
            ));
            lemma_insert_wf(
                old(self)@,
                item@.url,
                item@.tags,
                item@.notes,
                item.scheduling_state,
                due,
            );
        }
        Ok(id)
    }

    /// Reads one item; `NotFound` if no item carries the id.
    pub fn get_item(&self, id: u64) -> (r: Result<Item, StorageError>)
        requires
            self.wf(),
        ensures
            self@.has_item_id(id) ==> (r matches Ok(item) && item@ == self@.item_view_of(id)),
            !self@.has_item_id(id) ==> r == Err::<Item, StorageError>(StorageError::NotFound),
    {
        match self.find_item(id) {
            Some(j) => {
                proof {
                    lemma_item_idx_of(self@, id, j as int);
                }
                Ok(self.items[j].clone())
            },
            None => Err(StorageError::NotFound),
        }
    }

    /// Atomically overwrites an item's scheduling state and its schedule
    /// row's due timestamp as one unit; `NotFound` if no item carries the
    /// id, in which case nothing changes.
    pub fn update_item(&mut self, id: u64, state: SchedulingState, due: u64) -> (r: Result<
        (),
        StorageError,
    >)
        requires
            old(self).wf(),
            state.wf(),
        ensures
            old(self)@.has_item_id(id) ==> r == Ok::<(), StorageError>(()) && final(self)@
                == old(self)@.update_model(id, state, due),
            !old(self)@.has_item_id(id) ==> r == Err::<(), StorageError>(StorageError::NotFound)
                && final(self)@ == old(self)@,
            final(self).wf(),
    {
        match self.find_item(id) {
            Some(j) => {
                proof {
                    lemma_item_idx_of(self@, id, j as int);
                }
                let mut it = self.items[j].clone();
                it.scheduling_state = state;
                self.items.set(j, it);
                let mut e = self.schedule[j];
                e.due = due;
                self.schedule.set(j, e);
                proof {
                    assert(final(self)@ =~= old(self)@.update_model(id, state, due));
                    lemma_update_wf(old(self)@, id, state, due);
                }
                Ok(())
            },
            None => {
                proof {
                    assert(final(self)@ =~= old(self)@);
                }
                Err(StorageError::NotFound)
            },
        }
    }

    /// Promotion: within one atomic transaction, deletes the named inbox
    /// entry and inserts an item under its url with the given default
    /// scheduling state, due at the given timestamp. All or nothing: on
    /// `NotFound` the store is exactly as before, on success the entry is
    /// gone and the item stands with its schedule row.
    pub fn promote(&mut self, inbox_id: u64, default_state: SchedulingState, due: u64) -> (r:
        Result<u64, StorageError>)
        requires
            old(self).wf(),
            default_state.wf(),
            old(self)@.next_id + 2 <= u64::MAX,
        ensures
            old(self)@.has_inbox_id(inbox_id) ==> r == Ok::<u64, StorageError>(old(self)@.next_id)
                && final(self)@ == old(self)@.promote_model(inbox_id, default_state, due),
            !old(self)@.has_inbox_id(inbox_id) ==> r == Err::<u64, StorageError>(
                StorageError::NotFound,
            ) && final(self)@ == old(self)@,
            final(self).wf(),
    {
        match self.find_inbox(inbox_id) {
            Some(j) => {
                proof {
                    lemma_inbox_idx_of(self@, inbox_id, j as int);
                }
                let url = self.inbox[j].url.clone();
                let removed = self.remove_new_item(inbox_id);
                match removed {
                    Ok(_) => {},
                    // unreachable: the entry was just found under this id
                    Err(_) => {
                        proof {
                            assert(false);
                        }
                    },
                }
                let inserted = self.insert_item(
                    Item {
                        id: 0,
                        url,
                        tags: Vec::new(),
                        notes: String::new(),
                        scheduling_state: default_state,
                    },
                    due,
                );
                match inserted {
                    Ok(new_id) => {
                        proof {
                            assert(final(self)@ =~~= old(self)@.promote_model(
                                inbox_id,
                                default_state,
                                due,
                            ));
                        }
                        Ok(new_id)
                    },
                    // unreachable: insertion owes success under the
                    // preconditions that still hold here
                    Err(e) => {
                        proof {
                            assert(false);
                        }
                        Err(e)
                    },
                }
            },
            None => {
                proof {
                    assert(final(self)@ =~= old(self)@);
                }
                Err(StorageError::NotFound)
            },
        }
    }

    /// Promotes the oldest inbox entry, if any: the convenience form of
    /// [`Store::promote`] behind the operator's promote command. Returns
    /// the new item's id, or `None` on an empty inbox.
    pub fn promote_next(&mut self, default_state: SchedulingState, due: u64) -> (r: Result<
        Option<u64>,
        StorageError,
    >)
        requires
            old(self).wf(),
            default_state.wf(),
            old(self)@.next_id + 2 <= u64::MAX,
        ensures
            old(self)@.inbox.len() == 0 ==> r == Ok::<Option<u64>, StorageError>(None)
                && final(self)@ == old(self)@,
            old(self)@.inbox.len() > 0 ==> r == Ok::<Option<u64>, StorageError>(
                Some(old(self)@.next_id),
            ) && final(self)@ == old(self)@.promote_model(
                old(self)@.inbox[0].id,
                default_state,
                due,
            ),
            final(self).wf(),
    {
        if self.inbox.len() == 0 {
            return Ok(None);
        }
        let id = self.inbox[0].id;
        proof {
            lemma_inbox_idx_of(self@, id, 0);
        }
        match self.promote(id, default_state, due) {
            Ok(new_id) => Ok(Some(new_id)),
            // unreachable: the oldest entry was just read from the inbox
            Err(e) => {
                proof {
                    assert(false);
                }
                Err(e)
            },
        }
    }

    /// All schedule rows whose due timestamp has passed, in the due
    /// ordering: due ascending, ties broken by item id ascending for
    /// determinism.
    pub fn get_due_ids(&self, timestamp: u64) -> (r: Vec<ScheduleEntry>)
        ensures
            r@ == self@.due_seq(timestamp),
    {
        let ghost leq = sched_le_fn();
        let ghost pred = due_pred(timestamp);
        let mut out: Vec<ScheduleEntry> = Vec::new();
        let mut k: usize = 0;
        proof {
            reveal(Seq::filter);
            assert(out@ =~= self@.schedule.take(0).filter(pred));
        }
        while k < self.schedule.len()
            invariant
                k <= self.schedule.len(),
                leq == sched_le_fn(),
                pred == due_pred(timestamp),
                sorted_by(out@, leq),
                out@.to_multiset() == self@.schedule.take(k as int).filter(pred).to_multiset(),
            decreases self.schedule.len() - k,
        {
            let e = self.schedule[k];
            let ghost tk = self@.schedule.take(k as int);
            let ghost tk1 = self@.schedule.take(k as int + 1);
            proof {
                assert(tk1.drop_last() =~= tk);
                assert(tk1.last() == e);
                reveal(Seq::filter);
            }
            if e.due <= timestamp {
                proof {
                    assert(tk1.filter(pred) == tk.filter(pred).push(e));
                }
                let ghost pre = out@;
                let mut j: usize = 0;
                while j < out.len() && sched_before(out[j], e)
                    invariant
                        j <= out.len(),
                        out@ == pre,
                        forall|i: int| 0 <= i < j ==> sched_lt(pre[i], e),
                    decreases out.len() - j,
                {
                    j = j + 1;
                }
                out.insert(j, e);
                proof {
                    broadcast use vstd::seq_lib::group_to_multiset_ensures;

                    let ji = j as int;
                    pre.insert_ensures(ji, e);
                    // The inserted row keeps the sequence ordered.
                    assert forall|i1: int, i2: int| 0 <= i1 < i2 < out@.len() implies #[trigger] leq(
                        out@[i1],
                        out@[i2],
                    ) by {
                        if i1 < ji && i2 < ji {
                            assert(leq(pre[i1], pre[i2]));
                        } else if i1 < ji && i2 == ji {
                            assert(sched_lt(pre[i1], e));
                        } else if i1 < ji && i2 > ji {
                            assert(leq(pre[i1], pre[i2 - 1]));
                        } else if i1 == ji && i2 > ji {
                            assert(ji < pre.len());
                            assert(!sched_lt(pre[ji], e));
                            assert(leq(e, pre[ji]));
                            if i2 - 1 > ji {
                                assert(leq(pre[ji], pre[i2 - 1]));
                            }
                        } else {
                            assert(leq(pre[i1 - 1], pre[i2 - 1]));
                        }
                    }
                    // The insertion adds exactly one copy of the row.
                    let pj = pre.subrange(0, ji);
                    let sj = pre.subrange(ji, pre.len() as int);
                    assert(out@ =~= pj.push(e) + sj);
                    lemma_multiset_commutative(pj.push(e), sj);
                    assert(pre =~= pj + sj);
                    lemma_multiset_commutative(pj, sj);
                    assert(out@.to_multiset() =~= pre.to_multiset().insert(e));
                }
            } else {
                proof {
                    assert(tk1.filter(pred) == tk.filter(pred));
                }
            }
            k = k + 1;
        }
        proof {
            assert(self@.schedule.take(self.schedule.len() as int) =~= self@.schedule);
            let f = self@.schedule.filter(pred);
            lemma_sched_le_total();
            f.lemma_sort_by_ensures(leq);
            lemma_sorted_unique(out@, f.sort_by(leq), leq);
            assert(out@ =~= self@.due_seq(timestamp));
        }
        out
    }

    /// The due-set with its items: every item whose due timestamp has
    /// passed, paired with that timestamp, in the due ordering.
    pub fn get_due(&self, now: u64) -> (r: Vec<(Item, u64)>)
        requires
            self.wf(),
        ensures
            r@.len() == self@.due_seq(now).len(),
            forall|k: int|
                0 <= k < r@.len() ==> (#[trigger] r@[k]).1 == self@.due_seq(now)[k].due && r@[k].0@
                    == self@.item_view_of(self@.due_seq(now)[k].item_id) && self@.has_item_id(
                    self@.due_seq(now)[k].item_id,
                ),
            forall|k: int| 0 <= k < r@.len() ==> (#[trigger] r@[k]).1 <= now,
    {
        let entries = self.get_due_ids(now);
        let mut r: Vec<(Item, u64)> = Vec::new();
        let mut k: usize = 0;
        while k < entries.len()
            invariant
                k <= entries.len(),
                entries@ == self@.due_seq(now),
                self.wf(),
                r@.len() == k,
                forall|i: int|
                    0 <= i < k ==> (#[trigger] r@[i]).1 == self@.due_seq(now)[i].due && r@[i].0@
                        == self@.item_view_of(self@.due_seq(now)[i].item_id) && self@.has_item_id(
                        self@.due_seq(now)[i].item_id,
                    ),
                forall|i: int| 0 <= i < k ==> (#[trigger] r@[i]).1 <= now,
            decreases entries.len() - k,
        {
            let e = entries[k];
            proof {
                lemma_due_seq_exact(self@, now);
                assert(self@.schedule.contains(e));
                let i = choose|i: int|
                    0 <= i < self@.schedule.len() && #[trigger] self@.schedule[i] == e;
                assert(self@.items[i].id == e.item_id);
                lemma_item_idx_of(self@, e.item_id, i);
            }
            match self.get_item(e.item_id) {
                Ok(it) => {
                    r.push((it, e.due));
                },
                Err(_) => {
                    proof {
                        assert(false);
                    }
                },
            }
            k = k + 1;
        }
        r
    }

    /// How many items are due at `now`.
    pub fn due_count(&self, now: u64) -> (r: usize)
        ensures
            r == self@.due_seq(now).len(),
    {
        let v = self.get_due_ids(now);
        v.len()
    }

    /// How many inbox entries are queued.
    pub fn new_count(&self) -> (r: usize)
        ensures
            r == self@.inbox.len(),
    {
        self.inbox.len()
    }

    /// How many items are under review.
    pub fn total_count(&self) -> (r: usize)
        ensures
            r == self@.items.len(),
    {
        self.items.len()
    }
}

/// Appending to the inbox preserves the store's invariants: the fresh ids
/// continue the ascending order and collide with nothing.
pub proof fn lemma_enqueue_wf(v: StoreView, urls: Seq<Seq<char>>)
    requires
        v.wf(),
        v.next_id + urls.len() <= u64::MAX,
    ensures
        v.enqueue_model(urls).wf(),
{
    let w = v.enqueue_model(urls);
    assert forall|i: int, j: int| 0 <= i < j < w.inbox.len() implies w.inbox[i].id
        < w.inbox[j].id by {
        if i < v.inbox.len() && j >= v.inbox.len() {
            assert(v.inbox[i].id < v.next_id);
        }
    }
    assert forall|i: int| 0 <= i < w.inbox.len() implies (#[trigger] w.inbox[i]).id
        < w.next_id by {
        if i < v.inbox.len() {
            assert(v.inbox[i].id < v.next_id);
        }
    }
    assert forall|i: int, j: int|
        0 <= i < w.inbox.len() && 0 <= j < w.items.len() implies w.inbox[i].id
        != w.items[j].id by {
        assert(v.items[j].id < v.next_id);
        if i < v.inbox.len() {
            assert(v.inbox[i].id != v.items[j].id);
        }
    }
}

/// Executable test of the strict due ordering.
fn sched_before(a: ScheduleEntry, b: ScheduleEntry) -> (r: bool)
    ensures
        r == sched_lt(a, b),
{
    if a.due != b.due {
        a.due < b.due
    } else if a.item_id != b.item_id {
        a.item_id < b.item_id
    } else {
        a.id < b.id
    }
}

/// Every row the due filter keeps is a row of the original table.
proof fn lemma_filter_in_original(s: Seq<ScheduleEntry>, pred: spec_fn(ScheduleEntry) -> bool, i: int)
    requires
        0 <= i < s.filter(pred).len(),
    ensures
        s.contains(s.filter(pred)[i]),
    decreases s.len(),
{
    reveal(Seq::filter);
    if s.len() > 0 {
        let sub = s.drop_last().filter(pred);
        if i < sub.len() {
            lemma_filter_in_original(s.drop_last(), pred, i);
            let j = choose|j: int|
                0 <= j < s.drop_last().len() && #[trigger] s.drop_last()[j] == sub[i];
            assert(s[j] == sub[i]);
        } else {
            assert(s.filter(pred)[i] == s.last());
            assert(s[s.len() - 1] == s.last());
        }
    }
}

/// Exactness of the due-set: every returned row is a stored schedule row
/// whose due timestamp is at or before `now`; no row due later ever
/// appears; every stored row due at or before `now` does appear; and the
/// result is sorted in the due ordering.
pub proof fn lemma_due_seq_exact(v: StoreView, now: u64)
    ensures
        forall|k: int|
            0 <= k < v.due_seq(now).len() ==> (#[trigger] v.due_seq(now)[k]).due <= now
                && v.schedule.contains(v.due_seq(now)[k]),
        forall|i: int|
            0 <= i < v.schedule.len() && (#[trigger] v.schedule[i]).due <= now ==> v.due_seq(
                now,
            ).contains(v.schedule[i]),
        sorted_by(v.due_seq(now), sched_le_fn()),
{
    broadcast use vstd::seq_lib::group_to_multiset_ensures;
    broadcast use vstd::seq_lib::group_filter_ensures;

    let pred = due_pred(now);
    let f = v.schedule.filter(pred);
    let s = v.due_seq(now);
    lemma_sched_le_total();
    f.lemma_sort_by_ensures(sched_le_fn());
    assert forall|k: int| 0 <= k < s.len() implies (#[trigger] s[k]).due <= now
        && v.schedule.contains(s[k]) by {
        assert(s.contains(s[k]));
        assert(s.to_multiset().count(s[k]) > 0);
        assert(f.to_multiset().count(s[k]) > 0);
        assert(f.contains(s[k]));
        let i = choose|i: int| 0 <= i < f.len() && #[trigger] f[i] == s[k];
        assert(pred(f[i]));
        lemma_filter_in_original(v.schedule, pred, i);
    }
    assert forall|i: int|
        0 <= i < v.schedule.len() && (#[trigger] v.schedule[i]).due <= now implies s.contains(
        v.schedule[i],
    ) by {
        assert(pred(v.schedule[i]));
        assert(f.contains(v.schedule[i]));
        assert(f.to_multiset().count(v.schedule[i]) > 0);
        assert(s.to_multiset().count(v.schedule[i]) > 0);
        assert(s.contains(v.schedule[i]));
    }
}

/// Under the invariants inbox ids are unique, so a position holding the
/// id is the position `inbox_idx` names.
pub proof fn lemma_inbox_idx_of(v: StoreView, id: u64, j: int)
    requires
        v.wf(),
        0 <= j < v.inbox.len(),
        v.inbox[j].id == id,
    ensures
        v.has_inbox_id(id),
        v.inbox_idx(id) == j,
{
    assert(v.has_inbox_id(id));
    let i = v.inbox_idx(id);
    if i < j {
        assert(v.inbox[i].id < v.inbox[j].id);
    }
    if j < i {
        assert(v.inbox[j].id < v.inbox[i].id);
    }
}

/// Under the invariants item ids are unique, so a position holding the id
/// is the position `item_idx` names.
pub proof fn lemma_item_idx_of(v: StoreView, id: u64, j: int)
    requires
        v.wf(),
        0 <= j < v.items.len(),
        v.items[j].id == id,
    ensures
        v.has_item_id(id),
        v.item_idx(id) == j,
{
    assert(v.has_item_id(id));
    let i = v.item_idx(id);
    if i < j {
        assert(v.items[i].id < v.items[j].id);
    }
    if j < i {
        assert(v.items[j].id < v.items[i].id);
    }
}

/// Deleting an inbox entry preserves the store's invariants.
pub proof fn lemma_remove_inbox_wf(v: StoreView, id: u64)
    requires
        v.wf(),
        v.has_inbox_id(id),
    ensures
        v.remove_inbox_model(id).wf(),
{
    let w = v.remove_inbox_model(id);
    let idx = v.inbox_idx(id);
    assert(0 <= idx < v.inbox.len());
    assert forall|i: int, j: int| 0 <= i < j < w.inbox.len() implies w.inbox[i].id
        < w.inbox[j].id by {
        let i0 = if i < idx { i } else { i + 1 };
        let j0 = if j < idx { j } else { j + 1 };
        assert(w.inbox[i] == v.inbox[i0]);
        assert(w.inbox[j] == v.inbox[j0]);
        assert(v.inbox[i0].id < v.inbox[j0].id);
    }
    assert forall|i: int| 0 <= i < w.inbox.len() implies (#[trigger] w.inbox[i]).id
        < w.next_id by {
        let i0 = if i < idx { i } else { i + 1 };
        assert(w.inbox[i] == v.inbox[i0]);
        assert(v.inbox[i0].id < v.next_id);
    }
    assert forall|i: int, j: int|
        0 <= i < w.inbox.len() && 0 <= j < w.items.len() implies w.inbox[i].id
        != w.items[j].id by {
        let i0 = if i < idx { i } else { i + 1 };
        assert(w.inbox[i] == v.inbox[i0]);
        assert(v.inbox[i0].id != v.items[j].id);
    }
}

/// Inserting an item with its schedule row preserves the store's
/// invariants, and the new item stands at the end under the id the
/// counter held — with exactly the given fields and due timestamp.
pub proof fn lemma_insert_wf(
    v: StoreView,
    url: Seq<char>,
    tags: Seq<Seq<char>>,
    notes: Seq<char>,
    state: SchedulingState,
    due: u64,
)
    requires
        v.wf(),
        state.wf(),
        v.next_id + 2 <= u64::MAX,
    ensures
        v.insert_model(url, tags, notes, state, due).wf(),
        v.insert_model(url, tags, notes, state, due).has_item_id(v.next_id),
        v.insert_model(url, tags, notes, state, due).item_idx(v.next_id) == v.items.len(),
        v.insert_model(url, tags, notes, state, due).item_view_of(v.next_id) == (ItemView {
            id: v.next_id,
            url,
            tags,
            notes,
            scheduling_state: state,
        }),
        v.insert_model(url, tags, notes, state, due).due_of(v.next_id) == due,
{
    let w = v.insert_model(url, tags, notes, state, due);
    assert forall|i: int, j: int| 0 <= i < j < w.items.len() implies w.items[i].id
        < w.items[j].id by {
        if j < v.items.len() {
            assert(v.items[i].id < v.items[j].id);
        } else {
            assert(v.items[i].id < v.next_id);
        }
    }
    assert forall|i: int, j: int|
        0 <= i < w.inbox.len() && 0 <= j < w.items.len() implies w.inbox[i].id
        != w.items[j].id by {
        assert(v.inbox[i].id < v.next_id);
        if j < v.items.len() {
            assert(v.inbox[i].id != v.items[j].id);
        }
    }
    assert forall|i: int, j: int| 0 <= i < j < w.schedule.len() implies w.schedule[i].id
        < w.schedule[j].id by {
        if j < v.schedule.len() {
            assert(v.schedule[i].id < v.schedule[j].id);
        } else {
            assert(v.schedule[i].id < v.next_id);
        }
    }
    assert(w.wf());
    lemma_item_idx_of(w, v.next_id, v.items.len() as int);
}

/// Round-trip law: after an item is inserted with its schedule row,
/// reading the assigned id yields a value equal to the inserted one in
/// every field, and the item's due timestamp is the one given — which is
/// what `insert_item` followed by `get_item` returns, by their contracts.
pub proof fn lemma_insert_get_round_trip(
    v: StoreView,
    url: Seq<char>,
    tags: Seq<Seq<char>>,
    notes: Seq<char>,
    state: SchedulingState,
    due: u64,
)
    requires
        v.wf(),
        state.wf(),
        v.next_id + 2 <= u64::MAX,
    ensures
        v.insert_model(url, tags, notes, state, due).has_item_id(v.next_id),
        v.insert_model(url, tags, notes, state, due).item_view_of(v.next_id) == (ItemView {
            id: v.next_id,
            url,
            tags,
            notes,
            scheduling_state: state,
        }),
        v.insert_model(url, tags, notes, state, due).due_of(v.next_id) == due,
{
    lemma_insert_wf(v, url, tags, notes, state, due);
}

/// FIFO law of the inbox: enqueueing appends the urls behind the existing
/// entries, in submission order, under fresh ascending ids — so the
/// entries that `get_n_urls_from_inbox` hands out (always a prefix, id
/// ascending) come back in the order they were submitted.
pub proof fn lemma_inbox_fifo(v: StoreView, urls: Seq<Seq<char>>)
    requires
        v.next_id + urls.len() <= u64::MAX,
    ensures
        v.enqueue_model(urls).inbox.len() == v.inbox.len() + urls.len(),
        forall|i: int|
            0 <= i < v.inbox.len() ==> #[trigger] v.enqueue_model(urls).inbox[i] == v.inbox[i],
        forall|i: int|
            0 <= i < urls.len() ==> (#[trigger] v.enqueue_model(urls).inbox[v.inbox.len() + i]).url
                == urls[i],
        forall|i: int|
            0 <= i < urls.len() ==> (#[trigger] v.enqueue_model(urls).inbox[v.inbox.len() + i]).id
                == v.next_id + i,
{
}

/// Promotion atomicity law: promotion is the removal of the inbox entry
/// and the insertion of the item with its schedule row, as one value
/// transition. Afterwards the entry's id names nothing in the inbox, the
/// new item stands under the entry's url with its own schedule row and
/// due timestamp, nothing else has moved, and the store's invariants —
/// among them the one-to-one pairing of items and schedule rows — hold
/// again. `promote`'s contract allows no other outcome than this state or
/// the untouched pre-state on error, so no caller ever observes an item
/// without its schedule row, or the entry and the item together.
pub proof fn lemma_promote_atomic(v: StoreView, inbox_id: u64, state: SchedulingState, due: u64)
    requires
        v.wf(),
        v.has_inbox_id(inbox_id),
        state.wf(),
        v.next_id + 2 <= u64::MAX,
    ensures
        v.promote_model(inbox_id, state, due).wf(),
        !v.promote_model(inbox_id, state, due).has_inbox_id(inbox_id),
        v.promote_model(inbox_id, state, due).has_item_id(v.next_id),
        v.promote_model(inbox_id, state, due).item_view_of(v.next_id).url == v.inbox[v.inbox_idx(
            inbox_id,
        )].url,
        v.promote_model(inbox_id, state, due).item_view_of(v.next_id).scheduling_state == state,
        v.promote_model(inbox_id, state, due).due_of(v.next_id) == due,
        v.promote_model(inbox_id, state, due).inbox == v.inbox.remove(v.inbox_idx(inbox_id)),
        v.promote_model(inbox_id, state, due).items.drop_last() == v.items,
        v.promote_model(inbox_id, state, due).schedule.drop_last() == v.schedule,
{
    let url = v.inbox[v.inbox_idx(inbox_id)].url;
    let mid = v.remove_inbox_model(inbox_id);
    let w = v.promote_model(inbox_id, state, due);
    lemma_remove_inbox_wf(v, inbox_id);
    lemma_insert_wf(mid, url, Seq::empty(), Seq::empty(), state, due);
    let idx = v.inbox_idx(inbox_id);
    assert forall|i: int| 0 <= i < w.inbox.len() implies (#[trigger] w.inbox[i]).id
        != inbox_id by {
        let i0 = if i < idx {
            i
        } else {
            i + 1
        };
        assert(w.inbox[i] == v.inbox[i0]);
        if v.inbox[i0].id == inbox_id {
            lemma_inbox_idx_of(v, inbox_id, i0);
        }
    }
    assert(w.items.drop_last() =~= v.items);
    assert(w.schedule.drop_last() =~= v.schedule);
}

/// Overwriting an item's scheduling state and due timestamp preserves the
/// store's invariants: no id moves and the tables stay aligned.
pub proof fn lemma_update_wf(v: StoreView, id: u64, state: SchedulingState, due: u64)
    requires
        v.wf(),
        v.has_item_id(id),
        state.wf(),
    ensures
        v.update_model(id, state, due).wf(),
{
    let w = v.update_model(id, state, due);
    let idx = v.item_idx(id);
    assert(0 <= idx < v.items.len());
    assert forall|i: int| 0 <= i < w.items.len() implies (#[trigger] w.items[i]).id
        == v.items[i].id && w.items[i].scheduling_state.wf() by {
        if i != idx {
            assert(w.items[i] == v.items[i]);
        }
    }
    assert forall|i: int| 0 <= i < w.schedule.len() implies (#[trigger] w.schedule[i]).id
        == v.schedule[i].id && w.schedule[i].item_id == v.schedule[i].item_id by {
        if i != idx {
            assert(w.schedule[i] == v.schedule[i]);
        }
    }
}

} // verus!
