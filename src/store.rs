//! The feed store: per feed, a bounded window of accepted items, oldest
//! first, beside the record of item identities already processed.
use crate::item::{guid_at, has_stable_identity, identity_at, item_to_guid, FeedItem};
use crate::known::{recorded, replay, KnownItems};
use crate::window::{append_each, lemma_append_each, window};
use vstd::prelude::*;

verus! {

/// How many identities are remembered per feed by default: far more than a
/// feed serves, so that an item dropped from the served window is not taken
/// for new when a source still lists it.
pub const KNOWN_ITEMS_PER_FEED: usize = 10000;

/// The identities of `items` when the clock reads `now`.
pub open spec fn ids_at(items: Seq<FeedItem>, now: int) -> Seq<Seq<char>> {
    items.map_values(|i: FeedItem| identity_at(i, now))
}

/// The items of `items` that are new when they are taken in order against
/// `log`, each identity recorded as it is met.
pub open spec fn fresh_items(log: Seq<Seq<char>>, items: Seq<FeedItem>, now: int, cap: nat) -> Seq<FeedItem>
    decreases items.len(),
{
    if items.len() == 0 {
        Seq::empty()
    } else {
        let before = fresh_items(log, items.drop_last(), now, cap);
        let seen = replay(log, ids_at(items.drop_last(), now), cap);
        if seen.contains(identity_at(items.last(), now)) {
            before
        } else {
            before.push(items.last())
        }
    }
}

/// A feed as it is served: its title, its description and its accepted
/// items, oldest first.
pub struct StoredFeed {
    pub title: String,
    pub description: String,
    pub items: Vec<FeedItem>,
}

struct FeedSlot {
    name: String,
    feed: StoredFeed,
}

/// The feeds served and the identities already processed, with the bound
/// on items kept per feed.
pub struct FeedStorageInner {
    slots: Vec<FeedSlot>,
    max_items: usize,
    known_items: KnownItems,
}

fn copy_items(v: &Vec<FeedItem>) -> (r: Vec<FeedItem>)
    ensures
        r@ == v@,
{
    let mut r: Vec<FeedItem> = Vec::new();
    let mut i: usize = 0;
    while i < v.len()
        invariant
            i <= v.len(),
            r@ == v@.take(i as int),
        decreases v.len() - i,
    {
        r.push(v[i].copy());
        assert(r@ =~= v@.take(i + 1));
        i += 1;
    }
    assert(r@ =~= v@);
    r
}

impl FeedStorageInner {
    /// The names of the stored feeds, in the order they were added.
    pub closed spec fn names(&self) -> Seq<Seq<char>> {
        self.slots@.map_values(|s: FeedSlot| s.name@)
    }

    /// Whether a feed of that name is stored.
    pub open spec fn has_feed(&self, name: Seq<char>) -> bool {
        self.names().contains(name)
    }

    spec fn slot_of(&self, name: Seq<char>) -> int {
        choose|i: int| 0 <= i < self.names().len() && self.names()[i] == name
    }

    /// The items of a stored feed, oldest first; empty for another name.
    pub closed spec fn items(&self, name: Seq<char>) -> Seq<FeedItem> {
        if self.has_feed(name) {
            self.slots[self.slot_of(name)].feed.items@
        } else {
            Seq::empty()
        }
    }

    /// The title of a stored feed.
    pub closed spec fn title(&self, name: Seq<char>) -> Seq<char> {
        if self.has_feed(name) {
            self.slots[self.slot_of(name)].feed.title@
        } else {
            Seq::empty()
        }
    }

    /// The description of a stored feed.
    pub closed spec fn description(&self, name: Seq<char>) -> Seq<char> {
        if self.has_feed(name) {
            self.slots[self.slot_of(name)].feed.description@
        } else {
            Seq::empty()
        }
    }

    /// How many items each feed keeps.
    pub closed spec fn max(&self) -> nat {
        self.max_items as nat
    }

    /// The record of identities already processed.
    pub closed spec fn known(&self) -> KnownItems {
        self.known_items
    }

    /// The store is well formed: feed names are distinct, no feed holds
    /// more than the bound, and the record of identities is well formed.
    pub closed spec fn wf(&self) -> bool {
        &&& self.names().no_duplicates()
        &&& forall|i: int|
            0 <= i < self.slots.len() ==> #[trigger] self.slots[i].feed.items.len() <= self.max_items
        &&& self.known_items.wf()
    }

    proof fn lemma_slot_at(&self, i: int)
        requires
            self.wf(),
            0 <= i < self.slots.len(),
        ensures
            self.has_feed(self.slots[i].name@),
            self.slot_of(self.slots[i].name@) == i,
    {
        let name = self.slots[i].name@;
        assert(self.names()[i] == name);
        let j = self.slot_of(name);
        assert(self.names()[j] == name);
    }

    /// The record of identities of a well-formed store is well formed, so
    /// every log in it is within its capacity.
    pub proof fn lemma_known_wf(&self)
        requires
            self.wf(),
        ensures
            self.known().wf(),
    {
    }

    /// Every stored feed is within the bound.
    pub proof fn lemma_items_bounded(&self, name: Seq<char>)
        requires
            self.wf(),
        ensures
            self.items(name).len() <= self.max(),
    {
        if self.has_feed(name) {
            let i = self.slot_of(name);
            assert(self.slots[i].feed.items.len() <= self.max_items);
        }
    }

    /// An empty store that keeps at most `max_items` items per feed and
    /// remembers at most `known_capacity` identities per feed.
    pub fn new(max_items: usize, known_capacity: usize) -> (r: FeedStorageInner)
        ensures
            r.wf(),
            r.max() == max_items,
            r.names() == Seq::<Seq<char>>::empty(),
            r.known().cap() == known_capacity,
            forall|f: Seq<char>| #[trigger] r.known().log(f) == Seq::<Seq<char>>::empty(),
    {
        let r = FeedStorageInner {
            slots: Vec::new(),
            max_items,
            known_items: KnownItems::new(known_capacity),
        };
        assert(r.names() =~= Seq::<Seq<char>>::empty());
        r
    }

    /// A store over a record of identities loaded earlier.
    pub fn with_known(max_items: usize, known_items: KnownItems) -> (r: FeedStorageInner)
        requires
            known_items.wf(),
        ensures
            r.wf(),
            r.max() == max_items,
            r.names() == Seq::<Seq<char>>::empty(),
            r.known() == known_items,
    {
        let r = FeedStorageInner { slots: Vec::new(), max_items, known_items };
        assert(r.names() =~= Seq::<Seq<char>>::empty());
        r
    }

    /// The record of identities already processed.
    pub fn known_items(&self) -> (r: &KnownItems)
        ensures
            *r == self.known(),
    {
        &self.known_items
    }

    fn position(&self, name: &String) -> (r: Option<usize>)
        requires
            self.wf(),
        ensures
            match r {
                Some(i) => i < self.slots.len() && self.names()[i as int] == name@ && self.slot_of(
                    name@,
                ) == i,
                None => !self.has_feed(name@),
            },
    {
        let mut i: usize = 0;
        while i < self.slots.len()
            invariant
                self.wf(),
                i <= self.slots.len(),
                forall|j: int| 0 <= j < i ==> self.names()[j] != name@,
            decreases self.slots.len() - i,
        {
            if self.slots[i].name == *name {
                proof {
                    self.lemma_slot_at(i as int);
                }
                return Some(i);
            }
            i += 1;
        }
        None
    }

    /// Adds an empty feed under `feed_name` with the given title and
    /// description, unless a feed of that name is stored already; an
    /// existing feed keeps its title and description.
    pub fn add_channel(&mut self, feed_name: &str, title: &str, description: &str)
        requires
            old(self).wf(),
        ensures
            final(self).wf(),
            final(self).max() == old(self).max(),
            final(self).known() == old(self).known(),
            final(self).has_feed(feed_name@),
            old(self).has_feed(feed_name@) ==> final(self).names() == old(self).names(),
            !old(self).has_feed(feed_name@) ==> final(self).names() == old(self).names().push(feed_name@),
            !old(self).has_feed(feed_name@) ==> final(self).items(feed_name@) == Seq::<FeedItem>::empty()
                && final(self).title(feed_name@) == title@
                && final(self).description(feed_name@) == description@,
            forall|f: Seq<char>| #[trigger] final(self).items(f) == old(self).items(f) || (f == feed_name@ && !old(self).has_feed(f)),
            forall|f: Seq<char>| old(self).has_feed(f) ==> #[trigger] final(self).title(f) == old(self).title(f),
            forall|f: Seq<char>| old(self).has_feed(f) ==> #[trigger] final(self).description(f) == old(self).description(f),
    {
        let key = String::from_str(feed_name);
        match self.position(&key) {
            Some(_) => {},
            None => {
                let ghost prev = *self;
                let feed = StoredFeed {
                    title: String::from_str(title),
                    description: String::from_str(description),
                    items: Vec::new(),
                };
                self.slots.push(FeedSlot { name: key, feed });
                proof {
                    let n = prev.slots.len() as int;
                    assert(self.names() =~= prev.names().push(feed_name@));
                    assert(self.names().no_duplicates()) by {
                        assert forall|a: int, b: int| 0 <= a < b < self.names().len() implies self.names()[a] != self.names()[b] by {
                            if b == n {
                                assert(prev.names()[a] == self.names()[a]);
                                assert(prev.names().contains(prev.names()[a]));
                            }
                        }
                    }
                    assert forall|i: int| 0 <= i < self.slots.len() implies #[trigger] self.slots[i].feed.items.len() <= self.max_items by {
                        if i < n {
                            assert(prev.slots[i].feed.items.len() <= prev.max_items);
                        }
                    }
                    self.lemma_slot_at(n);
                    assert forall|f: Seq<char>| prev.has_feed(f) implies #[trigger] self.slot_of(f) == prev.slot_of(f) by {
                        let j = prev.slot_of(f);
                        prev.lemma_slot_at(j);
                        assert(self.slots[j] == prev.slots[j]);
                        self.lemma_slot_at(j);
                    }
                    assert forall|f: Seq<char>| #[trigger] self.items(f) == prev.items(f) || (f == feed_name@ && !prev.has_feed(f)) by {
                        if prev.has_feed(f) {
                            let j = prev.slot_of(f);
                            prev.lemma_slot_at(j);
                            assert(self.slots[j] == prev.slots[j]);
                            self.lemma_slot_at(j);
                            assert(self.has_feed(f));
                        } else if f != feed_name@ {
                            assert(!self.has_feed(f)) by {
                                if self.has_feed(f) {
                                    let k = choose|k: int| 0 <= k < self.names().len() && self.names()[k] == f;
                                    if k < n {
                                        assert(prev.names()[k] == f);
                                    }
                                }
                            }
                        }
                    }
                    assert forall|f: Seq<char>| prev.has_feed(f) implies #[trigger] self.slot_of(f) == prev.slot_of(f) && self.has_feed(f) by {
                        let j = prev.slot_of(f);
                        prev.lemma_slot_at(j);
                        assert(self.slots[j] == prev.slots[j]);
                        self.lemma_slot_at(j);
                    }
                    assert forall|f: Seq<char>| prev.has_feed(f) implies #[trigger] self.title(f) == prev.title(f) by {
                        assert(self.slot_of(f) == prev.slot_of(f));
                        assert(self.slots[prev.slot_of(f)] == prev.slots[prev.slot_of(f)]);
                    }
                    assert forall|f: Seq<char>| prev.has_feed(f) implies #[trigger] self.description(f) == prev.description(f) by {
                        assert(self.slot_of(f) == prev.slot_of(f));
                        assert(self.slots[prev.slot_of(f)] == prev.slots[prev.slot_of(f)]);
                    }
                }
            },
        }
    }

    /// Appends `item` to the newest end of the feed `feed_name`, then drops
    /// the oldest items beyond the bound.
    pub fn store_filtered_item(&mut self, feed_name: &str, item: FeedItem)
        requires
            old(self).wf(),
            old(self).has_feed(feed_name@),
        ensures
            final(self).wf(),
            final(self).max() == old(self).max(),
            final(self).known() == old(self).known(),
            final(self).names() == old(self).names(),
            final(self).items(feed_name@) == window(old(self).items(feed_name@).push(item), old(self).max()),
            forall|f: Seq<char>| f != feed_name@ ==> #[trigger] final(self).items(f) == old(self).items(f),
            forall|f: Seq<char>| #[trigger] final(self).title(f) == old(self).title(f),
            forall|f: Seq<char>| #[trigger] final(self).description(f) == old(self).description(f),
    {
        let key = String::from_str(feed_name);
        let i = match self.position(&key) {
            Some(i) => i,
            None => {
                return;
            },
        };
        let ghost prev = *self;
        let ghost before = self.slots[i as int].feed.items@;
        assert(self.slots[i as int].feed.items.len() <= self.max_items);
        let mut slot = self.slots.remove(i);
        slot.feed.items.push(item);
        if slot.feed.items.len() > self.max_items {
            let ghost pushed = slot.feed.items@;
            slot.feed.items.remove(0);
            assert(slot.feed.items@ =~= pushed.subrange(1, pushed.len() as int));
        }
        assert(slot.feed.items@ == window(before.push(item), self.max_items as nat));
        self.slots.insert(i, slot);
        proof {
            assert(self.slots@ =~= prev.slots@.update(i as int, self.slots@[i as int]));
            assert(self.slots@[i as int].name == prev.slots@[i as int].name);
            assert forall|k: int| 0 <= k < self.names().len() implies self.names()[k] == prev.names()[k] by {
                assert(self.slots@[k].name == prev.slots@[k].name);
            }
            assert(self.names() =~= prev.names());
            assert forall|j: int| 0 <= j < self.slots.len() implies #[trigger] self.slots[j].feed.items.len() <= self.max_items by {
                if j != i {
                    assert(prev.slots[j].feed.items.len() <= prev.max_items);
                }
            }
            assert forall|f: Seq<char>| f != feed_name@ implies #[trigger] self.items(f) == prev.items(f) by {
                if prev.has_feed(f) {
                    assert(self.slot_of(f) != i);
                }
            }
            assert forall|f: Seq<char>| #[trigger] self.title(f) == prev.title(f) by {
                if prev.has_feed(f) {
                    let j = prev.slot_of(f);
                    if j != i {
                        assert(self.slots@[j] == prev.slots@[j]);
                    }
                }
            }
            assert forall|f: Seq<char>| #[trigger] self.description(f) == prev.description(f) by {
                if prev.has_feed(f) {
                    let j = prev.slot_of(f);
                    if j != i {
                        assert(self.slots@[j] == prev.slots@[j]);
                    }
                }
            }
        }
    }

    /// Appends `items` in order, as `store_filtered_item` does with each.
    pub fn store_filtered_items(&mut self, feed_name: &str, items: Vec<FeedItem>)
        requires
            old(self).wf(),
            old(self).has_feed(feed_name@),
        ensures
            final(self).wf(),
            final(self).max() == old(self).max(),
            final(self).known() == old(self).known(),
            final(self).names() == old(self).names(),
            final(self).items(feed_name@) == append_each(old(self).items(feed_name@), items@, old(self).max()),
            forall|f: Seq<char>| f != feed_name@ ==> #[trigger] final(self).items(f) == old(self).items(f),
            forall|f: Seq<char>| #[trigger] final(self).title(f) == old(self).title(f),
            forall|f: Seq<char>| #[trigger] final(self).description(f) == old(self).description(f),
    {
        let ghost start = *self;
        let mut i: usize = 0;
        while i < items.len()
            invariant
                self.wf(),
                self.has_feed(feed_name@),
                self.max() == start.max(),
                self.known() == start.known(),
                self.names() == start.names(),
                i <= items.len(),
                self.items(feed_name@) == append_each(start.items(feed_name@), items@.take(i as int), start.max()),
                forall|f: Seq<char>| f != feed_name@ ==> #[trigger] self.items(f) == start.items(f),
                forall|f: Seq<char>| #[trigger] self.title(f) == start.title(f),
                forall|f: Seq<char>| #[trigger] self.description(f) == start.description(f),
            decreases items.len() - i,
        {
            assert(items@.take(i + 1).drop_last() =~= items@.take(i as int));
            self.store_filtered_item(feed_name, items[i].copy());
            i += 1;
        }
        assert(items@.take(i as int) =~= items@);
    }

    /// Whether the identity of `item` is in the record of `feed_name`. An
    /// item without a stable identity is looked up under the identity it
    /// has at the current time.
    pub fn is_known(&self, feed_name: &str, item: &FeedItem) -> (r: bool)
        requires
            self.wf(),
        ensures
            exists|now: i64| r == self.known().log(feed_name@).contains(identity_at(*item, now as int)),
            has_stable_identity(*item) ==> r == self.known().log(feed_name@).contains(crate::item::stable_identity(*item)),
    {
        let id = item_to_guid(item);
        self.known_items.contains(feed_name, &id)
    }

    /// Records the identity of `item` for `feed_name`. Returns whether it
    /// was new.
    pub fn record_as_known(&mut self, feed_name: &str, item: &FeedItem) -> (r: bool)
        requires
            old(self).wf(),
        ensures
            final(self).wf(),
            final(self).max() == old(self).max(),
            final(self).names() == old(self).names(),
            forall|f: Seq<char>| #[trigger] final(self).items(f) == old(self).items(f),
            forall|f: Seq<char>| #[trigger] final(self).title(f) == old(self).title(f),
            forall|f: Seq<char>| #[trigger] final(self).description(f) == old(self).description(f),
            final(self).known().cap() == old(self).known().cap(),
            exists|now: i64|
                r == !old(self).known().log(feed_name@).contains(#[trigger] identity_at(*item, now as int))
                && final(self).known().log(feed_name@) == recorded(
                    old(self).known().log(feed_name@),
                    identity_at(*item, now as int),
                    old(self).known().cap(),
                ),
            forall|f: Seq<char>| f != feed_name@ ==> #[trigger] final(self).known().log(f) == old(self).known().log(f),
    {
        let id = item_to_guid(item);
        self.known_items.record(feed_name, id)
    }

    /// Takes the items of one fetch of `feed_name` in order and returns
    /// those whose identity (at clock reading `now`) is not yet recorded,
    /// recording each as it is met.
    pub fn take_new_items(&mut self, feed_name: &str, items: Vec<FeedItem>, now: i64) -> (r: Vec<FeedItem>)
        requires
            old(self).wf(),
        ensures
            final(self).wf(),
            final(self).max() == old(self).max(),
            final(self).names() == old(self).names(),
            forall|f: Seq<char>| #[trigger] final(self).items(f) == old(self).items(f),
            forall|f: Seq<char>| #[trigger] final(self).title(f) == old(self).title(f),
            forall|f: Seq<char>| #[trigger] final(self).description(f) == old(self).description(f),
            final(self).known().cap() == old(self).known().cap(),
            r@ == fresh_items(old(self).known().log(feed_name@), items@, now as int, old(self).known().cap()),
            final(self).known().log(feed_name@) == replay(old(self).known().log(feed_name@), ids_at(items@, now as int), old(self).known().cap()),
            forall|f: Seq<char>| f != feed_name@ ==> #[trigger] final(self).known().log(f) == old(self).known().log(f),
    {
        let ghost start = *self;
        let ghost log0 = self.known_items.log(feed_name@);
        let ghost cap = self.known_items.cap();
        let ghost all = items@;
        let mut kept: Vec<FeedItem> = Vec::new();
        let mut k: usize = 0;
        while k < items.len()
            invariant
                self.wf(),
                self.max() == start.max(),
                self.names() == start.names(),
                self.slots == start.slots,
                self.known().cap() == cap,
                all == items@,
                k <= items.len(),
                kept@ == fresh_items(log0, all.take(k as int), now as int, cap),
                self.known().log(feed_name@) == replay(log0, ids_at(all.take(k as int), now as int), cap),
                forall|f: Seq<char>| f != feed_name@ ==> #[trigger] self.known().log(f) == start.known().log(f),
            decreases items.len() - k,
        {
            let next = &items[k];
            assert(all.take(k + 1).drop_last() =~= all.take(k as int));
            assert(all.take(k + 1).last() == all[k as int]);
            assert(ids_at(all.take(k + 1), now as int).drop_last() =~= ids_at(all.take(k as int), now as int));
            let id = guid_at(next, now);
            if !self.known_items.contains(feed_name, &id) {
                self.known_items.record(feed_name, id);
                kept.push(next.copy());
            } else {
                assert(recorded(self.known().log(feed_name@), id@, cap) == self.known().log(feed_name@));
            }
            k += 1;
        }
        assert(all.take(k as int) =~= all);
        kept
    }

    /// The first half of polling a feed: makes sure the feed is stored
    /// (under the fetched title and description when it is new) and returns
    /// the fetched items not seen before, recording them as seen.
    pub fn begin_poll(&mut self, feed_name: &str, title: &str, description: &str, items: Vec<FeedItem>, now: i64) -> (r: Vec<FeedItem>)
        requires
            old(self).wf(),
        ensures
            final(self).wf(),
            final(self).max() == old(self).max(),
            final(self).has_feed(feed_name@),
            old(self).has_feed(feed_name@) ==> final(self).names() == old(self).names(),
            !old(self).has_feed(feed_name@) ==> final(self).names() == old(self).names().push(feed_name@)
                && final(self).title(feed_name@) == title@
                && final(self).description(feed_name@) == description@
                && final(self).items(feed_name@) == Seq::<FeedItem>::empty(),
            forall|f: Seq<char>| old(self).has_feed(f) ==> #[trigger] final(self).title(f) == old(self).title(f),
            forall|f: Seq<char>| old(self).has_feed(f) ==> #[trigger] final(self).description(f) == old(self).description(f),
            forall|f: Seq<char>| #[trigger] final(self).items(f) == old(self).items(f),
            final(self).known().cap() == old(self).known().cap(),
            r@ == fresh_items(old(self).known().log(feed_name@), items@, now as int, old(self).known().cap()),
            final(self).known().log(feed_name@) == replay(old(self).known().log(feed_name@), ids_at(items@, now as int), old(self).known().cap()),
            forall|f: Seq<char>| f != feed_name@ ==> #[trigger] final(self).known().log(f) == old(self).known().log(f),
    {
        self.add_channel(feed_name, title, description);
        proof {
            assert forall|f: Seq<char>| #[trigger] self.items(f) == old(self).items(f) by {
                if f == feed_name@ && !old(self).has_feed(f) {
                    assert(self.items(f) == Seq::<FeedItem>::empty());
                }
            }
        }
        self.take_new_items(feed_name, items, now)
    }

    /// The second half of polling a feed: appends the accepted items.
    pub fn finish_poll(&mut self, feed_name: &str, accepted: Vec<FeedItem>)
        requires
            old(self).wf(),
            old(self).has_feed(feed_name@),
        ensures
            final(self).wf(),
            final(self).max() == old(self).max(),
            final(self).known() == old(self).known(),
            final(self).names() == old(self).names(),
            final(self).items(feed_name@) == append_each(old(self).items(feed_name@), accepted@, old(self).max()),
            forall|f: Seq<char>| f != feed_name@ ==> #[trigger] final(self).items(f) == old(self).items(f),
            forall|f: Seq<char>| #[trigger] final(self).title(f) == old(self).title(f),
            forall|f: Seq<char>| #[trigger] final(self).description(f) == old(self).description(f),
    {
        self.store_filtered_items(feed_name, accepted);
    }

    /// A copy of the stored feed `name`, or `None` when there is none.
    pub fn read(&self, name: &str) -> (r: Option<StoredFeed>)
        requires
            self.wf(),
        ensures
            match r {
                Some(feed) => self.has_feed(name@) && feed.title@ == self.title(name@)
                    && feed.description@ == self.description(name@) && feed.items@ == self.items(name@),
                None => !self.has_feed(name@),
            },
    {
        let key = String::from_str(name);
        match self.position(&key) {
            Some(i) => {
                let feed = &self.slots[i].feed;
                Some(
                    StoredFeed {
                        title: feed.title.clone(),
                        description: feed.description.clone(),
                        items: copy_items(&feed.items),
                    },
                )
            },
            None => None,
        }
    }

    /// The names of the stored feeds, in the order they were added, each
    /// with its number of items.
    pub fn list_names(&self) -> (r: Vec<(String, usize)>)
        requires
            self.wf(),
        ensures
            r@.len() == self.names().len(),
            forall|i: int| 0 <= i < r@.len() ==> #[trigger] r@[i].0@ == self.names()[i] && r@[i].1 == self.items(self.names()[i]).len(),
    {
        let mut r: Vec<(String, usize)> = Vec::new();
        let mut i: usize = 0;
        while i < self.slots.len()
            invariant
                self.wf(),
                i <= self.slots.len(),
                r@.len() == i,
                forall|j: int| 0 <= j < i ==> #[trigger] r@[j].0@ == self.names()[j] && r@[j].1 == self.items(self.names()[j]).len(),
            decreases self.slots.len() - i,
        {
            proof {
                self.lemma_slot_at(i as int);
            }
            r.push((self.slots[i].name.clone(), self.slots[i].feed.items.len()));
            i += 1;
        }
        r
    }
}

/// Bounded retention: appending `m + k` items (`k >= 1`) one at a time to
/// an empty feed that keeps `m` leaves exactly the last `m` of them, in
/// their order.
pub proof fn lemma_bounded_retention(items: Seq<FeedItem>, m: nat, k: nat)
    requires
        items.len() == m + k,
        k >= 1,
    ensures
        append_each(Seq::empty(), items, m) == items.subrange(k as int, (m + k) as int),
        append_each(Seq::empty(), items, m).len() == m,
{
    lemma_append_each(Seq::<FeedItem>::empty(), items, m);
    assert(Seq::<FeedItem>::empty() + items =~= items);
}

proof fn lemma_replay_fits(log: Seq<Seq<char>>, ids: Seq<Seq<char>>, cap: nat)
    requires
        log.len() + ids.len() <= cap,
    ensures
        replay(log, ids, cap).len() <= log.len() + ids.len(),
        forall|k: int| 0 <= k < ids.len() ==> replay(log, ids, cap).contains(#[trigger] ids[k]),
    decreases ids.len(),
{
    if ids.len() > 0 {
        let front = ids.drop_last();
        lemma_replay_fits(log, front, cap);
        let before = replay(log, front, cap);
        let after = replay(log, ids, cap);
        if !before.contains(ids.last()) {
            assert(after == before.push(ids.last()));
            assert(after[after.len() - 1] == ids.last());
        }
        assert forall|k: int| 0 <= k < ids.len() implies after.contains(#[trigger] ids[k]) by {
            if k < ids.len() - 1 {
                assert(ids[k] == front[k]);
                let w = choose|w: int| 0 <= w < before.len() && before[w] == front[k];
                if !before.contains(ids.last()) {
                    assert(after[w] == before[w]);
                }
            }
        }
    }
}

proof fn lemma_replay_known(log: Seq<Seq<char>>, ids: Seq<Seq<char>>, cap: nat)
    requires
        forall|k: int| 0 <= k < ids.len() ==> log.contains(#[trigger] ids[k]),
    ensures
        replay(log, ids, cap) == log,
    decreases ids.len(),
{
    if ids.len() > 0 {
        let front = ids.drop_last();
        assert forall|k: int| 0 <= k < front.len() implies log.contains(#[trigger] front[k]) by {
            assert(front[k] == ids[k]);
        }
        lemma_replay_known(log, front, cap);
        assert(log.contains(ids[ids.len() - 1]));
    }
}

proof fn lemma_fresh_none(log: Seq<Seq<char>>, items: Seq<FeedItem>, now: int, cap: nat)
    requires
        forall|k: int| 0 <= k < items.len() ==> log.contains(#[trigger] identity_at(items[k], now)),
    ensures
        fresh_items(log, items, now, cap) == Seq::<FeedItem>::empty(),
    decreases items.len(),
{
    if items.len() > 0 {
        let front = items.drop_last();
        assert forall|k: int| 0 <= k < front.len() implies log.contains(#[trigger] identity_at(front[k], now)) by {
            assert(front[k] == items[k]);
        }
        lemma_fresh_none(log, front, now, cap);
        let ids = ids_at(front, now);
        assert forall|k: int| 0 <= k < ids.len() implies log.contains(#[trigger] ids[k]) by {
            assert(ids[k] == identity_at(front[k], now));
        }
        lemma_replay_known(log, ids, cap);
        assert(log.contains(identity_at(items[items.len() - 1], now)));
    }
}

/// Dedup idempotence: when the same items, each with a stable identity,
/// are fetched twice for a feed whose log and those items fit its capacity
/// together, the second poll admits none of them and leaves the log as the
/// first poll left it, within the capacity.
pub proof fn lemma_repoll_admits_nothing(log: Seq<Seq<char>>, items: Seq<FeedItem>, t1: int, t2: int, cap: nat)
    requires
        log.len() + items.len() <= cap,
        forall|k: int| 0 <= k < items.len() ==> has_stable_identity(#[trigger] items[k]),
    ensures
        replay(log, ids_at(items, t1), cap).len() <= cap,
        fresh_items(replay(log, ids_at(items, t1), cap), items, t2, cap) == Seq::<FeedItem>::empty(),
        replay(replay(log, ids_at(items, t1), cap), ids_at(items, t2), cap) == replay(log, ids_at(items, t1), cap),
{
    let ids1 = ids_at(items, t1);
    let ids2 = ids_at(items, t2);
    lemma_replay_fits(log, ids1, cap);
    let after = replay(log, ids1, cap);
    assert forall|k: int| 0 <= k < items.len() implies after.contains(#[trigger] identity_at(items[k], t2)) by {
        assert(has_stable_identity(items[k]));
        assert(ids1[k] == identity_at(items[k], t1));
    }
    lemma_fresh_none(after, items, t2, cap);
    assert forall|k: int| 0 <= k < ids2.len() implies after.contains(#[trigger] ids2[k]) by {
        assert(ids2[k] == identity_at(items[k], t2));
        assert(after.contains(identity_at(items[k], t2)));
    }
    lemma_replay_known(after, ids2, cap);
}

} // verus!
