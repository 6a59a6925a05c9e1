//! The record of item identities already processed, per feed: a bounded,
//! duplicate-free log in insertion order that forgets its oldest entry
//! when it overflows.
use crate::window::window;
use vstd::prelude::*;

verus! {

/// The texts of a sequence of strings.
pub open spec fn texts(v: Seq<String>) -> Seq<Seq<char>> {
    v.map_values(|s: String| s@)
}

/// The log after recording `id`: unchanged when `id` is in it already,
/// else `id` appended and the oldest entries beyond `cap` dropped.
pub open spec fn recorded(log: Seq<Seq<char>>, id: Seq<char>, cap: nat) -> Seq<Seq<char>> {
    if log.contains(id) {
        log
    } else {
        window(log.push(id), cap)
    }
}

/// The log after recording each of `ids` in order.
pub open spec fn replay(log: Seq<Seq<char>>, ids: Seq<Seq<char>>, cap: nat) -> Seq<Seq<char>>
    decreases ids.len(),
{
    if ids.len() == 0 {
        log
    } else {
        recorded(replay(log, ids.drop_last(), cap), ids.last(), cap)
    }
}

/// The log of `feed` after restoring `entries` (pairs of a feed name and its
/// identities) into an empty record: each entry's identities are recorded
/// in order.
pub open spec fn restored(
    entries: Seq<(Seq<char>, Seq<Seq<char>>)>,
    feed: Seq<char>,
    cap: nat,
) -> Seq<Seq<char>>
    decreases entries.len(),
{
    if entries.len() == 0 {
        Seq::empty()
    } else {
        let before = restored(entries.drop_last(), feed, cap);
        if entries.last().0 == feed {
            replay(before, entries.last().1, cap)
        } else {
            before
        }
    }
}

/// The texts of snapshot pairs of a feed name and its identities.
pub open spec fn pairs_view(v: Seq<(String, Vec<String>)>) -> Seq<(Seq<char>, Seq<Seq<char>>)> {
    v.map_values(|p: (String, Vec<String>)| (p.0@, texts(p.1@)))
}

/// Recording identities that are new and fit leaves none of them out.
pub proof fn lemma_replay_fresh(log: Seq<Seq<char>>, ids: Seq<Seq<char>>, cap: nat)
    requires
        (log + ids).no_duplicates(),
        log.len() + ids.len() <= cap,
    ensures
        replay(log, ids, cap) == log + ids,
    decreases ids.len(),
{
    if ids.len() == 0 {
        assert(log + ids =~= log);
    } else {
        let front = ids.drop_last();
        assert(log + front =~= (log + ids).subrange(0, (log + ids).len() - 1));
        assert((log + front).no_duplicates()) by {
            let all = log + ids;
            assert forall|a: int, b: int| 0 <= a < b < (log + front).len() implies (log
                + front)[a] != (log + front)[b] by {
                assert((log + front)[a] == all[a]);
                assert((log + front)[b] == all[b]);
            }
        }
        lemma_replay_fresh(log, front, cap);
        let all = log + ids;
        assert(all[all.len() - 1] == ids.last());
        assert(!(log + front).contains(ids.last())) by {
            if (log + front).contains(ids.last()) {
                let k = choose|k: int| 0 <= k < (log + front).len() && (log + front)[k] == ids.last();
                assert(all[k] == (log + front)[k]);
            }
        }
        assert((log + front).push(ids.last()) =~= log + ids);
    }
}

/// Copies a list of strings.
fn copy_all(v: &Vec<String>) -> (r: Vec<String>)
    ensures
        r@ == v@,
{
    let mut r: Vec<String> = Vec::new();
    let mut i: usize = 0;
    while i < v.len()
        invariant
            i <= v.len(),
            r@ == v@.take(i as int),
        decreases v.len() - i,
    {
        r.push(v[i].clone());
        assert(r@ =~= v@.take(i + 1));
        i += 1;
    }
    assert(r@ =~= v@);
    r
}

/// Whether no two pairs share a feed name.
pub open spec fn distinct_names(entries: Seq<(Seq<char>, Seq<Seq<char>>)>) -> bool {
    forall|i: int, j: int| 0 <= i < j < entries.len() ==> entries[i].0 != entries[j].0
}

/// The JSON object that serde_json writes for a map from each feed name to
/// its identities.
pub uninterp spec fn snapshot_json(entries: Seq<(Seq<char>, Seq<Seq<char>>)>) -> Seq<char>;

/// The pairs of a feed name and its identities that serde_json reads from
/// `text` as a JSON object of lists of strings, by name; `None` when the
/// text is no such object.
pub uninterp spec fn snapshot_of_json(text: Seq<char>) -> Option<Seq<(Seq<char>, Seq<Seq<char>>)>>;

/// Relies on `serde_json::to_string` on a `BTreeMap<String, Vec<String>>`
/// holding the pairs (one entry each, the names being distinct): the text
/// depends on the strings alone. String keys and lists of strings always
/// serialise, so the error arm is never taken.
#[verifier::external_body]
fn encode_pairs(entries: &Vec<(String, Vec<String>)>) -> (r: String)
    requires
        distinct_names(pairs_view(entries@)),
    ensures
        r@ == snapshot_json(pairs_view(entries@)),
{
    let map: std::collections::BTreeMap<String, Vec<String>> = entries.iter().cloned().collect();
    serde_json::to_string(&map).unwrap_or_default()
}

/// Relies on `serde_json::from_str` into a `BTreeMap<String, Vec<String>>`,
/// whose entries become the pairs: they depend on the text alone, and it
/// fails exactly when the text is not an object of lists of strings.
#[verifier::external_body]
fn decode_pairs(text: &str) -> (r: Option<Vec<(String, Vec<String>)>>)
    ensures
        match r {
            Some(v) => snapshot_of_json(text@) == Some(pairs_view(v@)),
            None => snapshot_of_json(text@) is None,
        },
{
    let map: std::collections::BTreeMap<String, Vec<String>> = serde_json::from_str(text).ok()?;
    Some(map.into_iter().collect())
}

/// Why a saved record could not be loaded.
#[derive(Debug, PartialEq, Eq, Structural)]
pub enum CacheError {
    /// The text is not a list of pairs of a feed name and its identities.
    Malformed,
}

/// The identities recorded for one feed.
pub struct KnownFeed {
    pub name: String,
    pub ids: Vec<String>,
}

/// Per-feed logs of processed item identities, each at most `capacity` long.
pub struct KnownItems {
    entries: Vec<KnownFeed>,
    capacity: usize,
}

/// Whether `ids` holds `id`.
fn holds(ids: &Vec<String>, id: &String) -> (r: bool)
    ensures
        r == texts(ids@).contains(id@),
{
    let mut i: usize = 0;
    while i < ids.len()
        invariant
            i <= ids.len(),
            forall|j: int| 0 <= j < i ==> ids@[j]@ != id@,
        decreases ids.len() - i,
    {
        if ids[i] == *id {
            assert(texts(ids@)[i as int] == id@);
            return true;
        }
        i += 1;
    }
    assert forall|j: int| 0 <= j < texts(ids@).len() implies texts(ids@)[j] != id@ by {}
    false
}

impl KnownItems {
    /// The record is well formed: feed names are distinct, and each log is
    /// free of duplicates and within the capacity.
    pub closed spec fn wf(&self) -> bool {
        &&& forall|i: int, j: int|
            0 <= i < j < self.entries.len() ==> self.entries[i].name@ != self.entries[j].name@
        &&& forall|i: int|
            0 <= i < self.entries.len() ==> {
                &&& #[trigger] texts(self.entries[i].ids@).len() <= self.capacity
                &&& texts(self.entries[i].ids@).no_duplicates()
            }
    }

    /// How many identities each feed's log keeps.
    pub closed spec fn cap(&self) -> nat {
        self.capacity as nat
    }

    /// Whether the record holds a log for `feed`.
    pub closed spec fn has_feed(&self, feed: Seq<char>) -> bool {
        exists|i: int| 0 <= i < self.entries.len() && self.entries[i].name@ == feed
    }

    /// The log of `feed`, oldest first; empty for a feed never recorded.
    pub closed spec fn log(&self, feed: Seq<char>) -> Seq<Seq<char>> {
        if self.has_feed(feed) {
            texts(
                self.entries[choose|i: int|
                    0 <= i < self.entries.len() && self.entries[i].name@ == feed].ids@,
            )
        } else {
            Seq::empty()
        }
    }

    /// The record as pairs of a feed name and its log.
    pub closed spec fn snapshot_view(&self) -> Seq<(Seq<char>, Seq<Seq<char>>)> {
        self.entries@.map_values(|e: KnownFeed| (e.name@, texts(e.ids@)))
    }

    proof fn lemma_log_at(&self, i: int)
        requires
            self.wf(),
            0 <= i < self.entries.len(),
        ensures
            self.has_feed(self.entries[i].name@),
            self.log(self.entries[i].name@) == texts(self.entries[i].ids@),
    {
        let feed = self.entries[i].name@;
        assert(self.has_feed(feed));
        let j = choose|j: int| 0 <= j < self.entries.len() && self.entries[j].name@ == feed;
        if j != i {
            if j < i {
                assert(self.entries[j].name@ != self.entries[i].name@);
            } else {
                assert(self.entries[i].name@ != self.entries[j].name@);
            }
        }
    }

    /// Every log is within the capacity.
    pub proof fn lemma_log_bounded(&self, feed: Seq<char>)
        requires
            self.wf(),
        ensures
            self.log(feed).len() <= self.cap(),
            self.log(feed).no_duplicates(),
    {
        if self.has_feed(feed) {
            let i = choose|i: int| 0 <= i < self.entries.len() && self.entries[i].name@ == feed;
            self.lemma_log_at(i);
        }
    }

    /// An empty record whose logs keep at most `capacity` identities.
    pub fn new(capacity: usize) -> (r: KnownItems)
        ensures
            r.wf(),
            r.cap() == capacity,
            forall|f: Seq<char>| #[trigger] r.log(f) == Seq::<Seq<char>>::empty(),
    {
        KnownItems { entries: Vec::new(), capacity }
    }

    fn position(&self, feed: &String) -> (r: Option<usize>)
        ensures
            match r {
                Some(i) => i < self.entries.len() && self.entries[i as int].name@ == feed@,
                None => !self.has_feed(feed@),
            },
    {
        let mut i: usize = 0;
        while i < self.entries.len()
            invariant
                i <= self.entries.len(),
                forall|j: int| 0 <= j < i ==> self.entries[j].name@ != feed@,
            decreases self.entries.len() - i,
        {
            if self.entries[i].name == *feed {
                return Some(i);
            }
            i += 1;
        }
        None
    }

    /// Whether `id` is in the log of `feed`.
    pub fn contains(&self, feed: &str, id: &String) -> (r: bool)
        requires
            self.wf(),
        ensures
            r == self.log(feed@).contains(id@),
    {
        let key = String::from_str(feed);
        match self.position(&key) {
            Some(i) => {
                proof {
                    self.lemma_log_at(i as int);
                }
                holds(&self.entries[i].ids, id)
            },
            None => false,
        }
    }

    /// Makes sure the record holds a log for `feed`, empty when it is new.
    pub fn add_feed(&mut self, feed: &str)
        requires
            old(self).wf(),
        ensures
            final(self).wf(),
            final(self).cap() == old(self).cap(),
            final(self).has_feed(feed@),
            forall|f: Seq<char>| #[trigger] final(self).log(f) == old(self).log(f),
    {
        let key = String::from_str(feed);
        match self.position(&key) {
            Some(i) => {
                proof {
                    self.lemma_log_at(i as int);
                }
            },
            None => {
                let ghost old_self = *self;
                let ids: Vec<String> = Vec::new();
                assert(texts(ids@) =~= Seq::<Seq<char>>::empty());
                self.entries.push(KnownFeed { name: key, ids });
                proof {
                    self.lemma_push_keeps(old_self);
                    self.lemma_log_at(old_self.entries.len() as int);
                }
            },
        }
    }

    /// Records `id` in the log of `feed`. Returns whether it was absent.
    pub fn record(&mut self, feed: &str, id: String) -> (r: bool)
        requires
            old(self).wf(),
        ensures
            final(self).wf(),
            final(self).cap() == old(self).cap(),
            r == !old(self).log(feed@).contains(id@),
            final(self).log(feed@) == recorded(old(self).log(feed@), id@, old(self).cap()),
            forall|f: Seq<char>| f != feed@ ==> #[trigger] final(self).log(f) == old(self).log(f),
    {
        let key = String::from_str(feed);
        let ghost id_text = id@;
        match self.position(&key) {
            Some(i) => {
                proof {
                    self.lemma_log_at(i as int);
                }
                if holds(&self.entries[i].ids, &id) {
                    return false;
                }
                let ghost old_self = *self;
                let ghost old_log = texts(self.entries[i as int].ids@);
                let mut e = self.entries.remove(i);
                e.ids.push(id);
                assert(texts(e.ids@) =~= old_log.push(id_text));
                if e.ids.len() > self.capacity {
                    let ghost pushed = texts(e.ids@);
                    e.ids.remove(0);
                    assert(texts(e.ids@) =~= pushed.subrange(1, pushed.len() as int));
                }
                assert(texts(e.ids@) == window(old_log.push(id_text), self.capacity as nat));
                self.entries.insert(i, e);
                assert(self.entries@ =~= old_self.entries@.update(i as int, self.entries@[i as int]));
                proof {
                    self.lemma_update_keeps(old_self, i as int);
                }
                true
            },
            None => {
                let ghost old_self = *self;
                let mut ids: Vec<String> = Vec::new();
                ids.push(id);
                if ids.len() > self.capacity {
                    ids.remove(0);
                }
                assert(texts(ids@) =~= window(Seq::<Seq<char>>::empty().push(id_text), self.capacity as nat));
                self.entries.push(KnownFeed { name: key, ids });
                proof {
                    self.lemma_push_keeps(old_self);
                }
                true
            },
        }
    }

    /// The record as pairs of a feed name and its identities, oldest first.
    pub fn snapshot(&self) -> (r: Vec<(String, Vec<String>)>)
        ensures
            pairs_view(r@) == self.snapshot_view(),
    {
        let mut r: Vec<(String, Vec<String>)> = Vec::new();
        let mut i: usize = 0;
        while i < self.entries.len()
            invariant
                i <= self.entries.len(),
                r@.len() == i,
                pairs_view(r@) == self.snapshot_view().take(i as int),
            decreases self.entries.len() - i,
        {
            let e = &self.entries[i];
            let name = e.name.clone();
            let ids = copy_all(&e.ids);
            let ghost prev = r@;
            r.push((name, ids));
            assert(r@ == prev.push((name, ids)));
            assert(pairs_view(r@)[i as int] == (e.name@, texts(e.ids@)));
            assert(self.snapshot_view()[i as int] == (e.name@, texts(e.ids@)));
            assert(pairs_view(r@) =~= self.snapshot_view().take(i + 1)) by {
                assert forall|k: int| 0 <= k < i implies pairs_view(r@)[k] == pairs_view(prev)[k] by {
                    assert(r@[k] == prev[k]);
                }
            }
            i += 1;
        }
        assert(pairs_view(r@) =~= self.snapshot_view());
        r
    }

    /// A record built by recording, in order, the identities of each pair
    /// of `entries` under its feed name, with logs of at most `capacity`.
    pub fn restore(entries: &Vec<(String, Vec<String>)>, capacity: usize) -> (r: KnownItems)
        ensures
            r.wf(),
            r.cap() == capacity,
            forall|f: Seq<char>| #[trigger] r.log(f) == restored(pairs_view(entries@), f, capacity as nat),
    {
        let ghost all = pairs_view(entries@);
        let mut r = KnownItems::new(capacity);
        let mut j: usize = 0;
        while j < entries.len()
            invariant
                j <= entries.len(),
                all == pairs_view(entries@),
                r.wf(),
                r.cap() == capacity,
                forall|f: Seq<char>| #[trigger] r.log(f) == restored(all.take(j as int), f, capacity as nat),
            decreases entries.len() - j,
        {
            let name = &entries[j].0;
            let ids = &entries[j].1;
            r.add_feed(name.as_str());
            let ghost before = r;
            let ghost start = restored(all.take(j as int), name@, capacity as nat);
            let mut k: usize = 0;
            while k < ids.len()
                invariant
                    k <= ids.len(),
                    r.wf(),
                    r.cap() == capacity,
                    before.wf(),
                    start == before.log(name@),
                    r.log(name@) == replay(start, texts(ids@).take(k as int), capacity as nat),
                    forall|f: Seq<char>| f != name@ ==> #[trigger] r.log(f) == before.log(f),
                decreases ids.len() - k,
            {
                r.record(name.as_str(), ids[k].clone());
                assert(texts(ids@).take(k + 1).drop_last() =~= texts(ids@).take(k as int));
                k += 1;
            }
            assert(texts(ids@).take(k as int) =~= texts(ids@));
            assert(all.take(j + 1).drop_last() =~= all.take(j as int));
            assert(all.take(j + 1).last() == all[j as int]);
            assert forall|f: Seq<char>| #[trigger] r.log(f) == restored(all.take(j + 1), f, capacity as nat) by {
                if f != name@ {
                    assert(r.log(f) == before.log(f));
                }
            }
            j += 1;
        }
        assert(all.take(j as int) =~= all);
        r
    }

    /// The record as JSON text: an object from each feed name to its
    /// identities, oldest first.
    pub fn save_text(&self) -> (r: String)
        requires
            self.wf(),
        ensures
            r@ == snapshot_json(self.snapshot_view()),
    {
        let pairs = self.snapshot();
        proof {
            let sv = self.snapshot_view();
            assert forall|i: int, j: int| 0 <= i < j < sv.len() implies sv[i].0 != sv[j].0 by {
                assert(sv[i].0 == self.entries[i].name@);
                assert(sv[j].0 == self.entries[j].name@);
            }
        }
        encode_pairs(&pairs)
    }

    /// Loads a record saved as JSON text, with logs of at most `capacity`.
    /// Empty text gives an empty record; text that is not a list of pairs
    /// of a feed name and its identities is an error.
    pub fn load_text(text: &str, capacity: usize) -> (r: Result<KnownItems, CacheError>)
        ensures
            text@.len() == 0 ==> (r matches Ok(k) && k.wf() && k.cap() == capacity
                && forall|f: Seq<char>| #[trigger] k.log(f) == Seq::<Seq<char>>::empty()),
            text@.len() > 0 ==> match snapshot_of_json(text@) {
                None => r == Err::<KnownItems, CacheError>(CacheError::Malformed),
                Some(v) => (r matches Ok(k) && k.wf() && k.cap() == capacity
                    && forall|f: Seq<char>| #[trigger] k.log(f) == restored(v, f, capacity as nat)),
            },
    {
        if text.unicode_len() == 0 {
            return Ok(KnownItems::new(capacity));
        }
        match decode_pairs(text) {
            Some(pairs) => Ok(KnownItems::restore(&pairs, capacity)),
            None => Err(CacheError::Malformed),
        }
    }

    proof fn lemma_restored_prefix(&self, j: int, f: Seq<char>)
        requires
            self.wf(),
            0 <= j <= self.entries.len(),
        ensures
            restored(self.snapshot_view().take(j), f, self.cap()) == if exists|i: int|
                0 <= i < j && self.entries[i].name@ == f {
                self.log(f)
            } else {
                Seq::<Seq<char>>::empty()
            },
        decreases j,
    {
        let sv = self.snapshot_view();
        if j == 0 {
        } else {
            self.lemma_restored_prefix(j - 1, f);
            assert(sv.take(j).drop_last() =~= sv.take(j - 1));
            assert(sv.take(j).last() == sv[j - 1]);
            if self.entries[j - 1].name@ == f {
                assert(!exists|i: int| 0 <= i < j - 1 && self.entries[i].name@ == f) by {
                    if exists|i: int| 0 <= i < j - 1 && self.entries[i].name@ == f {
                        let i = choose|i: int| 0 <= i < j - 1 && self.entries[i].name@ == f;
                        assert(self.entries[i].name@ != self.entries[j - 1].name@);
                    }
                }
                self.lemma_log_at(j - 1);
                assert(texts(self.entries[j - 1].ids@).len() <= self.capacity);
                assert(Seq::<Seq<char>>::empty() + texts(self.entries[j - 1].ids@) =~= texts(self.entries[j - 1].ids@));
                lemma_replay_fresh(Seq::empty(), texts(self.entries[j - 1].ids@), self.cap());
            } else {
                assert((exists|i: int| 0 <= i < j && self.entries[i].name@ == f) == (exists|i: int|
                    0 <= i < j - 1 && self.entries[i].name@ == f));
            }
        }
    }

    /// Restoring the snapshot of a record gives back the log of every feed.
    pub proof fn lemma_restore_snapshot(&self)
        requires
            self.wf(),
        ensures
            forall|f: Seq<char>| #[trigger] restored(self.snapshot_view(), f, self.cap()) == self.log(f),
    {
        assert forall|f: Seq<char>| #[trigger] restored(self.snapshot_view(), f, self.cap()) == self.log(f) by {
            self.lemma_restored_prefix(self.entries.len() as int, f);
            assert(self.snapshot_view().take(self.entries.len() as int) =~= self.snapshot_view());
        }
    }

    proof fn lemma_update_keeps(&self, prev: KnownItems, i: int)
        requires
            prev.wf(),
            0 <= i < prev.entries.len(),
            self.capacity == prev.capacity,
            self.entries@ == prev.entries@.update(i, self.entries@[i]),
            self.entries@[i].name@ == prev.entries@[i].name@,
            texts(self.entries@[i].ids@).len() <= self.capacity,
            texts(self.entries@[i].ids@).no_duplicates(),
        ensures
            self.wf(),
            self.log(prev.entries@[i].name@) == texts(self.entries@[i].ids@),
            forall|f: Seq<char>|
                f != prev.entries@[i].name@ ==> #[trigger] self.log(f) == prev.log(f),
    {
        assert forall|a: int, b: int|
            0 <= a < b < self.entries.len() implies self.entries[a].name@
            != self.entries[b].name@ by {
            assert(prev.entries[a].name@ != prev.entries[b].name@);
        }
        assert forall|a: int| 0 <= a < self.entries.len() implies {
            &&& #[trigger] texts(self.entries[a].ids@).len() <= self.capacity
            &&& texts(self.entries[a].ids@).no_duplicates()
        } by {
            if a != i {
                assert(texts(prev.entries[a].ids@).len() <= prev.capacity);
            }
        }
        self.lemma_log_at(i);
        assert forall|f: Seq<char>| f != prev.entries@[i].name@ implies #[trigger] self.log(f)
            == prev.log(f) by {
            if prev.has_feed(f) {
                let j = choose|j: int| 0 <= j < prev.entries.len() && prev.entries[j].name@ == f;
                prev.lemma_log_at(j);
                self.lemma_log_at(j);
            } else {
                if self.has_feed(f) {
                    let j = choose|j: int| 0 <= j < self.entries.len() && self.entries[j].name@ == f;
                    assert(prev.entries[j].name@ == f);
                }
            }
        }
    }

    proof fn lemma_push_keeps(&self, prev: KnownItems)
        requires
            prev.wf(),
            self.capacity == prev.capacity,
            self.entries.len() == prev.entries.len() + 1,
            forall|j: int| 0 <= j < prev.entries.len() ==> self.entries@[j] == prev.entries@[j],
            !prev.has_feed(self.entries@.last().name@),
            texts(self.entries@.last().ids@).len() <= self.capacity,
            texts(self.entries@.last().ids@).no_duplicates(),
        ensures
            self.wf(),
            self.log(self.entries@.last().name@) == texts(self.entries@.last().ids@),
            forall|f: Seq<char>|
                f != self.entries@.last().name@ ==> #[trigger] self.log(f) == prev.log(f),
    {
        let n = prev.entries.len() as int;
        assert forall|a: int, b: int|
            0 <= a < b < self.entries.len() implies self.entries[a].name@
            != self.entries[b].name@ by {
            if b < n {
                assert(prev.entries[a].name@ != prev.entries[b].name@);
            } else {
                assert(prev.entries[a].name@ == self.entries[a].name@);
            }
        }
        assert forall|a: int| 0 <= a < self.entries.len() implies {
            &&& #[trigger] texts(self.entries[a].ids@).len() <= self.capacity
            &&& texts(self.entries[a].ids@).no_duplicates()
        } by {
            if a < n {
                assert(texts(prev.entries[a].ids@).len() <= prev.capacity);
            }
        }
        self.lemma_log_at(n);
        assert forall|f: Seq<char>| f != self.entries@.last().name@ implies #[trigger] self.log(f)
            == prev.log(f) by {
            if prev.has_feed(f) {
                let j = choose|j: int| 0 <= j < prev.entries.len() && prev.entries[j].name@ == f;
                prev.lemma_log_at(j);
                self.lemma_log_at(j);
            } else {
                if self.has_feed(f) {
                    let j = choose|j: int| 0 <= j < self.entries.len() && self.entries[j].name@ == f;
                    if j < n {
                        assert(prev.entries[j].name@ == f);
                    }
                }
            }
        }
    }
}

} // verus!
