//! The keyed store: values with an optional time to live, removed when a
//! lookup finds them dead.

use vstd::prelude::*;
use vstd::string::*;
use crate::clock::{elapsed_millis, is_instant, millis_between, now, Timestamp};
use crate::resp::text::str_eq;

verus! {

/// What the store holds under a key.
struct Record {
    value: String,
    timestamp: Timestamp,
    expire_in_millisecs: Option<usize>,
}

/// The mathematical content of a record.
pub struct RecordView {
    pub value: Seq<char>,
    /// When the record was written, in nanoseconds since the Unix epoch.
    pub created: int,
    /// The time to live in milliseconds; `None` for a record that never dies.
    pub expiry: Option<usize>,
}

impl View for Record {
    type V = RecordView;

    closed spec fn view(&self) -> RecordView {
        RecordView {
            value: self.value@,
            created: self.timestamp@,
            expiry: self.expire_in_millisecs,
        }
    }
}

/// A key and what is held under it.
struct Entry {
    key: String,
    record: Record,
}

/// Whether a record is dead at the time `now`: it has a time to live, and
/// more whole milliseconds than that have passed since it was written.
pub open spec fn is_expired(record: RecordView, now: int) -> bool {
    record.expiry matches Some(millis) && elapsed_millis(record.created, now) > millis
}

/// The store after `key` was set at the time `now`.
pub open spec fn store_set(
    store: Map<Seq<char>, RecordView>,
    key: Seq<char>,
    value: Seq<char>,
    expiry: Option<usize>,
    now: int,
) -> Map<Seq<char>, RecordView> {
    store.insert(key, RecordView { value, created: now, expiry })
}

/// The store after a lookup of `key` at the time `now`, and what the lookup
/// gives: a dead record leaves the store and gives nothing.
pub open spec fn store_get(store: Map<Seq<char>, RecordView>, key: Seq<char>, now: int) -> (
    Map<Seq<char>, RecordView>,
    Option<Seq<char>>,
) {
    if !store.dom().contains(key) {
        (store, None)
    } else if is_expired(store[key], now) {
        (store.remove(key), None)
    } else {
        (store, Some(store[key].value))
    }
}

/// The text of an optional string.
pub open spec fn text_view(s: Option<String>) -> Option<Seq<char>> {
    match s {
        Some(text) => Some(text@),
        None => None,
    }
}

/// Whether some entry has the key `key`.
spec fn holds(entries: Seq<Entry>, key: Seq<char>) -> bool {
    exists|i: int| 0 <= i < entries.len() && #[trigger] entries[i].key@ == key
}

/// The place of an entry with the key `key`.
spec fn index_of(entries: Seq<Entry>, key: Seq<char>) -> int {
    choose|i: int| 0 <= i < entries.len() && #[trigger] entries[i].key@ == key
}

/// Whether no two entries share a key.
spec fn distinct_keys(entries: Seq<Entry>) -> bool {
    forall|i: int, j: int|
        0 <= i < j < entries.len() ==> (#[trigger] entries[i]).key@ != (#[trigger] entries[j]).key@
}

/// The map that a list of entries stands for.
spec fn content(entries: Seq<Entry>) -> Map<Seq<char>, RecordView> {
    Map::new(
        |key: Seq<char>| holds(entries, key),
        |key: Seq<char>| entries[index_of(entries, key)].record@,
    )
}

/// With distinct keys, each entry is what the map holds under its key.
proof fn lemma_content_at(entries: Seq<Entry>, i: int)
    requires
        distinct_keys(entries),
        0 <= i < entries.len(),
    ensures
        content(entries).dom().contains(entries[i].key@),
        content(entries)[entries[i].key@] == entries[i].record@,
        index_of(entries, entries[i].key@) == i,
{
}

/// The keyed store.
pub struct Store {
    inner: Vec<Entry>,
}

impl View for Store {
    type V = Map<Seq<char>, RecordView>;

    closed spec fn view(&self) -> Map<Seq<char>, RecordView> {
        content(self.inner@)
    }
}

impl Store {
    /// No key occurs twice among the entries.
    #[verifier::type_invariant]
    spec fn no_key_twice(self) -> bool {
        distinct_keys(self.inner@)
    }

    /// The empty store.
    pub fn new() -> (store: Self)
        ensures
            store@ == Map::<Seq<char>, RecordView>::empty(),
    {
        let store = Store { inner: Vec::new() };
        store
    }

    /// The place of the entry with the key `key`, if there is one.
    fn find(&self, key: &str) -> (found: Option<usize>)
        ensures
            match found {
                Some(i) => i < self.inner@.len() && self.inner@[i as int].key@ == key@,
                None => !holds(self.inner@, key@),
            },
    {
        let mut i: usize = 0;
        while i < self.inner.len()
            invariant
                i <= self.inner@.len(),
                forall|k: int| 0 <= k < i ==> (#[trigger] self.inner@[k]).key@ != key@,
            decreases self.inner@.len() - i,
        {
            if str_eq(self.inner[i].key.as_str(), key) {
                return Some(i);
            }
            i += 1;
        }
        None
    }

    /// Writes `v` under `k` as of the time `now`, replacing what was there.
    pub fn set_at(&mut self, k: &str, v: &str, expire_in_millisecs: Option<usize>, now: Timestamp)
        ensures
            final(self)@ == store_set(old(self)@, k@, v@, expire_in_millisecs, now@),
    {
        proof {
            use_type_invariant(&*self);
        }
        let ghost before = self.inner@;
        let entry = Entry {
            key: String::from_str(k),
            record: Record { value: String::from_str(v), timestamp: now, expire_in_millisecs },
        };
        let found = self.find(k);
        let mut entries: Vec<Entry> = Vec::new();
        std::mem::swap(&mut self.inner, &mut entries);
        match found {
            Some(i) => {
                entries.set(i, entry);
            },
            None => {
                entries.push(entry);
            },
        }
        self.inner = entries;
        proof {
            let after = self.inner@;
            let wanted = store_set(content(before), k@, v@, expire_in_millisecs, now@);
            let place = match found {
                Some(i) => i as int,
                None => before.len() as int,
            };
            assert(after[place].key@ == k@);
            assert forall|key: Seq<char>| #[trigger]
                content(after).dom().contains(key) == wanted.dom().contains(key) by {
                if holds(before, key) {
                    let j = index_of(before, key);
                    assert(after[j].key@ == key);
                }
            }
            assert forall|key: Seq<char>| #[trigger]
                content(after).dom().contains(key) implies content(after)[key] == wanted[key] by {
                let j = index_of(after, key);
                lemma_content_at(after, j);
                if key != k@ {
                    lemma_content_at(before, j);
                }
            }
        }
    }

    /// Looks `s` up as of the time `now`. A record that is dead by then is
    /// removed and gives nothing.
    pub fn get_at(&mut self, s: &str, now: Timestamp) -> (value: Option<String>)
        ensures
            (final(self)@, text_view(value)) == store_get(old(self)@, s@, now@),
    {
        proof {
            use_type_invariant(&*self);
        }
        let ghost before = self.inner@;
        match self.find(s) {
            None => None,
            Some(i) => {
                proof {
                    lemma_content_at(before, i as int);
                }
                let dead = match self.inner[i].record.expire_in_millisecs {
                    None => false,
                    Some(millis) => {
                        let passed = millis_between(self.inner[i].record.timestamp, now);
                        passed > 0 && passed as u64 > millis as u64
                    },
                };
                if dead {
                    let mut entries: Vec<Entry> = Vec::new();
                    std::mem::swap(&mut self.inner, &mut entries);
                    entries.remove(i);
                    self.inner = entries;
                    proof {
                        let after = self.inner@;
                        let wanted = content(before).remove(s@);
                        assert forall|key: Seq<char>| #[trigger]
                            content(after).dom().contains(key) == wanted.dom().contains(key) by {
                            if holds(before, key) && key != s@ {
                                let j = index_of(before, key);
                                if j < i {
                                    assert(after[j].key@ == key);
                                } else {
                                    assert(after[j - 1].key@ == key);
                                }
                            }
                        }
                        assert forall|key: Seq<char>| #[trigger]
                            content(after).dom().contains(key) implies content(after)[key]
                            == wanted[key] by {
                            let j = index_of(after, key);
                            lemma_content_at(after, j);
                            if j < i {
                                lemma_content_at(before, j);
                            } else {
                                lemma_content_at(before, j + 1);
                            }
                        }
                    }
                    None
                } else {
                    Some(self.inner[i].record.value.clone())
                }
            },
        }
    }

    /// Writes `v` under `k` as of now, by the wall clock.
    ///
    /// The record is stamped with whatever the clock reads; the rest of the
    /// store is left as it was.
    pub fn set(&mut self, k: &str, v: &str, expire_in_millisecs: Option<usize>)
        ensures
            final(self)@.dom().contains(k@),
            is_instant(final(self)@[k@].created),
            final(self)@ == store_set(
                old(self)@,
                k@,
                v@,
                expire_in_millisecs,
                final(self)@[k@].created,
            ),
    {
        let time = now();
        proof {
            time.lemma_is_instant();
        }
        self.set_at(k, v, expire_in_millisecs, time);
    }

    /// Looks `s` up as of now, by the wall clock: the outcome is that of
    /// `get_at` for whatever the clock reads.
    pub fn get(&mut self, s: &str) -> (value: Option<String>)
        ensures
            exists|now: int|
                is_instant(now) && #[trigger] store_get(old(self)@, s@, now) == (
                    final(self)@,
                    text_view(value),
                ),
    {
        let time = now();
        let value = self.get_at(s, time);
        proof {
            time.lemma_is_instant();
        }
        value
    }
}

/// A record written without a time to live is found by a lookup at any
/// time, and the lookup leaves the store as it was.
pub proof fn law_record_without_expiry_stays(
    store: Map<Seq<char>, RecordView>,
    key: Seq<char>,
    value: Seq<char>,
    written: int,
    read: int,
)
    ensures
        store_get(store_set(store, key, value, None, written), key, read) == (
            store_set(store, key, value, None, written),
            Some(value),
        ),
{
}

/// A record written with a time to live is found by a lookup at the very
/// time of writing.
pub proof fn law_record_is_found_at_once(
    store: Map<Seq<char>, RecordView>,
    key: Seq<char>,
    value: Seq<char>,
    millis: usize,
    written: int,
)
    ensures
        store_get(store_set(store, key, value, Some(millis), written), key, written) == (
            store_set(store, key, value, Some(millis), written),
            Some(value),
        ),
{
}

/// A record is still found when exactly its time to live has passed, and
/// at any time before that: only more whole milliseconds than the time to
/// live make it dead.
pub proof fn law_record_lives_through_its_expiry(
    store: Map<Seq<char>, RecordView>,
    key: Seq<char>,
    value: Seq<char>,
    millis: usize,
    written: int,
    read: int,
)
    requires
        elapsed_millis(written, read) <= millis,
    ensures
        store_get(store_set(store, key, value, Some(millis), written), key, read) == (
            store_set(store, key, value, Some(millis), written),
            Some(value),
        ),
{
}

/// Once more than its time to live has passed, a lookup gives nothing and
/// takes the record out of the store: the key is absent afterwards, and
/// every later lookup gives nothing, whatever the time.
pub proof fn law_dead_record_is_removed(
    store: Map<Seq<char>, RecordView>,
    key: Seq<char>,
    value: Seq<char>,
    millis: usize,
    written: int,
    read: int,
    again: int,
)
    requires
        elapsed_millis(written, read) > millis,
    ensures
        ({
            let (after, found) = store_get(
                store_set(store, key, value, Some(millis), written),
                key,
                read,
            );
            &&& found is None
            &&& after == store.remove(key)
            &&& !after.dom().contains(key)
            &&& store_get(after, key, again) == (after, None::<Seq<char>>)
        }),
{
    let set = store_set(store, key, value, Some(millis), written);
}

/// A lookup of one key, and a write under it, leave every other key's
/// record as it was.
pub proof fn law_other_keys_are_untouched(
    store: Map<Seq<char>, RecordView>,
    key: Seq<char>,
    other: Seq<char>,
    value: Seq<char>,
    expiry: Option<usize>,
    now: int,
)
    requires
        key != other,
    ensures
        store_set(store, key, value, expiry, now).dom().contains(other) == store.dom().contains(
            other,
        ),
        store_get(store, key, now).0.dom().contains(other) == store.dom().contains(other),
        store.dom().contains(other) ==> store_set(store, key, value, expiry, now)[other]
            == store[other] && store_get(store, key, now).0[other] == store[other],
{
}

} // verus!
