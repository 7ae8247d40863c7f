//! The shared store: a mapping from key to value in which an entry may
//! carry a deadline, after which every reader treats it as absent.

use vstd::hash_map::StringHashMap;
use vstd::prelude::*;

verus! {

/// What the store keeps under a key.
#[derive(Debug, Clone)]
pub struct StoreEntry {
    pub value: Vec<u8>,
    /// The time, in milliseconds, from which the entry counts as absent.
    pub expires_at: Option<u64>,
}

/// The mathematical content of a [`StoreEntry`].
pub struct EntryView {
    pub value: Seq<u8>,
    pub expires_at: Option<u64>,
}

impl View for StoreEntry {
    type V = EntryView;

    open spec fn view(&self) -> EntryView {
        EntryView { value: self.value@, expires_at: self.expires_at }
    }
}

/// The content of a store: its entries by key.
pub type Entries = Map<Seq<char>, EntryView>;

/// Whether an entry can still be read at time `now`: it has no deadline, or
/// its deadline lies ahead.
pub open spec fn is_live(entry: EntryView, now: u64) -> bool {
    match entry.expires_at {
        Some(deadline) => now < deadline,
        None => true,
    }
}

/// What a reader finds under `key` at time `now`: the value of a live entry,
/// or nothing.
pub open spec fn lookup(entries: Entries, key: Seq<char>, now: u64) -> Option<Seq<u8>> {
    if entries.contains_key(key) && is_live(entries[key], now) {
        Some(entries[key].value)
    } else {
        None
    }
}

/// The entries after a write: the entry under `key` is replaced whole, value
/// and deadline.
pub open spec fn after_set(
    entries: Entries,
    key: Seq<char>,
    value: Seq<u8>,
    expires_at: Option<u64>,
) -> Entries {
    entries.insert(key, EntryView { value, expires_at })
}

/// The entries after a read of `key` at time `now`: an entry found past its
/// deadline is dropped, nothing else changes.
pub open spec fn after_get(entries: Entries, key: Seq<char>, now: u64) -> Entries {
    if entries.contains_key(key) && !is_live(entries[key], now) {
        entries.remove(key)
    } else {
        entries
    }
}

/// The entries after the deletion that was scheduled for `key` with
/// `deadline` runs at time `now`: the entry leaves only if it still carries
/// that very deadline and the deadline has been reached.
pub open spec fn after_expire(entries: Entries, key: Seq<char>, deadline: u64, now: u64) -> Entries {
    if entries.contains_key(key) && entries[key].expires_at == Some(deadline) && deadline <= now {
        entries.remove(key)
    } else {
        entries
    }
}

/// The store. One value of this type is shared by all connections, behind
/// whatever lock the caller uses: every method needs exclusive or shared
/// access as its receiver says.
pub struct Store {
    entries: StringHashMap<StoreEntry>,
}

impl View for Store {
    type V = Entries;

    closed spec fn view(&self) -> Entries {
        Map::new(|key: Seq<char>| self.entries@.contains_key(key), |key: Seq<char>| self.entries@[key]@)
    }
}

impl Store {
    /// An empty store.
    pub fn new() -> (store: Store)
        ensures
            store@ == Map::<Seq<char>, EntryView>::empty(),
    {
        let store = Store { entries: StringHashMap::new() };
        assert(store@ =~= Map::<Seq<char>, EntryView>::empty());
        store
    }

    /// Writes `value` under `key`, with the deadline given or with none. An
    /// entry that was there is replaced whole.
    pub fn set(&mut self, key: String, value: Vec<u8>, expires_at: Option<u64>)
        ensures
            final(self)@ == after_set(old(self)@, key@, value@, expires_at),
    {
        self.entries.insert(key, StoreEntry { value, expires_at });
        assert(self@ =~= after_set(old(self)@, key@, value@, expires_at));
    }

    /// Reads the value under `key` at time `now`. An entry past its deadline
    /// is reported as absent and removed.
    pub fn get(&mut self, key: &str, now: u64) -> (value: Option<Vec<u8>>)
        ensures
            final(self)@ == after_get(old(self)@, key@, now),
            match value {
                Some(bytes) => lookup(old(self)@, key@, now) == Some(bytes@),
                None => lookup(old(self)@, key@, now) is None,
            },
    {
        let live: Option<Vec<u8>> = match self.entries.get(key) {
            None => {
                return None;
            },
            Some(entry) => {
                let live: bool = match entry.expires_at {
                    Some(deadline) => now < deadline,
                    None => true,
                };
                if live {
                    Some(entry.value.clone())
                } else {
                    None
                }
            },
        };
        if live.is_none() {
            self.entries.remove(key);
            assert(self@ =~= after_get(old(self)@, key@, now));
        }
        live
    }

    /// Runs the deletion that was scheduled when `key` was written with
    /// `deadline`. It removes the entry only if that entry is still the one
    /// it was scheduled for, and only once the deadline has been reached: an
    /// entry that was written again since then stays.
    pub fn expire_key(&mut self, key: &str, deadline: u64, now: u64)
        ensures
            final(self)@ == after_expire(old(self)@, key@, deadline, now),
    {
        let due: bool = match self.entries.get(key) {
            None => false,
            Some(entry) => match entry.expires_at {
                Some(current) => current == deadline && deadline <= now,
                None => false,
            },
        };
        if due {
            self.entries.remove(key);
            assert(self@ =~= after_expire(old(self)@, key@, deadline, now));
        }
    }
}

/// The entries after the writes in `writes`, each a key and a value without
/// deadline, were made one after the other.
pub open spec fn after_writes(entries: Entries, writes: Seq<(Seq<char>, Seq<u8>)>) -> Entries
    decreases writes.len(),
{
    if writes.len() == 0 {
        entries
    } else {
        after_set(after_writes(entries, writes.drop_last()), writes.last().0, writes.last().1, None)
    }
}

/// What was written under a key is what a reader finds there, as long as
/// the deadline that it was written with, if any, lies ahead; from the
/// deadline on the reader finds nothing.
pub proof fn lemma_read_after_write(
    entries: Entries,
    key: Seq<char>,
    value: Seq<u8>,
    expires_at: Option<u64>,
    now: u64,
)
    ensures
        lookup(after_set(entries, key, value, expires_at), key, now) == (if is_live(
            EntryView { value, expires_at },
            now,
        ) {
            Some(value)
        } else {
            None
        }),
{
}

/// A write under one key changes nothing of what a reader finds under another.
pub proof fn lemma_write_keeps_other_keys(
    entries: Entries,
    key: Seq<char>,
    value: Seq<u8>,
    expires_at: Option<u64>,
    other: Seq<char>,
    now: u64,
)
    requires
        other != key,
    ensures
        lookup(after_set(entries, key, value, expires_at), other, now) == lookup(
            entries,
            other,
            now,
        ),
{
}

/// A read drops only what no reader could find any more: at the time of the
/// read and at any later time, every key reads as it would have.
pub proof fn lemma_read_changes_no_answer(
    entries: Entries,
    key: Seq<char>,
    now: u64,
    other: Seq<char>,
    later: u64,
)
    requires
        now <= later,
    ensures
        lookup(after_get(entries, key, now), other, later) == lookup(entries, other, later),
{
}

/// A scheduled deletion drops only what no reader could find any more:
/// whenever it runs and whatever it was scheduled for, every key reads from
/// then on as it would have. It never takes away a value that is still live.
pub proof fn lemma_expire_changes_no_answer(
    entries: Entries,
    key: Seq<char>,
    deadline: u64,
    now: u64,
    other: Seq<char>,
    later: u64,
)
    requires
        now <= later,
    ensures
        lookup(after_expire(entries, key, deadline, now), other, later) == lookup(
            entries,
            other,
            later,
        ),
{
}

/// A scheduled deletion leaves alone an entry that was written again since
/// with another deadline or with none.
pub proof fn lemma_expire_spares_rewritten_entry(
    entries: Entries,
    key: Seq<char>,
    value: Seq<u8>,
    expires_at: Option<u64>,
    deadline: u64,
    now: u64,
)
    requires
        expires_at != Some(deadline),
    ensures
        after_expire(after_set(entries, key, value, expires_at), key, deadline, now) == after_set(
            entries,
            key,
            value,
            expires_at,
        ),
{
}

/// Writes under keys that differ from one another do not disturb each
/// other: in whatever order they were made, each value is found under its
/// key afterwards.
pub proof fn lemma_distinct_writes_are_all_visible(
    entries: Entries,
    writes: Seq<(Seq<char>, Seq<u8>)>,
    index: int,
    now: u64,
)
    requires
        0 <= index < writes.len(),
        forall|i: int, j: int|
            0 <= i < j < writes.len() ==> (#[trigger] writes[i]).0 != (#[trigger] writes[j]).0,
    ensures
        lookup(after_writes(entries, writes), writes[index].0, now) == Some(writes[index].1),
    decreases writes.len(),
{
    let earlier = writes.drop_last();
    if index < writes.len() - 1 {
        assert(earlier[index] == writes[index]);
        assert forall|i: int, j: int| 0 <= i < j < earlier.len() implies (#[trigger] earlier[i]).0
            != (#[trigger] earlier[j]).0 by {
            assert(earlier[i] == writes[i]);
            assert(earlier[j] == writes[j]);
        }
        lemma_distinct_writes_are_all_visible(entries, earlier, index, now);
        assert(writes[index].0 != writes[writes.len() - 1].0);
    }
}

} // verus!
