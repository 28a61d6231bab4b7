use vstd::prelude::*;

use crate::codec::{decode_fields, decode_spec, encode_fields, encode_spec, lemma_decode_encode};
use crate::fold::{fold_identity, lower_of};
use crate::text::str_eq;

verus! {

// ---------------------------------------------------------------------------
// Records
// ---------------------------------------------------------------------------

/// One stored profile: a case-folded identity key and a free-text
/// description.
pub struct ProfileRecord {
    pub key: String,
    pub description: String,
}

impl ProfileRecord {
    /// Builds the record for an identity: the key is the folded identity,
    /// so lookups through the folded key are case-insensitive.
    pub fn new(identity: &str, description: &str) -> (r: ProfileRecord)
        ensures
            r.key@ == lower_of(identity@),
            r.description@ == description@,
    {
        ProfileRecord { key: fold_identity(identity), description: description.to_owned() }
    }
}

/// What can go wrong at the store: a record that cannot be read — absent and
/// corrupt entries are deliberately not told apart — or a write that the
/// backing medium refused.
#[derive(Debug)]
pub enum StoreError {
    Read,
    Write,
}

// ---------------------------------------------------------------------------
// The keyed store
// ---------------------------------------------------------------------------

/// The backing entries as a map from key to stored text.
spec fn map_of(entries: Seq<(String, String)>) -> Map<Seq<char>, Seq<char>>
    decreases entries.len(),
{
    if entries.len() == 0 {
        Map::empty()
    } else {
        map_of(entries.drop_last()).insert(entries.last().0@, entries.last().1@)
    }
}

/// One entry per key.
spec fn unique_keys(entries: Seq<(String, String)>) -> bool {
    forall|i: int, j: int|
        0 <= i < j < entries.len() ==> entries[i].0@ != entries[j].0@
}

/// A key stands in the map exactly when an entry holds it.
proof fn lemma_map_of_contains(entries: Seq<(String, String)>)
    ensures
        forall|k: Seq<char>|
            map_of(entries).contains_key(k) <==> (exists|i: int|
                0 <= i < entries.len() && entries[i].0@ == k),
    decreases entries.len(),
{
    if entries.len() > 0 {
        lemma_map_of_contains(entries.drop_last());
        assert forall|k: Seq<char>| map_of(entries).contains_key(k) implies (exists|i: int|
            0 <= i < entries.len() && entries[i].0@ == k) by {
            if k == entries.last().0@ {
                assert(entries[entries.len() - 1].0@ == k);
            } else {
                assert(map_of(entries) == map_of(entries.drop_last()).insert(
                    entries.last().0@,
                    entries.last().1@,
                ));
                assert(map_of(entries.drop_last()).contains_key(k));
                let i = choose|i: int|
                    0 <= i < entries.drop_last().len() && entries.drop_last()[i].0@ == k;
                assert(entries.drop_last()[i] == entries[i]);
                assert(entries[i].0@ == k);
            }
        }
        assert forall|k: Seq<char>|
            (exists|i: int| 0 <= i < entries.len() && entries[i].0@ == k) implies map_of(
            entries,
        ).contains_key(k) by {
            let i = choose|i: int| 0 <= i < entries.len() && entries[i].0@ == k;
            if i < entries.len() - 1 {
                assert(entries.drop_last()[i].0@ == k);
            }
        }
    }
}

/// With unique keys, the map holds each entry's text under its key.
proof fn lemma_map_of_at(entries: Seq<(String, String)>, i: int)
    requires
        unique_keys(entries),
        0 <= i < entries.len(),
    ensures
        map_of(entries).contains_key(entries[i].0@),
        map_of(entries)[entries[i].0@] == entries[i].1@,
    decreases entries.len(),
{
    if i == entries.len() - 1 {
    } else {
        assert(unique_keys(entries.drop_last()));
        assert(entries.drop_last()[i] == entries[i]);
        lemma_map_of_at(entries.drop_last(), i);
        assert(entries.last().0@ != entries[i].0@);
    }
}

/// Replacing the text of the entry that holds a key is an insert on the map.
proof fn lemma_map_of_update(entries: Seq<(String, String)>, i: int, p: (String, String))
    requires
        unique_keys(entries),
        0 <= i < entries.len(),
        entries[i].0@ == p.0@,
    ensures
        map_of(entries.update(i, p)) == map_of(entries).insert(p.0@, p.1@),
    decreases entries.len(),
{
    let upd = entries.update(i, p);
    if i == entries.len() - 1 {
        assert(upd.drop_last() =~= entries.drop_last());
        assert(upd.last() == p);
        assert(map_of(upd) == map_of(entries.drop_last()).insert(p.0@, p.1@));
        assert(map_of(entries.drop_last()).insert(p.0@, p.1@) =~= map_of(entries).insert(
            p.0@,
            p.1@,
        ));
    } else {
        assert(unique_keys(entries.drop_last()));
        assert(entries.drop_last()[i] == entries[i]);
        lemma_map_of_update(entries.drop_last(), i, p);
        assert(upd.drop_last() =~= entries.drop_last().update(i, p));
        assert(upd.last() == entries.last());
        assert(entries.last().0@ != p.0@);
        assert(map_of(upd) == map_of(entries.drop_last()).insert(p.0@, p.1@).insert(
            entries.last().0@,
            entries.last().1@,
        ));
        assert(map_of(entries.drop_last()).insert(p.0@, p.1@).insert(
            entries.last().0@,
            entries.last().1@,
        ) =~= map_of(entries).insert(p.0@, p.1@));
    }
}

/// Appending an entry with a fresh key is an insert on the map.
proof fn lemma_map_of_push(entries: Seq<(String, String)>, p: (String, String))
    ensures
        map_of(entries.push(p)) == map_of(entries).insert(p.0@, p.1@),
{
    assert(entries.push(p).drop_last() =~= entries);
    assert(entries.push(p).last() == p);
}

/// A flat keyed store of serialized records, as a chat bot keeps them: one
/// backing entry of structured text per key.  A store can be marked as
/// refusing writes, standing for a backing medium that fails them.
pub struct Store {
    entries: Vec<(String, String)>,
    refuse_writes: bool,
}

/// What a read of `key` yields from backing entries `contents`: the key and
/// description of the decoded entry, or nothing when the entry is absent or
/// corrupt.
pub open spec fn load_model(contents: Map<Seq<char>, Seq<char>>, key: Seq<char>) -> Option<
    (Seq<char>, Seq<char>),
> {
    if contents.contains_key(key) {
        decode_spec(contents[key])
    } else {
        None
    }
}

impl Store {
    /// The backing entries: stored text by key.
    pub closed spec fn contents(self) -> Map<Seq<char>, Seq<char>> {
        map_of(self.entries@)
    }

    /// True of a store whose backing medium refuses writes.
    pub closed spec fn writes_fail(self) -> bool {
        self.refuse_writes
    }

    /// The store holds one entry per key.
    pub closed spec fn wf(self) -> bool {
        unique_keys(self.entries@)
    }

    /// An empty store that accepts writes.
    pub fn new() -> (r: Store)
        ensures
            r.wf(),
            !r.writes_fail(),
            r.contents() == Map::<Seq<char>, Seq<char>>::empty(),
    {
        Store { entries: Vec::new(), refuse_writes: false }
    }

    /// An empty store whose backing medium refuses every write.  It lets a
    /// caller exercise the write-failure path without a failing medium.
    pub fn new_failing() -> (r: Store)
        ensures
            r.wf(),
            r.writes_fail(),
            r.contents() == Map::<Seq<char>, Seq<char>>::empty(),
    {
        Store { entries: Vec::new(), refuse_writes: true }
    }

    /// The index of the entry holding `key`, if one does.
    fn find_index(&self, key: &str) -> (r: Option<usize>)
        ensures
            match r {
                Some(i) => i < self.entries@.len() && self.entries@[i as int].0@ == key@,
                None => forall|i: int|
                    0 <= i < self.entries@.len() ==> self.entries@[i].0@ != key@,
            },
    {
        let n = self.entries.len();
        let mut i: usize = 0;
        while i < n
            invariant
                n == self.entries@.len(),
                0 <= i <= n,
                forall|j: int| 0 <= j < i ==> self.entries@[j].0@ != key@,
            decreases n - i,
        {
            if str_eq(self.entries[i].0.as_str(), key) {
                return Some(i);
            }
            i = i + 1;
        }
        None
    }

    /// Serializes the record and writes it durably under its key,
    /// overwriting any entry the key already had; a refusing medium fails
    /// the write and leaves every entry unchanged.
    pub fn save(&mut self, record: &ProfileRecord) -> (r: Result<(), StoreError>)
        requires
            old(self).wf(),
        ensures
            final(self).wf(),
            final(self).writes_fail() == old(self).writes_fail(),
            old(self).writes_fail() ==> r == Result::<(), StoreError>::Err(StoreError::Write)
                && final(self).contents() == old(self).contents(),
            !old(self).writes_fail() ==> r == Result::<(), StoreError>::Ok(())
                && final(self).contents() == old(self).contents().insert(
                record.key@,
                encode_spec(record.key@, record.description@),
            ),
    {
        if self.refuse_writes {
            return Err(StoreError::Write);
        }
        let text = encode_fields(record.key.as_str(), record.description.as_str());
        let key = record.key.clone();
        match self.find_index(record.key.as_str()) {
            Some(i) => {
                proof {
                    lemma_map_of_update(self.entries@, i as int, (key, text));
                }
                self.entries[i] = (key, text);
                proof {
                    assert(final(self).wf()) by {
                        assert(forall|p: int, q: int|
                            0 <= p < q < self.entries@.len() ==> self.entries@[p].0@
                                != self.entries@[q].0@);
                    }
                }
            },
            None => {
                proof {
                    lemma_map_of_push(self.entries@, (key, text));
                }
                self.entries.push((key, text));
            },
        }
        Ok(())
    }

    /// Looks the key's entry up and deserializes it; an absent entry and a
    /// corrupt one surface as the same read error.
    pub fn load(&self, key: &str) -> (r: Result<ProfileRecord, StoreError>)
        requires
            self.wf(),
        ensures
            match load_model(self.contents(), key@) {
                Some(kd) => r matches Ok(rec) && rec.key@ == kd.0 && rec.description@ == kd.1,
                None => r == Result::<ProfileRecord, StoreError>::Err(StoreError::Read),
            },
    {
        proof {
            lemma_map_of_contains(self.entries@);
        }
        match self.find_index(key) {
            None => Err(StoreError::Read),
            Some(i) => {
                proof {
                    lemma_map_of_at(self.entries@, i as int);
                }
                match decode_fields(self.entries[i].1.as_str()) {
                    None => Err(StoreError::Read),
                    Some((k, d)) => Ok(ProfileRecord { key: k, description: d }),
                }
            },
        }
    }

    /// Places a raw backing entry, bypassing serialization: what a loader
    /// or a corrupted medium may leave behind the store's back.
    pub fn insert_raw(&mut self, key: &str, text: &str)
        requires
            old(self).wf(),
        ensures
            final(self).wf(),
            final(self).writes_fail() == old(self).writes_fail(),
            final(self).contents() == old(self).contents().insert(key@, text@),
    {
        let pair = (key.to_owned(), text.to_owned());
        match self.find_index(key) {
            Some(i) => {
                proof {
                    lemma_map_of_update(self.entries@, i as int, pair);
                }
                self.entries[i] = pair;
                proof {
                    assert(final(self).wf()) by {
                        assert(forall|p: int, q: int|
                            0 <= p < q < self.entries@.len() ==> self.entries@[p].0@
                                != self.entries@[q].0@);
                    }
                }
            },
            None => {
                proof {
                    lemma_map_of_push(self.entries@, pair);
                }
                self.entries.push(pair);
            },
        }
    }

    /// The raw backing entry a key holds, if any.
    pub fn raw_entry(&self, key: &str) -> (r: Option<&String>)
        requires
            self.wf(),
        ensures
            match r {
                Some(t) => self.contents().contains_key(key@) && t@ == self.contents()[key@],
                None => !self.contents().contains_key(key@),
            },
    {
        proof {
            lemma_map_of_contains(self.entries@);
        }
        match self.find_index(key) {
            None => None,
            Some(i) => {
                proof {
                    lemma_map_of_at(self.entries@, i as int);
                }
                Some(&self.entries[i].1)
            },
        }
    }
}

// ---------------------------------------------------------------------------
// The round trip
// ---------------------------------------------------------------------------

/// A record saved under a key is read back whole from that key: writing
/// `encode_spec(k, d)` under `k` makes a later read of `k` yield `(k, d)`.
pub proof fn lemma_store_round_trip(
    contents: Map<Seq<char>, Seq<char>>,
    k: Seq<char>,
    d: Seq<char>,
)
    ensures
        load_model(contents.insert(k, encode_spec(k, d)), k) == Some((k, d)),
{
    lemma_decode_encode(k, d);
}

} // verus!
