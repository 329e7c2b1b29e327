//! Statistics: entries of named values, and reports of entries.
use vstd::prelude::*;
use vstd::string::*;

use crate::text;

verus! {

/// A value of a statistic, as JSON.
#[verifier::external_type_specification]
#[verifier::external_body]
pub struct ExValue(serde_json::Value);

/// The name of an entry.
#[derive(Debug, Clone, PartialEq, Eq, PartialOrd, Ord)]
pub struct StatsId(String);

impl View for StatsId {
    type V = Seq<char>;

    closed spec fn view(&self) -> Seq<char> {
        self.0@
    }
}

impl StatsId {
    pub fn new(value: String) -> (r: Self)
        ensures
            r@ == value@,
    {
        StatsId(value)
    }

    /// The text of the name.
    pub fn as_str(&self) -> (r: &str)
        ensures
            r@ == self@,
    {
        self.0.as_str()
    }
}

/// What an entry is about.
#[derive(Debug, Clone, PartialEq, Eq)]
pub enum StatsKind {
    InboundRtp,
    OutboundRtp,
    RemoteInboundRtp,
    RemoteOutboundRtp,
    Transport,
    IceCandidatePair,
    DataChannel,
    MediaSource,
    MediaSink,
    Custom(String),
}

/// Named values at one time, in nanoseconds since the epoch of the clock.
#[derive(Debug, Clone)]
pub struct StatsEntry {
    pub id: StatsId,
    pub kind: StatsKind,
    pub timestamp: u64,
    pub values: Vec<(String, serde_json::Value)>,
}

/// The values in a list, by name; the last one of a name counts.
pub open spec fn value_map(list: Seq<(String, serde_json::Value)>) -> Map<
    Seq<char>,
    serde_json::Value,
>
    decreases list.len(),
{
    if list.len() == 0 {
        Map::empty()
    } else {
        value_map(list.drop_last()).insert(list.last().0@, list.last().1)
    }
}

proof fn lemma_replaced(list: Seq<(String, serde_json::Value)>, i: int, item: (String, serde_json::Value))
    requires
        0 <= i < list.len(),
        list[i].0@ == item.0@,
        forall|j: int| i < j < list.len() ==> (#[trigger] list[j]).0@ != item.0@,
    ensures
        value_map(list.update(i, item)) == value_map(list).insert(item.0@, item.1),
    decreases list.len(),
{
    let new = list.update(i, item);
    if i == list.len() - 1 {
        assert(new.drop_last() =~= list.drop_last());
        assert(value_map(new) =~= value_map(list).insert(item.0@, item.1));
    } else {
        let init = list.drop_last();
        assert(new.drop_last() =~= init.update(i, item));
        assert forall|j: int| i < j < init.len() implies (#[trigger] init[j]).0@ != item.0@ by {
            assert(init[j] == list[j]);
        }
        lemma_replaced(init, i, item);
        assert(list[list.len() - 1].0@ != item.0@);
        assert(value_map(new) =~= value_map(list).insert(item.0@, item.1));
    }
}

proof fn lemma_absent(list: Seq<(String, serde_json::Value)>, key: Seq<char>)
    requires
        forall|j: int| 0 <= j < list.len() ==> (#[trigger] list[j]).0@ != key,
    ensures
        !value_map(list).contains_key(key),
    decreases list.len(),
{
    if list.len() > 0 {
        let init = list.drop_last();
        assert forall|j: int| 0 <= j < init.len() implies (#[trigger] init[j]).0@ != key by {
            assert(init[j] == list[j]);
        }
        lemma_absent(init, key);
        assert(list[list.len() - 1].0@ != key);
    }
}

impl StatsEntry {
    /// The values by name.
    pub open spec fn contents(&self) -> Map<Seq<char>, serde_json::Value> {
        value_map(self.values@)
    }

    /// An entry without values.
    pub fn new(id: StatsId, kind: StatsKind, now: u64) -> (r: Self)
        ensures
            r.id == id,
            r.kind == kind,
            r.timestamp == now,
            r.contents() == Map::<Seq<char>, serde_json::Value>::empty(),
    {
        StatsEntry { id, kind, timestamp: now, values: Vec::new() }
    }

    /// The entry with a value, in place of one of the same name.
    pub fn with_value(self, key: String, value: serde_json::Value) -> (r: Self)
        ensures
            r.id == self.id,
            r.kind == self.kind,
            r.timestamp == self.timestamp,
            r.contents() == self.contents().insert(key@, value),
    {
        let mut values = self.values;
        let ghost before = values@;
        let mut i: usize = values.len();
        while i > 0
            invariant
                i <= values@.len(),
                values@ == before,
                before == self.values@,
                forall|j: int| i <= j < values@.len() ==> (#[trigger] values@[j]).0@ != key@,
            decreases i,
        {
            i -= 1;
            if text::str_eq(values[i].0.as_str(), key.as_str()) {
                proof {
                    lemma_replaced(before, i as int, (key, value));
                }
                values[i] = (key, value);
                return StatsEntry {
                    id: self.id,
                    kind: self.kind,
                    timestamp: self.timestamp,
                    values,
                };
            }
        }
        proof {
            let grown = before.push((key, value));
            assert(grown.drop_last() =~= before);
        }
        values.push((key, value));
        StatsEntry { id: self.id, kind: self.kind, timestamp: self.timestamp, values }
    }

    /// The value of a name.
    pub fn value(&self, key: &str) -> (r: Option<&serde_json::Value>)
        ensures
            match r {
                Some(v) => self.contents().contains_key(key@) && self.contents()[key@] == *v,
                None => !self.contents().contains_key(key@),
            },
    {
        let mut i: usize = self.values.len();
        assert(self.values@.subrange(0, i as int) =~= self.values@);
        while i > 0
            invariant
                i <= self.values@.len(),
                forall|j: int|
                    i <= j < self.values@.len() ==> (#[trigger] self.values@[j]).0@ != key@,
            decreases i,
        {
            i -= 1;
            if text::str_eq(self.values[i].0.as_str(), key) {
                proof {
                    let list = self.values@;
                    lemma_replaced(list, i as int, list[i as int]);
                    assert(list.update(i as int, list[i as int]) =~= list);
                }
                return Some(&self.values[i].1);
            }
        }
        proof {
            lemma_absent(self.values@, key@);
        }
        None
    }
}

/// Entries that were collected at one time.
#[derive(Debug, Clone)]
pub struct StatsReport {
    pub collected_at: u64,
    pub entries: Vec<StatsEntry>,
}

impl StatsReport {
    pub fn new(entries: Vec<StatsEntry>, now: u64) -> (r: Self)
        ensures
            r.entries == entries,
            r.collected_at == now,
    {
        StatsReport { collected_at: now, entries }
    }

    /// The entries of both reports, at the later of their times.
    pub fn merge(self, other: StatsReport) -> (r: Self)
        ensures
            r.entries@ == self.entries@ + other.entries@,
            r.collected_at == if self.collected_at >= other.collected_at {
                self.collected_at
            } else {
                other.collected_at
            },
    {
        let mut entries = self.entries;
        let mut more = other.entries;
        entries.append(&mut more);
        StatsReport {
            collected_at: if self.collected_at >= other.collected_at {
                self.collected_at
            } else {
                other.collected_at
            },
            entries,
        }
    }
}

} // verus!
