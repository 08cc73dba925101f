use crate::labels::Labels;
use crate::metadata::Metadata;
use crate::regex::{full_match, RegexCache, RegexError};
use crate::strmap::StrMap;
use crate::time::get_now_ms;
use vstd::prelude::*;

verus! {

/// How many messages and how many bytes were received.
#[derive(Clone, Copy, Debug, PartialEq, Eq, Structural)]
pub struct LogStats {
    pub message_count: u64,
    pub byte_count: u64,
}

/// The counts of all messages and of the messages by remote address.
#[derive(Debug)]
pub struct LogStatsRepository {
    pub total: LogStats,
    pub ipaddr: StrMap<LogStats>,
}

/// The counts of an address: zero where the address has sent nothing.
pub open spec fn stats_in(stats: Map<Seq<char>, LogStats>, ipaddr: Seq<char>) -> LogStats {
    if stats.contains_key(ipaddr) {
        stats[ipaddr]
    } else {
        LogStats { message_count: 0, byte_count: 0 }
    }
}

/// No address has sent more than all addresses together.
pub proof fn lemma_stats_bounded(repository: LogStatsRepository, ipaddr: Seq<char>)
    requires
        repository.wf(),
    ensures
        stats_in(repository.ipaddr@, ipaddr).message_count <= repository.total.message_count,
        stats_in(repository.ipaddr@, ipaddr).byte_count <= repository.total.byte_count,
{
    if repository.ipaddr@.contains_key(ipaddr) {
        let i = repository.ipaddr.keys().index_of(ipaddr);
        assert(0 <= i < repository.ipaddr.keys().len() && repository.ipaddr.keys()[i] == ipaddr);
        assert(repository.ipaddr.vals()[i].message_count <= repository.total.message_count);
    }
}

impl LogStatsRepository {
    /// No address has sent more than all addresses together.
    pub open spec fn wf(&self) -> bool {
        &&& self.ipaddr.wf()
        &&& forall|i: int|
            0 <= i < self.ipaddr.vals().len() ==> (#[trigger] self.ipaddr.vals()[i]).message_count
                <= self.total.message_count && self.ipaddr.vals()[i].byte_count
                <= self.total.byte_count
    }

    /// Counts that stand at zero.
    pub fn new() -> (repository: Self)
        ensures
            repository.wf(),
            repository.total == (LogStats { message_count: 0, byte_count: 0 }),
            repository.ipaddr@ == Map::<Seq<char>, LogStats>::empty(),
    {
        LogStatsRepository {
            total: LogStats { message_count: 0, byte_count: 0 },
            ipaddr: StrMap::new(),
        }
    }

    /// Adds the given numbers of messages and bytes to the total and to the
    /// counts of the address.
    pub fn update(&mut self, message_count: u64, byte_count: u64, ipaddr: &str)
        requires
            old(self).wf(),
            old(self).total.message_count + message_count <= u64::MAX,
            old(self).total.byte_count + byte_count <= u64::MAX,
        ensures
            final(self).wf(),
            final(self).total.message_count == old(self).total.message_count + message_count,
            final(self).total.byte_count == old(self).total.byte_count + byte_count,
            final(self).ipaddr@ == old(self).ipaddr@.insert(
                ipaddr@,
                (LogStats {
                    message_count: (stats_in(old(self).ipaddr@, ipaddr@).message_count
                        + message_count) as u64,
                    byte_count: (stats_in(old(self).ipaddr@, ipaddr@).byte_count + byte_count) as u64,
                }),
            ),
    {
        self.total.message_count += message_count;
        self.total.byte_count += byte_count;
        match self.ipaddr.position(ipaddr) {
            Some(i) => {
                let current = *self.ipaddr.value_at(i);
                self.ipaddr.set_value_at(
                    i,
                    LogStats {
                        message_count: current.message_count + message_count,
                        byte_count: current.byte_count + byte_count,
                    },
                );
            },
            None => {
                self.ipaddr.insert(ipaddr.to_owned(), LogStats { message_count, byte_count });
            },
        }
    }

    /// The counts of the address: zero where it has sent nothing.
    pub fn get_stats_for_ipaddr(&self, ipaddr: &str) -> (stats: LogStats)
        requires
            self.wf(),
        ensures
            stats == stats_in(self.ipaddr@, ipaddr@),
    {
        match self.ipaddr.get(ipaddr) {
            Some(stats) => *stats,
            None => LogStats { message_count: 0, byte_count: 0 },
        }
    }
}

/// A stored log message. Of a message only the metadata is kept.
#[derive(Debug)]
pub struct LogMessage {
    metadata: Metadata,
}

impl LogMessage {
    /// The metadata of the message.
    pub closed spec fn fields(&self) -> Map<Seq<char>, Seq<char>> {
        self.metadata.text()
    }

    /// The metadata is a well-formed map.
    pub closed spec fn wf(&self) -> bool {
        self.metadata.wf()
    }

    /// The metadata of the message.
    pub fn metadata(&self) -> (metadata: &Metadata)
        requires
            self.wf(),
        ensures
            metadata.wf(),
            metadata.text() == self.fields(),
    {
        &self.metadata
    }
}

/// The timestamp that `serde_json` reads from a log body: the body is a JSON
/// value whose member `timestamp` is a number that fits 64 bits without
/// sign. Any other body has none.
pub uninterp spec fn json_timestamp(body: Seq<char>) -> Option<u64>;

/// `serde_json::from_str`, the index by a member's name and
/// `serde_json::Value::as_u64` in a row. What they give depends on the body
/// alone.
#[verifier::external_body]
fn read_json_timestamp(body: &str) -> (timestamp: Option<u64>)
    ensures
        timestamp == json_timestamp(body@),
{
    match serde_json::from_str::<serde_json::Value>(body) {
        Ok(parsed) => parsed["timestamp"].as_u64(),
        Err(_) => None,
    }
}

/// The timestamp of a log body, if it has one.
pub fn get_timestamp_from_body(body: &str) -> (timestamp: Option<u64>)
    ensures
        timestamp == json_timestamp(body@),
{
    read_json_timestamp(body)
}

/// A stored message with the timestamp it is filed under.
pub type Entry = (u64, Map<Seq<char>, Seq<char>>);

/// The timestamps do not fall from one entry to the next.
pub open spec fn sorted(entries: Seq<Entry>) -> bool {
    forall|i: int, j: int| 0 <= i <= j < entries.len() ==> (#[trigger] entries[i]).0 <= (
    #[trigger] entries[j]).0
}

/// The number of entries with a timestamp of at most `timestamp`: the place
/// of a new entry with that timestamp, behind those that came before it.
pub open spec fn place_of(entries: Seq<Entry>, timestamp: u64) -> int
    decreases entries.len(),
{
    if entries.len() == 0 {
        0
    } else if entries.last().0 <= timestamp {
        entries.len() as int
    } else {
        place_of(entries.drop_last(), timestamp)
    }
}

/// The timestamp that a log body is filed under at the time `now`: its own
/// if it holds one.
pub open spec fn stamp_of(body: Seq<char>, now: u64) -> u64 {
    match json_timestamp(body) {
        Some(timestamp) => timestamp,
        None => now,
    }
}

/// The list after the log bodies have been filed in it at the time `now`, one
/// after the other, all with the same metadata.
pub open spec fn filed(
    entries: Seq<Entry>,
    bodies: Seq<Seq<char>>,
    fields: Map<Seq<char>, Seq<char>>,
    now: u64,
) -> Seq<Entry>
    decreases bodies.len(),
{
    if bodies.len() == 0 {
        entries
    } else {
        let before = filed(entries, bodies.drop_last(), fields, now);
        let timestamp = stamp_of(bodies.last(), now);
        before.insert(place_of(before, timestamp), (timestamp, fields))
    }
}

/// A list of log messages, each a body with its metadata, as mathematical
/// values.
pub open spec fn raw_views(raw_logs: Seq<(String, Metadata)>) -> Seq<(Seq<char>, Map<Seq<char>, Seq<char>>)> {
    Seq::new(raw_logs.len(), |i: int| (raw_logs[i].0@, raw_logs[i].1.text()))
}

/// The repository's list after the log messages have been stored in an
/// empty repository at the time `now`, one after the other.
pub open spec fn raw_filed(raw_logs: Seq<(Seq<char>, Map<Seq<char>, Seq<char>>)>, now: u64) -> Seq<Entry>
    decreases raw_logs.len(),
{
    if raw_logs.len() == 0 {
        Seq::empty()
    } else {
        let before = raw_filed(raw_logs.drop_last(), now);
        let timestamp = stamp_of(raw_logs.last().0, now);
        before.insert(place_of(before, timestamp), (timestamp, raw_logs.last().1))
    }
}

/// What the test of one query entry against a message's metadata gives. The
/// field must exist; where the wanted text is not empty, the whole value must
/// match it as a regular expression.
pub open spec fn field_outcome(
    fields: Map<Seq<char>, Seq<char>>,
    key: Seq<char>,
    wanted: Seq<char>,
) -> Result<bool, RegexError> {
    if !fields.contains_key(key) {
        Ok(false)
    } else if wanted.len() == 0 {
        Ok(true)
    } else {
        full_match(wanted, fields[key])
    }
}

/// What the test of a query against a message's metadata gives. The entries
/// are tested in their order, up to the first that fails or does not match.
pub open spec fn metadata_outcome(
    fields: Map<Seq<char>, Seq<char>>,
    keys: Seq<Seq<char>>,
    wanted: Seq<Seq<char>>,
) -> Result<bool, RegexError>
    decreases keys.len(),
{
    if keys.len() == 0 || wanted.len() != keys.len() {
        Ok(true)
    } else {
        match metadata_outcome(fields, keys.drop_last(), wanted.drop_last()) {
            Ok(true) => field_outcome(fields, keys.last(), wanted.last()),
            other => other,
        }
    }
}

/// The number of entries with a timestamp from `from_ts` up to, but not
/// including, `to_ts` whose metadata meets the query; or the error of the
/// first test that failed.
pub open spec fn count_spec(
    entries: Seq<Entry>,
    from_ts: u64,
    to_ts: u64,
    keys: Seq<Seq<char>>,
    wanted: Seq<Seq<char>>,
) -> Result<nat, RegexError>
    decreases entries.len(),
{
    if entries.len() == 0 {
        Ok(0)
    } else {
        match count_spec(entries.drop_last(), from_ts, to_ts, keys, wanted) {
            Ok(n) => {
                if from_ts <= entries.last().0 < to_ts {
                    match metadata_outcome(entries.last().1, keys, wanted) {
                        Ok(true) => Ok(n + 1),
                        Ok(false) => Ok(n),
                        Err(e) => Err(e),
                    }
                } else {
                    Ok(n)
                }
            },
            Err(e) => Err(e),
        }
    }
}

/// A count is at most the number of entries, and an error in a part of the
/// list is the error of the whole list.
pub proof fn lemma_count_prefix(
    entries: Seq<Entry>,
    i: int,
    from_ts: u64,
    to_ts: u64,
    keys: Seq<Seq<char>>,
    wanted: Seq<Seq<char>>,
)
    requires
        0 <= i <= entries.len(),
    ensures
        count_spec(entries.take(i), from_ts, to_ts, keys, wanted) is Ok ==> count_spec(
            entries.take(i),
            from_ts,
            to_ts,
            keys,
            wanted,
        )->Ok_0 <= i,
        count_spec(entries.take(i), from_ts, to_ts, keys, wanted) is Err ==> count_spec(
            entries,
            from_ts,
            to_ts,
            keys,
            wanted,
        ) == count_spec(entries.take(i), from_ts, to_ts, keys, wanted),
    decreases entries.len() - i,
{
    if i > 0 {
        assert(entries.take(i).drop_last() =~= entries.take(i - 1));
        lemma_count_len(entries.take(i), from_ts, to_ts, keys, wanted);
    }
    if i < entries.len() {
        assert(entries.take(i + 1).drop_last() =~= entries.take(i));
        lemma_count_prefix(entries, i + 1, from_ts, to_ts, keys, wanted);
    } else {
        assert(entries.take(i) =~= entries);
    }
}

/// A count is at most the number of entries.
pub proof fn lemma_count_len(
    entries: Seq<Entry>,
    from_ts: u64,
    to_ts: u64,
    keys: Seq<Seq<char>>,
    wanted: Seq<Seq<char>>,
)
    ensures
        count_spec(entries, from_ts, to_ts, keys, wanted) is Ok ==> count_spec(
            entries,
            from_ts,
            to_ts,
            keys,
            wanted,
        )->Ok_0 <= entries.len(),
    decreases entries.len(),
{
    if entries.len() > 0 {
        lemma_count_len(entries.drop_last(), from_ts, to_ts, keys, wanted);
    }
}

/// A failed or unmet test of a part of a query is the outcome of the whole
/// query.
pub proof fn lemma_outcome_prefix(
    fields: Map<Seq<char>, Seq<char>>,
    keys: Seq<Seq<char>>,
    wanted: Seq<Seq<char>>,
    i: int,
)
    requires
        keys.len() == wanted.len(),
        0 <= i <= keys.len(),
        metadata_outcome(fields, keys.take(i), wanted.take(i)) != Ok::<bool, RegexError>(true),
    ensures
        metadata_outcome(fields, keys, wanted) == metadata_outcome(
            fields,
            keys.take(i),
            wanted.take(i),
        ),
    decreases keys.len() - i,
{
    if i < keys.len() {
        assert(keys.take(i + 1).drop_last() =~= keys.take(i));
        assert(wanted.take(i + 1).drop_last() =~= wanted.take(i));
        lemma_outcome_prefix(fields, keys, wanted, i + 1);
    } else {
        assert(keys.take(i) =~= keys);
        assert(wanted.take(i) =~= wanted);
    }
}

/// The empty query is met by every message.
pub proof fn lemma_empty_query_outcome(fields: Map<Seq<char>, Seq<char>>)
    ensures
        metadata_outcome(fields, Seq::<Seq<char>>::empty(), Seq::<Seq<char>>::empty()) == Ok::<
            bool,
            RegexError,
        >(true),
{
}

/// The count over a range of timestamps is the sum of the counts over its
/// two parts, wherever the range is cut: for the empty query, which cannot
/// fail, from `a` to `b` as many messages are counted as from `a` to `m` and
/// from `m` to `b` together.
pub proof fn lemma_count_splits(entries: Seq<Entry>, a: u64, m: u64, b: u64)
    requires
        a <= m <= b,
    ensures
        count_spec(entries, a, b, Seq::empty(), Seq::empty()) is Ok,
        count_spec(entries, a, m, Seq::empty(), Seq::empty()) is Ok,
        count_spec(entries, m, b, Seq::empty(), Seq::empty()) is Ok,
        count_spec(entries, a, b, Seq::empty(), Seq::empty())->Ok_0 == count_spec(
            entries,
            a,
            m,
            Seq::empty(),
            Seq::empty(),
        )->Ok_0 + count_spec(entries, m, b, Seq::empty(), Seq::empty())->Ok_0,
    decreases entries.len(),
{
    if entries.len() > 0 {
        lemma_count_splits(entries.drop_last(), a, m, b);
        lemma_empty_query_outcome(entries.last().1);
    }
}

/// The same for any query, as long as no test fails in either part.
pub proof fn lemma_count_splits_query(
    entries: Seq<Entry>,
    a: u64,
    m: u64,
    b: u64,
    keys: Seq<Seq<char>>,
    wanted: Seq<Seq<char>>,
)
    requires
        a <= m <= b,
        count_spec(entries, a, m, keys, wanted) is Ok,
        count_spec(entries, m, b, keys, wanted) is Ok,
    ensures
        count_spec(entries, a, b, keys, wanted) is Ok,
        count_spec(entries, a, b, keys, wanted)->Ok_0 == count_spec(entries, a, m, keys, wanted)->Ok_0
            + count_spec(entries, m, b, keys, wanted)->Ok_0,
    decreases entries.len(),
{
    if entries.len() > 0 {
        lemma_count_splits_query(entries.drop_last(), a, m, b, keys, wanted);
    }
}

/// The stored log messages, in the order of their timestamps; messages with
/// one timestamp stand in the order in which they came.
#[derive(Debug)]
pub struct LogRepository {
    stamps: Vec<u64>,
    messages: Vec<LogMessage>,
    regex_cache: RegexCache,
}

impl LogRepository {
    /// The stored messages, each with its timestamp.
    pub closed spec fn entries(&self) -> Seq<Entry> {
        Seq::new(self.stamps@.len(), |i: int| (self.stamps@[i], self.messages@[i].fields()))
    }

    /// The stored messages are well formed, one for each timestamp.
    pub closed spec fn messages_wf(&self) -> bool {
        &&& self.stamps@.len() == self.messages@.len()
        &&& forall|i: int| 0 <= i < self.messages@.len() ==> (#[trigger] self.messages@[i]).wf()
    }

    /// The compiled patterns of the queries made so far.
    pub closed spec fn cache(&self) -> RegexCache {
        self.regex_cache
    }

    /// The messages stand in the order of their timestamps, and the cache of
    /// patterns is well formed.
    pub open spec fn wf(&self) -> bool {
        &&& self.messages_wf()
        &&& sorted(self.entries())
        &&& self.cache().wf()
    }

    /// The compiled patterns of the queries made so far.
    pub fn regex_cache(&self) -> (cache: &RegexCache)
        ensures
            *cache == self.cache(),
    {
        &self.regex_cache
    }

    /// A repository without messages.
    pub fn new() -> (repository: Self)
        ensures
            repository.wf(),
            repository.entries() == Seq::<Entry>::empty(),
            repository.cache().patterns() == Seq::<Seq<char>>::empty(),
    {
        let repository = LogRepository {
            stamps: Vec::new(),
            messages: Vec::new(),
            regex_cache: RegexCache::new(),
        };
        assert(repository.entries() =~= Seq::<Entry>::empty());
        repository
    }

    /// The number of stored messages.
    pub fn len(&self) -> (n: usize)
        requires
            self.wf(),
        ensures
            n == self.entries().len(),
    {
        self.stamps.len()
    }

    /// The number of different timestamps that have a message.
    pub fn timestamp_count(&self) -> (n: usize)
        requires
            self.wf(),
        ensures
            n == distinct_stamps(self.entries()),
    {
        let mut n: usize = 0;
        let mut i: usize = 0;
        proof {
            assert(self.entries().take(0) =~= Seq::<Entry>::empty());
        }
        while i < self.stamps.len()
            invariant
                self.wf(),
                i <= self.stamps@.len(),
                n <= i,
                n == distinct_stamps(self.entries().take(i as int)),
            decreases self.stamps@.len() - i,
        {
            proof {
                assert(self.entries().take(i as int + 1).drop_last() =~= self.entries().take(i as int));
                if i > 0 {
                    assert(self.entries().take(i as int).last() == self.entries()[i as int - 1]);
                }
            }
            if i == 0 || self.stamps[i - 1] != self.stamps[i] {
                n += 1;
            }
            i += 1;
        }
        proof {
            assert(self.entries().take(self.stamps@.len() as int) =~= self.entries());
        }
        n
    }

    /// Files a message under a timestamp: behind the stored messages with
    /// that timestamp or an earlier one.
    pub fn add_at(&mut self, timestamp: u64, metadata: Metadata)
        requires
            old(self).wf(),
            metadata.wf(),
        ensures
            final(self).wf(),
            final(self).entries() == old(self).entries().insert(
                place_of(old(self).entries(), timestamp),
                (timestamp, metadata.text()),
            ),
            final(self).entries().len() == old(self).entries().len() + 1,
            final(self).cache() == old(self).cache(),
    {
        let ghost before = self.entries();
        let mut at: usize = self.stamps.len();
        proof {
            assert(before.take(at as int) =~= before);
        }
        while at > 0 && self.stamps[at - 1] > timestamp
            invariant
                self.wf(),
                before == self.entries(),
                at <= self.stamps@.len(),
                place_of(before, timestamp) == place_of(before.take(at as int), timestamp),
                forall|j: int| at <= j < before.len() ==> (#[trigger] before[j]).0 > timestamp,
            decreases at,
        {
            proof {
                assert(before.take(at as int).drop_last() =~= before.take(at as int - 1));
                assert(before.take(at as int).last() == before[at as int - 1]);
            }
            at -= 1;
        }
        proof {
            if at > 0 {
                assert(before.take(at as int).last() == before[at as int - 1]);
            }
            assert(place_of(before, timestamp) == at);
            lemma_insert_sorted(before, at as int, (timestamp, metadata.text()));
        }
        self.stamps.insert(at, timestamp);
        self.messages.insert(at, LogMessage { metadata });
        assert(self.entries() =~= before.insert(at as int, (timestamp, metadata.text())));
    }

    /// Stores a log message at the time `now`. It is filed under the
    /// timestamp that its body holds; a body without one is filed under
    /// `now`.
    pub fn add_log_message_at(&mut self, body: &str, metadata: Metadata, now: u64)
        requires
            old(self).wf(),
            metadata.wf(),
        ensures
            final(self).wf(),
            final(self).cache() == old(self).cache(),
            final(self).entries() == old(self).entries().insert(
                place_of(old(self).entries(), stamp_of(body@, now)),
                (stamp_of(body@, now), metadata.text()),
            ),
            final(self).entries().len() == old(self).entries().len() + 1,
    {
        let timestamp = match get_timestamp_from_body(body) {
            Some(timestamp) => timestamp,
            None => now,
        };
        self.add_at(timestamp, metadata);
    }

    /// Stores a log message. It is filed under the timestamp that its body
    /// holds; a body without one is filed under the time of the clock.
    pub fn add_log_message(&mut self, body: String, metadata: Metadata)
        requires
            old(self).wf(),
            metadata.wf(),
        ensures
            final(self).wf(),
            final(self).cache() == old(self).cache(),
            final(self).entries().len() == old(self).entries().len() + 1,
            exists|now: u64|
                final(self).entries() == #[trigger] old(self).entries().insert(
                    place_of(old(self).entries(), stamp_of(body@, now)),
                    (stamp_of(body@, now), metadata.text()),
                ),
    {
        let now = get_now_ms();
        self.add_log_message_at(body.as_str(), metadata, now);
    }

    /// A repository that holds the given log messages, each a body with its
    /// metadata, stored one after the other at the time `now`.
    pub fn from_raw_logs_at(raw_logs: &Vec<(String, Metadata)>, now: u64) -> (repository: Self)
        requires
            forall|i: int| 0 <= i < raw_logs@.len() ==> (#[trigger] raw_logs@[i]).1.wf(),
        ensures
            repository.wf(),
            repository.entries() == raw_filed(raw_views(raw_logs@), now),
            repository.entries().len() == raw_logs@.len(),
            repository.cache().patterns() == Seq::<Seq<char>>::empty(),
    {
        let mut repository = LogRepository::new();
        let mut i: usize = 0;
        let ghost all = raw_views(raw_logs@);
        proof {
            assert(all.take(0) =~= Seq::<(Seq<char>, Map<Seq<char>, Seq<char>>)>::empty());
        }
        while i < raw_logs.len()
            invariant
                i <= raw_logs@.len(),
                all == raw_views(raw_logs@),
                repository.wf(),
                repository.entries() == raw_filed(all.take(i as int), now),
                repository.entries().len() == i,
                repository.cache().patterns() == Seq::<Seq<char>>::empty(),
                forall|j: int| 0 <= j < raw_logs@.len() ==> (#[trigger] raw_logs@[j]).1.wf(),
            decreases raw_logs@.len() - i,
        {
            let log = &raw_logs[i];
            proof {
                assert(all.take(i as int + 1).drop_last() =~= all.take(i as int));
                assert(all.take(i as int + 1).last() == (log.0@, log.1.text()));
            }
            repository.add_log_message_at(log.0.as_str(), log.1.duplicate(), now);
            i += 1;
        }
        proof {
            assert(all.take(raw_logs@.len() as int) =~= all);
        }
        repository
    }

    /// A repository that holds the given log messages, each a body with its
    /// metadata, stored one after the other at the time of the clock.
    pub fn from_raw_logs(raw_logs: &Vec<(String, Metadata)>) -> (repository: Self)
        requires
            forall|i: int| 0 <= i < raw_logs@.len() ==> (#[trigger] raw_logs@[i]).1.wf(),
        ensures
            repository.wf(),
            exists|now: u64| repository.entries() == #[trigger] raw_filed(raw_views(raw_logs@), now),
            repository.entries().len() == raw_logs@.len(),
            repository.cache().patterns() == Seq::<Seq<char>>::empty(),
    {
        LogRepository::from_raw_logs_at(raw_logs, get_now_ms())
    }

    /// Whether the metadata meets the query. Each query entry names a field
    /// that must exist; where the entry's value is not empty, the whole of
    /// the field's value must match it as a regular expression. The entries
    /// are tested in their order.
    pub fn metadata_matches(&mut self, query: &Labels, target: &Metadata) -> (outcome: Result<
        bool,
        RegexError,
    >)
        requires
            old(self).wf(),
            query.wf(),
            target.wf(),
        ensures
            final(self).wf(),
            final(self).entries() == old(self).entries(),
            outcome == metadata_outcome(target.text(), query.keys(), query.val_texts()),
    {
        let mut cache = RegexCache::new();
        core::mem::swap(&mut cache, &mut self.regex_cache);
        let outcome = query_outcome(&mut cache, query, target);
        core::mem::swap(&mut cache, &mut self.regex_cache);
        outcome
    }

    /// Counts the messages with a timestamp from `from_ts` up to, but not
    /// including, `to_ts` whose metadata meets the query. An empty value in
    /// the query asks only that the field exists.
    pub fn get_message_count(&mut self, from_ts: u64, to_ts: u64, metadata_query: &Labels) -> (count:
        Result<usize, RegexError>)
        requires
            old(self).wf(),
            metadata_query.wf(),
        ensures
            final(self).wf(),
            final(self).entries() == old(self).entries(),
            match count {
                Ok(n) => count_spec(
                    old(self).entries(),
                    from_ts,
                    to_ts,
                    metadata_query.keys(),
                    metadata_query.val_texts(),
                ) == Ok::<nat, RegexError>(n as nat),
                Err(e) => count_spec(
                    old(self).entries(),
                    from_ts,
                    to_ts,
                    metadata_query.keys(),
                    metadata_query.val_texts(),
                ) == Err::<nat, RegexError>(e),
            },
    {
        let mut cache = RegexCache::new();
        core::mem::swap(&mut cache, &mut self.regex_cache);
        let mut count: usize = 0;
        let mut failed: Option<RegexError> = None;
        let n = self.stamps.len();
        let mut i: usize = 0;
        let ghost keys = metadata_query.keys();
        let ghost wanted = metadata_query.val_texts();
        proof {
            assert(self.entries().take(0) =~= Seq::<Entry>::empty());
        }
        while i < n && failed.is_none()
            invariant
                self.messages_wf(),
                sorted(self.entries()),
                self.entries() == old(self).entries(),
                cache.wf(),
                metadata_query.wf(),
                keys == metadata_query.keys(),
                wanted == metadata_query.val_texts(),
                n == self.stamps@.len(),
                i <= n,
                count <= i,
                failed is None ==> count_spec(self.entries().take(i as int), from_ts, to_ts, keys, wanted)
                    == Ok::<nat, RegexError>(count as nat),
                failed is Some ==> count_spec(self.entries().take(i as int), from_ts, to_ts, keys, wanted)
                    == Err::<nat, RegexError>(failed->0),
            decreases n - i,
        {
            proof {
                assert(self.entries().take(i as int + 1).drop_last() =~= self.entries().take(i as int));
                assert(self.entries().take(i as int + 1).last() == self.entries()[i as int]);
            }
            if from_ts <= self.stamps[i] && self.stamps[i] < to_ts {
                match query_outcome(&mut cache, metadata_query, &self.messages[i].metadata) {
                    Ok(true) => {
                        count += 1;
                    },
                    Ok(false) => {},
                    Err(e) => {
                        failed = Some(e);
                    },
                }
            }
            i += 1;
        }
        proof {
            lemma_count_prefix(self.entries(), i as int, from_ts, to_ts, keys, wanted);
            if failed is None {
                assert(self.entries().take(n as int) =~= self.entries());
            }
        }
        core::mem::swap(&mut cache, &mut self.regex_cache);
        match failed {
            Some(e) => Err(e),
            None => Ok(count),
        }
    }
}

/// A list in the order of its timestamps stays so when an entry is put
/// behind the entries that are not later and before those that are.
pub proof fn lemma_insert_sorted(before: Seq<Entry>, at: int, entry: Entry)
    requires
        sorted(before),
        0 <= at <= before.len(),
        at > 0 ==> before[at - 1].0 <= entry.0,
        forall|j: int| at <= j < before.len() ==> (#[trigger] before[j]).0 > entry.0,
    ensures
        sorted(before.insert(at, entry)),
{
    let after = before.insert(at, entry);
    assert forall|i: int, j: int| 0 <= i <= j < after.len() implies (#[trigger] after[i]).0 <= (
    #[trigger] after[j]).0 by {
        if i < at && j < at {
            assert(before[i].0 <= before[j].0);
        } else if i < at && j == at {
            assert(before[i].0 <= before[at - 1].0);
        } else if i < at && j > at {
            assert(before[i].0 <= before[j - 1].0);
        } else if i == at && j > at {
            assert(before[j - 1].0 > entry.0);
        } else if i > at {
            assert(before[i - 1].0 <= before[j - 1].0);
        }
    }
}

/// The number of different timestamps in a list that is in their order.
pub open spec fn distinct_stamps(entries: Seq<Entry>) -> nat
    decreases entries.len(),
{
    if entries.len() == 0 {
        0
    } else if entries.len() == 1 {
        1
    } else {
        distinct_stamps(entries.drop_last()) + if entries.drop_last().last().0 != entries.last().0 {
            1nat
        } else {
            0nat
        }
    }
}

/// Tests a query against a message's metadata, with the compiled patterns
/// of `cache`.
pub fn query_outcome(cache: &mut RegexCache, query: &Labels, target: &Metadata) -> (outcome: Result<
    bool,
    RegexError,
>)
    requires
        old(cache).wf(),
        query.wf(),
        target.wf(),
    ensures
        final(cache).wf(),
        outcome == metadata_outcome(target.text(), query.keys(), query.val_texts()),
{
    let n = query.len();
    let mut i: usize = 0;
    let ghost keys = query.keys();
    let ghost wanted = query.val_texts();
    proof {
        assert(keys.take(0) =~= Seq::<Seq<char>>::empty());
    }
    while i < n
        invariant
            cache.wf(),
            query.wf(),
            target.wf(),
            keys == query.keys(),
            wanted == query.val_texts(),
            n == keys.len(),
            n == wanted.len(),
            i <= n,
            metadata_outcome(target.text(), keys.take(i as int), wanted.take(i as int)) == Ok::<
                bool,
                RegexError,
            >(true),
        decreases n - i,
    {
        proof {
            assert(keys.take(i as int + 1).drop_last() =~= keys.take(i as int));
            assert(wanted.take(i as int + 1).drop_last() =~= wanted.take(i as int));
            assert(keys.take(i as int + 1).last() == keys[i as int]);
            assert(wanted.take(i as int + 1).last() == wanted[i as int]);
        }
        let outcome = match target.get_text(query.key_at(i).as_str()) {
            Some(value) => {
                let pattern = query.value_at(i).as_str();
                if pattern.is_empty() {
                    Ok(true)
                } else {
                    cache.full_match(pattern, value)
                }
            },
            None => Ok(false),
        };
        match outcome {
            Ok(true) => {},
            other => {
                proof {
                    lemma_outcome_prefix(target.text(), keys, wanted, i as int + 1);
                }
                return other;
            },
        }
        i += 1;
    }
    proof {
        assert(keys.take(n as int) =~= keys);
        assert(wanted.take(n as int) =~= wanted);
    }
    Ok(true)
}

} // verus!
