//! The container writer: one open output container plus its channel
//! catalog. It owns the "register once per topic" invariant, assigns each
//! channel its strictly increasing sequence numbers, and guarantees that
//! records carry their payload bytes verbatim.

use vstd::prelude::*;
use crate::ext::{
    LogEntry, RawWriter, spec_writer_log, spec_writer_open, new_writer, writer_add_schema,
    writer_add_channel, writer_write_message, writer_flush, writer_finish, log_has_schema_id,
    log_has_channel_id, log_has_schema_entry, log_has_channel_entry, log_channel_id_at,
    log_schema_id_at, schema_entry_count, channel_entry_count,
};
use crate::textutil::str_eq;

verus! {

/// A registered channel: its container-assigned identifier and the sequence
/// number the next record on it will carry.
pub struct Channel {
    pub channel_id: u16,
    pub sequence: u32,
}

impl Channel {
    /// A fresh channel starts counting records at 0.
    pub fn new(channel_id: u16) -> (c: Channel)
        ensures
            c.channel_id == channel_id,
            c.sequence == 0,
    {
        Channel { channel_id, sequence: 0 }
    }
}

/// Whether `e` is a message record on channel `id`.
pub open spec fn is_msg_for(e: LogEntry, id: u16) -> bool {
    match e {
        LogEntry::Message { channel_id, .. } => channel_id == id,
        _ => false,
    }
}

/// The sequence number of a message record.
pub open spec fn msg_seq_of(e: LogEntry) -> u32 {
    match e {
        LogEntry::Message { sequence, .. } => sequence,
        _ => 0,
    }
}

/// The channel identifier of a channel record.
pub open spec fn chan_entry_id(e: LogEntry) -> Option<u16> {
    match e {
        LogEntry::Channel { id, .. } => Some(id),
        _ => None,
    }
}

/// The topic of a channel record.
pub open spec fn chan_entry_topic(e: LogEntry) -> Option<Seq<char>> {
    match e {
        LogEntry::Channel { topic, .. } => Some(topic),
        _ => None,
    }
}

/// How many message records for channel `id` stand among the first `upto`
/// entries of the log.
pub open spec fn msg_count_upto(log: Seq<LogEntry>, id: u16, upto: int) -> nat
    decreases upto,
{
    if upto <= 0 {
        0
    } else {
        msg_count_upto(log, id, upto - 1) + (if 0 <= upto - 1 < log.len() && is_msg_for(
            log[upto - 1],
            id,
        ) {
            1nat
        } else {
            0nat
        })
    }
}

/// How many message records for channel `id` the whole log holds.
pub open spec fn msg_count(log: Seq<LogEntry>, id: u16) -> nat {
    msg_count_upto(log, id, log.len() as int)
}

/// A message record is well-placed when its sequence number equals the
/// count of earlier records on its channel.
pub open spec fn msg_wf_at(log: Seq<LogEntry>, i: int) -> bool {
    match log[i] {
        LogEntry::Message { channel_id, sequence, .. } => sequence == msg_count_upto(
            log,
            channel_id,
            i,
        ),
        _ => true,
    }
}

/// A message record may only follow the registration of its channel.
pub open spec fn msg_registered_at(log: Seq<LogEntry>, i: int) -> bool {
    match log[i] {
        LogEntry::Message { channel_id, .. } => exists|k: int|
            0 <= k < i && chan_entry_id(#[trigger] log[k]) == Some(channel_id),
        _ => true,
    }
}

/// The structural well-formedness of a container log: channel identifiers
/// are registered at most once, every message record's sequence number
/// counts the earlier records on its channel, and every message record
/// follows its channel's registration.
pub open spec fn log_wf(log: Seq<LogEntry>) -> bool {
    &&& forall|i: int, k: int|
        0 <= i < k < log.len() && chan_entry_id(#[trigger] log[i]) is Some ==> chan_entry_id(
            log[i],
        ) != chan_entry_id(#[trigger] log[k])
    &&& forall|i: int| 0 <= i < log.len() ==> #[trigger] msg_wf_at(log, i)
    &&& forall|i: int| 0 <= i < log.len() ==> #[trigger] msg_registered_at(log, i)
}

/// Appending an entry does not change what stands before it.
proof fn lemma_count_push(log: Seq<LogEntry>, e: LogEntry, id: u16, upto: int)
    requires
        upto <= log.len(),
    ensures
        msg_count_upto(log.push(e), id, upto) == msg_count_upto(log, id, upto),
    decreases upto,
{
    if upto > 0 {
        lemma_count_push(log, e, id, upto - 1);
    }
}

/// The count over the whole log after a push: up one for the pushed
/// message's own channel, unchanged otherwise.
proof fn lemma_count_after_push(log: Seq<LogEntry>, e: LogEntry, id: u16)
    ensures
        msg_count(log.push(e), id) == msg_count(log, id) + (if is_msg_for(e, id) {
            1nat
        } else {
            0nat
        }),
{
    lemma_count_push(log, e, id, log.len() as int);
}

/// A channel with some message on it was registered.
proof fn lemma_count_zero_when_unregistered(log: Seq<LogEntry>, id: u16, upto: int)
    requires
        0 <= upto <= log.len(),
        forall|i: int| 0 <= i < log.len() ==> #[trigger] msg_registered_at(log, i),
        !log_has_channel_id(log, id),
    ensures
        msg_count_upto(log, id, upto) == 0,
    decreases upto,
{
    if upto > 0 {
        lemma_count_zero_when_unregistered(log, id, upto - 1);
        if is_msg_for(log[upto - 1], id) {
            assert(msg_registered_at(log, upto - 1));
            let k = choose|k: int|
                0 <= k < upto - 1 && chan_entry_id(#[trigger] log[k]) == Some(id);
            assert(log_channel_id_at(log, k, id));
            assert(log_has_channel_id(log, id));
        }
    }
}

/// The count stays the same across a stretch of the log that holds no
/// message for the channel.
proof fn lemma_count_const_range(log: Seq<LogEntry>, id: u16, a: int, b: int)
    requires
        0 <= a <= b <= log.len(),
        forall|m: int| a <= m < b ==> !is_msg_for(#[trigger] log[m], id),
    ensures
        msg_count_upto(log, id, b) == msg_count_upto(log, id, a),
    decreases b - a,
{
    if b > a {
        lemma_count_const_range(log, id, a, b - 1);
    }
}

/// Law: per channel, the sequence numbers of consecutive message records
/// differ by exactly one — dropped messages on other channels introduce no
/// gap.
pub proof fn lemma_sequences_step(log: Seq<LogEntry>, id: u16, i: int, k: int)
    requires
        log_wf(log),
        0 <= i < k < log.len(),
        is_msg_for(log[i], id),
        is_msg_for(log[k], id),
        forall|m: int| i < m < k ==> !is_msg_for(#[trigger] log[m], id),
    ensures
        msg_seq_of(log[k]) as nat == msg_seq_of(log[i]) as nat + 1,
{
    assert(msg_wf_at(log, i));
    assert(msg_wf_at(log, k));
    lemma_count_const_range(log, id, i + 1, k);
}

/// Law: per channel, the first message record carries sequence number 0.
pub proof fn lemma_first_sequence_zero(log: Seq<LogEntry>, id: u16, i: int)
    requires
        log_wf(log),
        0 <= i < log.len(),
        is_msg_for(log[i], id),
        forall|m: int| 0 <= m < i ==> !is_msg_for(#[trigger] log[m], id),
    ensures
        msg_seq_of(log[i]) == 0,
{
    assert(msg_wf_at(log, i));
    lemma_count_const_range(log, id, 0, i);
}

/// The channel of the first catalog entry for `topic`, if any.
pub open spec fn spec_topic_channel(cat: Seq<(Seq<char>, Channel)>, topic: Seq<char>) -> Option<
    Channel,
>
    decreases cat.len(),
{
    if cat.len() == 0 {
        None
    } else if cat[0].0 == topic {
        Some(cat[0].1)
    } else {
        spec_topic_channel(cat.drop_first(), topic)
    }
}

proof fn lemma_topic_channel_at(cat: Seq<(Seq<char>, Channel)>, topic: Seq<char>, j: int)
    requires
        0 <= j < cat.len(),
        cat[j].0 == topic,
        forall|k: int| 0 <= k < j ==> (#[trigger] cat[k]).0 != topic,
    ensures
        spec_topic_channel(cat, topic) == Some(cat[j].1),
    decreases j,
{
    if j > 0 {
        let t = cat.drop_first();
        assert(forall|k: int| 0 <= k < j - 1 ==> t[k] == cat[k + 1]);
        lemma_topic_channel_at(t, topic, j - 1);
    }
}

/// Whether the log holds a channel record with this identifier and topic.
pub open spec fn cat_entry_logged(log: Seq<LogEntry>, id: u16, topic: Seq<char>) -> bool {
    exists|i: int|
        0 <= i < log.len() && chan_entry_id(#[trigger] log[i]) == Some(id) && chan_entry_topic(
            log[i],
        ) == Some(topic)
}

/// Whether the catalog holds an entry with this channel identifier and topic.
pub open spec fn chan_in_catalog(cat: Seq<(Seq<char>, Channel)>, id: u16, topic: Seq<char>) -> bool {
    exists|j: int| 0 <= j < cat.len() && (#[trigger] cat[j]).1.channel_id == id && cat[j].0 == topic
}

/// Whether entry `i` of the log, if it is a channel record, belongs to a
/// catalog entry of the same identifier and topic.
pub open spec fn chan_entry_in_catalog_at(
    log: Seq<LogEntry>,
    cat: Seq<(Seq<char>, Channel)>,
    i: int,
) -> bool {
    match log[i] {
        LogEntry::Channel { id, topic, .. } => chan_in_catalog(cat, id, topic),
        _ => true,
    }
}

/// The agreement between a container log and its channel catalog: topics
/// are registered at most once, every catalog entry names a registered
/// channel of its topic whose records it has counted exactly, and every
/// registered channel belongs to a catalog entry.
pub open spec fn catalog_consistent(log: Seq<LogEntry>, cat: Seq<(Seq<char>, Channel)>) -> bool {
    &&& forall|j: int, k: int| 0 <= j < k < cat.len() ==> (#[trigger] cat[j]).0 != (
    #[trigger] cat[k]).0
    &&& forall|j: int|
        0 <= j < cat.len() ==> cat_entry_logged(
            log,
            (#[trigger] cat[j]).1.channel_id,
            cat[j].0,
        )
    &&& forall|j: int|
        0 <= j < cat.len() ==> (#[trigger] cat[j]).1.sequence == msg_count(
            log,
            cat[j].1.channel_id,
        )
    &&& forall|i: int| 0 <= i < log.len() ==> #[trigger] chan_entry_in_catalog_at(log, cat, i)
}

/// One open container: the writer owning the output, the path the finished
/// bytes belong at, and the channel catalog for this container's lifetime.
pub struct Container {
    writer: RawWriter,
    path: String,
    catalog: Vec<(String, Channel)>,
    /// Upper bound on the schema records registered so far, kept below the
    /// writer's identifier capacity.
    schema_records: u16,
    /// Upper bound on the channel records registered so far, kept below the
    /// writer's identifier capacity.
    channel_records: u16,
}

/// The outcome of appending one record.
pub enum AppendResult {
    /// The record was appended with this channel and sequence number.
    Written { channel_id: u16, sequence: u32 },
    /// The channel's sequence counter cannot grow further; the record was
    /// dropped before reaching the writer.
    SequenceExhausted,
}

impl Container {
    /// The logical records of this container, in order.
    pub closed spec fn log(self) -> Seq<LogEntry> {
        spec_writer_log(self.writer)
    }

    /// The channel catalog: topic and channel state, in registration order.
    pub closed spec fn cat(self) -> Seq<(Seq<char>, Channel)> {
        Seq::new(self.catalog@.len(), |i: int| (self.catalog@[i].0@, self.catalog@[i].1))
    }

    /// The path the finished container's bytes belong at.
    pub closed spec fn spec_path(self) -> Seq<char> {
        self.path@
    }

    /// Whether `t` already has a registered channel in this container.
    pub open spec fn has_topic(self, t: Seq<char>) -> bool {
        exists|j: int| 0 <= j < self.cat().len() && (#[trigger] self.cat()[j]).0 == t
    }

    /// Under the invariant, topics are unique, so any catalog entry is its
    /// topic's one channel.
    pub proof fn lemma_topic_channel(self, j: int)
        requires
            self.inv(),
            0 <= j < self.cat().len(),
        ensures
            spec_topic_channel(self.cat(), self.cat()[j].0) == Some(self.cat()[j].1),
    {
        let cat = self.cat();
        assert forall|k: int| 0 <= k < j implies (#[trigger] cat[k]).0 != cat[j].0 by {}
        lemma_topic_channel_at(cat, cat[j].0, j);
    }

    /// The container's invariant: the writer still accepts records, the log
    /// is well-formed, the catalog and the log agree, and the registration
    /// counters bound the schema and channel records in the log.
    pub closed spec fn inv(self) -> bool {
        &&& spec_writer_open(self.writer)
        &&& log_wf(self.log())
        &&& catalog_consistent(self.log(), self.cat())
        &&& schema_entry_count(self.log()) <= self.schema_records
        &&& channel_entry_count(self.log()) <= self.channel_records
    }

    /// Whether the container can register no further channels: the writer's
    /// identifier space for schema or channel records is used up.
    pub closed spec fn at_capacity(self) -> bool {
        self.schema_records >= 65534 || self.channel_records >= 65534
    }

    /// The invariant keeps the log well-formed.
    pub proof fn lemma_inv_log_wf(self)
        requires
            self.inv(),
        ensures
            log_wf(self.log()),
    {
    }

    /// Law: a container registers at most one channel per topic — two
    /// channel records with the same topic are the same record.
    pub proof fn lemma_one_channel_per_topic(self, i: int, k: int)
        requires
            self.inv(),
            0 <= i < self.log().len(),
            0 <= k < self.log().len(),
            self.log()[i] is Channel,
            self.log()[k] is Channel,
            chan_entry_topic(self.log()[i]) == chan_entry_topic(self.log()[k]),
        ensures
            i == k,
    {
        let log = self.log();
        let cat = self.cat();
        if i != k {
            assert(chan_entry_in_catalog_at(log, cat, i));
            assert(chan_entry_in_catalog_at(log, cat, k));
            let t = chan_entry_topic(log[i])->0;
            let j1 = choose|j: int|
                0 <= j < cat.len() && (#[trigger] cat[j]).1.channel_id == chan_entry_id(log[i])->0
                    && cat[j].0 == t;
            let j2 = choose|j: int|
                0 <= j < cat.len() && (#[trigger] cat[j]).1.channel_id == chan_entry_id(log[k])->0
                    && cat[j].0 == t;
            assert(cat[j1].0 == cat[j2].0);
            assert(j1 == j2);
            assert(chan_entry_id(log[i]) == chan_entry_id(log[k]));
            // Two distinct channel records cannot share an identifier.
            if i < k {
                assert(false);
            } else {
                assert(false);
            }
        }
    }

    /// Opens a fresh container for `path`: no records, an empty catalog,
    /// the full identifier capacity ahead. Over the in-memory writer,
    /// creation cannot fail.
    pub fn open(path: String) -> (c: Container)
        ensures
            c.inv(),
            c.log() == Seq::<LogEntry>::empty(),
            c.cat() == Seq::<(Seq<char>, Channel)>::empty(),
            c.spec_path() == path@,
            !c.at_capacity(),
    {
        let writer = new_writer().unwrap();
        let c = Container { writer, path, catalog: Vec::new(), schema_records: 0, channel_records: 0 };
        proof {
            assert(c.cat() =~= Seq::<(Seq<char>, Channel)>::empty());
        }
        c
    }

    /// The catalog index of `topic`'s channel, when it has one.
    pub fn channel_index(&self, topic: &str) -> (r: Option<usize>)
        ensures
            match r {
                Some(j) => j < self.cat().len() && self.cat()[j as int].0 == topic@,
                None => !self.has_topic(topic@),
            },
    {
        let n: usize = self.catalog.len();
        let mut i: usize = 0;
        while i < n
            invariant
                0 <= i <= n,
                n == self.cat().len(),
                n == self.catalog@.len(),
                forall|j: int| 0 <= j < i ==> (#[trigger] self.cat()[j]).0 != topic@,
            decreases n - i,
        {
            if str_eq(self.catalog[i].0.as_str(), topic) {
                return Some(i);
            }
            i = i + 1;
        }
        None
    }

    /// Registers a schema record and a channel record for a previously
    /// unseen topic and caches the channel under the topic. Registration is
    /// refused exactly when the container's identifier capacity is used up;
    /// otherwise the log grows by the channel record — preceded by its
    /// schema record unless an identical one was already present — the
    /// catalog grows by exactly this topic's channel at sequence 0, and the
    /// message records are untouched.
    pub fn register(
        &mut self,
        name: &str,
        schema_encoding: &str,
        data: &[u8],
        topic: &str,
        message_encoding: &str,
    ) -> (r: Option<u16>)
        requires
            old(self).inv(),
            !old(self).has_topic(topic@),
        ensures
            final(self).inv(),
            final(self).spec_path() == old(self).spec_path(),
            old(self).log().is_prefix_of(final(self).log()),
            forall|id: u16| msg_count(final(self).log(), id) == msg_count(old(self).log(), id),
            (r is None) == old(self).at_capacity(),
            match r {
                Some(cid) => final(self).cat() == old(self).cat().push(
                    (topic@, Channel { channel_id: cid, sequence: 0u32 }),
                ) && (exists|schema_id: u16|
                    log_has_channel_entry(
                        final(self).log(),
                        cid,
                        schema_id,
                        topic@,
                        message_encoding@,
                    ) && #[trigger] log_has_schema_entry(
                        final(self).log(),
                        schema_id,
                        name@,
                        schema_encoding@,
                        data@,
                    ) && (final(self).log() == old(self).log().push(
                        (LogEntry::Schema {
                            id: schema_id,
                            name: name@,
                            encoding: schema_encoding@,
                            data: data@,
                        }),
                    ).push(
                        (LogEntry::Channel {
                            id: cid,
                            schema_id,
                            topic: topic@,
                            message_encoding: message_encoding@,
                        }),
                    ) || (log_has_schema_entry(
                        old(self).log(),
                        schema_id,
                        name@,
                        schema_encoding@,
                        data@,
                    ) && final(self).log() == old(self).log().push(
                        (LogEntry::Channel {
                            id: cid,
                            schema_id,
                            topic: topic@,
                            message_encoding: message_encoding@,
                        }),
                    )))),
                None => final(self).cat() == old(self).cat() && final(self).log() == old(
                    self,
                ).log(),
            },
    {
        if self.schema_records >= 65534 || self.channel_records >= 65534 {
            proof {
                lemma_prefix_refl(self.log());
            }
            return None;
        }
        let ghost prev = *old(self);
        let ghost log0 = self.log();
        let sid = writer_add_schema(&mut self.writer, name, schema_encoding, data).unwrap();
        self.schema_records = self.schema_records + 1;
        let ghost mid = *self;
        proof {
            assert(mid.cat() =~= prev.cat());
            if mid.log() == log0 {
                mid.lemma_inv_same_state(prev);
            } else {
                lemma_entry_counts_push(
                    log0,
                    (LogEntry::Schema {
                        id: sid,
                        name: name@,
                        encoding: schema_encoding@,
                        data: data@,
                    }),
                );
                mid.lemma_schema_push_preserves(prev, sid, name@, schema_encoding@, data@);
            }
            assert forall|id: u16| msg_count(mid.log(), id) == msg_count(log0, id) by {
                if mid.log() != log0 {
                    lemma_count_after_push(
                        log0,
                        (LogEntry::Schema {
                            id: sid,
                            name: name@,
                            encoding: schema_encoding@,
                            data: data@,
                        }),
                        id,
                    );
                }
            }
            // the channel record will reference a registered schema
            if mid.log() == log0 {
                let i = choose|i: int|
                    0 <= i < log0.len() && #[trigger] log0[i] == (LogEntry::Schema {
                        id: sid,
                        name: name@,
                        encoding: schema_encoding@,
                        data: data@,
                    });
                assert(log_schema_id_at(mid.log(), i, sid));
            } else {
                assert(mid.log()[log0.len() as int] == (LogEntry::Schema {
                    id: sid,
                    name: name@,
                    encoding: schema_encoding@,
                    data: data@,
                }));
                assert(log_schema_id_at(mid.log(), log0.len() as int, sid));
            }
            assert(log_has_schema_id(mid.log(), sid));
        }
        let cid = writer_add_channel(&mut self.writer, sid, topic, message_encoding).unwrap();
        self.channel_records = self.channel_records + 1;
        let channel = Channel::new(cid);
        self.catalog.push((topic.to_owned(), channel));
        proof {
            assert(self.cat() =~= prev.cat().push(
                (topic@, Channel { channel_id: cid, sequence: 0u32 }),
            ));
            lemma_entry_counts_push(
                mid.log(),
                (LogEntry::Channel {
                    id: cid,
                    schema_id: sid,
                    topic: topic@,
                    message_encoding: message_encoding@,
                }),
            );
            self.lemma_register_established(prev, mid, sid, cid, topic@, message_encoding@);
            // the schema record referenced by the new channel stands in the log
            if mid.log() == log0 {
                let i = choose|i: int|
                    0 <= i < log0.len() && #[trigger] log0[i] == (LogEntry::Schema {
                        id: sid,
                        name: name@,
                        encoding: schema_encoding@,
                        data: data@,
                    });
                assert(self.log()[i] == log0[i]);
            } else {
                assert(mid.log()[log0.len() as int] == (LogEntry::Schema {
                    id: sid,
                    name: name@,
                    encoding: schema_encoding@,
                    data: data@,
                }));
                assert(self.log()[log0.len() as int] == mid.log()[log0.len() as int]);
            }
            assert(log_has_schema_entry(self.log(), sid, name@, schema_encoding@, data@));
            if mid.log() != log0 {
                lemma_push_prefix(
                    log0,
                    (LogEntry::Schema {
                        id: sid,
                        name: name@,
                        encoding: schema_encoding@,
                        data: data@,
                    }),
                );
            } else {
                lemma_prefix_refl(log0);
            }
            lemma_push_prefix(
                mid.log(),
                (LogEntry::Channel { id: cid, schema_id: sid, topic: topic@, message_encoding: message_encoding@ }),
            );
            lemma_prefix_trans(log0, mid.log(), self.log());
        }
        Some(cid)
    }

    /// Appends one record to the channel at catalog index `j`, stamping it
    /// with the channel's current sequence number and the given times, the
    /// payload stored verbatim. The append succeeds exactly while the
    /// channel's sequence counter has room; then the counter advances by
    /// one, nothing else changes in the catalog, and no schema or channel
    /// records are added.
    pub fn append(
        &mut self,
        j: usize,
        log_time: u64,
        publish_time: u64,
        payload: &[u8],
    ) -> (r: AppendResult)
        requires
            old(self).inv(),
            j < old(self).cat().len(),
        ensures
            final(self).inv(),
            final(self).spec_path() == old(self).spec_path(),
            old(self).log().is_prefix_of(final(self).log()),
            final(self).cat().len() == old(self).cat().len(),
            forall|k: int|
                0 <= k < old(self).cat().len() && k != j ==> #[trigger] final(self).cat()[k]
                    == old(self).cat()[k],
            (r is Written) == (old(self).cat()[j as int].1.sequence < u32::MAX),
            match r {
                AppendResult::Written { channel_id, sequence } => {
                    &&& channel_id == old(self).cat()[j as int].1.channel_id
                    &&& sequence == old(self).cat()[j as int].1.sequence
                    &&& final(self).log() == old(self).log().push(
                        (LogEntry::Message {
                            channel_id,
                            sequence,
                            log_time,
                            publish_time,
                            payload: payload@,
                        }),
                    )
                    &&& final(self).cat()[j as int] == (
                    old(self).cat()[j as int].0,
                    Channel { channel_id, sequence: (sequence + 1) as u32 },
                    )
                },
                AppendResult::SequenceExhausted => final(self).log() == old(self).log()
                    && final(self).cat() == old(self).cat() && old(
                    self,
                ).cat()[j as int].1.sequence == u32::MAX,
            },
    {
        let ghost prev = *old(self);
        let cid = self.catalog[j].1.channel_id;
        let seq = self.catalog[j].1.sequence;
        if seq == u32::MAX {
            proof {
                lemma_prefix_refl(self.log());
            }
            return AppendResult::SequenceExhausted;
        }
        let ok = writer_write_message(&mut self.writer, cid, seq, log_time, publish_time, payload);
        proof {
            // the catalog entry's channel record is registered in the log,
            // so the write succeeded
            assert(cat_entry_logged(
                prev.log(),
                (prev.cat()[j as int]).1.channel_id,
                prev.cat()[j as int].0,
            ));
            let i = choose|i: int|
                0 <= i < prev.log().len() && chan_entry_id(#[trigger] prev.log()[i]) == Some(
                    (prev.cat()[j as int]).1.channel_id,
                ) && chan_entry_topic(prev.log()[i]) == Some(prev.cat()[j as int].0);
            assert(log_channel_id_at(prev.log(), i, cid));
            assert(log_has_channel_id(prev.log(), cid));
            assert(ok);
        }
        let mut entry = self.catalog.remove(j);
        entry.1.sequence = seq + 1;
        self.catalog.insert(j, entry);
        proof {
            assert(self.catalog@ =~= old(self).catalog@.update(
                j as int,
                (old(self).catalog@[j as int].0, Channel { channel_id: cid, sequence: (seq + 1) as u32 }),
            ));
            assert(self.cat().len() == prev.cat().len());
            assert forall|k: int| 0 <= k < prev.cat().len() && k != j implies #[trigger] self.cat()[k]
                == prev.cat()[k] by {}
            assert(self.cat()[j as int] == (
                prev.cat()[j as int].0,
                Channel { channel_id: cid, sequence: (seq + 1) as u32 },
            ));
            lemma_entry_counts_push(
                prev.log(),
                (LogEntry::Message {
                    channel_id: cid,
                    sequence: seq,
                    log_time,
                    publish_time,
                    payload: payload@,
                }),
            );
            self.lemma_append_established(prev, j as int, log_time, publish_time, payload@);
            lemma_push_prefix(
                prev.log(),
                (LogEntry::Message {
                    channel_id: cid,
                    sequence: seq,
                    log_time,
                    publish_time,
                    payload: payload@,
                }),
            );
        }
        AppendResult::Written { channel_id: cid, sequence: seq }
    }

    /// Forces buffered bytes along; the records are untouched, and over the
    /// in-memory writer the flush cannot fail.
    pub fn flush(&mut self) -> (r: bool)
        requires
            old(self).inv(),
        ensures
            final(self).inv(),
            final(self).log() == old(self).log(),
            final(self).cat() == old(self).cat(),
            final(self).spec_path() == old(self).spec_path(),
            r,
    {
        let ghost prev = *old(self);
        let r = writer_flush(&mut self.writer);
        proof {
            assert(self.cat() =~= prev.cat());
            self.lemma_inv_same_state(prev);
        }
        r
    }

    /// Finalizes the container: writes the closing summary and hands back
    /// the path and the finished bytes; over the in-memory writer the
    /// closing writes cannot fail. The catalog dies with the container.
    pub fn finalize(self) -> (r: (String, Vec<u8>))
        ensures
            r.0@ == self.spec_path(),
    {
        let Container { writer, path, catalog: _, schema_records: _, channel_records: _ } = self;
        let bytes = writer_finish(writer).unwrap();
        (path, bytes)
    }

    /// The invariant does not depend on which writer value carries the log:
    /// equal logs and catalogs transfer it.
    proof fn lemma_inv_same_state(self, prev: Container)
        requires
            prev.inv(),
            spec_writer_open(self.writer),
            self.log() == prev.log(),
            self.cat() == prev.cat(),
            prev.schema_records <= self.schema_records,
            prev.channel_records <= self.channel_records,
        ensures
            self.inv(),
    {
    }

    #[verifier::rlimit(60)]
    proof fn lemma_schema_push_preserves(
        self,
        prev: Container,
        sid: u16,
        name: Seq<char>,
        encoding: Seq<char>,
        data: Seq<u8>,
    )
        requires
            prev.inv(),
            spec_writer_open(self.writer),
            self.cat() == prev.cat(),
            self.log() == prev.log().push(
                (LogEntry::Schema { id: sid, name, encoding, data }),
            ),
            schema_entry_count(self.log()) <= self.schema_records,
            channel_entry_count(self.log()) <= self.channel_records,
        ensures
            self.inv(),
    {
        let log = prev.log();
        let e = LogEntry::Schema { id: sid, name, encoding, data };
        let log2 = self.log();
        let cat = self.cat();
        let cat0 = prev.cat();
        assert forall|i: int, k: int|
            0 <= i < k < log2.len() && chan_entry_id(#[trigger] log2[i]) is Some implies
            chan_entry_id(log2[i]) != chan_entry_id(#[trigger] log2[k]) by {
            assert(log2[i] == log[i]);
            if k < log.len() {
                assert(log2[k] == log[k]);
            } else {
                assert(log2[k] == e);
            }
        }
        assert forall|i: int| 0 <= i < log2.len() implies #[trigger] msg_wf_at(log2, i) by {
            if i < log.len() {
                assert(msg_wf_at(log, i));
                match log[i] {
                    LogEntry::Message { channel_id, .. } => {
                        lemma_count_push(log, e, channel_id, i);
                    },
                    _ => {},
                }
            }
        }
        assert forall|i: int| 0 <= i < log2.len() implies #[trigger] msg_registered_at(log2, i) by {
            if i < log.len() {
                assert(msg_registered_at(log, i));
                assert(log2[i] == log[i]);
                match log[i] {
                    LogEntry::Message { channel_id, .. } => {
                        let k = choose|k: int|
                            0 <= k < i && chan_entry_id(#[trigger] log[k]) == Some(channel_id);
                        assert(chan_entry_id(log2[k]) == Some(channel_id));
                    },
                    _ => {},
                }
            }
        }
        assert forall|j: int, k: int| 0 <= j < k < cat.len() implies (#[trigger] cat[j]).0 != (
        #[trigger] cat[k]).0 by {
            assert(cat[j] == cat0[j]);
            assert(cat[k] == cat0[k]);
        }
        assert forall|j: int| 0 <= j < cat.len() implies cat_entry_logged(
            log2,
            (#[trigger] cat[j]).1.channel_id,
            cat[j].0,
        ) by {
            assert(cat[j] == cat0[j]);
            assert(cat_entry_logged(log, cat0[j].1.channel_id, cat0[j].0));
            let i = choose|i: int|
                0 <= i < log.len() && chan_entry_id(#[trigger] log[i]) == Some(
                    cat0[j].1.channel_id,
                ) && chan_entry_topic(log[i]) == Some(cat0[j].0);
            assert(chan_entry_id(log2[i]) == Some(cat[j].1.channel_id));
            assert(chan_entry_topic(log2[i]) == Some(cat[j].0));
        }
        assert forall|j: int| 0 <= j < cat.len() implies (#[trigger] cat[j]).1.sequence
            == msg_count(log2, cat[j].1.channel_id) by {
            assert(cat[j] == cat0[j]);
            lemma_count_after_push(log, e, cat[j].1.channel_id);
        }
        assert forall|i: int| 0 <= i < log2.len() implies #[trigger] chan_entry_in_catalog_at(
            log2,
            cat,
            i,
        ) by {
            if i < log.len() {
                assert(chan_entry_in_catalog_at(log, cat0, i));
                assert(log2[i] == log[i]);
                match log[i] {
                    LogEntry::Channel { id, topic, .. } => {
                        let j = choose|j: int|
                            0 <= j < cat0.len() && (#[trigger] cat0[j]).1.channel_id == id
                                && cat0[j].0 == topic;
                        assert(cat[j] == cat0[j]);
                        assert((cat[j]).1.channel_id == id && cat[j].0 == topic);
                    },
                    _ => {},
                }
            } else {
                assert(log2[i] == e);
            }
        }
    }

    #[verifier::rlimit(60)]
    proof fn lemma_register_established(
        self,
        prev: Container,
        mid: Container,
        sid: u16,
        cid: u16,
        topic: Seq<char>,
        message_encoding: Seq<char>,
    )
        requires
            prev.inv(),
            !prev.has_topic(topic),
            mid.inv(),
            mid.cat() == prev.cat(),
            forall|id: u16| msg_count(mid.log(), id) == msg_count(prev.log(), id),
            spec_writer_open(self.writer),
            (self.log() == mid.log().push(
                (LogEntry::Channel { id: cid, schema_id: sid, topic, message_encoding }),
            ) && !log_has_channel_id(mid.log(), cid)) || (self.log() == mid.log()
                && log_has_channel_entry(mid.log(), cid, sid, topic, message_encoding)),
            self.cat() == prev.cat().push((topic, Channel { channel_id: cid, sequence: 0u32 })),
            schema_entry_count(self.log()) <= self.schema_records,
            channel_entry_count(self.log()) <= self.channel_records,
        ensures
            self.inv(),
            forall|id: u16| msg_count(self.log(), id) == msg_count(prev.log(), id),
            log_has_channel_entry(self.log(), cid, sid, topic, message_encoding),
            self.log() == mid.log().push(
                (LogEntry::Channel { id: cid, schema_id: sid, topic, message_encoding }),
            ),
    {
        let log1 = mid.log();
        let cat0 = prev.cat();
        let cat = self.cat();
        let e = LogEntry::Channel { id: cid, schema_id: sid, topic, message_encoding };
        if self.log() == log1 && log_has_channel_entry(log1, cid, sid, topic, message_encoding) {
            // The channel content was already present: its topic would then
            // already stand in the catalog, against the requires.
            let i = choose|i: int|
                0 <= i < log1.len() && #[trigger] log1[i] == (LogEntry::Channel {
                    id: cid,
                    schema_id: sid,
                    topic,
                    message_encoding,
                });
            assert(chan_entry_in_catalog_at(log1, mid.cat(), i));
            assert(chan_in_catalog(cat0, cid, topic));
            let j = choose|j: int|
                0 <= j < cat0.len() && (#[trigger] cat0[j]).1.channel_id == cid && cat0[j].0
                    == topic;
            assert((prev.cat()[j]).0 == topic);
            assert(prev.has_topic(topic));
            assert(false);
        }
        let log2 = self.log();
        assert(log2 == log1.push(e));
        assert(log2[log1.len() as int] == e);
        assert(chan_entry_id(log2[log1.len() as int]) == Some(cid));
        assert(log_has_channel_entry(log2, cid, sid, topic, message_encoding));
        assert forall|id: u16| msg_count(log2, id) == msg_count(prev.log(), id) by {
            lemma_count_after_push(log1, e, id);
        }
        assert forall|i: int, k: int|
            0 <= i < k < log2.len() && chan_entry_id(#[trigger] log2[i]) is Some implies
            chan_entry_id(log2[i]) != chan_entry_id(#[trigger] log2[k]) by {
            assert(log2[i] == log1[i]);
            if k == log2.len() - 1 {
                if chan_entry_id(log2[i]) == Some(cid) {
                    assert(log_channel_id_at(log1, i, cid));
                    assert(log_has_channel_id(log1, cid));
                }
            } else {
                assert(log2[k] == log1[k]);
            }
        }
        assert forall|i: int| 0 <= i < log2.len() implies #[trigger] msg_wf_at(log2, i) by {
            if i < log1.len() {
                assert(msg_wf_at(log1, i));
                match log1[i] {
                    LogEntry::Message { channel_id, .. } => {
                        lemma_count_push(log1, e, channel_id, i);
                    },
                    _ => {},
                }
            }
        }
        assert forall|i: int| 0 <= i < log2.len() implies #[trigger] msg_registered_at(log2, i) by {
            if i < log1.len() {
                assert(msg_registered_at(log1, i));
                assert(log2[i] == log1[i]);
                match log1[i] {
                    LogEntry::Message { channel_id, .. } => {
                        let k = choose|k: int|
                            0 <= k < i && chan_entry_id(#[trigger] log1[k]) == Some(channel_id);
                        assert(chan_entry_id(log2[k]) == Some(channel_id));
                    },
                    _ => {},
                }
            }
        }
        assert forall|j: int, k: int| 0 <= j < k < cat.len() implies (#[trigger] cat[j]).0 != (
        #[trigger] cat[k]).0 by {
            if k == cat.len() - 1 {
                assert(cat[j] == cat0[j]);
                if cat[j].0 == topic {
                    assert((prev.cat()[j]).0 == topic);
                    assert(prev.has_topic(topic));
                }
            } else {
                assert(cat[j] == cat0[j]);
                assert(cat[k] == cat0[k]);
            }
        }
        assert forall|j: int| 0 <= j < cat.len() implies cat_entry_logged(
            log2,
            (#[trigger] cat[j]).1.channel_id,
            cat[j].0,
        ) by {
            if j == cat.len() - 1 {
                assert(chan_entry_id(log2[log1.len() as int]) == Some(cid));
                assert(chan_entry_topic(log2[log1.len() as int]) == Some(topic));
            } else {
                assert(cat[j] == cat0[j]);
                assert(cat_entry_logged(log1, (mid.cat()[j]).1.channel_id, mid.cat()[j].0));
                let i = choose|i: int|
                    0 <= i < log1.len() && chan_entry_id(#[trigger] log1[i]) == Some(
                        (mid.cat()[j]).1.channel_id,
                    ) && chan_entry_topic(log1[i]) == Some(mid.cat()[j].0);
                assert(chan_entry_id(log2[i]) == Some(cat[j].1.channel_id));
                assert(chan_entry_topic(log2[i]) == Some(cat[j].0));
            }
        }
        assert forall|j: int| 0 <= j < cat.len() implies (#[trigger] cat[j]).1.sequence
            == msg_count(log2, cat[j].1.channel_id) by {
            lemma_count_after_push(log1, e, cat[j].1.channel_id);
            if j == cat.len() - 1 {
                lemma_count_zero_when_unregistered(log1, cid, log1.len() as int);
            } else {
                assert(cat[j] == cat0[j]);
            }
        }
        assert forall|i: int| 0 <= i < log2.len() implies #[trigger] chan_entry_in_catalog_at(
            log2,
            cat,
            i,
        ) by {
            if i == log2.len() - 1 {
                assert(log2[i] == e);
                assert((cat[cat.len() - 1]).1.channel_id == cid && cat[cat.len() - 1].0 == topic);
            } else {
                assert(chan_entry_in_catalog_at(log1, mid.cat(), i));
                assert(log2[i] == log1[i]);
                match log1[i] {
                    LogEntry::Channel { id, topic: t, .. } => {
                        let j = choose|j: int|
                            0 <= j < mid.cat().len() && (#[trigger] mid.cat()[j]).1.channel_id
                                == id && mid.cat()[j].0 == t;
                        assert(cat[j] == cat0[j]);
                        assert((cat[j]).1.channel_id == id && cat[j].0 == t);
                    },
                    _ => {},
                }
            }
        }
    }

    #[verifier::rlimit(60)]
    proof fn lemma_append_established(
        self,
        prev: Container,
        j: int,
        log_time: u64,
        publish_time: u64,
        payload: Seq<u8>,
    )
        requires
            prev.inv(),
            0 <= j < prev.cat().len(),
            prev.cat()[j].1.sequence < u32::MAX,
            spec_writer_open(self.writer),
            self.log() == prev.log().push(
                (LogEntry::Message {
                    channel_id: prev.cat()[j].1.channel_id,
                    sequence: prev.cat()[j].1.sequence,
                    log_time,
                    publish_time,
                    payload,
                }),
            ),
            self.cat().len() == prev.cat().len(),
            forall|k: int| 0 <= k < prev.cat().len() && k != j ==> #[trigger] self.cat()[k]
                == prev.cat()[k],
            self.cat()[j] == (
            prev.cat()[j].0,
            Channel {
                channel_id: prev.cat()[j].1.channel_id,
                sequence: (prev.cat()[j].1.sequence + 1) as u32,
            },
            ),
            schema_entry_count(self.log()) <= self.schema_records,
            channel_entry_count(self.log()) <= self.channel_records,
        ensures
            self.inv(),
    {
        let log = prev.log();
        let cat0 = prev.cat();
        let cat = self.cat();
        let cid = cat0[j].1.channel_id;
        let e = LogEntry::Message {
            channel_id: cid,
            sequence: cat0[j].1.sequence,
            log_time,
            publish_time,
            payload,
        };
        let log2 = self.log();
        // distinct catalog entries carry distinct channel identifiers
        assert forall|a: int, b: int|
            0 <= a < cat0.len() && 0 <= b < cat0.len() && a != b implies (
        #[trigger] cat0[a]).1.channel_id != (#[trigger] cat0[b]).1.channel_id by {
            if cat0[a].1.channel_id == cat0[b].1.channel_id {
                assert(cat_entry_logged(log, (prev.cat()[a]).1.channel_id, prev.cat()[a].0));
                assert(cat_entry_logged(log, (prev.cat()[b]).1.channel_id, prev.cat()[b].0));
                let ia = choose|i: int|
                    0 <= i < log.len() && chan_entry_id(#[trigger] log[i]) == Some(
                        (prev.cat()[a]).1.channel_id,
                    ) && chan_entry_topic(log[i]) == Some(prev.cat()[a].0);
                let ib = choose|i: int|
                    0 <= i < log.len() && chan_entry_id(#[trigger] log[i]) == Some(
                        (prev.cat()[b]).1.channel_id,
                    ) && chan_entry_topic(log[i]) == Some(prev.cat()[b].0);
                if ia == ib {
                    assert(cat0[a].0 == cat0[b].0);
                    if a < b {
                        assert(false);
                    } else {
                        assert(false);
                    }
                } else if ia < ib {
                    assert(false);
                } else {
                    assert(false);
                }
            }
        }
        assert forall|i: int, k: int|
            0 <= i < k < log2.len() && chan_entry_id(#[trigger] log2[i]) is Some implies
            chan_entry_id(log2[i]) != chan_entry_id(#[trigger] log2[k]) by {
            assert(log2[i] == log[i]);
            if k < log.len() {
                assert(log2[k] == log[k]);
            } else {
                assert(log2[k] == e);
            }
        }
        assert forall|i: int| 0 <= i < log2.len() implies #[trigger] msg_wf_at(log2, i) by {
            if i < log.len() {
                assert(msg_wf_at(log, i));
                match log[i] {
                    LogEntry::Message { channel_id, .. } => {
                        lemma_count_push(log, e, channel_id, i);
                    },
                    _ => {},
                }
            } else {
                lemma_count_push(log, e, cid, log.len() as int);
                assert(msg_count_upto(log2, cid, i) == msg_count(log, cid));
            }
        }
        assert forall|i: int| 0 <= i < log2.len() implies #[trigger] msg_registered_at(log2, i) by {
            if i < log.len() {
                assert(msg_registered_at(log, i));
                assert(log2[i] == log[i]);
                match log[i] {
                    LogEntry::Message { channel_id, .. } => {
                        let k = choose|k: int|
                            0 <= k < i && chan_entry_id(#[trigger] log[k]) == Some(channel_id);
                        assert(chan_entry_id(log2[k]) == Some(channel_id));
                    },
                    _ => {},
                }
            } else {
                assert(log2[i] == e);
                assert(cat_entry_logged(log, (prev.cat()[j]).1.channel_id, prev.cat()[j].0));
                let w = choose|w: int|
                    0 <= w < log.len() && chan_entry_id(#[trigger] log[w]) == Some(
                        (prev.cat()[j]).1.channel_id,
                    ) && chan_entry_topic(log[w]) == Some(prev.cat()[j].0);
                assert(chan_entry_id(log2[w]) == Some(cid));
            }
        }
        assert forall|a: int, b: int| 0 <= a < b < cat.len() implies (#[trigger] cat[a]).0 != (
        #[trigger] cat[b]).0 by {
            assert(cat[a].0 == cat0[a].0);
            assert(cat[b].0 == cat0[b].0);
        }
        assert forall|jj: int| 0 <= jj < cat.len() implies cat_entry_logged(
            log2,
            (#[trigger] cat[jj]).1.channel_id,
            cat[jj].0,
        ) by {
            assert(cat[jj].1.channel_id == cat0[jj].1.channel_id && cat[jj].0 == cat0[jj].0);
            assert(cat_entry_logged(log, (prev.cat()[jj]).1.channel_id, prev.cat()[jj].0));
            let i = choose|i: int|
                0 <= i < log.len() && chan_entry_id(#[trigger] log[i]) == Some(
                    (prev.cat()[jj]).1.channel_id,
                ) && chan_entry_topic(log[i]) == Some(prev.cat()[jj].0);
            assert(chan_entry_id(log2[i]) == Some(cat[jj].1.channel_id));
            assert(chan_entry_topic(log2[i]) == Some(cat[jj].0));
        }
        assert forall|jj: int| 0 <= jj < cat.len() implies (#[trigger] cat[jj]).1.sequence
            == msg_count(log2, cat[jj].1.channel_id) by {
            lemma_count_after_push(log, e, cat[jj].1.channel_id);
            if jj != j {
                assert(cat[jj] == cat0[jj]);
                assert(cat0[jj].1.channel_id != cid);
            }
        }
        assert forall|i: int| 0 <= i < log2.len() implies #[trigger] chan_entry_in_catalog_at(
            log2,
            cat,
            i,
        ) by {
            if i < log.len() {
                assert(chan_entry_in_catalog_at(log, cat0, i));
                assert(log2[i] == log[i]);
                match log[i] {
                    LogEntry::Channel { id, topic: t, .. } => {
                        let jj = choose|jj: int|
                            0 <= jj < cat0.len() && (#[trigger] cat0[jj]).1.channel_id == id
                                && cat0[jj].0 == t;
                        assert(cat[jj].1.channel_id == id && cat[jj].0 == t);
                    },
                    _ => {},
                }
            } else {
                assert(log2[i] == e);
            }
        }
    }
}

/// One more entry adds to exactly its own record count.
pub proof fn lemma_entry_counts_push(log: Seq<LogEntry>, e: LogEntry)
    ensures
        schema_entry_count(log.push(e)) == schema_entry_count(log) + (if e is Schema {
            1nat
        } else {
            0nat
        }),
        channel_entry_count(log.push(e)) == channel_entry_count(log) + (if e is Channel {
            1nat
        } else {
            0nat
        }),
{
    assert(log.push(e).drop_last() =~= log);
    assert(log.push(e).last() == e);
}

/// A log is a prefix of itself.
pub proof fn lemma_prefix_refl(log: Seq<LogEntry>)
    ensures
        log.is_prefix_of(log),
{
    assert(log =~= log.subrange(0, log.len() as int));
}

/// A log is a prefix of the log with one more entry.
pub proof fn lemma_push_prefix(log: Seq<LogEntry>, e: LogEntry)
    ensures
        log.is_prefix_of(log.push(e)),
{
    assert(log =~= log.push(e).subrange(0, log.len() as int));
}

/// Prefixes chain.
pub proof fn lemma_prefix_trans(a: Seq<LogEntry>, b: Seq<LogEntry>, c: Seq<LogEntry>)
    requires
        a.is_prefix_of(b),
        b.is_prefix_of(c),
    ensures
        a.is_prefix_of(c),
{
    assert(a =~= c.subrange(0, a.len() as int));
}

} // verus!
